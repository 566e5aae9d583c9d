use boxdraw::chars::char_is_whitespace;

#[test]
fn white_space_agrees_with_std_on_every_char() {
    for v in 0..=0x10FFFFu32 {
        if let Some(c) = char::from_u32(v) {
            assert_eq!(char_is_whitespace(c), c.is_whitespace(), "U+{:04X}", v);
        }
    }
    assert!(char_is_whitespace('\u{3000}'));
    assert!(!char_is_whitespace('\u{200B}'));
    assert!(!char_is_whitespace('5'));
}
