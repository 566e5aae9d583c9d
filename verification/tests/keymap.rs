use boxdraw::keymap::{
    Action, ActionModel, Azerty, BoxMode, ColorMode, ExtraMode, InputMode, InputModeIdentifier,
    Key, KeyMap, NamedKey, TextMode, ALT, CTRL, NONE, SHIFT,
};
use boxdraw::pragmata_pro_input::{
    code_to_codepoint, SEGMENT_DOWN, SEGMENT_DOWN_LEFT, SEGMENT_DOWN_RIGHT, SEGMENT_LEFT,
    SEGMENT_RIGHT, SEGMENT_UP, SEGMENT_UP_LEFT, SEGMENT_UP_RIGHT,
};

fn ch(s: &str) -> Key {
    Key::Character(s.to_string())
}

fn model(a: &Action) -> ActionModel {
    match a {
        Action::CursorLeft => ActionModel::CursorLeft,
        Action::CursorRight => ActionModel::CursorRight,
        Action::CursorUp => ActionModel::CursorUp,
        Action::CursorDown => ActionModel::CursorDown,
        Action::DrawCharAtCursor(c) => ActionModel::DrawCharAtCursor(*c),
        Action::DeleteAtCursor => ActionModel::DeleteAtCursor,
        Action::ReduceFontSize => ActionModel::ReduceFontSize,
        Action::IncreaseFontSize => ActionModel::IncreaseFontSize,
        Action::Undo => ActionModel::Undo,
        Action::Redo => ActionModel::Redo,
        Action::Transition(m) => ActionModel::Transition(m.identifier()),
    }
}

fn models(v: &[Action]) -> Vec<ActionModel> {
    v.iter().map(model).collect()
}

fn translate(mode: InputModeIdentifier, m: u8, key: Key) -> Option<Vec<ActionModel>> {
    Azerty.translate(mode, m, &key).map(|v| models(&v))
}

#[test]
fn box_mode_draws_block_characters() {
    let b = InputModeIdentifier::Box;
    assert_eq!(translate(b, NONE, ch("w")), Some(vec![ActionModel::DrawCharAtCursor('\u{2502}')]));
    assert_eq!(translate(b, NONE, ch("x")), Some(vec![ActionModel::DrawCharAtCursor('\u{2500}')]));
    assert_eq!(translate(b, NONE, ch("a")), Some(vec![ActionModel::DrawCharAtCursor('\u{250C}')]));
    assert_eq!(translate(b, NONE, ch("u")), Some(vec![ActionModel::DrawCharAtCursor('\u{253C}')]));
    assert_eq!(translate(b, NONE, ch(" ")), Some(vec![ActionModel::DrawCharAtCursor(' ')]));
    assert_eq!(
        translate(b, NONE, Key::Named(NamedKey::Space)),
        Some(vec![ActionModel::DrawCharAtCursor(' ')])
    );
    assert_eq!(translate(b, NONE, ch("b")), None);
    assert_eq!(translate(b, NONE, ch("wx")), None);
}

#[test]
fn block_characters_only_in_box_mode() {
    for mode in [InputModeIdentifier::Text, InputModeIdentifier::Color, InputModeIdentifier::Extra] {
        assert_eq!(translate(mode, NONE, ch("w")), None);
        assert_eq!(translate(mode, NONE, Key::Named(NamedKey::Space)), None);
    }
}

#[test]
fn arrows_and_delete_in_every_mode() {
    for mode in [
        InputModeIdentifier::Box,
        InputModeIdentifier::Text,
        InputModeIdentifier::Color,
        InputModeIdentifier::Extra,
    ] {
        assert_eq!(translate(mode, NONE, Key::Named(NamedKey::ArrowLeft)), Some(vec![ActionModel::CursorLeft]));
        assert_eq!(translate(mode, NONE, Key::Named(NamedKey::ArrowRight)), Some(vec![ActionModel::CursorRight]));
        assert_eq!(translate(mode, NONE, Key::Named(NamedKey::ArrowUp)), Some(vec![ActionModel::CursorUp]));
        assert_eq!(translate(mode, NONE, Key::Named(NamedKey::ArrowDown)), Some(vec![ActionModel::CursorDown]));
        assert_eq!(translate(mode, NONE, Key::Named(NamedKey::Delete)), Some(vec![ActionModel::DeleteAtCursor]));
        assert_eq!(translate(mode, CTRL, ch("z")), Some(vec![ActionModel::Undo]));
        assert_eq!(translate(mode, CTRL, ch("y")), Some(vec![ActionModel::Redo]));
        assert_eq!(translate(mode, NONE, Key::Named(NamedKey::Escape)), None);
        assert_eq!(translate(mode, NONE, Key::Unidentified), None);
    }
}

#[test]
fn backspace_bound_except_in_extra_mode() {
    let both = Some(vec![ActionModel::CursorLeft, ActionModel::DeleteAtCursor]);
    assert_eq!(translate(InputModeIdentifier::Box, NONE, Key::Named(NamedKey::Backspace)), both);
    assert_eq!(translate(InputModeIdentifier::Text, NONE, Key::Named(NamedKey::Backspace)), both);
    assert_eq!(translate(InputModeIdentifier::Color, NONE, Key::Named(NamedKey::Backspace)), both);
    assert_eq!(translate(InputModeIdentifier::Extra, NONE, Key::Named(NamedKey::Backspace)), None);
}

#[test]
fn font_size_keys_except_in_text_mode() {
    assert_eq!(translate(InputModeIdentifier::Box, NONE, ch(")")), Some(vec![ActionModel::ReduceFontSize]));
    assert_eq!(translate(InputModeIdentifier::Color, NONE, ch("=")), Some(vec![ActionModel::IncreaseFontSize]));
    assert_eq!(translate(InputModeIdentifier::Extra, NONE, ch(")")), Some(vec![ActionModel::ReduceFontSize]));
    assert_eq!(translate(InputModeIdentifier::Text, NONE, ch(")")), None);
    assert_eq!(translate(InputModeIdentifier::Text, NONE, ch("=")), None);
}

#[test]
fn control_characters_change_mode() {
    let t = |s: &str| translate(InputModeIdentifier::Text, CTRL, ch(s));
    assert_eq!(t("&"), Some(vec![ActionModel::Transition(InputModeIdentifier::Box)]));
    assert_eq!(t("\u{e9}"), Some(vec![ActionModel::Transition(InputModeIdentifier::Text)]));
    assert_eq!(t("\""), Some(vec![ActionModel::Transition(InputModeIdentifier::Color)]));
    assert_eq!(t("'"), Some(vec![ActionModel::Transition(InputModeIdentifier::Extra)]));
    let actions = Azerty.translate(InputModeIdentifier::Box, CTRL, &ch("'")).unwrap();
    match &actions[0] {
        Action::Transition(InputMode::Extra(e)) => assert!(e.buffer.is_empty()),
        _ => panic!("expected a change to extra mode"),
    }
}

#[test]
fn other_modifiers_bind_nothing() {
    assert_eq!(translate(InputModeIdentifier::Box, SHIFT, ch("w")), None);
    assert_eq!(translate(InputModeIdentifier::Box, ALT, ch("w")), None);
    assert_eq!(translate(InputModeIdentifier::Box, CTRL | SHIFT, ch("z")), None);
    assert_eq!(translate(InputModeIdentifier::Box, CTRL, ch("w")), None);
    assert_eq!(translate(InputModeIdentifier::Box, CTRL, Key::Named(NamedKey::ArrowLeft)), None);
}

#[test]
fn segments_of_azerty() {
    let a = Azerty;
    assert_eq!(a.char_to_extra_mode_segment('a'), Some(SEGMENT_UP_LEFT));
    assert_eq!(a.char_to_extra_mode_segment('z'), Some(SEGMENT_UP));
    assert_eq!(a.char_to_extra_mode_segment('e'), Some(SEGMENT_UP_RIGHT));
    assert_eq!(a.char_to_extra_mode_segment('q'), Some(SEGMENT_LEFT));
    assert_eq!(a.char_to_extra_mode_segment('d'), Some(SEGMENT_RIGHT));
    assert_eq!(a.char_to_extra_mode_segment('w'), Some(SEGMENT_DOWN_LEFT));
    assert_eq!(a.char_to_extra_mode_segment('x'), Some(SEGMENT_DOWN));
    assert_eq!(a.char_to_extra_mode_segment('c'), Some(SEGMENT_DOWN_RIGHT));
    assert_eq!(a.char_to_extra_mode_segment('s'), None);
    assert!(a.extra_mode_segment_dot('s'));
    assert!(!a.extra_mode_segment_dot('z'));
}

#[test]
fn codes_name_glyphs() {
    assert_eq!(code_to_codepoint("1z", &Azerty), Some(0x2575));
    assert_eq!(code_to_codepoint("1zs", &Azerty), Some(0x1004EE));
    assert_eq!(code_to_codepoint("5zaewc", &Azerty), Some(0x100420));
    assert_eq!(code_to_codepoint("5cwzae", &Azerty), Some(0x100420));
    assert_eq!(code_to_codepoint("5zaewcs", &Azerty), Some(0x1005C0));
}

#[test]
fn segment_keys_in_any_order() {
    for code in ["5zaewc", "5cwzae", "5eczwa", "5wcaez"] {
        assert_eq!(code_to_codepoint(code, &Azerty), Some(0x100420));
    }
    assert_eq!(code_to_codepoint("5zaeww", &Azerty), code_to_codepoint("5wzaee", &Azerty));
    assert_eq!(code_to_codepoint("5zaewws", &Azerty), code_to_codepoint("5wwezas", &Azerty));
}

#[test]
fn malformed_codes_name_nothing() {
    assert_eq!(code_to_codepoint("", &Azerty), None);
    assert_eq!(code_to_codepoint("1", &Azerty), None);
    assert_eq!(code_to_codepoint("1x", &Azerty), None);
    assert_eq!(code_to_codepoint("1zz", &Azerty), None);
    assert_eq!(code_to_codepoint("2z", &Azerty), None);
    assert_eq!(code_to_codepoint("1k", &Azerty), None);
    assert_eq!(code_to_codepoint("5zaewd", &Azerty), None);
    assert_eq!(code_to_codepoint("5zaewck", &Azerty), None);
    assert_eq!(code_to_codepoint("5zaew", &Azerty), None);
    assert_eq!(code_to_codepoint("1zss", &Azerty), None);
}

#[test]
fn identifiers_and_names() {
    let modes = [
        (InputMode::Box(BoxMode), InputModeIdentifier::Box, "Box"),
        (InputMode::Text(TextMode), InputModeIdentifier::Text, "Text"),
        (InputMode::Color(ColorMode), InputModeIdentifier::Color, "Color"),
        (InputMode::Extra(ExtraMode { buffer: vec!['1'] }), InputModeIdentifier::Extra, "Extra"),
    ];
    for (m, id, name) in modes {
        assert_eq!(m.identifier(), id);
        assert_eq!(m.name(), name);
    }
}

#[test]
fn buffer_to_actions_draws_the_named_glyph() {
    let mut e = ExtraMode { buffer: vec!['1', 'z'] };
    let actions = e.buffer_to_actions(&Azerty);
    assert!(e.buffer.is_empty());
    assert_eq!(models(&actions), vec![ActionModel::DrawCharAtCursor('\u{2575}')]);
    let mut e = ExtraMode { buffer: vec!['5', 'z', 'a', 'e', 'w', 'c', 's'] };
    assert_eq!(models(&e.buffer_to_actions(&Azerty)), vec![ActionModel::DrawCharAtCursor('\u{1005C0}')]);
    let mut e = ExtraMode { buffer: vec!['9'] };
    assert!(e.buffer_to_actions(&Azerty).is_empty());
    assert!(e.buffer.is_empty());
}

#[test]
fn raw_keys_in_text_mode_type_text() {
    let mut m = InputMode::Text(TextMode);
    let actions = m.handle_raw_key(&ch("h\u{e9}"), &Azerty);
    assert_eq!(
        models(&actions),
        vec![
            ActionModel::DrawCharAtCursor('h'),
            ActionModel::CursorRight,
            ActionModel::DrawCharAtCursor('\u{e9}'),
            ActionModel::CursorRight,
        ]
    );
    assert!(m.handle_raw_key(&Key::Named(NamedKey::Enter), &Azerty).is_empty());
    assert_eq!(m.identifier(), InputModeIdentifier::Text);
}

#[test]
fn raw_keys_in_box_and_color_mode_do_nothing() {
    let mut m = InputMode::Box(BoxMode);
    assert!(m.handle_raw_key(&ch("k"), &Azerty).is_empty());
    let mut m = InputMode::Color(ColorMode);
    assert!(m.handle_raw_key(&ch("k"), &Azerty).is_empty());
}

fn extra_buffer(m: &InputMode) -> Vec<char> {
    match m {
        InputMode::Extra(e) => e.buffer.clone(),
        _ => panic!("expected extra mode"),
    }
}

#[test]
fn raw_keys_in_extra_mode_build_and_end_codes() {
    let mut m = InputMode::Extra(ExtraMode { buffer: Vec::new() });
    assert!(m.handle_raw_key(&ch("1"), &Azerty).is_empty());
    assert!(m.handle_raw_key(&ch("z"), &Azerty).is_empty());
    assert_eq!(extra_buffer(&m), vec!['1', 'z']);
    let actions = m.handle_raw_key(&Key::Named(NamedKey::Space), &Azerty);
    assert_eq!(models(&actions), vec![ActionModel::DrawCharAtCursor('\u{2575}')]);
    assert!(extra_buffer(&m).is_empty());

    assert!(m.handle_raw_key(&ch("1zs"), &Azerty).is_empty());
    let actions = m.handle_raw_key(&Key::Named(NamedKey::Enter), &Azerty);
    assert_eq!(models(&actions), vec![ActionModel::DrawCharAtCursor('\u{1004EE}')]);

    assert!(m.handle_raw_key(&ch("1z"), &Azerty).is_empty());
    let actions = m.handle_raw_key(&ch(" "), &Azerty);
    assert_eq!(models(&actions), vec![ActionModel::DrawCharAtCursor('\u{2575}')]);

    assert!(m.handle_raw_key(&ch("1q"), &Azerty).is_empty());
    assert!(m.handle_raw_key(&ch("\t"), &Azerty).is_empty());
    assert!(extra_buffer(&m).is_empty());
}

#[test]
fn backspace_in_extra_mode() {
    let mut m = InputMode::Extra(ExtraMode { buffer: vec!['1', 'z'] });
    assert!(m.handle_raw_key(&Key::Named(NamedKey::Backspace), &Azerty).is_empty());
    assert_eq!(extra_buffer(&m), vec!['1']);
    assert!(m.handle_raw_key(&Key::Named(NamedKey::Backspace), &Azerty).is_empty());
    assert!(extra_buffer(&m).is_empty());
    let actions = m.handle_raw_key(&Key::Named(NamedKey::Backspace), &Azerty);
    assert_eq!(models(&actions), vec![ActionModel::CursorLeft, ActionModel::DeleteAtCursor]);
    assert!(m.handle_raw_key(&Key::Named(NamedKey::ArrowUp), &Azerty).is_empty());
}
