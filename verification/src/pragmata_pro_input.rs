//! Codes for the extra glyphs of the PragmataPro font: a digit giving the number of
//! segments, one key per segment, and an optional final key for the dotted variant.

use crate::chars::is_scalar_value;
use crate::keymap::KeyMap;
use vstd::prelude::*;

verus! {

/// A set of line segments radiating from the center of a cell, one bit each.
pub type Segment = u8;

pub const SEGMENT_UP: Segment = 0b0000_0001;

pub const SEGMENT_UP_RIGHT: Segment = 0b0000_0010;

pub const SEGMENT_RIGHT: Segment = 0b0000_0100;

pub const SEGMENT_DOWN_RIGHT: Segment = 0b0000_1000;

pub const SEGMENT_DOWN: Segment = 0b0001_0000;

pub const SEGMENT_DOWN_LEFT: Segment = 0b0010_0000;

pub const SEGMENT_LEFT: Segment = 0b0100_0000;

pub const SEGMENT_UP_LEFT: Segment = 0b1000_0000;

/// The two glyphs drawn for a set of segments, plain and dotted, if the font has them.
pub open spec fn segment_glyphs(s: Segment) -> Option<(u32, u32)> {
    if s == SEGMENT_UP {
        Some((0x2575, 0x1004EE))
    } else if s == SEGMENT_UP | SEGMENT_UP_LEFT | SEGMENT_UP_RIGHT | SEGMENT_DOWN_LEFT
        | SEGMENT_DOWN_RIGHT {
        Some((0x100420, 0x1005C0))
    } else {
        None
    }
}

fn glyphs_of_segment(s: Segment) -> (r: Option<(u32, u32)>)
    ensures
        r == segment_glyphs(s),
{
    if s == SEGMENT_UP {
        Some((0x2575, 0x1004EE))
    } else if s == SEGMENT_UP | SEGMENT_UP_LEFT | SEGMENT_UP_RIGHT | SEGMENT_DOWN_LEFT
        | SEGMENT_DOWN_RIGHT {
        Some((0x100420, 0x1005C0))
    } else {
        None
    }
}

/// The union of two segment sets, where both are given.
pub open spec fn combine(a: Option<Segment>, b: Option<Segment>) -> Option<Segment> {
    match a {
        Some(a) => match b {
            Some(b) => Some(a | b),
            None => None,
        },
        None => None,
    }
}

/// The union of the segments that the characters of `cs` stand for, where each stands
/// for one.
pub open spec fn segments_of<M: KeyMap>(map: &M, cs: Seq<char>) -> Option<Segment>
    decreases cs.len(),
{
    if cs.len() == 0 {
        None
    } else if cs.len() == 1 {
        map.segment_of(cs[0])
    } else {
        combine(segments_of(map, cs.drop_last()), map.segment_of(cs.last()))
    }
}

/// The plain glyph of the segments that `cs` spells, if any.
pub open spec fn plain_glyph<M: KeyMap>(map: &M, cs: Seq<char>) -> Option<u32> {
    match segments_of(map, cs) {
        Some(s) => match segment_glyphs(s) {
            Some(g) => Some(g.0),
            None => None,
        },
        None => None,
    }
}

/// The dotted glyph of the segments that `cs` spells, if any.
pub open spec fn dotted_glyph<M: KeyMap>(map: &M, cs: Seq<char>) -> Option<u32> {
    match segments_of(map, cs) {
        Some(s) => match segment_glyphs(s) {
            Some(g) => Some(g.1),
            None => None,
        },
        None => None,
    }
}

/// The glyph that the code `cs` names: `1` and one segment key, or `5` and five, and
/// for the dotted variant the dot key after them.
pub open spec fn codepoint_of<M: KeyMap>(map: &M, cs: Seq<char>) -> Option<u32> {
    if cs.len() == 2 && cs[0] == '1' {
        plain_glyph(map, cs.subrange(1, 2))
    } else if cs.len() == 3 && cs[0] == '1' && map.is_segment_dot(cs[2]) {
        dotted_glyph(map, cs.subrange(1, 2))
    } else if cs.len() == 6 && cs[0] == '5' {
        plain_glyph(map, cs.subrange(1, 6))
    } else if cs.len() == 7 && cs[0] == '5' && map.is_segment_dot(cs[6]) {
        dotted_glyph(map, cs.subrange(1, 6))
    } else {
        None
    }
}

/// Every code names a valid `char`.
pub proof fn lemma_codepoints_are_chars<M: KeyMap>(map: &M, cs: Seq<char>)
    ensures
        codepoint_of(map, cs) matches Some(p) ==> is_scalar_value(p),
{
}

fn chars_to_segment<M: KeyMap>(c: &[char], map: &M) -> (r: Option<Segment>)
    requires
        c@.len() > 0,
    ensures
        r == segments_of(map, c@),
{
    let mut acc = map.char_to_extra_mode_segment(c[0]);
    let mut i: usize = 1;
    assert(c@.take(1) =~= seq![c@[0]]);
    while i < c.len()
        invariant
            1 <= i <= c@.len(),
            acc == segments_of(map, c@.take(i as int)),
        decreases c@.len() - i,
    {
        let s = map.char_to_extra_mode_segment(c[i]);
        acc = match acc {
            Some(a) => match s {
                Some(b) => Some(a | b),
                None => None,
            },
            None => None,
        };
        assert(c@.take(i + 1).drop_last() =~= c@.take(i as int));
        i = i + 1;
    }
    assert(c@.take(c@.len() as int) =~= c@);
    acc
}

fn plain_of(s: Option<Segment>) -> (r: Option<u32>)
    ensures
        r == match s {
            Some(s) => match segment_glyphs(s) {
                Some(g) => Some(g.0),
                None => None,
            },
            None => None,
        },
{
    match s {
        Some(s) => match glyphs_of_segment(s) {
            Some(g) => Some(g.0),
            None => None,
        },
        None => None,
    }
}

fn dotted_of(s: Option<Segment>) -> (r: Option<u32>)
    ensures
        r == match s {
            Some(s) => match segment_glyphs(s) {
                Some(g) => Some(g.1),
                None => None,
            },
            None => None,
        },
{
    match s {
        Some(s) => match glyphs_of_segment(s) {
            Some(g) => Some(g.1),
            None => None,
        },
        None => None,
    }
}

/// The glyph that `code` names, if it names one.
pub fn code_to_codepoint<M: KeyMap>(code: &str, map: &M) -> (r: Option<u32>)
    ensures
        r == codepoint_of(map, code@),
{
    let ghost cv = code@;
    let mut chars: Vec<char> = Vec::new();
    for c in it: code.chars()
        invariant
            it.seq() == cv,
            chars@ == cv.take(it.index()),
    {
        let ghost i = it.index();
        chars.push(c);
        assert(chars@ =~= cv.take(i + 1));
    }
    assert(cv.take(cv.len() as int) =~= cv);
    let n = chars.len();
    if n == 2 && chars[0] == '1' {
        let one = [chars[1]];
        assert(one@ =~= cv.subrange(1, 2));
        plain_of(chars_to_segment(&one, map))
    } else if n == 3 && chars[0] == '1' && map.extra_mode_segment_dot(chars[2]) {
        let one = [chars[1]];
        assert(one@ =~= cv.subrange(1, 2));
        dotted_of(chars_to_segment(&one, map))
    } else if n == 6 && chars[0] == '5' {
        let five = [chars[1], chars[2], chars[3], chars[4], chars[5]];
        assert(five@ =~= cv.subrange(1, 6));
        plain_of(chars_to_segment(&five, map))
    } else if n == 7 && chars[0] == '5' && map.extra_mode_segment_dot(chars[6]) {
        let five = [chars[1], chars[2], chars[3], chars[4], chars[5]];
        assert(five@ =~= cv.subrange(1, 6));
        dotted_of(chars_to_segment(&five, map))
    } else {
        None
    }
}

/// Whether bit `k` of the segment set `s` is set.
pub open spec fn has_segment_bit(s: Segment, k: u8) -> bool {
    (s >> k) & 1 == 1
}

proof fn lemma_or_bits(a: Segment, b: Segment, k: u8)
    requires
        k < 8,
    ensures
        has_segment_bit(a | b, k) == (has_segment_bit(a, k) || has_segment_bit(b, k)),
{
    assert(((a | b) >> k) & 1 == 1 <==> ((a >> k) & 1 == 1 || (b >> k) & 1 == 1)) by (bit_vector)
        requires
            k < 8,
    ;
}

proof fn lemma_bits_determine(a: Segment, b: Segment)
    requires
        forall|k: u8| k < 8 ==> has_segment_bit(a, k) == has_segment_bit(b, k),
    ensures
        a == b,
{
    assert(has_segment_bit(a, 0) == has_segment_bit(b, 0));
    assert(has_segment_bit(a, 1) == has_segment_bit(b, 1));
    assert(has_segment_bit(a, 2) == has_segment_bit(b, 2));
    assert(has_segment_bit(a, 3) == has_segment_bit(b, 3));
    assert(has_segment_bit(a, 4) == has_segment_bit(b, 4));
    assert(has_segment_bit(a, 5) == has_segment_bit(b, 5));
    assert(has_segment_bit(a, 6) == has_segment_bit(b, 6));
    assert(has_segment_bit(a, 7) == has_segment_bit(b, 7));
    assert(a == b) by (bit_vector)
        requires
            ((a >> 0u8) & 1 == 1) == ((b >> 0u8) & 1 == 1),
            ((a >> 1u8) & 1 == 1) == ((b >> 1u8) & 1 == 1),
            ((a >> 2u8) & 1 == 1) == ((b >> 2u8) & 1 == 1),
            ((a >> 3u8) & 1 == 1) == ((b >> 3u8) & 1 == 1),
            ((a >> 4u8) & 1 == 1) == ((b >> 4u8) & 1 == 1),
            ((a >> 5u8) & 1 == 1) == ((b >> 5u8) & 1 == 1),
            ((a >> 6u8) & 1 == 1) == ((b >> 6u8) & 1 == 1),
            ((a >> 7u8) & 1 == 1) == ((b >> 7u8) & 1 == 1),
    ;
}

/// What `segments_of` gives: a set exactly when the keys are there and each stands for
/// a segment, and then its bits are those of the keys' segments together.
proof fn lemma_segments_of_bits<M: KeyMap>(map: &M, cs: Seq<char>)
    ensures
        segments_of(map, cs) is Some <==> (cs.len() > 0 && forall|i: int|
            0 <= i < cs.len() ==> #[trigger] map.segment_of(cs[i]) is Some),
        segments_of(map, cs) matches Some(s) ==> forall|k: u8|
            k < 8 ==> (#[trigger] has_segment_bit(s, k) <==> exists|i: int|
                0 <= i < cs.len() && has_segment_bit(#[trigger] map.segment_of(cs[i])->0, k)),
    decreases cs.len(),
{
    if cs.len() > 1 {
        let rest = cs.drop_last();
        lemma_segments_of_bits(map, rest);
        assert forall|i: int| 0 <= i < rest.len() implies rest[i] == cs[i] by {}
        if segments_of(map, cs) is Some {
            assert forall|i: int| 0 <= i < cs.len() implies #[trigger] map.segment_of(cs[i]) is Some by {
                if i < rest.len() {
                    assert(rest[i] == cs[i]);
                }
            }
        }
        if forall|i: int| 0 <= i < cs.len() ==> #[trigger] map.segment_of(cs[i]) is Some {
            assert forall|i: int| 0 <= i < rest.len() implies #[trigger] map.segment_of(rest[i]) is Some by {
                assert(rest[i] == cs[i]);
            }
            assert(map.segment_of(cs[cs.len() - 1]) is Some);
        }
        if segments_of(map, cs) is Some {
            let s = segments_of(map, cs)->0;
            let a = segments_of(map, rest)->0;
            let b = map.segment_of(cs.last())->0;
            assert(s == a | b);
            assert forall|k: u8| k < 8 implies (#[trigger] has_segment_bit(s, k) <==> exists|i: int|
                0 <= i < cs.len() && has_segment_bit(#[trigger] map.segment_of(cs[i])->0, k)) by {
                lemma_or_bits(a, b, k);
                if has_segment_bit(s, k) {
                    if has_segment_bit(a, k) {
                        let i = choose|i: int|
                            0 <= i < rest.len() && has_segment_bit(#[trigger] map.segment_of(rest[i])->0, k);
                        assert(rest[i] == cs[i]);
                    } else {
                        assert(has_segment_bit(map.segment_of(cs[cs.len() - 1])->0, k));
                    }
                }
                if exists|i: int| 0 <= i < cs.len() && has_segment_bit(#[trigger] map.segment_of(cs[i])->0, k) {
                    let i = choose|i: int| 0 <= i < cs.len() && has_segment_bit(#[trigger] map.segment_of(cs[i])->0, k);
                    if i < rest.len() {
                        assert(rest[i] == cs[i]);
                        assert(has_segment_bit(map.segment_of(rest[i])->0, k));
                    }
                }
            }
        }
    } else if cs.len() == 1 {
        if segments_of(map, cs) is Some {
            let s = segments_of(map, cs)->0;
            assert forall|k: u8| k < 8 implies (#[trigger] has_segment_bit(s, k) <==> exists|i: int|
                0 <= i < cs.len() && has_segment_bit(#[trigger] map.segment_of(cs[i])->0, k)) by {
                if has_segment_bit(s, k) {
                    assert(has_segment_bit(map.segment_of(cs[0])->0, k));
                }
            }
        }
    }
}

/// The glyph that a code names does not depend on the order of its segment keys: two
/// key sequences with the same keys spell the same segments.
pub proof fn lemma_segment_order<M: KeyMap>(map: &M, a: Seq<char>, b: Seq<char>)
    requires
        forall|c: char| a.contains(c) <==> b.contains(c),
    ensures
        segments_of(map, a) == segments_of(map, b),
        plain_glyph(map, a) == plain_glyph(map, b),
        dotted_glyph(map, a) == dotted_glyph(map, b),
{
    if a.len() == 0 && b.len() > 0 {
        assert(a.contains(b[0]));
    }
    if b.len() == 0 && a.len() > 0 {
        assert(b.contains(a[0]));
    }
    lemma_segments_of_bits(map, a);
    lemma_segments_of_bits(map, b);
    if forall|i: int| 0 <= i < a.len() ==> #[trigger] map.segment_of(a[i]) is Some {
        assert forall|j: int| 0 <= j < b.len() implies #[trigger] map.segment_of(b[j]) is Some by {
            assert(b.contains(b[j]));
            let i = choose|i: int| 0 <= i < a.len() && a[i] == b[j];
        }
    }
    if forall|j: int| 0 <= j < b.len() ==> #[trigger] map.segment_of(b[j]) is Some {
        assert forall|i: int| 0 <= i < a.len() implies #[trigger] map.segment_of(a[i]) is Some by {
            assert(a.contains(a[i]));
            let j = choose|j: int| 0 <= j < b.len() && b[j] == a[i];
        }
    }
    if segments_of(map, a) is Some {
        let sa = segments_of(map, a)->0;
        let sb = segments_of(map, b)->0;
        assert forall|k: u8| k < 8 implies has_segment_bit(sa, k) == has_segment_bit(sb, k) by {
            if has_segment_bit(sa, k) {
                let i = choose|i: int| 0 <= i < a.len() && has_segment_bit(#[trigger] map.segment_of(a[i])->0, k);
                assert(b.contains(a[i]));
                let j = choose|j: int| 0 <= j < b.len() && b[j] == a[i];
                assert(has_segment_bit(map.segment_of(b[j])->0, k));
            }
            if has_segment_bit(sb, k) {
                let j = choose|j: int| 0 <= j < b.len() && has_segment_bit(#[trigger] map.segment_of(b[j])->0, k);
                assert(a.contains(b[j]));
                let i = choose|i: int| 0 <= i < a.len() && a[i] == b[j];
                assert(has_segment_bit(map.segment_of(a[i])->0, k));
            }
        }
        lemma_bits_determine(sa, sb);
    }
}

/// The font's extra glyphs: the single upward segment (bit 0) is U+2575, dotted
/// U+1004EE; the five segments up, up-left, up-right, down-left and down-right (bits
/// 0, 7, 1, 5 and 3) are U+100420, dotted U+1005C0; no other set of segments has one.
pub proof fn lemma_segment_glyph_table(s: Segment)
    ensures
        s == 0b0000_0001 ==> segment_glyphs(s) == Some((0x2575u32, 0x1004EEu32)),
        s == 0b1010_1011 ==> segment_glyphs(s) == Some((0x100420u32, 0x1005C0u32)),
        s != 0b0000_0001 && s != 0b1010_1011 ==> segment_glyphs(s) is None,
{
    assert((0b0000_0001u8 | 0b1000_0000u8 | 0b0000_0010u8 | 0b0010_0000u8 | 0b0000_1000u8) == 0b1010_1011u8)
        by (bit_vector);
}

/// What a code names: `1` and a key standing for the upward segment names U+2575, and
/// with the dot key after it U+1004EE; `5` and five keys whose segments together are up,
/// up-left, up-right, down-left and down-right names U+100420, and with the dot key
/// after them U+1005C0.
pub proof fn lemma_code_glyphs<M: KeyMap>(map: &M, cs: Seq<char>)
    ensures
        cs.len() == 2 && cs[0] == '1' && map.segment_of(cs[1]) == Some(0b0000_0001u8)
            ==> codepoint_of(map, cs) == Some(0x2575u32),
        cs.len() == 3 && cs[0] == '1' && map.segment_of(cs[1]) == Some(0b0000_0001u8)
            && map.is_segment_dot(cs[2]) ==> codepoint_of(map, cs) == Some(0x1004EEu32),
        (cs.len() == 6 || (cs.len() == 7 && map.is_segment_dot(cs[6]))) && cs[0] == '5' && ({
            let s1 = map.segment_of(cs[1]);
            let s2 = map.segment_of(cs[2]);
            let s3 = map.segment_of(cs[3]);
            let s4 = map.segment_of(cs[4]);
            let s5 = map.segment_of(cs[5]);
            &&& s1 is Some && s2 is Some && s3 is Some && s4 is Some && s5 is Some
            &&& (s1->0 | s2->0 | s3->0 | s4->0 | s5->0) == 0b1010_1011u8
        }) ==> codepoint_of(map, cs) == if cs.len() == 6 {
            Some(0x100420u32)
        } else {
            Some(0x1005C0u32)
        },
{
    lemma_segment_glyph_table(0b0000_0001u8);
    lemma_segment_glyph_table(0b1010_1011u8);
    if cs.len() == 2 || cs.len() == 3 {
        let one = cs.subrange(1, 2);
        assert(one[0] == cs[1]);
    }
    if cs.len() == 6 || cs.len() == 7 {
        let five = cs.subrange(1, 6);
        assert(five[0] == cs[1] && five[1] == cs[2] && five[2] == cs[3] && five[3] == cs[4] && five[4] == cs[5]);
        let t4 = five.drop_last();
        let t3 = t4.drop_last();
        let t2 = t3.drop_last();
        let t1 = t2.drop_last();
        assert(t1.len() == 1 && t1[0] == cs[1]);
        assert(t2.last() == cs[2] && t3.last() == cs[3] && t4.last() == cs[4] && five.last() == cs[5]);
        assert(segments_of(map, t1) == map.segment_of(cs[1]));
        assert(segments_of(map, t2) == combine(segments_of(map, t1), map.segment_of(cs[2])));
        assert(segments_of(map, t3) == combine(segments_of(map, t2), map.segment_of(cs[3])));
        assert(segments_of(map, t4) == combine(segments_of(map, t3), map.segment_of(cs[4])));
        assert(segments_of(map, five) == combine(segments_of(map, t4), map.segment_of(cs[5])));
    }
}

} // verus!
