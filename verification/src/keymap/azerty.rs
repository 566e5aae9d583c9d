//! The bindings of the AZERTY keyboard layout.

use super::{
    enters_fresh, models, Action, ActionModel, BoxMode, ColorMode, ExtraMode, InputMode,
    InputModeIdentifier, Key, KeyMap, Modifiers, NamedKey, TextMode, CTRL, NONE,
};
use crate::pragmata_pro_input::{
    Segment, SEGMENT_DOWN, SEGMENT_DOWN_LEFT, SEGMENT_DOWN_RIGHT, SEGMENT_LEFT, SEGMENT_RIGHT,
    SEGMENT_UP, SEGMENT_UP_LEFT, SEGMENT_UP_RIGHT,
};
use vstd::prelude::*;

verus! {

/// The AZERTY layout.
pub struct Azerty;

/// The block character that `c` draws in box mode, if any.
pub open spec fn box_glyph(c: char) -> Option<char> {
    if c == ' ' {
        Some(' ')
    } else if c == 'w' {
        Some('\u{2502}')
    } else if c == 'x' {
        Some('\u{2500}')
    } else if c == 'a' {
        Some('\u{250C}')
    } else if c == 'z' {
        Some('\u{2510}')
    } else if c == 'q' {
        Some('\u{2514}')
    } else if c == 's' {
        Some('\u{2518}')
    } else if c == 'e' {
        Some('\u{2534}')
    } else if c == 'r' {
        Some('\u{251C}')
    } else if c == 't' {
        Some('\u{252C}')
    } else if c == 'y' {
        Some('\u{2524}')
    } else if c == 'u' {
        Some('\u{253C}')
    } else {
        None
    }
}

/// The actions bound to a named key with no modifier held.
pub open spec fn named_binding(mode: InputModeIdentifier, k: NamedKey) -> Option<Seq<ActionModel>> {
    match k {
        NamedKey::ArrowLeft => Some(seq![ActionModel::CursorLeft]),
        NamedKey::ArrowRight => Some(seq![ActionModel::CursorRight]),
        NamedKey::ArrowUp => Some(seq![ActionModel::CursorUp]),
        NamedKey::ArrowDown => Some(seq![ActionModel::CursorDown]),
        NamedKey::Delete => Some(seq![ActionModel::DeleteAtCursor]),
        NamedKey::Backspace => if mode != InputModeIdentifier::Extra {
            Some(seq![ActionModel::CursorLeft, ActionModel::DeleteAtCursor])
        } else {
            None
        },
        NamedKey::Space => if mode == InputModeIdentifier::Box {
            Some(seq![ActionModel::DrawCharAtCursor(' ')])
        } else {
            None
        },
        _ => None,
    }
}

/// The actions bound to a character key with no modifier held.
pub open spec fn plain_char_binding(mode: InputModeIdentifier, c: char) -> Option<
    Seq<ActionModel>,
> {
    if c == ')' && mode != InputModeIdentifier::Text {
        Some(seq![ActionModel::ReduceFontSize])
    } else if c == '=' && mode != InputModeIdentifier::Text {
        Some(seq![ActionModel::IncreaseFontSize])
    } else if mode == InputModeIdentifier::Box {
        match box_glyph(c) {
            Some(g) => Some(seq![ActionModel::DrawCharAtCursor(g)]),
            None => None,
        }
    } else {
        None
    }
}

/// The actions bound to a character key with control held, the same in every mode.
pub open spec fn ctrl_char_binding(c: char) -> Option<Seq<ActionModel>> {
    if c == 'z' {
        Some(seq![ActionModel::Undo])
    } else if c == 'y' {
        Some(seq![ActionModel::Redo])
    } else if c == '&' {
        Some(seq![ActionModel::Transition(InputModeIdentifier::Box)])
    } else if c == '\u{E9}' {
        Some(seq![ActionModel::Transition(InputModeIdentifier::Text)])
    } else if c == '"' {
        Some(seq![ActionModel::Transition(InputModeIdentifier::Color)])
    } else if c == '\'' {
        Some(seq![ActionModel::Transition(InputModeIdentifier::Extra)])
    } else {
        None
    }
}

/// The single character of a key's text, if it has exactly one.
pub open spec fn single(s: Seq<char>) -> Option<char> {
    if s.len() == 1 {
        Some(s[0])
    } else {
        None
    }
}

/// The AZERTY bindings: a key binds only with no modifier or with control alone.
pub open spec fn azerty_binding(mode: InputModeIdentifier, modifiers: Modifiers, key: Key) -> Option<
    Seq<ActionModel>,
> {
    if modifiers == NONE {
        match key {
            Key::Named(k) => named_binding(mode, k),
            Key::Character(s) => match single(s@) {
                Some(c) => plain_char_binding(mode, c),
                None => None,
            },
            Key::Unidentified => None,
        }
    } else if modifiers == CTRL {
        match key {
            Key::Character(s) => match single(s@) {
                Some(c) => ctrl_char_binding(c),
                None => None,
            },
            _ => None,
        }
    } else {
        None
    }
}

/// The segment that a key spells in extra mode: the eight keys around `s`, each toward
/// its direction from it.
pub open spec fn azerty_segment(c: char) -> Option<Segment> {
    if c == 'a' {
        Some(SEGMENT_UP_LEFT)
    } else if c == 'z' {
        Some(SEGMENT_UP)
    } else if c == 'e' {
        Some(SEGMENT_UP_RIGHT)
    } else if c == 'q' {
        Some(SEGMENT_LEFT)
    } else if c == 'd' {
        Some(SEGMENT_RIGHT)
    } else if c == 'w' {
        Some(SEGMENT_DOWN_LEFT)
    } else if c == 'x' {
        Some(SEGMENT_DOWN)
    } else if c == 'c' {
        Some(SEGMENT_DOWN_RIGHT)
    } else {
        None
    }
}

/// Whether a list of actions models as `m` and enters each mode afresh.
pub open spec fn bound_as(r: Option<Vec<Action>>, m: Option<Seq<ActionModel>>) -> bool {
    &&& r is Some <==> m is Some
    &&& r matches Some(v) ==> models(v@) == m->0
    &&& r matches Some(v) ==> forall|i: int| 0 <= i < v@.len() ==> enters_fresh(#[trigger] v@[i])
}

fn one(a: Action) -> (r: Option<Vec<Action>>)
    requires
        enters_fresh(a),
    ensures
        bound_as(r, Some(seq![a@])),
{
    let mut v: Vec<Action> = Vec::new();
    v.push(a);
    assert(models(v@) =~= seq![a@]);
    Some(v)
}

fn two(a: Action, b: Action) -> (r: Option<Vec<Action>>)
    requires
        enters_fresh(a),
        enters_fresh(b),
    ensures
        bound_as(r, Some(seq![a@, b@])),
{
    let mut v: Vec<Action> = Vec::new();
    v.push(a);
    v.push(b);
    assert(models(v@) =~= seq![a@, b@]);
    Some(v)
}

fn single_char(s: &String) -> (r: Option<char>)
    ensures
        r == single(s@),
{
    let t = s.as_str();
    if t.unicode_len() == 1 {
        Some(t.get_char(0))
    } else {
        None
    }
}

fn named_binding_exec(mode: InputModeIdentifier, k: NamedKey) -> (r: Option<Vec<Action>>)
    ensures
        bound_as(r, named_binding(mode, k)),
{
    match k {
        NamedKey::ArrowLeft => one(Action::CursorLeft),
        NamedKey::ArrowRight => one(Action::CursorRight),
        NamedKey::ArrowUp => one(Action::CursorUp),
        NamedKey::ArrowDown => one(Action::CursorDown),
        NamedKey::Delete => one(Action::DeleteAtCursor),
        NamedKey::Backspace => match mode {
            InputModeIdentifier::Extra => None,
            _ => two(Action::CursorLeft, Action::DeleteAtCursor),
        },
        NamedKey::Space => match mode {
            InputModeIdentifier::Box => one(Action::DrawCharAtCursor(' ')),
            _ => None,
        },
        _ => None,
    }
}

fn box_glyph_exec(c: char) -> (r: Option<char>)
    ensures
        r == box_glyph(c),
{
    if c == ' ' {
        Some(' ')
    } else if c == 'w' {
        Some('\u{2502}')
    } else if c == 'x' {
        Some('\u{2500}')
    } else if c == 'a' {
        Some('\u{250C}')
    } else if c == 'z' {
        Some('\u{2510}')
    } else if c == 'q' {
        Some('\u{2514}')
    } else if c == 's' {
        Some('\u{2518}')
    } else if c == 'e' {
        Some('\u{2534}')
    } else if c == 'r' {
        Some('\u{251C}')
    } else if c == 't' {
        Some('\u{252C}')
    } else if c == 'y' {
        Some('\u{2524}')
    } else if c == 'u' {
        Some('\u{253C}')
    } else {
        None
    }
}

fn plain_char_binding_exec(mode: InputModeIdentifier, c: char) -> (r: Option<Vec<Action>>)
    ensures
        bound_as(r, plain_char_binding(mode, c)),
{
    let text = match mode {
        InputModeIdentifier::Text => true,
        _ => false,
    };
    if c == ')' && !text {
        one(Action::ReduceFontSize)
    } else if c == '=' && !text {
        one(Action::IncreaseFontSize)
    } else {
        match mode {
            InputModeIdentifier::Box => match box_glyph_exec(c) {
                Some(g) => one(Action::DrawCharAtCursor(g)),
                None => None,
            },
            _ => None,
        }
    }
}

fn ctrl_char_binding_exec(c: char) -> (r: Option<Vec<Action>>)
    ensures
        bound_as(r, ctrl_char_binding(c)),
{
    if c == 'z' {
        one(Action::Undo)
    } else if c == 'y' {
        one(Action::Redo)
    } else if c == '&' {
        one(Action::Transition(InputMode::Box(BoxMode)))
    } else if c == '\u{E9}' {
        one(Action::Transition(InputMode::Text(TextMode)))
    } else if c == '"' {
        one(Action::Transition(InputMode::Color(ColorMode)))
    } else if c == '\'' {
        one(Action::Transition(InputMode::Extra(ExtraMode { buffer: Vec::new() })))
    } else {
        None
    }
}

impl KeyMap for Azerty {
    open spec fn binding(&self, mode: InputModeIdentifier, modifiers: Modifiers, key: Key) -> Option<
        Seq<ActionModel>,
    > {
        azerty_binding(mode, modifiers, key)
    }

    open spec fn segment_of(&self, c: char) -> Option<Segment> {
        azerty_segment(c)
    }

    open spec fn is_segment_dot(&self, c: char) -> bool {
        c == 's'
    }

    fn translate(&self, mode: InputModeIdentifier, modifiers: Modifiers, key: &Key) -> (r: Option<
        Vec<Action>,
    >) {
        if modifiers == NONE {
            match key {
                Key::Named(k) => named_binding_exec(mode, *k),
                Key::Character(s) => match single_char(s) {
                    Some(c) => plain_char_binding_exec(mode, c),
                    None => None,
                },
                Key::Unidentified => None,
            }
        } else if modifiers == CTRL {
            match key {
                Key::Character(s) => match single_char(s) {
                    Some(c) => ctrl_char_binding_exec(c),
                    None => None,
                },
                _ => None,
            }
        } else {
            None
        }
    }

    fn char_to_extra_mode_segment(&self, c: char) -> (r: Option<Segment>) {
        if c == 'a' {
            Some(SEGMENT_UP_LEFT)
        } else if c == 'z' {
            Some(SEGMENT_UP)
        } else if c == 'e' {
            Some(SEGMENT_UP_RIGHT)
        } else if c == 'q' {
            Some(SEGMENT_LEFT)
        } else if c == 'd' {
            Some(SEGMENT_RIGHT)
        } else if c == 'w' {
            Some(SEGMENT_DOWN_LEFT)
        } else if c == 'x' {
            Some(SEGMENT_DOWN)
        } else if c == 'c' {
            Some(SEGMENT_DOWN_RIGHT)
        } else {
            None
        }
    }

    fn extra_mode_segment_dot(&self, c: char) -> (r: bool) {
        c == 's'
    }
}

/// In box mode with no modifier held, each block key draws its own box-drawing
/// character: w '│', x '─', a '┌', z '┐', q '└', s '┘', e '┴', r '├', t '┬', y '┤',
/// u '┼', and the space bar's text a space.
pub proof fn lemma_azerty_box_keys(s: String)
    requires
        s@.len() == 1,
    ensures
        ({
            let c = s@[0];
            let b = Azerty.binding(InputModeIdentifier::Box, NONE, Key::Character(s));
            &&& c == ' ' ==> b == Some(seq![ActionModel::DrawCharAtCursor(' ')])
            &&& c == 'w' ==> b == Some(seq![ActionModel::DrawCharAtCursor('\u{2502}')])
            &&& c == 'x' ==> b == Some(seq![ActionModel::DrawCharAtCursor('\u{2500}')])
            &&& c == 'a' ==> b == Some(seq![ActionModel::DrawCharAtCursor('\u{250C}')])
            &&& c == 'z' ==> b == Some(seq![ActionModel::DrawCharAtCursor('\u{2510}')])
            &&& c == 'q' ==> b == Some(seq![ActionModel::DrawCharAtCursor('\u{2514}')])
            &&& c == 's' ==> b == Some(seq![ActionModel::DrawCharAtCursor('\u{2518}')])
            &&& c == 'e' ==> b == Some(seq![ActionModel::DrawCharAtCursor('\u{2534}')])
            &&& c == 'r' ==> b == Some(seq![ActionModel::DrawCharAtCursor('\u{251C}')])
            &&& c == 't' ==> b == Some(seq![ActionModel::DrawCharAtCursor('\u{252C}')])
            &&& c == 'y' ==> b == Some(seq![ActionModel::DrawCharAtCursor('\u{2524}')])
            &&& c == 'u' ==> b == Some(seq![ActionModel::DrawCharAtCursor('\u{253C}')])
        }),
{
}

/// With no modifier held, ')' makes the font smaller and '=' larger in every mode but
/// text mode, where both are typed like any other character.
pub proof fn lemma_azerty_font_size_keys(mode: InputModeIdentifier, s: String)
    requires
        s@.len() == 1,
    ensures
        ({
            let c = s@[0];
            let b = Azerty.binding(mode, NONE, Key::Character(s));
            &&& c == ')' && mode != InputModeIdentifier::Text ==> b == Some(seq![ActionModel::ReduceFontSize])
            &&& c == '=' && mode != InputModeIdentifier::Text ==> b == Some(seq![ActionModel::IncreaseFontSize])
            &&& (c == ')' || c == '=') && mode == InputModeIdentifier::Text ==> b is None
        }),
{
}

/// What a key does with control held does not depend on the mode.
pub proof fn lemma_azerty_ctrl_mode_free(m1: InputModeIdentifier, m2: InputModeIdentifier, key: Key)
    ensures
        Azerty.binding(m1, CTRL, key) == Azerty.binding(m2, CTRL, key),
{
}

/// With control held, in every mode: z undoes, y redoes, and '&', 'é', '"' and the
/// apostrophe enter box, text, color and extra mode.
pub proof fn lemma_azerty_ctrl_keys(mode: InputModeIdentifier, s: String)
    requires
        s@.len() == 1,
    ensures
        ({
            let c = s@[0];
            let b = Azerty.binding(mode, CTRL, Key::Character(s));
            &&& c == 'z' ==> b == Some(seq![ActionModel::Undo])
            &&& c == 'y' ==> b == Some(seq![ActionModel::Redo])
            &&& c == '&' ==> b == Some(seq![ActionModel::Transition(InputModeIdentifier::Box)])
            &&& c == '\u{E9}' ==> b == Some(seq![ActionModel::Transition(InputModeIdentifier::Text)])
            &&& c == '"' ==> b == Some(seq![ActionModel::Transition(InputModeIdentifier::Color)])
            &&& c == '\'' ==> b == Some(seq![ActionModel::Transition(InputModeIdentifier::Extra)])
        }),
{
}

/// With no modifier held, the arrows move the cursor one cell and Delete erases under
/// it, in every mode; Backspace moves left and erases there in every mode but extra
/// mode (where it edits the code typed so far); the space bar draws a space in box mode
/// only; Enter and Escape are bound in no mode.
pub proof fn lemma_azerty_named_keys(mode: InputModeIdentifier)
    ensures
        Azerty.binding(mode, NONE, Key::Named(NamedKey::ArrowLeft)) == Some(seq![ActionModel::CursorLeft]),
        Azerty.binding(mode, NONE, Key::Named(NamedKey::ArrowRight)) == Some(seq![ActionModel::CursorRight]),
        Azerty.binding(mode, NONE, Key::Named(NamedKey::ArrowUp)) == Some(seq![ActionModel::CursorUp]),
        Azerty.binding(mode, NONE, Key::Named(NamedKey::ArrowDown)) == Some(seq![ActionModel::CursorDown]),
        Azerty.binding(mode, NONE, Key::Named(NamedKey::Delete)) == Some(seq![ActionModel::DeleteAtCursor]),
        mode != InputModeIdentifier::Extra ==> Azerty.binding(mode, NONE, Key::Named(NamedKey::Backspace))
            == Some(seq![ActionModel::CursorLeft, ActionModel::DeleteAtCursor]),
        mode == InputModeIdentifier::Extra ==> Azerty.binding(mode, NONE, Key::Named(NamedKey::Backspace)) is None,
        mode == InputModeIdentifier::Box ==> Azerty.binding(mode, NONE, Key::Named(NamedKey::Space))
            == Some(seq![ActionModel::DrawCharAtCursor(' ')]),
        mode != InputModeIdentifier::Box ==> Azerty.binding(mode, NONE, Key::Named(NamedKey::Space)) is None,
        Azerty.binding(mode, NONE, Key::Named(NamedKey::Enter)) is None,
        Azerty.binding(mode, NONE, Key::Named(NamedKey::Escape)) is None,
{
}

/// In extra mode the eight keys around 's' spell the segments toward their direction
/// from it (a up-left, z up, e up-right, q left, d right, w down-left, x down, c
/// down-right), no other key spells one, and 's' asks for the dotted glyph.
pub proof fn lemma_azerty_segment_keys(c: char)
    ensures
        c == 'a' ==> Azerty.segment_of(c) == Some(0b1000_0000u8),
        c == 'z' ==> Azerty.segment_of(c) == Some(0b0000_0001u8),
        c == 'e' ==> Azerty.segment_of(c) == Some(0b0000_0010u8),
        c == 'd' ==> Azerty.segment_of(c) == Some(0b0000_0100u8),
        c == 'c' ==> Azerty.segment_of(c) == Some(0b0000_1000u8),
        c == 'x' ==> Azerty.segment_of(c) == Some(0b0001_0000u8),
        c == 'w' ==> Azerty.segment_of(c) == Some(0b0010_0000u8),
        c == 'q' ==> Azerty.segment_of(c) == Some(0b0100_0000u8),
        !(c == 'a' || c == 'z' || c == 'e' || c == 'd' || c == 'c' || c == 'x' || c == 'w' || c == 'q')
            ==> Azerty.segment_of(c) is None,
        Azerty.is_segment_dot(c) <==> c == 's',
{
}

} // verus!
