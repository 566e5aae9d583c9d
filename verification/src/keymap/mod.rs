//! Input modes, the actions that keys ask for, and the key maps that bind keys to
//! actions.

use crate::chars::{char_from_u32, char_is_whitespace, is_white_space, push_char};
use crate::pragmata_pro_input::{code_to_codepoint, codepoint_of, lemma_codepoints_are_chars, Segment};
use vstd::prelude::*;

pub mod azerty;

pub use azerty::Azerty;

verus! {

/// The modifier keys held down, one bit each.
pub type Modifiers = u8;

/// No modifier held.
pub const NONE: Modifiers = 0b0000;

/// Shift held.
pub const SHIFT: Modifiers = 0b0001;

/// Control held.
pub const CTRL: Modifiers = 0b0010;

/// Alt held.
pub const ALT: Modifiers = 0b0100;

/// The logo key held.
pub const SUPER: Modifiers = 0b1000;

/// The keys that have a name rather than a character; `Other` stands for every named
/// key that no binding uses.
#[derive(Clone, Copy, Debug, PartialEq, Eq, Structural)]
pub enum NamedKey {
    Space,
    Enter,
    ArrowLeft,
    ArrowRight,
    ArrowUp,
    ArrowDown,
    Delete,
    Backspace,
    Escape,
    Other,
}

/// A key as the keyboard layout reports it.
#[derive(Clone, Debug, PartialEq, Eq)]
pub enum Key {
    Named(NamedKey),
    Character(String),
    Unidentified,
}

/// Drawing boxes with the block characters.
#[derive(Clone, Copy, Debug, PartialEq, Eq, Structural)]
pub struct BoxMode;

/// Typing text.
#[derive(Clone, Copy, Debug, PartialEq, Eq, Structural)]
pub struct TextMode;

/// Choosing colors.
#[derive(Clone, Copy, Debug, PartialEq, Eq, Structural)]
pub struct ColorMode;

/// Entering extra glyphs by code; `buffer` holds the code typed so far.
#[derive(Clone, Debug)]
pub struct ExtraMode {
    pub buffer: Vec<char>,
}

/// The mode in which keys are read.
#[derive(Clone, Debug)]
pub enum InputMode {
    Box(BoxMode),
    Text(TextMode),
    Color(ColorMode),
    Extra(ExtraMode),
}

/// The name of an input mode, without its state.
#[derive(Clone, Copy, Debug, PartialEq, Eq, Structural)]
pub enum InputModeIdentifier {
    Box,
    Text,
    Color,
    Extra,
}

/// What the editor is asked to do.
#[derive(Clone, Debug)]
pub enum Action {
    CursorLeft,
    CursorRight,
    CursorUp,
    CursorDown,
    DrawCharAtCursor(char),
    DeleteAtCursor,
    ReduceFontSize,
    IncreaseFontSize,
    Undo,
    Redo,
    Transition(InputMode),
}

/// An [`Action`] as contracts compare it: a mode change is named by the mode it enters.
#[derive(Clone, Copy, Debug, PartialEq, Eq, Structural)]
pub enum ActionModel {
    CursorLeft,
    CursorRight,
    CursorUp,
    CursorDown,
    DrawCharAtCursor(char),
    DeleteAtCursor,
    ReduceFontSize,
    IncreaseFontSize,
    Undo,
    Redo,
    Transition(InputModeIdentifier),
}

/// The identifier of a mode.
pub open spec fn id_of(m: InputMode) -> InputModeIdentifier {
    match m {
        InputMode::Box(_) => InputModeIdentifier::Box,
        InputMode::Text(_) => InputModeIdentifier::Text,
        InputMode::Color(_) => InputModeIdentifier::Color,
        InputMode::Extra(_) => InputModeIdentifier::Extra,
    }
}

impl View for Action {
    type V = ActionModel;

    open spec fn view(&self) -> ActionModel {
        match *self {
            Action::CursorLeft => ActionModel::CursorLeft,
            Action::CursorRight => ActionModel::CursorRight,
            Action::CursorUp => ActionModel::CursorUp,
            Action::CursorDown => ActionModel::CursorDown,
            Action::DrawCharAtCursor(c) => ActionModel::DrawCharAtCursor(c),
            Action::DeleteAtCursor => ActionModel::DeleteAtCursor,
            Action::ReduceFontSize => ActionModel::ReduceFontSize,
            Action::IncreaseFontSize => ActionModel::IncreaseFontSize,
            Action::Undo => ActionModel::Undo,
            Action::Redo => ActionModel::Redo,
            Action::Transition(m) => ActionModel::Transition(id_of(m)),
        }
    }
}

/// The models of a list of actions.
pub open spec fn models(v: Seq<Action>) -> Seq<ActionModel> {
    v.map_values(|a: Action| a@)
}

/// Whether a mode change in `a` enters its mode afresh: an extra mode with an empty code.
pub open spec fn enters_fresh(a: Action) -> bool {
    a matches Action::Transition(InputMode::Extra(e)) ==> e.buffer@.len() == 0
}

/// The actions that a code typed in extra mode asks for: drawing the glyph it names, if
/// it names one.
pub open spec fn code_actions(p: Option<u32>) -> Seq<ActionModel> {
    match p {
        Some(p) => seq![ActionModel::DrawCharAtCursor(p as char)],
        None => Seq::empty(),
    }
}

/// The actions that typing `s` in text mode asks for: each character drawn, and the
/// cursor moved right after it.
pub open spec fn text_actions(s: Seq<char>) -> Seq<ActionModel>
    decreases s.len(),
{
    if s.len() == 0 {
        Seq::empty()
    } else {
        text_actions(s.drop_last()).push(ActionModel::DrawCharAtCursor(s.last())).push(
            ActionModel::CursorRight,
        )
    }
}

/// Whether every character of `s` is white space.
pub open spec fn all_white_space(s: Seq<char>) -> bool {
    forall|i: int| 0 <= i < s.len() ==> is_white_space(#[trigger] s[i])
}

/// A keyboard layout: which keys ask for which actions in each mode, and which keys
/// spell the segments of extra-mode codes.
pub trait KeyMap {
    /// The actions bound to `key` with `modifiers` held in `mode`, if any.
    spec fn binding(&self, mode: InputModeIdentifier, modifiers: Modifiers, key: Key) -> Option<
        Seq<ActionModel>,
    >;

    /// The segment that `c` stands for in an extra-mode code, if any.
    spec fn segment_of(&self, c: char) -> Option<Segment>;

    /// Whether `c` ends an extra-mode code with the dotted variant of its glyph.
    spec fn is_segment_dot(&self, c: char) -> bool;

    /// The actions bound to `key` with `modifiers` held in `mode`; a mode change enters
    /// its mode afresh.
    fn translate(&self, mode: InputModeIdentifier, modifiers: Modifiers, key: &Key) -> (r: Option<
        Vec<Action>,
    >)
        ensures
            r is Some <==> self.binding(mode, modifiers, *key) is Some,
            r matches Some(v) ==> models(v@) == self.binding(mode, modifiers, *key)->0,
            r matches Some(v) ==> forall|i: int| 0 <= i < v@.len() ==> enters_fresh(#[trigger] v@[i]),
    ;

    fn char_to_extra_mode_segment(&self, c: char) -> (r: Option<Segment>)
        ensures
            r == self.segment_of(c),
    ;

    fn extra_mode_segment_dot(&self, c: char) -> (r: bool)
        ensures
            r == self.is_segment_dot(c),
    ;
}

/// What an unbound key does: from mode `before`, `key` leaves mode `after` and asks
/// for the actions `r`. In text mode a typed text is drawn character by character; in
/// extra mode typed characters extend the code, white space, space and enter end it, and
/// backspace takes back its last character or, when it is empty, erases left of the
/// cursor; elsewhere nothing happens.
pub open spec fn raw_key_result<M: KeyMap>(map: &M, before: InputMode, key: Key, after: InputMode, r: Seq<Action>) -> bool {
    match before {
        InputMode::Text(_) => {
            &&& after == before
            &&& models(r) == match key {
                Key::Character(s) => text_actions(s@),
                _ => Seq::empty(),
            }
        },
        InputMode::Extra(e) => match key {
            Key::Character(s) => if all_white_space(s@) {
                &&& after matches InputMode::Extra(f) && f.buffer@.len() == 0
                &&& models(r) == code_actions(codepoint_of(map, e.buffer@))
            } else {
                &&& after matches InputMode::Extra(f) && f.buffer@ == e.buffer@ + s@
                &&& r.len() == 0
            },
            Key::Named(NamedKey::Space) | Key::Named(NamedKey::Enter) => {
                &&& after matches InputMode::Extra(f) && f.buffer@.len() == 0
                &&& models(r) == code_actions(codepoint_of(map, e.buffer@))
            },
            Key::Named(NamedKey::Backspace) => if e.buffer@.len() == 0 {
                &&& after == before
                &&& models(r) == seq![ActionModel::CursorLeft, ActionModel::DeleteAtCursor]
            } else {
                &&& after matches InputMode::Extra(f) && f.buffer@
                    == e.buffer@.drop_last()
                &&& r.len() == 0
            },
            _ => after == before && r.len() == 0,
        },
        _ => after == before && r.len() == 0,
    }
}

/// In extra mode, backspace takes back a character just typed: typing a key whose text
/// is one character that is not white space, and then backspace, leaves the code as it
/// was and asks for nothing.
pub proof fn lemma_backspace_takes_back<M: KeyMap>(
    map: &M,
    before: InputMode,
    key: Key,
    typed: InputMode,
    r1: Seq<Action>,
    after: InputMode,
    r2: Seq<Action>,
)
    requires
        before is Extra,
        key matches Key::Character(s) && s@.len() == 1 && !is_white_space(s@[0]),
        raw_key_result(map, before, key, typed, r1),
        raw_key_result(map, typed, Key::Named(NamedKey::Backspace), after, r2),
    ensures
        after is Extra,
        after->Extra_0.buffer@ == before->Extra_0.buffer@,
        r1.len() == 0,
        r2.len() == 0,
{
    if let Key::Character(s) = key {
        assert(!all_white_space(s@));
        if let InputMode::Extra(e) = before {
            if let InputMode::Extra(f) = typed {
                assert(f.buffer@.len() > 0);
                assert((e.buffer@ + s@).drop_last() =~= e.buffer@);
            }
        }
    }
}

impl ExtraMode {
    /// Ends the code typed so far: empties the buffer and asks to draw the glyph that the
    /// code names, if it names one.
    pub fn buffer_to_actions<M: KeyMap>(&mut self, map: &M) -> (r: Vec<Action>)
        ensures
            final(self).buffer@ == Seq::<char>::empty(),
            models(r@) == code_actions(codepoint_of(map, old(self).buffer@)),
    {
        let mut b: Vec<char> = Vec::new();
        std::mem::swap(&mut b, &mut self.buffer);
        let mut code = String::new();
        let mut i: usize = 0;
        while i < b.len()
            invariant
                i <= b.len(),
                code@ == b@.take(i as int),
            decreases b.len() - i,
        {
            push_char(&mut code, b[i]);
            i = i + 1;
            assert(code@ =~= b@.take(i as int));
        }
        assert(b@.take(b.len() as int) =~= b@);
        let mut r: Vec<Action> = Vec::new();
        match code_to_codepoint(code.as_str(), map) {
            Some(point) => {
                proof {
                    lemma_codepoints_are_chars(map, b@);
                }
                let c = char_from_u32(point).unwrap();
                r.push(Action::DrawCharAtCursor(c));
                assert(c == point as char) by {
                    vstd::utf8::char_u32_cast(c, point);
                }
                assert(models(r@) =~= code_actions(Some(point)));
            },
            None => {
                assert(models(r@) =~= code_actions(None));
            },
        }
        r
    }
}

impl InputMode {
    /// The identifier of this mode.
    pub fn identifier(&self) -> (r: InputModeIdentifier)
        ensures
            r == id_of(*self),
    {
        match self {
            InputMode::Box(_) => InputModeIdentifier::Box,
            InputMode::Text(_) => InputModeIdentifier::Text,
            InputMode::Color(_) => InputModeIdentifier::Color,
            InputMode::Extra(_) => InputModeIdentifier::Extra,
        }
    }

    /// The name under which the mode is shown.
    pub fn name(&self) -> (r: &'static str)
        ensures
            id_of(*self) == InputModeIdentifier::Box ==> r@ == "Box"@,
            id_of(*self) == InputModeIdentifier::Text ==> r@ == "Text"@,
            id_of(*self) == InputModeIdentifier::Color ==> r@ == "Color"@,
            id_of(*self) == InputModeIdentifier::Extra ==> r@ == "Extra"@,
    {
        match self {
            InputMode::Box(_) => "Box",
            InputMode::Text(_) => "Text",
            InputMode::Color(_) => "Color",
            InputMode::Extra(_) => "Extra",
        }
    }

    /// The actions asked for by a key that the key map does not bind. In text mode a
    /// typed character is drawn; in extra mode typed characters extend the code, white
    /// space, space and enter end it, and backspace takes back its last character or,
    /// when it is empty, erases left of the cursor.
    pub fn handle_raw_key<M: KeyMap>(&mut self, key: &Key, key_map: &M) -> (r: Vec<Action>)
        ensures
            raw_key_result(key_map, *old(self), *key, *final(self), r@),
    {
        let mut acts: Vec<Action> = Vec::new();
        match self {
            InputMode::Text(_) => {
                match key {
                    Key::Character(s) => {
                        acts = typed_text_actions(s);
                    },
                    _ => {
                        assert(models(acts@) =~= Seq::<ActionModel>::empty());
                    },
                }
            },
            InputMode::Extra(e) => {
                match key {
                    Key::Character(s) => {
                        if all_chars_white_space(s) {
                            acts = e.buffer_to_actions(key_map);
                        } else {
                            let ghost b0 = e.buffer@;
                            let ghost sv = s@;
                            for c in it: s.chars()
                                invariant
                                    it.seq() == sv,
                                    e.buffer@ == b0 + sv.take(it.index()),
                            {
                                let ghost i = it.index();
                                e.buffer.push(c);
                                assert(e.buffer@ =~= b0 + sv.take(i + 1));
                            }
                            assert(sv.take(sv.len() as int) =~= sv);
                        }
                    },
                    Key::Named(NamedKey::Space) | Key::Named(NamedKey::Enter) => {
                        acts = e.buffer_to_actions(key_map);
                    },
                    Key::Named(NamedKey::Backspace) => {
                        if e.buffer.len() == 0 {
                            acts.push(Action::CursorLeft);
                            acts.push(Action::DeleteAtCursor);
                            assert(models(acts@) =~= seq![
                                ActionModel::CursorLeft,
                                ActionModel::DeleteAtCursor,
                            ]);
                        } else {
                            e.buffer.pop();
                        }
                    },
                    _ => {},
                }
            },
            _ => {},
        }
        acts
    }
}

/// The models of a list grow as the list does.
proof fn lemma_models_push(s: Seq<Action>, a: Action)
    ensures
        models(s.push(a)) == models(s).push(a@),
{
    assert(models(s.push(a)) =~= models(s).push(a@));
}

/// The action drawing `c`.
spec fn draw_action_spec(c: char) -> Action {
    Action::DrawCharAtCursor(c)
}

/// The action drawing `c`.
fn draw_action(c: char) -> (a: Action)
    ensures
        a == draw_action_spec(c),
{
    Action::DrawCharAtCursor(c)
}

/// Appends `a` and then `b` to `v`.
fn push_both(v: &mut Vec<Action>, a: Action, b: Action)
    ensures
        final(v)@ == old(v)@.push(a).push(b),
{
    v.push(a);
    v.push(b);
}

/// Appends the actions for typing `cs[i..]` in text mode to `acts`.
fn push_text_actions(cs: &Vec<char>, i: usize, acts: &mut Vec<Action>)
    requires
        i <= cs@.len(),
        models(old(acts)@) == text_actions(cs@.take(i as int)),
    ensures
        models(final(acts)@) == text_actions(cs@),
    decreases cs@.len() - i,
{
    if i < cs.len() {
        let c = cs[i];
        let ghost r0 = acts@;
        push_both(acts, draw_action(c), Action::CursorRight);
        let ghost tail = seq![ActionModel::DrawCharAtCursor(c), ActionModel::CursorRight];
        proof {
            lemma_models_push(r0, draw_action_spec(c));
            lemma_models_push(r0.push(draw_action_spec(c)), Action::CursorRight);
        }
        assert(models(acts@) =~= models(r0) + tail);
        assert(cs@.take(i + 1).drop_last() =~= cs@.take(i as int));
        assert(models(acts@) =~= text_actions(cs@.take(i + 1)));
        push_text_actions(cs, i + 1, acts);
    } else {
        assert(cs@.take(i as int) =~= cs@);
    }
}

/// The characters of `s`, in order.
fn chars_of(s: &String) -> (r: Vec<char>)
    ensures
        r@ == s@,
{
    let ghost sv = s@;
    let mut v: Vec<char> = Vec::new();
    for c in it: s.chars()
        invariant
            it.seq() == sv,
            v@ == sv.take(it.index()),
    {
        let ghost i = it.index();
        v.push(c);
        assert(v@ =~= sv.take(i + 1));
    }
    assert(sv.take(sv.len() as int) =~= sv);
    v
}

/// The actions for typing `s` in text mode.
fn typed_text_actions(s: &String) -> (r: Vec<Action>)
    ensures
        models(r@) == text_actions(s@),
{
    let cs = chars_of(s);
    let mut acts: Vec<Action> = Vec::new();
    assert(cs@.take(0) =~= Seq::<char>::empty());
    assert(models(acts@) =~= Seq::<ActionModel>::empty());
    push_text_actions(&cs, 0, &mut acts);
    acts
}

/// Whether every character of `s` is white space (true of the empty string).
fn all_chars_white_space(s: &String) -> (r: bool)
    ensures
        r == all_white_space(s@),
{
    let ghost sv = s@;
    let mut all = true;
    for c in it: s.chars()
        invariant
            it.seq() == sv,
            all == all_white_space(sv.take(it.index())),
    {
        let ghost i = it.index();
        let w = char_is_whitespace(c);
        all = all && w;
        assert(sv.take(i + 1)[i] == c);
        assert(all == all_white_space(sv.take(i + 1))) by {
            if all {
                assert forall|j: int| 0 <= j < i + 1 implies is_white_space(
                    #[trigger] sv.take(i + 1)[j],
                ) by {
                    if j < i {
                        assert(sv.take(i + 1)[j] == sv.take(i)[j]);
                    }
                }
            } else if !w {
            } else {
                let j = choose|j: int| 0 <= j < i && !is_white_space(#[trigger] sv.take(i)[j]);
                assert(sv.take(i + 1)[j] == sv.take(i)[j]);
            }
        }
    }
    assert(sv.take(sv.len() as int) =~= sv);
    all
}

} // verus!
