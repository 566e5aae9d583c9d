//! The editor between events: the canvas, the input mode, the key map, the keys held
//! down and the modifiers, and what a key press, a key release or an action does to them.

use crate::canvas::Canvas;
use crate::keymap::{
    enters_fresh, id_of, models, raw_key_result, text_actions, Action, ActionModel, BoxMode, ExtraMode, InputMode,
    Key, KeyMap, Modifiers, NONE,
};
use crate::text_area::{fits_isize, Coordinates, Direction};
use crate::chars::push_char;
use vstd::prelude::*;

verus! {

/// A change of font size that an action asks for; the font itself is sized outside.
#[derive(Clone, Copy, Debug, PartialEq, Eq, Structural)]
pub enum FontSizeChange {
    Reduce,
    Increase,
}

/// Whether `a` and `b` are the same key; character keys compare by their text.
pub open spec fn same_key(a: Key, b: Key) -> bool {
    match a {
        Key::Named(x) => b matches Key::Named(y) && x == y,
        Key::Character(s) => b matches Key::Character(t) && s@ == t@,
        Key::Unidentified => b is Unidentified,
    }
}

/// Two keys are the same key exactly when they are the same kind of key with the same
/// name, or the same text, or both unidentified: keys that differ never count as one
/// another. So pressing a bound key that is not held adds exactly that key to the held
/// keys, and releasing a key leaves every key that differs from it held as it was.
pub proof fn lemma_same_key_exact(a: Key, b: Key)
    ensures
        same_key(a, b) <==> {
            ||| (a is Named && b is Named && a->Named_0 == b->Named_0)
            ||| (a is Character && b is Character && a->Character_0@ == b->Character_0@)
            ||| (a is Unidentified && b is Unidentified)
        },
        a is Named && b is Named && a->Named_0 != b->Named_0 ==> !same_key(a, b),
        a is Character && b is Character && a->Character_0@ != b->Character_0@ ==> !same_key(a, b),
        a is Named && !(b is Named) ==> !same_key(a, b),
        a is Character && !(b is Character) ==> !same_key(a, b),
{
}

/// Pressing a bound key that differs from every held key (in the sense of
/// `lemma_same_key_exact`) adds exactly it to the end of the held keys.
pub proof fn lemma_press_adds_one_key<M: KeyMap>(
    map: &M,
    mode: InputMode,
    modifiers: Modifiers,
    keys: Seq<Key>,
    key: Key,
    mode2: InputMode,
    keys2: Seq<Key>,
    acts: Seq<Action>,
)
    requires
        map.binding(id_of(mode), modifiers, key) is Some,
        press_outcome(map, mode, modifiers, keys, key, mode2, keys2, acts),
        forall|i: int| 0 <= i < keys.len() ==> !(#[trigger] same_key(keys[i], key)),
    ensures
        keys2 == keys.push(key),
{
}

/// Whether `keys` holds `key`.
pub open spec fn holds_key(keys: Seq<Key>, key: Key) -> bool {
    exists|i: int| 0 <= i < keys.len() && same_key(#[trigger] keys[i], key)
}

/// Whether no key occurs twice in `keys`.
pub open spec fn distinct_keys(keys: Seq<Key>) -> bool {
    forall|i: int, j: int|
        0 <= i < keys.len() && 0 <= j < keys.len() && i != j ==> !same_key(
            #[trigger] keys[i],
            #[trigger] keys[j],
        )
}

/// Whether two modes are the same mode with the same state.
pub open spec fn same_mode(a: InputMode, b: InputMode) -> bool {
    &&& id_of(a) == id_of(b)
    &&& a matches InputMode::Extra(ea) ==> b matches InputMode::Extra(eb) && ea.buffer@ == eb.buffer@
}

/// The cursor after one action.
pub open spec fn cursor_step(cur: Coordinates, a: ActionModel) -> Coordinates {
    match a {
        ActionModel::CursorLeft => Coordinates { x: (cur.x - 1) as isize, y: cur.y },
        ActionModel::CursorRight => Coordinates { x: (cur.x + 1) as isize, y: cur.y },
        ActionModel::CursorUp => Coordinates { x: cur.x, y: (cur.y - 1) as isize },
        ActionModel::CursorDown => Coordinates { x: cur.x, y: (cur.y + 1) as isize },
        _ => cur,
    }
}

/// Whether the cursor can take the step of `a` without leaving `isize`.
pub open spec fn step_fits(cur: Coordinates, a: ActionModel) -> bool {
    match a {
        ActionModel::CursorLeft => fits_isize(cur.x - 1),
        ActionModel::CursorRight => fits_isize(cur.x + 1),
        ActionModel::CursorUp => fits_isize(cur.y - 1),
        ActionModel::CursorDown => fits_isize(cur.y + 1),
        _ => true,
    }
}

/// The grid after one action with the cursor at `cur`.
pub open spec fn cells_step(cells: Map<(isize, isize), char>, cur: Coordinates, a: ActionModel) -> Map<
    (isize, isize),
    char,
> {
    match a {
        ActionModel::DrawCharAtCursor(c) => cells.insert(cur.key(), c),
        ActionModel::DeleteAtCursor => cells.remove(cur.key()),
        _ => cells,
    }
}

/// The font size change that `a` asks for, if any.
pub open spec fn font_change(a: ActionModel) -> Option<FontSizeChange> {
    match a {
        ActionModel::ReduceFontSize => Some(FontSizeChange::Reduce),
        ActionModel::IncreaseFontSize => Some(FontSizeChange::Increase),
        _ => None,
    }
}

/// The cursor after the actions `acts`, in order.
pub open spec fn cursor_after(cur: Coordinates, acts: Seq<ActionModel>) -> Coordinates
    decreases acts.len(),
{
    if acts.len() == 0 {
        cur
    } else {
        cursor_step(cursor_after(cur, acts.drop_last()), acts.last())
    }
}

/// The grid after the actions `acts`, in order, from cursor `cur`.
pub open spec fn cells_after(cells: Map<(isize, isize), char>, cur: Coordinates, acts: Seq<ActionModel>) -> Map<
    (isize, isize),
    char,
>
    decreases acts.len(),
{
    if acts.len() == 0 {
        cells
    } else {
        cells_step(
            cells_after(cells, cur, acts.drop_last()),
            cursor_after(cur, acts.drop_last()),
            acts.last(),
        )
    }
}

/// Whether the cursor stays within `isize` along the actions `acts`.
pub open spec fn path_fits(cur: Coordinates, acts: Seq<ActionModel>) -> bool {
    forall|i: int| 0 <= i < acts.len() ==> step_fits(cursor_after(cur, #[trigger] acts.take(i)), acts[i])
}

/// The font size changes that the actions `acts` ask for, in order.
pub open spec fn font_changes(acts: Seq<ActionModel>) -> Seq<FontSizeChange>
    decreases acts.len(),
{
    if acts.len() == 0 {
        Seq::empty()
    } else {
        match font_change(acts.last()) {
            Some(c) => font_changes(acts.drop_last()).push(c),
            None => font_changes(acts.drop_last()),
        }
    }
}

/// The mode after the actions `acts`: that of the last mode change among them, if any.
pub open spec fn mode_after(mode: InputMode, acts: Seq<Action>) -> InputMode
    decreases acts.len(),
{
    if acts.len() == 0 {
        mode
    } else {
        match acts.last() {
            Action::Transition(m) => m,
            _ => mode_after(mode, acts.drop_last()),
        }
    }
}

/// What pressing `key` does, with mode `mode`, modifiers `modifiers` and the keys `keys`
/// held: if the key map binds it, the bound actions `acts` (a mode change among them
/// enters its mode afresh), the mode unchanged and the key now held (`keys2`); otherwise what the mode makes of an unbound key (see
/// `raw_key_result`), leading to mode `mode2`, with the held keys unchanged.
pub open spec fn press_outcome<M: KeyMap>(
    map: &M,
    mode: InputMode,
    modifiers: Modifiers,
    keys: Seq<Key>,
    key: Key,
    mode2: InputMode,
    keys2: Seq<Key>,
    acts: Seq<Action>,
) -> bool {
    let b = map.binding(id_of(mode), modifiers, key);
    if b is Some {
        &&& models(acts) == b->0
        &&& forall|i: int| 0 <= i < acts.len() ==> enters_fresh(#[trigger] acts[i])
        &&& mode2 == mode
        &&& holds_key(keys2, key)
        &&& keys2 == if holds_key(keys, key) {
            keys
        } else {
            keys.push(key)
        }
        &&& forall|k: Key| holds_key(keys2, k) <==> (holds_key(keys, k) || same_key(k, key))
    } else {
        &&& raw_key_result(map, mode, key, mode2, acts)
        &&& keys2 == keys
    }
}

/// Whether two keys are the same key.
fn keys_equal(a: &Key, b: &Key) -> (r: bool)
    ensures
        r == same_key(*a, *b),
{
    match a {
        Key::Named(x) => match b {
            Key::Named(y) => *x == *y,
            _ => false,
        },
        Key::Character(s) => match b {
            Key::Character(t) => *s == *t,
            _ => false,
        },
        Key::Unidentified => match b {
            Key::Unidentified => true,
            _ => false,
        },
    }
}

/// A copy of `m` in the same state.
fn copy_mode(m: &InputMode) -> (r: InputMode)
    ensures
        same_mode(r, *m),
        same_mode(*m, r),
{
    match m {
        InputMode::Box(_) => InputMode::Box(BoxMode),
        InputMode::Text(_) => InputMode::Text(crate::keymap::TextMode),
        InputMode::Color(_) => InputMode::Color(crate::keymap::ColorMode),
        InputMode::Extra(e) => {
            let b = e.buffer.clone();
            assert(b@ =~= e.buffer@);
            InputMode::Extra(ExtraMode { buffer: b })
        },
    }
}

/// The editor's state.
///
/// The keys held down are a list in which no key occurs twice (see `wf`): vstd specifies
/// `HashSet` only for key types that obey its hash-table model, which it grants to
/// primitive types alone, and a key carries its text.
pub struct App<M: KeyMap> {
    pub key_map: M,
    pub canvas: Canvas,
    pub input_mode: InputMode,
    pub keys: Vec<Key>,
    pub modifiers: Modifiers,
}

impl<M: KeyMap> App<M> {
    /// The canvas is consistent and no held key is listed twice.
    pub open spec fn wf(&self) -> bool {
        &&& self.canvas.wf()
        &&& distinct_keys(self.keys@)
    }

    /// An editor in box mode with no key held.
    pub fn new(key_map: M, canvas: Canvas) -> (r: Self)
        requires
            canvas.wf(),
        ensures
            r.wf(),
            r.key_map == key_map,
            r.canvas == canvas,
            r.input_mode is Box,
            r.keys@.len() == 0,
            r.modifiers == NONE,
    {
        App { key_map, canvas, input_mode: InputMode::Box(BoxMode), keys: Vec::new(), modifiers: NONE }
    }

    /// Carries out `action`: moves the cursor, draws or erases under it, enters a mode,
    /// or tells which font size change is asked for. The drawing area keeps no history,
    /// so undo and redo change nothing.
    pub fn handle_action(&mut self, action: &Action) -> (r: Option<FontSizeChange>)
        requires
            old(self).wf(),
            step_fits(old(self).canvas.draw_area.cursor(), action@),
        ensures
            final(self).wf(),
            r == font_change(action@),
            final(self).canvas.draw_area.cursor() == cursor_step(old(self).canvas.draw_area.cursor(), action@),
            final(self).canvas.draw_area.cells() == cells_step(
                old(self).canvas.draw_area.cells(),
                old(self).canvas.draw_area.cursor(),
                action@,
            ),
            final(self).canvas.draw_area.area() == old(self).canvas.draw_area.area(),
            final(self).canvas.top_line == old(self).canvas.top_line,
            final(self).canvas.bottom_line == old(self).canvas.bottom_line,
            final(self).canvas.font == old(self).canvas.font,
            final(self).canvas.frame_buffer == old(self).canvas.frame_buffer,
            final(self).key_map == old(self).key_map,
            final(self).keys == old(self).keys,
            final(self).modifiers == old(self).modifiers,
            match *action {
                Action::Transition(m) => same_mode(final(self).input_mode, m),
                _ => final(self).input_mode == old(self).input_mode,
            },
    {
        match action {
            Action::CursorLeft => {
                self.canvas.draw_area.move_cursor(Direction::Left);
                None
            },
            Action::CursorRight => {
                self.canvas.draw_area.move_cursor(Direction::Right);
                None
            },
            Action::CursorUp => {
                self.canvas.draw_area.move_cursor(Direction::Up);
                None
            },
            Action::CursorDown => {
                self.canvas.draw_area.move_cursor(Direction::Down);
                None
            },
            Action::DrawCharAtCursor(c) => {
                self.canvas.draw_area.write_at_cursor(*c);
                None
            },
            Action::DeleteAtCursor => {
                self.canvas.draw_area.erase_at_cursor();
                None
            },
            Action::ReduceFontSize => Some(FontSizeChange::Reduce),
            Action::IncreaseFontSize => Some(FontSizeChange::Increase),
            Action::Undo => None,
            Action::Redo => None,
            Action::Transition(mode) => {
                self.input_mode = copy_mode(mode);
                None
            },
        }
    }
}

impl<M: KeyMap> App<M> {
    /// Carries out `actions` in order and lists the font size changes they ask for.
    pub fn apply_actions(&mut self, actions: &Vec<Action>) -> (r: Vec<FontSizeChange>)
        requires
            old(self).wf(),
            path_fits(old(self).canvas.draw_area.cursor(), models(actions@)),
        ensures
            final(self).wf(),
            r@ == font_changes(models(actions@)),
            final(self).canvas.draw_area.cursor() == cursor_after(old(self).canvas.draw_area.cursor(), models(actions@)),
            final(self).canvas.draw_area.cells() == cells_after(
                old(self).canvas.draw_area.cells(),
                old(self).canvas.draw_area.cursor(),
                models(actions@),
            ),
            final(self).canvas.draw_area.area() == old(self).canvas.draw_area.area(),
            final(self).canvas.top_line == old(self).canvas.top_line,
            final(self).canvas.bottom_line == old(self).canvas.bottom_line,
            final(self).canvas.font == old(self).canvas.font,
            final(self).canvas.frame_buffer == old(self).canvas.frame_buffer,
            final(self).key_map == old(self).key_map,
            final(self).keys == old(self).keys,
            final(self).modifiers == old(self).modifiers,
            same_mode(final(self).input_mode, mode_after(old(self).input_mode, actions@)),
    {
        let ghost ms = models(actions@);
        let ghost start = *self;
        let ghost c0 = self.canvas.draw_area.cursor();
        let mut changes: Vec<FontSizeChange> = Vec::new();
        let mut i: usize = 0;
        assert(ms.take(0) =~= Seq::<ActionModel>::empty());
        assert(actions@.take(0) =~= Seq::<Action>::empty());
        while i < actions.len()
            invariant
                self.wf(),
                i <= actions@.len(),
                ms == models(actions@),
                path_fits(c0, ms),
                c0 == start.canvas.draw_area.cursor(),
                changes@ == font_changes(ms.take(i as int)),
                self.canvas.draw_area.cursor() == cursor_after(c0, ms.take(i as int)),
                self.canvas.draw_area.cells() == cells_after(start.canvas.draw_area.cells(), c0, ms.take(i as int)),
                self.canvas.draw_area.area() == start.canvas.draw_area.area(),
                self.canvas.top_line == start.canvas.top_line,
                self.canvas.bottom_line == start.canvas.bottom_line,
                self.canvas.font == start.canvas.font,
                self.canvas.frame_buffer == start.canvas.frame_buffer,
                self.key_map == start.key_map,
                self.keys == start.keys,
                self.modifiers == start.modifiers,
                same_mode(self.input_mode, mode_after(start.input_mode, actions@.take(i as int))),
            decreases actions@.len() - i,
        {
            let ghost before_mode = self.input_mode;
            assert(ms.take(i + 1).drop_last() =~= ms.take(i as int));
            assert(actions@.take(i + 1).drop_last() =~= actions@.take(i as int));
            assert(ms[i as int] == actions@[i as int]@);
            assert(step_fits(cursor_after(c0, ms.take(i as int)), ms[i as int]));
            let change = self.handle_action(&actions[i]);
            match change {
                Some(c) => {
                    changes.push(c);
                },
                None => {},
            }
            proof {
                let a = actions@[i as int];
                assert(actions@.take(i + 1).last() == a);
                match a {
                    Action::Transition(m) => {
                        assert(mode_after(start.input_mode, actions@.take(i + 1)) == m);
                    },
                    _ => {
                        assert(mode_after(start.input_mode, actions@.take(i + 1)) == mode_after(
                            start.input_mode,
                            actions@.take(i as int),
                        ));
                    },
                }
            }
            i = i + 1;
        }
        assert(ms.take(actions@.len() as int) =~= ms);
        assert(actions@.take(actions@.len() as int) =~= actions@);
        changes
    }

    /// The actions asked for by a key that the key map does not bind; see
    /// `raw_key_result`. The modifiers play no part.
    pub fn handle_raw_key(&mut self, key: &Key, _modifiers: Modifiers) -> (r: Vec<Action>)
        requires
            old(self).wf(),
        ensures
            final(self).wf(),
            raw_key_result(&old(self).key_map, old(self).input_mode, *key, final(self).input_mode, r@),
            final(self).canvas == old(self).canvas,
            final(self).key_map == old(self).key_map,
            final(self).keys == old(self).keys,
            final(self).modifiers == old(self).modifiers,
    {
        self.input_mode.handle_raw_key(key, &self.key_map)
    }

    /// Whether `key` is held.
    fn holds(&self, key: &Key) -> (r: bool)
        ensures
            r == holds_key(self.keys@, *key),
    {
        let mut i: usize = 0;
        while i < self.keys.len()
            invariant
                i <= self.keys@.len(),
                forall|j: int| 0 <= j < i ==> !same_key(#[trigger] self.keys@[j], *key),
            decreases self.keys@.len() - i,
        {
            if keys_equal(&self.keys[i], key) {
                return true;
            }
            i = i + 1;
        }
        false
    }

    /// A key press: the actions the key map binds to it in the current mode with the
    /// current modifiers, the key then counting as held; or, for an unbound key, what
    /// the mode makes of it.
    pub fn key_pressed(&mut self, key: Key) -> (r: Vec<Action>)
        requires
            old(self).wf(),
        ensures
            final(self).wf(),
            final(self).canvas == old(self).canvas,
            final(self).key_map == old(self).key_map,
            final(self).modifiers == old(self).modifiers,
            press_outcome(
                &old(self).key_map,
                old(self).input_mode,
                old(self).modifiers,
                old(self).keys@,
                key,
                final(self).input_mode,
                final(self).keys@,
                r@,
            ),
    {
        let id = self.input_mode.identifier();
        match self.key_map.translate(id, self.modifiers, &key) {
            Some(actions) => {
                if !self.holds(&key) {
                    let ghost k0 = self.keys@;
                    self.keys.push(key);
                    assert(self.keys@[k0.len() as int] == key);
                    assert forall|i: int, j: int|
                        0 <= i < self.keys@.len() && 0 <= j < self.keys@.len() && i != j implies !same_key(
                        #[trigger] self.keys@[i],
                        #[trigger] self.keys@[j],
                    ) by {
                        if i < k0.len() && j < k0.len() {
                            assert(self.keys@[i] == k0[i]);
                            assert(self.keys@[j] == k0[j]);
                        } else if i < k0.len() {
                            assert(self.keys@[i] == k0[i]);
                            assert(!same_key(k0[i], key));
                        } else {
                            assert(self.keys@[j] == k0[j]);
                            assert(!same_key(k0[j], key));
                        }
                    }
                    assert forall|k: Key|
                        holds_key(self.keys@, k) <==> (holds_key(k0, k) || same_key(k, key)) by {
                        if holds_key(k0, k) {
                            let i = choose|i: int| 0 <= i < k0.len() && same_key(#[trigger] k0[i], k);
                            assert(self.keys@[i] == k0[i]);
                        }
                        if holds_key(self.keys@, k) {
                            let i = choose|i: int| 0 <= i < self.keys@.len() && same_key(#[trigger] self.keys@[i], k);
                            if i < k0.len() {
                                assert(self.keys@[i] == k0[i]);
                            }
                        }
                    }
                } else {
                    assert forall|k: Key|
                        holds_key(self.keys@, k) <==> (holds_key(self.keys@, k) || same_key(k, key)) by {
                        if same_key(k, key) {
                            let i = choose|i: int| 0 <= i < self.keys@.len() && same_key(#[trigger] self.keys@[i], key);
                            assert(same_key(self.keys@[i], k));
                        }
                    }
                }
                actions
            },
            None => self.handle_raw_key(&key, self.modifiers),
        }
    }

    /// A key release: the key no longer counts as held.
    pub fn key_released(&mut self, key: &Key)
        requires
            old(self).wf(),
        ensures
            final(self).wf(),
            !holds_key(final(self).keys@, *key),
            forall|k: Key|
                !same_key(k, *key) ==> (holds_key(final(self).keys@, k) <==> holds_key(old(self).keys@, k)),
            !holds_key(old(self).keys@, *key) ==> final(self).keys == old(self).keys,
            holds_key(old(self).keys@, *key) ==> exists|i: int|
                0 <= i < old(self).keys@.len() && same_key(#[trigger] old(self).keys@[i], *key)
                    && final(self).keys@ == old(self).keys@.remove(i),
            final(self).canvas == old(self).canvas,
            final(self).key_map == old(self).key_map,
            final(self).input_mode == old(self).input_mode,
            final(self).modifiers == old(self).modifiers,
    {
        let mut i: usize = 0;
        while i < self.keys.len()
            invariant
                *self == *old(self),
                old(self).wf(),
                i <= self.keys@.len(),
                forall|j: int| 0 <= j < i ==> !same_key(#[trigger] self.keys@[j], *key),
            decreases self.keys@.len() - i,
        {
            if keys_equal(&self.keys[i], key) {
                let ghost k0 = self.keys@;
                self.keys.remove(i);
                assert(same_key(k0[i as int], *key));
                assert forall|j: int| 0 <= j < self.keys@.len() implies !same_key(#[trigger] self.keys@[j], *key) by {
                    if j < i {
                        assert(self.keys@[j] == k0[j]);
                    } else {
                        assert(self.keys@[j] == k0[j + 1]);
                        assert(!same_key(k0[j + 1], k0[i as int]));
                    }
                }
                assert forall|k: Key|
                    !same_key(k, *key) implies (holds_key(self.keys@, k) <==> holds_key(k0, k)) by {
                    if holds_key(k0, k) {
                        let m = choose|m: int| 0 <= m < k0.len() && same_key(#[trigger] k0[m], k);
                        if m < i {
                            assert(self.keys@[m] == k0[m]);
                        } else if m > i {
                            assert(self.keys@[m - 1] == k0[m]);
                        } else {
                            assert(same_key(k0[m], *key));
                        }
                    }
                    if holds_key(self.keys@, k) {
                        let m = choose|m: int| 0 <= m < self.keys@.len() && same_key(#[trigger] self.keys@[m], k);
                        if m < i {
                            assert(self.keys@[m] == k0[m]);
                        } else {
                            assert(self.keys@[m] == k0[m + 1]);
                        }
                    }
                }
                assert forall|a: int, b: int|
                    0 <= a < self.keys@.len() && 0 <= b < self.keys@.len() && a != b implies !same_key(
                    #[trigger] self.keys@[a],
                    #[trigger] self.keys@[b],
                ) by {
                    let a0 = if a < i { a } else { a + 1 };
                    let b0 = if b < i { b } else { b + 1 };
                    assert(self.keys@[a] == k0[a0]);
                    assert(self.keys@[b] == k0[b0]);
                }
                return;
            }
            i = i + 1;
        }
    }

    /// The modifiers now held.
    pub fn set_modifiers(&mut self, modifiers: Modifiers)
        ensures
            final(self).modifiers == modifiers,
            final(self).canvas == old(self).canvas,
            final(self).key_map == old(self).key_map,
            final(self).input_mode == old(self).input_mode,
            final(self).keys == old(self).keys,
    {
        self.modifiers = modifiers;
    }
}

/// Whether pressing `key` took the editor from `before` to `after` with the actions
/// `acts`: as `press_outcome` says, through mode `m`, and then, where the cursor stays
/// within `isize` along them (`changes` is `Some`), the actions carried out in order,
/// with the font size changes they ask for; otherwise none carried out.
pub open spec fn key_press_applied<M: KeyMap>(
    before: App<M>,
    key: Key,
    m: InputMode,
    after: App<M>,
    acts: Seq<Action>,
    changes: Option<Vec<FontSizeChange>>,
) -> bool {
    let ms = models(acts);
    let c0 = before.canvas.draw_area.cursor();
    &&& press_outcome(&before.key_map, before.input_mode, before.modifiers, before.keys@, key, m, after.keys@, acts)
    &&& (changes is Some <==> path_fits(c0, ms))
    &&& changes matches Some(ch) ==> {
        &&& ch@ == font_changes(ms)
        &&& after.canvas.draw_area.cursor() == cursor_after(c0, ms)
        &&& after.canvas.draw_area.cells() == cells_after(before.canvas.draw_area.cells(), c0, ms)
        &&& same_mode(after.input_mode, mode_after(m, acts))
    }
    &&& changes is None ==> {
        &&& after.canvas == before.canvas
        &&& after.input_mode == m
    }
}

impl<M: KeyMap> App<M> {
    /// A key event, as the window reports it. A press takes the actions that
    /// `key_pressed` gives and carries them out in order, returning them with the font
    /// size changes they ask for; where carrying them out would move the cursor out of
    /// `isize` it carries out none and returns `None` in place of the changes. A release
    /// lets go of the key and asks for nothing.
    pub fn key_event(&mut self, key: Key, pressed: bool) -> (r: (Vec<Action>, Option<Vec<FontSizeChange>>))
        requires
            old(self).wf(),
        ensures
            final(self).wf(),
            final(self).key_map == old(self).key_map,
            final(self).modifiers == old(self).modifiers,
            final(self).canvas.draw_area.area() == old(self).canvas.draw_area.area(),
            final(self).canvas.top_line == old(self).canvas.top_line,
            final(self).canvas.bottom_line == old(self).canvas.bottom_line,
            final(self).canvas.font == old(self).canvas.font,
            final(self).canvas.frame_buffer == old(self).canvas.frame_buffer,
            pressed ==> exists|m: InputMode| #[trigger] key_press_applied(*old(self), key, m, *final(self), r.0@, r.1),
            !pressed ==> {
                &&& r.0@.len() == 0
                &&& r.1 matches Some(changes) && changes@.len() == 0
                &&& !holds_key(final(self).keys@, key)
                &&& forall|k: Key|
                    !same_key(k, key) ==> (holds_key(final(self).keys@, k) <==> holds_key(old(self).keys@, k))
                &&& final(self).canvas == old(self).canvas
                &&& final(self).input_mode == old(self).input_mode
            },
    {
        if pressed {
            let actions = self.key_pressed(key);
            let ghost m = self.input_mode;
            let ghost k2 = self.keys@;
            if self.can_apply(&actions) {
                let changes = self.apply_actions(&actions);
                assert(self.keys@ == k2);
                let r = (actions, Some(changes));
                assert(key_press_applied(*old(self), key, m, *self, r.0@, r.1));
                r
            } else {
                let r = (actions, None);
                assert(key_press_applied(*old(self), key, m, *self, r.0@, r.1));
                r
            }
        } else {
            self.key_released(&key);
            (Vec::new(), Some(Vec::new()))
        }
    }
}

/// The label before the code shown on the bottom line.
pub open spec fn code_label() -> Seq<char> {
    seq!['C', 'h', 'a', 'r', ' ', 'c', 'o', 'd', 'e', ':', ' ']
}

impl<M: KeyMap> App<M> {
    /// Shows `text` on the top line, from its first cell, in place of what it showed.
    pub fn top_line(&mut self, text: &str)
        requires
            old(self).wf(),
            text@.len() <= isize::MAX,
        ensures
            final(self).wf(),
            final(self).canvas.top_line.cells() == crate::text_area::row_of(text@, 0, 0),
            final(self).canvas.top_line.cursor() == (Coordinates { x: text@.len() as isize, y: 0 }),
            final(self).canvas.top_line.area() == old(self).canvas.top_line.area(),
            final(self).canvas.bottom_line == old(self).canvas.bottom_line,
            final(self).canvas.draw_area == old(self).canvas.draw_area,
            final(self).canvas.font == old(self).canvas.font,
            final(self).canvas.frame_buffer == old(self).canvas.frame_buffer,
            final(self).input_mode == old(self).input_mode,
            final(self).key_map == old(self).key_map,
            final(self).keys == old(self).keys,
            final(self).modifiers == old(self).modifiers,
    {
        self.canvas.top_line.reset_cursor();
        self.canvas.top_line.clear();
        self.canvas.top_line.write_string_at_cursor(text);
        assert(Map::<(isize, isize), char>::empty().union_prefer_right(
            crate::text_area::row_of(text@, 0, 0),
        ) =~= crate::text_area::row_of(text@, 0, 0));
    }

    /// Shows on the bottom line the code typed so far in extra mode, after a label; the
    /// line is left empty otherwise.
    pub fn bottom_line(&mut self)
        requires
            old(self).wf(),
            old(self).input_mode matches InputMode::Extra(e) ==> e.buffer@.len() + 11 <= isize::MAX,
        ensures
            final(self).wf(),
            final(self).canvas.bottom_line.area() == old(self).canvas.bottom_line.area(),
            old(self).input_mode matches InputMode::Extra(e) ==> if e.buffer@.len() > 0 {
                &&& final(self).canvas.bottom_line.cells() == crate::text_area::row_of(
                    code_label() + e.buffer@,
                    0,
                    0,
                )
                &&& final(self).canvas.bottom_line.cursor() == (Coordinates {
                    x: (code_label() + e.buffer@).len() as isize,
                    y: 0,
                })
            } else {
                &&& final(self).canvas.bottom_line.cells() == Map::<(isize, isize), char>::empty()
                &&& final(self).canvas.bottom_line.cursor() == (Coordinates { x: 0, y: 0 })
            },
            !(old(self).input_mode is Extra) ==> {
                &&& final(self).canvas.bottom_line.cells() == Map::<(isize, isize), char>::empty()
                &&& final(self).canvas.bottom_line.cursor() == (Coordinates { x: 0, y: 0 })
            },
            final(self).canvas.top_line == old(self).canvas.top_line,
            final(self).canvas.draw_area == old(self).canvas.draw_area,
            final(self).canvas.font == old(self).canvas.font,
            final(self).canvas.frame_buffer == old(self).canvas.frame_buffer,
            final(self).input_mode == old(self).input_mode,
            final(self).key_map == old(self).key_map,
            final(self).keys == old(self).keys,
            final(self).modifiers == old(self).modifiers,
    {
        self.canvas.bottom_line.reset_cursor();
        self.canvas.bottom_line.clear();
        match &self.input_mode {
            InputMode::Extra(e) => {
                if e.buffer.len() > 0 {
                    let mut text = String::from_str("Char code: ");
                    proof {
                        reveal_strlit("Char code: ");
                    }
                    assert(text@ =~= code_label());
                    let mut i: usize = 0;
                    while i < e.buffer.len()
                        invariant
                            i <= e.buffer@.len(),
                            text@ == code_label() + e.buffer@.take(i as int),
                        decreases e.buffer@.len() - i,
                    {
                        push_char(&mut text, e.buffer[i]);
                        i = i + 1;
                        assert(text@ =~= code_label() + e.buffer@.take(i as int));
                    }
                    assert(e.buffer@.take(e.buffer@.len() as int) =~= e.buffer@);
                    self.canvas.bottom_line.write_string_at_cursor(text.as_str());
                    assert(Map::<(isize, isize), char>::empty().union_prefer_right(
                        crate::text_area::row_of(text@, 0, 0),
                    ) =~= crate::text_area::row_of(text@, 0, 0));
                }
            },
            _ => {},
        }
    }
}

/// Pressing a key and releasing it leaves held exactly the keys held before, but that
/// key: the relations that `key_pressed` and `key_released` state compose so.
pub proof fn lemma_press_then_release(before: Seq<Key>, pressed: Seq<Key>, released: Seq<Key>, key: Key)
    requires
        forall|k: Key| holds_key(pressed, k) <==> (holds_key(before, k) || same_key(k, key)),
        !holds_key(released, key),
        forall|k: Key| !same_key(k, key) ==> (holds_key(released, k) <==> holds_key(pressed, k)),
    ensures
        forall|k: Key| !same_key(k, key) ==> (holds_key(released, k) <==> holds_key(before, k)),
{
}

impl<M: KeyMap> App<M> {
    /// Whether the cursor stays within `isize` while `actions` are carried out; see
    /// `path_fits`.
    pub fn can_apply(&self, actions: &Vec<Action>) -> (r: bool)
        requires
            self.wf(),
        ensures
            r == path_fits(self.canvas.draw_area.cursor(), models(actions@)),
    {
        proof {
            crate::text_area::lemma_area_at_origin(self.canvas.draw_area);
        }
        let ghost c0 = self.canvas.draw_area.cursor();
        let ghost ms = models(actions@);
        let mut cur = self.canvas.draw_area.cursor_relative_position();
        assert(ms.take(0) =~= Seq::<ActionModel>::empty());
        let mut i: usize = 0;
        while i < actions.len()
            invariant
                i <= actions@.len(),
                ms == models(actions@),
                cur == cursor_after(c0, ms.take(i as int)),
                c0 == self.canvas.draw_area.cursor(),
                forall|j: int| 0 <= j < i ==> step_fits(cursor_after(c0, #[trigger] ms.take(j)), ms[j]),
            decreases actions@.len() - i,
        {
            assert(ms.take(i + 1).drop_last() =~= ms.take(i as int));
            assert(ms[i as int] == actions@[i as int]@);
            match &actions[i] {
                Action::CursorLeft => {
                    if cur.x == isize::MIN {
                        assert(!step_fits(cursor_after(c0, ms.take(i as int)), ms[i as int]));
                        return false;
                    }
                    cur = Coordinates { x: cur.x - 1, y: cur.y };
                },
                Action::CursorRight => {
                    if cur.x == isize::MAX {
                        assert(!step_fits(cursor_after(c0, ms.take(i as int)), ms[i as int]));
                        return false;
                    }
                    cur = Coordinates { x: cur.x + 1, y: cur.y };
                },
                Action::CursorUp => {
                    if cur.y == isize::MIN {
                        assert(!step_fits(cursor_after(c0, ms.take(i as int)), ms[i as int]));
                        return false;
                    }
                    cur = Coordinates { x: cur.x, y: cur.y - 1 };
                },
                Action::CursorDown => {
                    if cur.y == isize::MAX {
                        assert(!step_fits(cursor_after(c0, ms.take(i as int)), ms[i as int]));
                        return false;
                    }
                    cur = Coordinates { x: cur.x, y: cur.y + 1 };
                },
                _ => {},
            }
            i = i + 1;
        }
        assert(ms.take(actions@.len() as int) =~= ms);
        true
    }
}

/// The actions for typing `c` in text mode.
spec fn typed_char(c: char) -> Seq<ActionModel> {
    Seq::<ActionModel>::empty().push(ActionModel::DrawCharAtCursor(c)).push(ActionModel::CursorRight)
}

/// The last character of `s`, as a value of type `char`.
proof fn last_char(s: Seq<char>) -> (c: char)
    requires
        s.len() > 0,
    ensures
        c == s.last(),
{
    s.last()
}

proof fn lemma_text_actions_last(s: Seq<char>)
    requires
        s.len() > 0,
    ensures
        text_actions(s) == text_actions(s.drop_last()) + typed_char(s.last()),
{
    let c = last_char(s);
    assert(text_actions(s) =~= text_actions(s.drop_last()) + typed_char(c));
}

proof fn lemma_typed_char_steps(cells: Map<(isize, isize), char>, cur: Coordinates, c: char)
    ensures
        typed_char(c).len() == 2,
        typed_char(c)[0] == ActionModel::DrawCharAtCursor(c),
        typed_char(c)[1] == ActionModel::CursorRight,
        typed_char(c).drop_last() == Seq::<ActionModel>::empty().push(ActionModel::DrawCharAtCursor(c)),
        cursor_after(cur, typed_char(c).drop_last()) == cur,
        cursor_after(cur, typed_char(c)) == (Coordinates { x: (cur.x + 1) as isize, y: cur.y }),
        cells_after(cells, cur, typed_char(c)) == cells.insert(cur.key(), c),
{
    let t = typed_char(c);
    let d = Seq::<ActionModel>::empty().push(ActionModel::DrawCharAtCursor(c));
    assert(t.drop_last() =~= d);
    assert(d.drop_last() =~= Seq::<ActionModel>::empty());
    assert(cursor_after(cur, Seq::<ActionModel>::empty()) == cur);
    assert(cursor_after(cur, d) == cur);
    assert(cells_after(cells, cur, Seq::<ActionModel>::empty()) == cells);
    assert(cells_after(cells, cur, d) == cells.insert(cur.key(), c));
}

/// Carrying out `a` and then `b` is carrying out `a + b`.
proof fn lemma_after_append(
    cells: Map<(isize, isize), char>,
    cur: Coordinates,
    a: Seq<ActionModel>,
    b: Seq<ActionModel>,
)
    ensures
        cursor_after(cur, a + b) == cursor_after(cursor_after(cur, a), b),
        cells_after(cells, cur, a + b) == cells_after(cells_after(cells, cur, a), cursor_after(cur, a), b),
    decreases b.len(),
{
    if b.len() == 0 {
        assert(a + b =~= a);
    } else {
        lemma_after_append(cells, cur, a, b.drop_last());
        assert((a + b).drop_last() =~= a + b.drop_last());
        assert((a + b).last() == b.last());
    }
}

/// Typing `s` in text mode writes it as `write_string_at_cursor` does: the actions that
/// `handle_raw_key` asks for, carried out from cursor `cur`, stay within `isize`, put the
/// characters of `s` rightwards from the cursor and leave the cursor just after them.
pub proof fn lemma_typing_writes_text(cells: Map<(isize, isize), char>, cur: Coordinates, s: Seq<char>)
    requires
        cur.x + s.len() <= isize::MAX,
    ensures
        text_actions(s).len() == 2 * s.len(),
        path_fits(cur, text_actions(s)),
        cursor_after(cur, text_actions(s)) == (Coordinates { x: (cur.x + s.len()) as isize, y: cur.y }),
        cells_after(cells, cur, text_actions(s)) == cells.union_prefer_right(
            crate::text_area::row_of(s, cur.x as int, cur.y),
        ),
    decreases s.len(),
{
    if s.len() == 0 {
        assert(cells.union_prefer_right(crate::text_area::row_of(s, cur.x as int, cur.y)) =~= cells);
    } else {
        let t = s.drop_last();
        let c = last_char(s);
        lemma_typing_writes_text(cells, cur, t);
        let ta = text_actions(t);
        let tail = typed_char(c);
        let acts = text_actions(s);
        lemma_text_actions_last(s);
        lemma_after_append(cells, cur, ta, tail);
        let c1 = cursor_after(cur, ta);
        lemma_typed_char_steps(cells_after(cells, cur, ta), c1, c);
        assert(cells_after(cells, cur, acts) =~= cells.union_prefer_right(
            crate::text_area::row_of(s, cur.x as int, cur.y),
        ));
        assert forall|i: int| 0 <= i < acts.len() implies step_fits(
            cursor_after(cur, #[trigger] acts.take(i)),
            acts[i],
        ) by {
            if i < ta.len() {
                assert(acts.take(i) =~= ta.take(i));
                assert(acts[i] == ta[i]);
            } else if i == ta.len() {
                assert(acts[i] == ActionModel::DrawCharAtCursor(c));
            } else {
                assert(acts.take(i) =~= ta + tail.drop_last());
                lemma_after_append(cells, cur, ta, tail.drop_last());
                assert(acts[i] == ActionModel::CursorRight);
            }
        }
    }
}

} // verus!
