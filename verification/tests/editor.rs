use boxdraw::canvas::{Canvas, FontManager};
use boxdraw::editor::{App, FontSizeChange};
use boxdraw::keymap::{
    Action, Azerty, ExtraMode, InputMode, InputModeIdentifier, Key, NamedKey, TextMode, CTRL, NONE,
};
use boxdraw::text_area::{Coordinates, Direction};

fn ch(s: &str) -> Key {
    Key::Character(s.to_string())
}

fn app() -> App<Azerty> {
    App::new(Azerty, Canvas::new(FontManager::new(4), 40, 24))
}

fn press(a: &mut App<Azerty>, key: Key) -> Vec<FontSizeChange> {
    let actions = a.key_pressed(key);
    a.apply_actions(&actions)
}

#[test]
fn new_app_starts_in_box_mode() {
    let a = app();
    assert_eq!(a.input_mode.identifier(), InputModeIdentifier::Box);
    assert!(a.keys.is_empty());
    assert_eq!(a.modifiers, NONE);
}

#[test]
fn box_keys_draw_and_count_as_held() {
    let mut a = app();
    assert!(press(&mut a, ch("w")).is_empty());
    assert_eq!(a.canvas.draw_area.string_at(Coordinates { x: 0, y: 0 }), "\u{2502}");
    assert_eq!(a.keys, vec![ch("w")]);
    press(&mut a, ch("w"));
    assert_eq!(a.keys, vec![ch("w")]);
    a.key_released(&ch("w"));
    assert!(a.keys.is_empty());
    a.key_released(&ch("w"));
    assert!(a.keys.is_empty());
}

#[test]
fn unbound_keys_are_not_held() {
    let mut a = app();
    press(&mut a, ch("k"));
    assert!(a.keys.is_empty());
}

#[test]
fn arrows_move_and_backspace_erases_left() {
    let mut a = app();
    press(&mut a, ch("x"));
    press(&mut a, Key::Named(NamedKey::ArrowRight));
    press(&mut a, ch("x"));
    assert_eq!(a.canvas.draw_area.string_at(Coordinates { x: 0, y: 0 }), "\u{2500}\u{2500}");
    press(&mut a, Key::Named(NamedKey::ArrowRight));
    press(&mut a, Key::Named(NamedKey::Backspace));
    assert_eq!(a.canvas.draw_area.string_at(Coordinates { x: 0, y: 0 }), "\u{2500}");
    assert_eq!(a.canvas.draw_area.cursor_relative_position(), Coordinates { x: 1, y: 0 });
    press(&mut a, Key::Named(NamedKey::ArrowDown));
    press(&mut a, Key::Named(NamedKey::ArrowUp));
    press(&mut a, Key::Named(NamedKey::ArrowLeft));
    press(&mut a, Key::Named(NamedKey::Delete));
    assert_eq!(a.canvas.draw_area.string_at(Coordinates { x: 0, y: 0 }), "");
}

#[test]
fn font_size_keys_are_reported() {
    let mut a = app();
    assert_eq!(press(&mut a, ch(")")), vec![FontSizeChange::Reduce]);
    assert_eq!(press(&mut a, ch("=")), vec![FontSizeChange::Increase]);
    let changes = a.apply_actions(&vec![
        Action::IncreaseFontSize,
        Action::CursorRight,
        Action::ReduceFontSize,
    ]);
    assert_eq!(changes, vec![FontSizeChange::Increase, FontSizeChange::Reduce]);
}

#[test]
fn undo_and_redo_change_nothing() {
    let mut a = app();
    press(&mut a, ch("a"));
    a.set_modifiers(CTRL);
    assert!(press(&mut a, ch("z")).is_empty());
    assert!(press(&mut a, ch("y")).is_empty());
    assert_eq!(a.canvas.draw_area.string_at(Coordinates { x: 0, y: 0 }), "\u{250C}");
}

#[test]
fn control_keys_switch_modes() {
    let mut a = app();
    a.set_modifiers(CTRL);
    press(&mut a, ch("\u{e9}"));
    assert_eq!(a.input_mode.identifier(), InputModeIdentifier::Text);
    press(&mut a, ch("\""));
    assert_eq!(a.input_mode.identifier(), InputModeIdentifier::Color);
    press(&mut a, ch("'"));
    assert_eq!(a.input_mode.identifier(), InputModeIdentifier::Extra);
    press(&mut a, ch("&"));
    assert_eq!(a.input_mode.identifier(), InputModeIdentifier::Box);
}

#[test]
fn text_mode_types_characters() {
    let mut a = app();
    a.set_modifiers(CTRL);
    press(&mut a, ch("\u{e9}"));
    a.set_modifiers(NONE);
    press(&mut a, ch("h"));
    press(&mut a, ch("i"));
    assert_eq!(a.canvas.draw_area.string_at(Coordinates { x: 0, y: 0 }), "hi");
    assert_eq!(a.canvas.draw_area.cursor_relative_position(), Coordinates { x: 2, y: 0 });
}

#[test]
fn extra_mode_enters_glyphs_by_code() {
    let mut a = app();
    a.set_modifiers(CTRL);
    press(&mut a, ch("'"));
    a.set_modifiers(NONE);
    for k in ["5", "z", "a", "e", "w", "c"] {
        press(&mut a, ch(k));
    }
    a.bottom_line();
    assert_eq!(a.canvas.bottom_line.string_at(Coordinates { x: 0, y: 0 }), "Char code: 5zaewc");
    press(&mut a, Key::Named(NamedKey::Space));
    assert_eq!(a.canvas.draw_area.string_at(Coordinates { x: 0, y: 0 }), "\u{100420}");
    a.bottom_line();
    assert_eq!(a.canvas.bottom_line.string_at(Coordinates { x: 0, y: 0 }), "");
}

#[test]
fn handle_raw_key_ignores_modifiers() {
    let mut a = app();
    a.input_mode = InputMode::Text(TextMode);
    let actions = a.handle_raw_key(&ch("q"), CTRL);
    assert_eq!(actions.len(), 2);
    a.input_mode = InputMode::Extra(ExtraMode { buffer: Vec::new() });
    assert!(a.handle_raw_key(&ch("1"), CTRL).is_empty());
}

#[test]
fn handle_action_transition_copies_mode() {
    let mut a = app();
    let r = a.handle_action(&Action::Transition(InputMode::Extra(ExtraMode { buffer: vec!['1'] })));
    assert_eq!(r, None);
    match &a.input_mode {
        InputMode::Extra(e) => assert_eq!(e.buffer, vec!['1']),
        _ => panic!("expected extra mode"),
    }
    assert_eq!(a.handle_action(&Action::DrawCharAtCursor('k')), None);
    assert_eq!(a.canvas.draw_area.string_at(Coordinates { x: 0, y: 0 }), "k");
}

#[test]
fn can_apply_checks_the_cursor_range() {
    let mut a = app();
    assert!(a.can_apply(&vec![Action::CursorLeft, Action::CursorUp]));
    a.canvas.draw_area.move_cursor_by(Direction::Left, isize::MAX as usize);
    a.canvas.draw_area.move_cursor(Direction::Left);
    assert_eq!(a.canvas.draw_area.cursor_relative_position().x, isize::MIN);
    assert!(!a.can_apply(&vec![Action::CursorLeft]));
    assert!(a.can_apply(&vec![Action::CursorRight, Action::CursorLeft, Action::CursorLeft]) == false);
    assert!(a.can_apply(&vec![Action::CursorRight, Action::CursorLeft]));
}

#[test]
fn top_line_replaces_its_text() {
    let mut a = app();
    a.top_line("X = 0, Y = 0, mode = Box, keys = []");
    assert_eq!(
        a.canvas.top_line.string_at(Coordinates { x: 0, y: 0 }),
        "X = 0, Y = 0, mode = Box, keys = []"
    );
    a.top_line("X = 1");
    assert_eq!(a.canvas.top_line.string_at(Coordinates { x: 0, y: 0 }), "X = 1");
    assert_eq!(a.canvas.top_line.cursor_relative_position(), Coordinates { x: 5, y: 0 });
    assert_eq!(a.canvas.draw_area.string_at(Coordinates { x: 0, y: 0 }), "");
}

#[test]
fn typing_in_text_mode_writes_like_write_string() {
    let mut typed = app();
    typed.input_mode = InputMode::Text(TextMode);
    press(&mut typed, Key::Named(NamedKey::ArrowDown));
    press(&mut typed, ch("h\u{e9}"));
    press(&mut typed, ch("!"));
    let mut written = app();
    written.canvas.draw_area.move_cursor(Direction::Down);
    written.canvas.draw_area.write_string_at_cursor("h\u{e9}!");
    assert_eq!(typed.canvas.draw_area.chars(), written.canvas.draw_area.chars());
    assert_eq!(
        typed.canvas.draw_area.cursor_relative_position(),
        written.canvas.draw_area.cursor_relative_position()
    );
    assert_eq!(typed.canvas.draw_area.cursor_relative_position(), Coordinates { x: 3, y: 1 });
}

#[test]
fn backspace_takes_back_a_typed_code_character() {
    let mut a = app();
    a.input_mode = InputMode::Extra(ExtraMode { buffer: vec!['5', 'z'] });
    assert!(a.key_pressed(ch("a")).is_empty());
    assert!(a.key_pressed(Key::Named(NamedKey::Backspace)).is_empty());
    match &a.input_mode {
        InputMode::Extra(e) => assert_eq!(e.buffer, vec!['5', 'z']),
        _ => panic!("expected extra mode"),
    }
    assert_eq!(a.canvas.draw_area.chars(), vec![]);
}

#[test]
fn key_event_applies_bound_actions_in_order() {
    let mut a = app();
    let (actions, changes) = a.key_event(Key::Named(NamedKey::Backspace), true);
    assert_eq!(actions.len(), 2);
    assert!(changes.unwrap().is_empty());
    assert_eq!(a.canvas.draw_area.cursor_relative_position(), Coordinates { x: -1, y: 0 });
    let (_, changes) = a.key_event(ch("x"), true);
    assert!(changes.unwrap().is_empty());
    assert_eq!(a.keys.len(), 2);
    assert_eq!(a.canvas.draw_area.string_at(Coordinates { x: -1, y: 0 }), "\u{2500}");
    let (actions, changes) = a.key_event(ch("x"), false);
    assert!(actions.is_empty());
    assert!(changes.unwrap().is_empty());
    assert_eq!(a.keys, vec![Key::Named(NamedKey::Backspace)]);
    let (_, changes) = a.key_event(ch(")"), true);
    assert_eq!(changes.unwrap(), vec![FontSizeChange::Reduce]);
}

#[test]
fn key_event_refuses_a_cursor_overflow() {
    let mut a = app();
    a.canvas.draw_area.move_cursor_by(Direction::Left, isize::MAX as usize);
    a.canvas.draw_area.move_cursor(Direction::Left);
    let (actions, changes) = a.key_event(Key::Named(NamedKey::ArrowLeft), true);
    assert_eq!(actions.len(), 1);
    assert!(changes.is_none());
    assert_eq!(a.canvas.draw_area.cursor_relative_position(), Coordinates { x: isize::MIN, y: 0 });
}

#[test]
fn key_event_ends_codes_on_unicode_white_space_only() {
    let mut a = app();
    a.input_mode = InputMode::Extra(ExtraMode { buffer: Vec::new() });
    for k in ["5", "z", "a", "e", "w", "\u{200B}"] {
        a.key_event(ch(k), true);
    }
    match &a.input_mode {
        InputMode::Extra(e) => assert_eq!(e.buffer.len(), 6),
        _ => panic!("expected extra mode"),
    }
    a.key_event(Key::Named(NamedKey::Backspace), true);
    a.key_event(ch("c"), true);
    a.key_event(ch("\u{3000}"), true);
    match &a.input_mode {
        InputMode::Extra(e) => assert!(e.buffer.is_empty()),
        _ => panic!("expected extra mode"),
    }
    assert_eq!(a.canvas.draw_area.string_at(Coordinates { x: 0, y: 0 }), "\u{100420}");
}
