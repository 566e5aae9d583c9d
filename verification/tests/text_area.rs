use boxdraw::text_area::{BoundingBox, Coordinates, Direction, TextArea, TextStorage};

fn c(x: isize, y: isize) -> Coordinates {
    Coordinates { x, y }
}

#[test]
fn coordinates_min_max_abs() {
    let p = c(-3, 7);
    assert_eq!(p.min(0), c(-3, 0));
    assert_eq!(p.max(0), c(0, 7));
    assert_eq!(p.unsigned_abs(), (3, 7));
    assert_eq!(c(isize::MIN, 0).unsigned_abs(), (isize::MIN.unsigned_abs(), 0));
}

#[test]
fn coordinates_arithmetic() {
    let a = c(2, -3);
    let b = c(5, 4);
    assert_eq!(a + b, c(7, 1));
    assert_eq!(a - b, c(-3, -7));
    assert_eq!(a * b, c(10, -12));
    assert_eq!(a * -2, c(-4, 6));
    let mut d = a;
    d.add_assign(b);
    assert_eq!(d, c(7, 1));
    d.sub_assign(b);
    assert_eq!(d, a);
    d.mul_assign(3);
    assert_eq!(d, c(6, -9));
    assert_eq!(Coordinates::from((4, 5)), c(4, 5));
}

#[test]
fn bounding_box_contains_and_relative() {
    let b = BoundingBox::new(c(2, 3), 4, 2);
    assert_eq!(BoundingBox::from((c(2, 3), 4, 2)), b);
    assert!(b.contains(&c(2, 3)));
    assert!(b.contains(&c(5, 4)));
    assert!(!b.contains(&c(6, 4)));
    assert!(!b.contains(&c(5, 5)));
    assert!(!b.contains(&c(1, 3)));
    assert_eq!(b.convert_to_relative(&c(5, 4)), Some(c(3, 1)));
    assert_eq!(b.convert_to_relative(&c(6, 4)), None);
}

#[test]
fn bounding_box_saturates_at_isize_max() {
    let b = BoundingBox::new(c(isize::MAX - 1, 0), 10, 1);
    assert!(b.contains(&c(isize::MAX - 1, 0)));
    assert!(!b.contains(&c(isize::MAX, 0)));
}

#[test]
fn direction_vectors() {
    assert_eq!(Direction::Up.vector(), c(0, -1));
    assert_eq!(Direction::Right.vector(), c(1, 0));
    assert_eq!(Direction::Down.vector(), c(0, 1));
    assert_eq!(Direction::Left.vector(), c(-1, 0));
}

#[test]
fn storage_lists_cells_in_box_relative() {
    let s = TextStorage::new();
    assert!(s.characters_in_bounding_box(BoundingBox::new(c(0, 0), 5, 5)).is_empty());
}

#[test]
fn new_area_is_empty_with_cursor_at_origin() {
    let mut a = TextArea::new(10, 4);
    assert_eq!(a.cursor_relative_position(), c(0, 0));
    assert!(a.chars().is_empty());
    assert_eq!(a.string_at(c(0, 0)), "");
}

#[test]
fn write_and_read_at_cursor() {
    let mut a = TextArea::new(10, 4);
    a.write_at_cursor('x');
    assert_eq!(a.string_at(c(0, 0)), "x");
    a.write_at_cursor('y');
    assert_eq!(a.string_at(c(0, 0)), "y");
    a.erase_at_cursor();
    assert_eq!(a.string_at(c(0, 0)), "");
}

#[test]
fn erase_after_write_restores_empty_cell() {
    let mut a = TextArea::new(10, 4);
    a.write_string_at_cursor("ab");
    a.move_cursor(Direction::Right);
    a.write_at_cursor('z');
    a.erase_at_cursor();
    assert_eq!(a.string_at(c(0, 0)), "ab");
    let mut cells = a.chars();
    cells.sort_by_key(|(p, _)| (p.x, p.y));
    assert_eq!(cells, vec![(c(0, 0), 'a'), (c(1, 0), 'b')]);
}

#[test]
fn move_cursor_and_back() {
    let mut a = TextArea::new(10, 4);
    a.move_cursor(Direction::Right);
    a.move_cursor(Direction::Down);
    assert_eq!(a.cursor_relative_position(), c(1, 1));
    a.move_cursor(Direction::Left);
    a.move_cursor(Direction::Up);
    assert_eq!(a.cursor_relative_position(), c(0, 0));
    a.move_cursor(Direction::Left);
    assert_eq!(a.cursor_relative_position(), c(-1, 0));
}

#[test]
fn move_cursor_by_amount() {
    let mut a = TextArea::new(10, 4);
    a.move_cursor_by(Direction::Down, 3);
    a.move_cursor_by(Direction::Right, 5);
    assert_eq!(a.cursor_relative_position(), c(5, 3));
    a.move_cursor_by(Direction::Left, 7);
    assert_eq!(a.cursor_relative_position(), c(-2, 3));
    a.move_cursor_by(Direction::Up, 0);
    assert_eq!(a.cursor_relative_position(), c(-2, 3));
}

#[test]
fn string_at_stops_at_first_gap() {
    let mut a = TextArea::new(10, 4);
    a.write_string_at_cursor("abc");
    a.move_cursor(Direction::Right);
    a.write_string_at_cursor("de");
    assert_eq!(a.string_at(c(0, 0)), "abc");
    assert_eq!(a.string_at(c(1, 0)), "bc");
    assert_eq!(a.string_at(c(4, 0)), "de");
    assert_eq!(a.string_at(c(3, 0)), "");
    assert_eq!(a.string_at(c(0, 1)), "");
}

#[test]
fn write_string_moves_cursor_after_it() {
    let mut a = TextArea::new(10, 4);
    a.move_cursor(Direction::Down);
    a.write_string_at_cursor("h\u{e9}llo");
    assert_eq!(a.cursor_relative_position(), c(5, 1));
    assert_eq!(a.string_at(c(0, 1)), "h\u{e9}llo");
}

#[test]
fn replace_with_string_reads_back() {
    let mut a = TextArea::new(10, 4);
    a.write_string_at_cursor("old text");
    a.move_cursor(Direction::Down);
    a.write_at_cursor('q');
    a.replace_with_string("new");
    assert_eq!(a.string_at(c(0, 0)), "new");
    assert_eq!(a.cursor_relative_position(), c(3, 0));
    assert_eq!(a.chars().len(), 3);
}

#[test]
fn clear_and_reset() {
    let mut a = TextArea::new(10, 4);
    a.write_string_at_cursor("abc");
    a.clear();
    assert_eq!(a.string_at(c(0, 0)), "");
    assert_eq!(a.cursor_relative_position(), c(3, 0));
    a.reset_cursor();
    assert_eq!(a.cursor_relative_position(), c(0, 0));
}

#[test]
fn chars_lists_only_cells_in_the_area() {
    let mut a = TextArea::new(3, 2);
    a.write_string_at_cursor("abcd");
    a.move_cursor(Direction::Down);
    a.write_at_cursor('e');
    a.move_cursor(Direction::Down);
    a.write_at_cursor('f');
    a.move_cursor_by(Direction::Left, 10);
    a.write_at_cursor('g');
    let mut cells = a.chars();
    cells.sort_by_key(|(p, _)| (p.y, p.x));
    assert_eq!(cells, vec![(c(0, 0), 'a'), (c(1, 0), 'b'), (c(2, 0), 'c')]);
    a.move_cursor_by(Direction::Right, 8);
    a.move_cursor(Direction::Up);
    a.write_at_cursor('h');
    let mut cells = a.chars();
    cells.sort_by_key(|(p, _)| (p.y, p.x));
    assert_eq!(cells, vec![(c(0, 0), 'a'), (c(1, 0), 'b'), (c(2, 0), 'c'), (c(2, 1), 'h')]);
}

#[test]
fn ensure_cache_keeps_contents() {
    let mut a = TextArea::new(4, 4);
    a.write_at_cursor('k');
    a.ensure_cache();
    a.ensure_cache();
    assert_eq!(a.chars(), vec![(c(0, 0), 'k')]);
    assert_eq!(a.chars(), vec![(c(0, 0), 'k')]);
}

#[test]
fn chars_come_by_column_then_row() {
    let mut a = TextArea::new(4, 4);
    a.move_cursor(Direction::Right);
    a.write_at_cursor('a');
    a.move_cursor(Direction::Left);
    a.move_cursor(Direction::Down);
    a.write_at_cursor('b');
    a.move_cursor(Direction::Up);
    a.write_at_cursor('c');
    a.move_cursor_by(Direction::Right, 2);
    a.move_cursor_by(Direction::Down, 2);
    a.write_at_cursor('d');
    let expected = vec![(c(0, 0), 'c'), (c(0, 1), 'b'), (c(1, 0), 'a'), (c(2, 2), 'd')];
    assert_eq!(a.chars(), expected);
    let mut b = TextArea::new(4, 4);
    for (p, ch) in expected.iter().rev() {
        b.reset_cursor();
        b.move_cursor_by(Direction::Right, p.x as usize);
        b.move_cursor_by(Direction::Down, p.y as usize);
        b.write_at_cursor(*ch);
    }
    assert_eq!(b.chars(), a.chars());
}
