use boxdraw::canvas::{glyph_drawable_exec, Canvas, FontManager, FrameBuffer, Glyph};
use boxdraw::text_area::{BoundingBox, Coordinates};

fn c(x: isize, y: isize) -> Coordinates {
    Coordinates { x, y }
}

fn glyph(xmin: i32, ymin: i32, width: usize, height: usize, bitmap: Vec<u8>) -> Glyph {
    Glyph { xmin, ymin, width, height, bitmap }
}

/// A canvas of 8 by 12 pixels with cells 2 wide and 4 high.
fn small_canvas() -> Canvas {
    Canvas::new(FontManager::new(4), 8, 12)
}

#[test]
fn font_cell_sizes() {
    let f = FontManager::new(24);
    assert_eq!(f.character_height(), 24);
    assert_eq!(f.character_width(), 12);
    assert_eq!(FontManager::new(5).character_width(), 2);
}

#[test]
fn font_keeps_glyphs() {
    let mut f = FontManager::new(4);
    assert!(!f.contains_glyph('a'));
    assert!(f.glyph('a').is_none());
    f.insert_glyph('a', glyph(1, 2, 1, 1, vec![7]));
    assert!(f.contains_glyph('a'));
    let g = f.glyph('a').unwrap();
    assert_eq!((g.xmin, g.ymin, g.width, g.height, g.bitmap.clone()), (1, 2, 1, 1, vec![7]));
    assert!(f.glyph('b').is_none());
}

#[test]
fn new_canvas_is_black_and_split_into_areas() {
    let mut cv = small_canvas();
    assert_eq!(cv.width(), 8);
    assert_eq!(cv.height(), 12);
    assert_eq!(cv.get_buffer(), &[0u32; 96][..]);
    cv.draw_area.move_cursor_by(boxdraw::text_area::Direction::Right, 3);
    assert_eq!(cv.draw_area.cursor_relative_position(), c(3, 0));
    assert!(cv.top_line.chars().is_empty());
}

#[test]
fn frame_buffer_new_has_the_given_size() {
    let _ = FrameBuffer::new(0, 0);
    let _ = FrameBuffer::new(3, 5);
}

#[test]
fn draw_places_glyph_on_its_baseline() {
    let mut cv = small_canvas();
    cv.font.insert_glyph('a', glyph(0, 0, 1, 1, vec![5]));
    let font = FontManager::new(4);
    let mut f = font;
    f.insert_glyph('a', glyph(0, 0, 1, 1, vec![5]));
    cv.frame_buffer.draw(&vec![(c(0, 0), 'a')], &f, c(0, 0));
    let b = cv.get_buffer();
    assert_eq!(b[3 * 8], 0x0005_0505);
    assert_eq!(b.iter().filter(|v| **v != 0).count(), 1);
    cv.frame_buffer.draw(&vec![(c(1, 1), 'a')], &f, c(1, 0));
    let b = cv.get_buffer();
    assert_eq!(b[7 * 8 + 4], 0x0005_0505);
}

#[test]
fn draw_blends_saturating_and_skips_equal_gray() {
    let mut f = FontManager::new(4);
    f.insert_glyph('a', glyph(0, 0, 1, 1, vec![200]));
    f.insert_glyph('b', glyph(0, 0, 1, 1, vec![100]));
    let mut cv = small_canvas();
    cv.frame_buffer.draw(&vec![(c(0, 0), 'a')], &f, c(0, 0));
    assert_eq!(cv.get_buffer()[24], 0x00C8_C8C8);
    cv.frame_buffer.draw(&vec![(c(0, 0), 'a')], &f, c(0, 0));
    assert_eq!(cv.get_buffer()[24], 0x00C8_C8C8);
    cv.frame_buffer.draw(&vec![(c(0, 0), 'b')], &f, c(0, 0));
    assert_eq!(cv.get_buffer()[24], 0x00FF_FFFF);
}

#[test]
fn draw_clips_at_the_left_and_top_edges() {
    let mut f = FontManager::new(4);
    f.insert_glyph('g', glyph(-1, 2, 2, 2, vec![1, 2, 3, 4]));
    let mut cv = small_canvas();
    // origin: x = -1, y = 0 * 4 + (4 - 2 - 2) = 0; the left column is cut off
    cv.frame_buffer.draw(&vec![(c(0, 0), 'g')], &f, c(0, 0));
    let b = cv.get_buffer();
    assert_eq!(b[0], 0x0002_0202);
    assert_eq!(b[8], 0x0004_0404);
    assert_eq!(b.iter().filter(|v| **v != 0).count(), 2);
    let mut f = FontManager::new(4);
    f.insert_glyph('h', glyph(0, 3, 1, 3, vec![7, 8, 9]));
    let mut cv = small_canvas();
    // origin: y = 0 * 4 + (4 - 3 - 3) = -2; only the last bitmap row shows
    cv.frame_buffer.draw(&vec![(c(0, 0), 'h')], &f, c(0, 0));
    let b = cv.get_buffer();
    assert_eq!(b[0], 0x0009_0909);
    assert_eq!(b.iter().filter(|v| **v != 0).count(), 1);
}

#[test]
fn draw_skips_empty_bitmaps_and_glyphs_past_the_edge() {
    let mut f = FontManager::new(4);
    f.insert_glyph(' ', glyph(0, 0, 0, 0, vec![]));
    f.insert_glyph('a', glyph(0, 0, 1, 1, vec![5]));
    let mut cv = small_canvas();
    cv.frame_buffer.draw(&vec![(c(0, 0), ' '), (c(4, 0), 'a')], &f, c(0, 0));
    assert_eq!(cv.get_buffer(), &[0u32; 96][..]);
}

#[test]
fn invert_twice_restores() {
    let f = FontManager::new(4);
    let mut cv = small_canvas();
    cv.frame_buffer.invert(BoundingBox::new(c(0, 0), 1, 1), c(1, 1), &f);
    let b = cv.get_buffer().to_vec();
    for row in 0..12 {
        for col in 0..8 {
            let inside = (4..8).contains(&row) && (2..4).contains(&col);
            assert_eq!(b[row * 8 + col], if inside { 0x00FF_FFFF } else { 0 });
        }
    }
    cv.frame_buffer.invert(BoundingBox::new(c(0, 0), 1, 1), c(1, 1), &f);
    assert_eq!(cv.get_buffer(), &[0u32; 96][..]);
}

#[test]
fn invert_flips_the_color_bytes() {
    let mut f = FontManager::new(4);
    f.insert_glyph('a', glyph(0, 0, 1, 1, vec![0x10]));
    let mut cv = small_canvas();
    cv.frame_buffer.draw(&vec![(c(0, 0), 'a')], &f, c(0, 0));
    cv.frame_buffer.invert(BoundingBox::new(c(0, 0), 2, 1), c(0, 0), &f);
    let b = cv.get_buffer();
    assert_eq!(b[24], 0x00EF_EFEF);
    assert_eq!(b[24 + 3], 0x00FF_FFFF);
    assert_eq!(b[24 + 4], 0);
}

#[test]
fn invert_rows_below_the_frame_are_skipped() {
    let f = FontManager::new(4);
    let mut cv = small_canvas();
    cv.frame_buffer.invert(BoundingBox::new(c(0, 5), 1, 1), c(0, 0), &f);
    assert_eq!(cv.get_buffer(), &[0u32; 96][..]);
    cv.frame_buffer.invert(BoundingBox::new(c(0, 0), 1, 0), c(0, 0), &f);
    assert_eq!(cv.get_buffer(), &[0u32; 96][..]);
}

#[test]
fn clear_paints_black() {
    let f = FontManager::new(4);
    let mut cv = small_canvas();
    cv.frame_buffer.invert(BoundingBox::new(c(0, 0), 4, 3), c(0, 0), &f);
    assert!(cv.get_buffer().iter().all(|v| *v == 0x00FF_FFFF));
    cv.clear();
    assert_eq!(cv.get_buffer(), &[0u32; 96][..]);
}

#[test]
fn render_draws_lines_area_and_cursor() {
    let mut cv = small_canvas();
    cv.font.insert_glyph('a', glyph(0, 0, 1, 1, vec![9]));
    cv.font.insert_glyph('T', glyph(0, 0, 1, 1, vec![1]));
    cv.top_line.write_string_at_cursor("T");
    cv.draw_area.write_at_cursor('a');
    cv.render();
    let b = cv.get_buffer().to_vec();
    // the status line, at the top and again at the bottom row of cells
    assert_eq!(b[3 * 8], 0x0001_0101);
    assert_eq!(b[11 * 8], 0x0001_0101);
    // the drawing area starts one row of cells down; its cursor cell is inverted
    assert_eq!(b[7 * 8], 0x0009_0909 ^ 0x00FF_FFFF);
    assert_eq!(b[4 * 8], 0x00FF_FFFF);
    assert_eq!(b[4 * 8 + 1], 0x00FF_FFFF);
    assert_eq!(b[4 * 8 + 2], 0);
    let nonzero = b.iter().filter(|v| **v != 0).count();
    assert_eq!(nonzero, 2 + 8);
}

#[test]
fn render_follows_the_cursor() {
    let mut cv = small_canvas();
    cv.draw_area.move_cursor_by(boxdraw::text_area::Direction::Right, 2);
    cv.render();
    let b = cv.get_buffer();
    assert_eq!(b[4 * 8 + 4], 0x00FF_FFFF);
    assert_eq!(b[4 * 8 + 3], 0);
    assert_eq!(b.iter().filter(|v| **v != 0).count(), 8);
}

#[test]
fn can_render_checks_the_cursor_cell() {
    let mut cv = small_canvas();
    assert!(cv.can_render());
    cv.draw_area.move_cursor(boxdraw::text_area::Direction::Left);
    assert!(!cv.can_render());
    cv.draw_area.move_cursor_by(boxdraw::text_area::Direction::Right, 4);
    assert!(cv.can_render());
    cv.draw_area.move_cursor(boxdraw::text_area::Direction::Right);
    // the cursor cell would start at column 8, past the frame
    assert!(!cv.can_render());
}

#[test]
fn can_render_needs_glyphs() {
    let mut cv = small_canvas();
    cv.draw_area.write_at_cursor('a');
    assert!(!cv.can_render());
    cv.font.insert_glyph('a', glyph(0, 0, 1, 1, vec![9]));
    assert!(cv.can_render());
}

#[test]
fn glyph_drawability() {
    let g = glyph(0, 0, 1, 1, vec![1]);
    assert!(glyph_drawable_exec(8, 12, c(0, 0), c(0, 0), 2, 4, &g));
    assert!(glyph_drawable_exec(8, 12, c(4, 0), c(0, 0), 2, 4, &g));
    assert!(!glyph_drawable_exec(8, 12, c(5, 0), c(0, 0), 2, 4, &g));
    assert!(!glyph_drawable_exec(8, 12, c(0, 0), c(0, 0), 2, 4, &glyph(0, 0, 2, 1, vec![1])));
    assert!(glyph_drawable_exec(8, 12, c(100, 0), c(0, 0), 2, 4, &glyph(0, 0, 0, 0, vec![])));
    assert!(!glyph_drawable_exec(8, 12, c(isize::MAX, 0), c(1, 0), 2, 4, &g));
}

#[test]
fn missing_glyphs_lists_shown_characters_once() {
    let mut cv = small_canvas();
    cv.top_line.write_string_at_cursor("aab");
    cv.draw_area.write_string_at_cursor("bc");
    cv.bottom_line.write_string_at_cursor("z");
    cv.font.insert_glyph('c', glyph(0, 0, 1, 1, vec![1]));
    let mut missing = cv.missing_glyphs();
    missing.sort();
    assert_eq!(missing, vec!['a', 'b']);
}

#[test]
fn draw_keeps_top_bytes_and_never_darkens() {
    let mut f = FontManager::new(4);
    f.insert_glyph('a', glyph(0, 0, 2, 2, vec![40, 250, 0, 90]));
    f.insert_glyph('b', glyph(0, 0, 2, 2, vec![30, 30, 30, 30]));
    let mut cv = small_canvas();
    cv.frame_buffer.invert(BoundingBox::new(c(0, 0), 1, 1), c(0, 0), &f);
    cv.frame_buffer.draw(&vec![(c(0, 1), 'a')], &f, c(0, 0));
    let before = cv.get_buffer().to_vec();
    cv.frame_buffer.draw(&vec![(c(0, 0), 'b'), (c(0, 1), 'b'), (c(0, 0), 'a')], &f, c(0, 0));
    let after = cv.get_buffer().to_vec();
    assert_eq!(before.len(), after.len());
    let mut changed = 0;
    for (x, y) in before.iter().zip(after.iter()) {
        assert_eq!(x >> 24, y >> 24);
        for shift in [0, 8, 16] {
            assert!((y >> shift) & 0xFF >= (x >> shift) & 0xFF);
        }
        if x != y {
            changed += 1;
        }
    }
    assert!(changed > 0);
    cv.frame_buffer.draw(&vec![], &f, c(0, 0));
    assert_eq!(cv.get_buffer(), &after[..]);
}

#[test]
fn render_ignores_the_old_frame() {
    let mut cv = small_canvas();
    cv.font.insert_glyph('a', glyph(0, 0, 1, 1, vec![9]));
    cv.draw_area.write_at_cursor('a');
    cv.render();
    let once = cv.get_buffer().to_vec();
    cv.render();
    assert_eq!(cv.get_buffer(), &once[..]);
    let f = FontManager::new(4);
    cv.frame_buffer.invert(BoundingBox::new(c(0, 0), 4, 3), c(0, 0), &f);
    cv.render();
    assert_eq!(cv.get_buffer(), &once[..]);
}
