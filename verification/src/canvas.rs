//! The frame buffer into which the grid is rendered: glyph bitmaps blended into pixels,
//! and cells inverted to show the cursor.

use crate::text_area::{
    lemma_area_at_origin, lemma_listing_unique, fits_isize, int_abs, int_max, int_min,
    listed_in_order, lists_view_of,
    BoundingBox, Coordinates, TextArea,
};
use std::collections::HashMap;
use vstd::arithmetic::div_mod::{lemma_fundamental_div_mod, lemma_fundamental_div_mod_converse};
use vstd::prelude::*;

verus! {

/// Whether pixel `p` of a buffer `w` pixels wide lies in the rectangle of `rows` rows and
/// `cols` columns at row `r0`, column `c0`, among its first `done_rows` rows and the first
/// `done_cols` pixels of the row after them.
pub open spec fn in_rect_prefix(
    p: int,
    w: int,
    r0: int,
    c0: int,
    cols: int,
    done_rows: int,
    done_cols: int,
) -> bool {
    let r = p / w;
    let c = p % w;
    ||| (r0 <= r < r0 + done_rows && c0 <= c < c0 + cols)
    ||| (r == r0 + done_rows && c0 <= c < c0 + done_cols)
}

/// `buf` with `f` applied to the pixels of the rectangle at row `r0`, column `c0`, up to
/// `done_rows` full rows and `done_cols` pixels of the next; `f` gets the pixel's row and
/// column in the rectangle and its old value.
pub open spec fn rect_map(
    buf: Seq<u32>,
    w: int,
    r0: int,
    c0: int,
    cols: int,
    done_rows: int,
    done_cols: int,
    f: spec_fn(int, int, u32) -> u32,
) -> Seq<u32> {
    Seq::new(
        buf.len(),
        |p: int|
            if in_rect_prefix(p, w, r0, c0, cols, done_rows, done_cols) {
                f(p / w - r0, p % w - c0, buf[p])
            } else {
                buf[p]
            },
    )
}

/// Row-major indices: `(r, c)` of a grid `w` wide and `h` high is pixel `r * w + c`.
proof fn lemma_grid_index(r: int, c: int, w: int, h: int)
    requires
        0 <= r < h,
        0 <= c < w,
    ensures
        0 <= r * w + c < h * w,
        r * w + c < w * h,
        (r * w + c) / w == r,
        (r * w + c) % w == c,
{
    assert(0 <= r * w + c < h * w && h * w == w * h) by (nonlinear_arith)
        requires
            0 <= r < h,
            0 <= c < w,
    ;
    lemma_fundamental_div_mod_converse(r * w + c, w, r, c);
}

/// One more pixel of a rectangle: applying `f` at the next pixel extends the prefix.
proof fn lemma_rect_step(
    orig: Seq<u32>,
    cur: Seq<u32>,
    w: int,
    h: int,
    r0: int,
    c0: int,
    cols: int,
    r: int,
    j: int,
    f: spec_fn(int, int, u32) -> u32,
)
    requires
        w > 0,
        orig.len() == w * h,
        cur == rect_map(orig, w, r0, c0, cols, r, j, f),
        0 <= r0 + r < h,
        0 <= c0,
        0 <= j < cols,
        c0 + cols <= w,
    ensures
        0 <= (r0 + r) * w + c0 + j < orig.len(),
        cur[(r0 + r) * w + c0 + j] == orig[(r0 + r) * w + c0 + j],
        cur.update(
            (r0 + r) * w + c0 + j,
            f(r, j, orig[(r0 + r) * w + c0 + j]),
        ) == rect_map(orig, w, r0, c0, cols, r, j + 1, f),
{
    let idx = (r0 + r) * w + c0 + j;
    lemma_grid_index(r0 + r, c0 + j, w, h);
    let next = rect_map(orig, w, r0, c0, cols, r, j + 1, f);
    assert forall|p: int| 0 <= p < orig.len() implies #[trigger] cur.update(idx, f(r, j, orig[idx]))[p]
        == next[p] by {
        lemma_fundamental_div_mod(p, w);
        if p != idx {
            if p / w == r0 + r && p % w == c0 + j {
                assert(p == w * (p / w) + p % w);
                assert(w * (r0 + r) == (r0 + r) * w) by (nonlinear_arith);
                assert(false);
            }
            assert(in_rect_prefix(p, w, r0, c0, cols, r, j) == in_rect_prefix(p, w, r0, c0, cols, r, j + 1));
            assert(cur.update(idx, f(r, j, orig[idx]))[p] == cur[p]);
        } else {
            assert(in_rect_prefix(p, w, r0, c0, cols, r, j + 1));
            assert(next[p] == f(r, j, orig[idx]));
        }
    }
    assert(cur.update(idx, f(r, j, orig[idx])) =~= next);
}

/// A finished row of a rectangle is the start of the next.
proof fn lemma_rect_row_done(
    orig: Seq<u32>,
    w: int,
    r0: int,
    c0: int,
    cols: int,
    r: int,
    f: spec_fn(int, int, u32) -> u32,
)
    requires
        w > 0,
        cols >= 0,
        r >= 0,
    ensures
        rect_map(orig, w, r0, c0, cols, r, cols, f) == rect_map(orig, w, r0, c0, cols, r + 1, 0, f),
{
    assert(rect_map(orig, w, r0, c0, cols, r, cols, f) =~= rect_map(
        orig,
        w,
        r0,
        c0,
        cols,
        r + 1,
        0,
        f,
    ));
}

/// An empty prefix changes nothing.
proof fn lemma_rect_empty(
    orig: Seq<u32>,
    w: int,
    r0: int,
    c0: int,
    cols: int,
    f: spec_fn(int, int, u32) -> u32,
)
    ensures
        rect_map(orig, w, r0, c0, cols, 0, 0, f) == orig,
{
    assert(rect_map(orig, w, r0, c0, cols, 0, 0, f) =~= orig);
}

/// `a + b`, clamped to a byte.
pub open spec fn saturating_byte(a: int, b: int) -> int {
    if a + b > 255 { 255 } else { a + b }
}

/// The gray pixel of a bitmap value `v`: `v` in each color byte.
pub open spec fn gray(v: u8) -> u32 {
    (v as u32 * 0x10101) as u32
}

/// A glyph's coverage `v` blended into pixel `d`: each color byte of `d` raised by `v`,
/// saturating, unless `d` already is the gray of `v`. The top byte is kept.
pub open spec fn blend(d: u32, v: u8) -> u32 {
    if d == gray(v) {
        d
    } else {
        (d / 0x1000000 * 0x1000000 + saturating_byte(((d / 0x10000) % 0x100) as int, v as int)
            * 0x10000 + saturating_byte(((d / 0x100) % 0x100) as int, v as int) * 0x100
            + saturating_byte((d % 0x100) as int, v as int)) as u32
    }
}

/// Pixel `v` with its color bytes inverted and its top byte kept.
pub open spec fn inverted(v: u32) -> u32 {
    v ^ 0x00FF_FFFF
}

/// Whether pixel `after` keeps the top byte of `before` and has none of its color bytes
/// lower.
pub open spec fn brightens(before: u32, after: u32) -> bool {
    &&& after / 0x1000000 == before / 0x1000000
    &&& (after / 0x10000) % 0x100 >= (before / 0x10000) % 0x100
    &&& (after / 0x100) % 0x100 >= (before / 0x100) % 0x100
    &&& after % 0x100 >= before % 0x100
}

/// Whether `after` is `before` with each pixel kept or brightened, as `brightens` says.
pub open spec fn only_brightens(before: Seq<u32>, after: Seq<u32>) -> bool {
    &&& after.len() == before.len()
    &&& forall|k: int| 0 <= k < before.len() ==> brightens(#[trigger] before[k], after[k])
}

/// The bytes of a pixel put together from a top byte and three color bytes.
proof fn lemma_pixel_bytes(t: int, b1: int, b2: int, b3: int)
    requires
        0 <= t < 0x100,
        0 <= b1 < 0x100,
        0 <= b2 < 0x100,
        0 <= b3 < 0x100,
    ensures
        ({
            let x = t * 0x1000000 + b1 * 0x10000 + b2 * 0x100 + b3;
            &&& x / 0x1000000 == t
            &&& (x / 0x10000) % 0x100 == b1
            &&& (x / 0x100) % 0x100 == b2
            &&& x % 0x100 == b3
        }),
{
    let x = t * 0x1000000 + b1 * 0x10000 + b2 * 0x100 + b3;
    lemma_fundamental_div_mod_converse(x, 0x1000000, t, b1 * 0x10000 + b2 * 0x100 + b3);
    lemma_fundamental_div_mod_converse(x, 0x10000, t * 0x100 + b1, b2 * 0x100 + b3);
    lemma_fundamental_div_mod_converse(t * 0x100 + b1, 0x100, t, b1);
    lemma_fundamental_div_mod_converse(x, 0x100, t * 0x10000 + b1 * 0x100 + b2, b3);
    lemma_fundamental_div_mod_converse(t * 0x10000 + b1 * 0x100 + b2, 0x100, t * 0x100 + b1, b2);
    lemma_fundamental_div_mod_converse(x, 0x100, t * 0x10000 + b1 * 0x100 + b2, b3);
}

/// Blending never darkens a pixel and keeps its top byte.
proof fn lemma_blend_brightens(d: u32, v: u8)
    ensures
        brightens(d, blend(d, v)),
{
    if d != gray(v) {
        let t = d / 0x1000000;
        let b1 = (d / 0x10000) % 0x100;
        let b2 = (d / 0x100) % 0x100;
        let b3 = d % 0x100;
        assert(t < 0x100);
        let s1 = saturating_byte(b1 as int, v as int);
        let s2 = saturating_byte(b2 as int, v as int);
        let s3 = saturating_byte(b3 as int, v as int);
        lemma_pixel_bytes(t as int, s1, s2, s3);
        assert(t * 0x1000000 + s1 * 0x10000 + s2 * 0x100 + s3 <= 0xFFFF_FFFF);
    }
}

/// Blending coverage `v` into pixel `d`: where `d` is not already the gray `v`
/// (each color byte `v`), the top byte stays and each color byte `b` becomes
/// `b + v`, capped at 255; where it is, the pixel stays.
pub proof fn lemma_blend_bytes(d: u32, v: u8)
    ensures
        d == (v as u32) * 0x010101 ==> blend(d, v) == d,
        d != (v as u32) * 0x010101 ==> {
            let n = blend(d, v);
            &&& n / 0x1000000 == d / 0x1000000
            &&& (n / 0x10000) % 0x100 == if (d / 0x10000) % 0x100 + v > 255 { 255 } else { (d / 0x10000) % 0x100 + v }
            &&& (n / 0x100) % 0x100 == if (d / 0x100) % 0x100 + v > 255 { 255 } else { (d / 0x100) % 0x100 + v }
            &&& n % 0x100 == if d % 0x100 + v > 255 { 255 } else { d % 0x100 + v }
        },
{
    if d != gray(v) {
        let t = d / 0x1000000;
        assert(t < 0x100);
        lemma_pixel_bytes(
            t as int,
            saturating_byte(((d / 0x10000) % 0x100) as int, v as int),
            saturating_byte(((d / 0x100) % 0x100) as int, v as int),
            saturating_byte((d % 0x100) as int, v as int),
        );
    }
}

/// Inverting a pixel keeps its top byte and turns each color byte `b` into `255 - b`.
pub proof fn lemma_inverted_bytes(v: u32)
    ensures
        inverted(v) >> 24u32 == v >> 24u32,
        (inverted(v) >> 16u32) & 0xFF == 255 - ((v >> 16u32) & 0xFF),
        (inverted(v) >> 8u32) & 0xFF == 255 - ((v >> 8u32) & 0xFF),
        inverted(v) & 0xFF == 255 - (v & 0xFF),
{
    assert((v ^ 0x00FF_FFFFu32) >> 24u32 == v >> 24u32) by (bit_vector);
    assert(((v ^ 0x00FF_FFFFu32) >> 16u32) & 0xFF == 255 - ((v >> 16u32) & 0xFF)) by (bit_vector);
    assert(((v ^ 0x00FF_FFFFu32) >> 8u32) & 0xFF == 255 - ((v >> 8u32) & 0xFF)) by (bit_vector);
    assert((v ^ 0x00FF_FFFFu32) & 0xFF == 255 - (v & 0xFF)) by (bit_vector);
}

fn saturating_byte_exec(a: u32, b: u32) -> (r: u32)
    requires
        a <= 255,
        b <= 255,
    ensures
        r == saturating_byte(a as int, b as int),
        r <= 255,
{
    if a + b > 255 {
        255
    } else {
        a + b
    }
}

fn blend_exec(d: u32, v: u8) -> (r: u32)
    ensures
        r == blend(d, v),
{
    let vv = v as u32;
    let g = vv * 0x10101;
    if d == g {
        d
    } else {
        let top = d / 0x1000000;
        let b1 = (d / 0x10000) % 0x100;
        let b2 = (d / 0x100) % 0x100;
        let b3 = d % 0x100;
        assert(top <= 255) by (nonlinear_arith)
            requires
                top == d / 0x1000000,
                d <= 0xFFFF_FFFF,
        ;
        let s1 = saturating_byte_exec(b1, vv);
        let s2 = saturating_byte_exec(b2, vv);
        let s3 = saturating_byte_exec(b3, vv);
        top * 0x1000000 + s1 * 0x10000 + s2 * 0x100 + s3
    }
}

/// A rasterized glyph: its bitmap of `height` rows of `width` coverage values, and the
/// offset of its bottom left corner from the pen position.
#[derive(Clone, Debug)]
pub struct Glyph {
    pub xmin: i32,
    pub ymin: i32,
    pub width: usize,
    pub height: usize,
    pub bitmap: Vec<u8>,
}

impl Glyph {
    /// The bitmap holds `height` rows of `width` values.
    pub open spec fn wf(&self) -> bool {
        self.bitmap@.len() == self.width * self.height
    }
}

/// The glyphs rasterized so far, by character, and the size of a character cell.
///
/// A font manager serves one font at one size (a new size gets a new manager), so a
/// glyph is found again by its character's code alone; the code is a `u32`, a key type
/// that vstd's `HashMap` specification covers.
pub struct FontManager {
    glyphs: HashMap<u32, Glyph>,
    character_height: usize,
}

impl FontManager {
    /// The glyphs at hand, by character code.
    pub closed spec fn glyph_map(&self) -> Map<u32, Glyph> {
        self.glyphs@
    }

    /// The height of a character cell in pixels.
    pub closed spec fn cell_height(&self) -> usize {
        self.character_height
    }

    /// The width of a character cell: half its height.
    pub open spec fn cell_width(&self) -> usize {
        (self.cell_height() / 2) as usize
    }

    /// Every glyph at hand is well formed.
    pub open spec fn wf(&self) -> bool {
        forall|k: u32| #[trigger] self.glyph_map().contains_key(k) ==> self.glyph_map()[k].wf()
    }

    /// A font with cells `character_height` pixels high and no glyph yet.
    pub fn new(character_height: usize) -> (r: Self)
        ensures
            r.wf(),
            r.glyph_map() == Map::<u32, Glyph>::empty(),
            r.cell_height() == character_height,
    {
        FontManager { glyphs: HashMap::new(), character_height }
    }

    pub fn character_height(&self) -> (r: usize)
        ensures
            r == self.cell_height(),
    {
        self.character_height
    }

    pub fn character_width(&self) -> (r: usize)
        ensures
            r == self.cell_width(),
    {
        self.character_height() / 2
    }

    /// Keeps `glyph` as the glyph of `c`.
    pub fn insert_glyph(&mut self, c: char, glyph: Glyph)
        requires
            old(self).wf(),
            glyph.wf(),
        ensures
            final(self).wf(),
            final(self).glyph_map() == old(self).glyph_map().insert(c as u32, glyph),
            final(self).cell_height() == old(self).cell_height(),
    {
        let ghost old_map = self.glyph_map();
        self.glyphs.insert(c as u32, glyph);
        assert forall|k: u32| #[trigger] self.glyph_map().contains_key(k) implies self.glyph_map()[k].wf() by {
            if k != c as u32 {
                assert(old_map.contains_key(k));
            }
        }
    }

    /// Whether the glyph of `c` is at hand.
    pub fn contains_glyph(&self, c: char) -> (r: bool)
        ensures
            r == self.glyph_map().contains_key(c as u32),
    {
        let k = c as u32;
        self.glyphs.contains_key(&k)
    }

    /// The glyph of `c`, if at hand.
    pub fn glyph(&self, c: char) -> (r: Option<&Glyph>)
        ensures
            r is Some <==> self.glyph_map().contains_key(c as u32),
            r matches Some(g) ==> *g == self.glyph_map()[c as u32],
    {
        let k = c as u32;
        self.glyphs.get(&k)
    }
}

/// A buffer of pixels, `width` per row, row after row.
pub struct FrameBuffer {
    buffer: Vec<u32>,
    width: usize,
    height: usize,
}

impl FrameBuffer {
    pub closed spec fn pixels(&self) -> Seq<u32> {
        self.buffer@
    }

    pub closed spec fn frame_width(&self) -> usize {
        self.width
    }

    pub closed spec fn frame_height(&self) -> usize {
        self.height
    }

    /// The buffer holds exactly `width * height` pixels.
    pub open spec fn wf(&self) -> bool {
        self.pixels().len() == self.frame_width() * self.frame_height()
    }

    /// A black frame of `width` by `height` pixels.
    pub fn new(width: usize, height: usize) -> (r: Self)
        requires
            width * height <= usize::MAX,
        ensures
            r.wf(),
            r.frame_width() == width,
            r.frame_height() == height,
            r.pixels() == Seq::new((width * height) as nat, |i: int| 0u32),
    {
        let buffer = vec![0u32; width * height];
        assert(buffer@ =~= Seq::new((width * height) as nat, |i: int| 0u32));
        FrameBuffer { buffer, width, height }
    }
}

/// Where the glyph of the cell at `coord`, with the grid moved by `top_left`, starts in
/// pixels: the cell's corner, raised to the glyph's baseline and shifted by its offset.
pub open spec fn glyph_origin(coord: Coordinates, top_left: Coordinates, cw: usize, ch: usize, g: Glyph) -> (
    int,
    int,
) {
    (
        (coord.x + top_left.x) * (cw as isize) + g.xmin,
        (coord.y + top_left.y) * (ch as isize) + ((ch as isize) - g.ymin - (g.height as isize)),
    )
}

/// Every step of computing the glyph origin fits in `isize`.
pub open spec fn origin_fits(coord: Coordinates, top_left: Coordinates, cw: usize, ch: usize, g: Glyph) -> bool {
    &&& fits_isize(coord.x + top_left.x)
    &&& fits_isize(coord.y + top_left.y)
    &&& fits_isize((coord.x + top_left.x) * (cw as isize))
    &&& fits_isize((coord.y + top_left.y) * (ch as isize))
    &&& fits_isize((ch as isize) - g.ymin)
    &&& fits_isize((ch as isize) - g.ymin - (g.height as isize))
    &&& fits_isize(glyph_origin(coord, top_left, cw, ch, g).0)
    &&& fits_isize(glyph_origin(coord, top_left, cw, ch, g).1)
}

/// The rectangle of a buffer `w` pixels wide and `h` high that a glyph starting at
/// `(ox, oy)` covers, and the part of its bitmap shown there:
/// `(column, row, columns, rows, bitmap column, bitmap row)`. Visible widths are clamped
/// against the buffer width, heights against the buffer width too.
pub open spec fn glyph_window(w: int, h: int, ox: int, oy: int, g: Glyph) -> (int, int, int, int, int, int) {
    let bx = int_max(ox, 0);
    let by = int_max(oy, 0);
    let dw = int_abs(int_min(ox, 0));
    let dh = int_abs(int_min(oy, 0));
    let shown_w = int_min(g.width as int, w - bx);
    let shown_h = int_min(g.height as int, w - by);
    let cols = shown_w - dw;
    let rows = int_min(int_min(shown_h - dh, h - by), g.height - dh);
    (bx, by, cols, rows, dw, dh)
}

/// Whether the glyph `g` of the cell at `coord` can be drawn into a buffer `w` by `h`
/// without an arithmetic overflow or an out-of-range slice.
pub open spec fn glyph_drawable(w: int, h: int, coord: Coordinates, top_left: Coordinates, cw: usize, ch: usize, g: Glyph) -> bool {
    &&& g.wf()
    &&& g.bitmap@.len() > 0 ==> {
        let (ox, oy) = glyph_origin(coord, top_left, cw, ch, g);
        let bx = int_max(ox, 0);
        let by = int_max(oy, 0);
        let dw = int_abs(int_min(ox, 0));
        let dh = int_abs(int_min(oy, 0));
        &&& origin_fits(coord, top_left, cw, ch, g)
        &&& bx <= w
        &&& by <= w
        &&& (bx < w && by < h) ==> dw <= int_min(g.width as int, w - bx) && dh <= int_min(
            g.height as int,
            w - by,
        )
    }
}

/// The blending of the bitmap of `g`, from bitmap row `dh` and column `dw` on.
pub open spec fn blend_from(g: Glyph, dw: int, dh: int) -> spec_fn(int, int, u32) -> u32 {
    |rr: int, cc: int, d: u32| blend(d, g.bitmap@[(dh + rr) * g.width + dw + cc])
}

/// `buf` with the glyph `g` of the cell at `coord` blended in.
pub open spec fn draw_glyph_spec(buf: Seq<u32>, w: int, h: int, coord: Coordinates, top_left: Coordinates, cw: usize, ch: usize, g: Glyph) -> Seq<u32> {
    let (ox, oy) = glyph_origin(coord, top_left, cw, ch, g);
    let (bx, by, cols, rows, dw, dh) = glyph_window(w, h, ox, oy, g);
    if g.bitmap@.len() > 0 && bx < w && by < h {
        rect_map(buf, w, by, bx, cols, rows, 0, blend_from(g, dw, dh))
    } else {
        buf
    }
}

/// `buf` with the glyphs of `chars` drawn in order, each from `glyphs`.
pub open spec fn draw_spec(buf: Seq<u32>, w: int, h: int, chars: Seq<(Coordinates, char)>, glyphs: Map<u32, Glyph>, top_left: Coordinates, cw: usize, ch: usize) -> Seq<u32>
    decreases chars.len(),
{
    if chars.len() == 0 {
        buf
    } else {
        let last = chars.last();
        draw_glyph_spec(
            draw_spec(buf, w, h, chars.drop_last(), glyphs, top_left, cw, ch),
            w,
            h,
            last.0,
            top_left,
            cw,
            ch,
            glyphs[last.1 as u32],
        )
    }
}

/// Blending a glyph into a buffer only brightens its pixels, and a glyph with an empty
/// bitmap changes nothing.
proof fn lemma_draw_glyph_brightens(buf: Seq<u32>, w: int, h: int, coord: Coordinates, top_left: Coordinates, cw: usize, ch: usize, g: Glyph)
    ensures
        only_brightens(buf, draw_glyph_spec(buf, w, h, coord, top_left, cw, ch, g)),
        g.bitmap@.len() == 0 ==> draw_glyph_spec(buf, w, h, coord, top_left, cw, ch, g) == buf,
{
    let (ox, oy) = glyph_origin(coord, top_left, cw, ch, g);
    let (bx, by, cols, rows, dw, dh) = glyph_window(w, h, ox, oy, g);
    if g.bitmap@.len() > 0 && bx < w && by < h {
        let f = blend_from(g, dw, dh);
        let r = rect_map(buf, w, by, bx, cols, rows, 0, f);
        assert forall|k: int| 0 <= k < buf.len() implies brightens(#[trigger] buf[k], r[k]) by {
            if in_rect_prefix(k, w, by, bx, cols, rows, 0) {
                let i = (dh + (k / w - by)) * g.width + dw + (k % w - bx);
                lemma_blend_brightens(buf[k], g.bitmap@[i]);
            }
        }
    }
}

/// Where a glyph lands: with its origin at column `ox = (coord.x + top_left.x) * cw + xmin`
/// and row `oy = (coord.y + top_left.y) * ch + ch - ymin - height` inside a frame `w`
/// pixels wide and `h` high, each bitmap pixel `(r, c)` with `c` before the glyph's
/// width and the frame's right edge, and `r` before the glyph's height, the frame's
/// bottom and (as the drawing clamps rows against the frame's width) row `w`, is
/// blended into frame pixel `(oy + r) * w + ox + c`. The columns drawn depend on the
/// glyph's width and the frame, not on its height.
pub proof fn lemma_draw_glyph_places_bitmap(
    buf: Seq<u32>,
    w: int,
    h: int,
    coord: Coordinates,
    top_left: Coordinates,
    cw: usize,
    ch: usize,
    g: Glyph,
    r: int,
    c: int,
)
    requires
        buf.len() == w * h,
        g.wf(),
        g.bitmap@.len() > 0,
        cw <= isize::MAX,
        ch <= isize::MAX,
        g.height <= isize::MAX,
        ({
            let ox = (coord.x + top_left.x) * cw + g.xmin;
            let oy = (coord.y + top_left.y) * ch + ch - g.ymin - g.height;
            &&& 0 <= ox < w
            &&& 0 <= oy < h
            &&& 0 <= c < g.width
            &&& ox + c < w
            &&& 0 <= r < g.height
            &&& oy + r < h
            &&& oy + r < w
        }),
    ensures
        ({
            let ox = (coord.x + top_left.x) * cw + g.xmin;
            let oy = (coord.y + top_left.y) * ch + ch - g.ymin - g.height;
            let p = (oy + r) * w + ox + c;
            &&& 0 <= p < buf.len()
            &&& draw_glyph_spec(buf, w, h, coord, top_left, cw, ch, g)[p] == blend(
                buf[p],
                g.bitmap@[r * g.width + c],
            )
        }),
{
    let ox = (coord.x + top_left.x) * cw + g.xmin;
    let oy = (coord.y + top_left.y) * ch + ch - g.ymin - g.height;
    assert(glyph_origin(coord, top_left, cw, ch, g) == (ox, oy));
    let p = (oy + r) * w + ox + c;
    lemma_grid_index(oy + r, ox + c, w, h);
    let (bx, by, cols, rows, dw, dh) = glyph_window(w, h, ox, oy, g);
    assert(bx == ox && by == oy && dw == 0 && dh == 0);
    assert(c < cols && r < rows);
    assert(in_rect_prefix(p, w, by, bx, cols, rows, 0));
}

/// Drawing glyphs into a buffer keeps the top byte of every pixel and lowers no color
/// byte; where every glyph drawn has an empty bitmap (or none is drawn) the buffer is
/// left as it was. `FrameBuffer::draw` leaves its pixels as `draw_spec` says.
pub proof fn lemma_draw_only_brightens(
    buf: Seq<u32>,
    w: int,
    h: int,
    chars: Seq<(Coordinates, char)>,
    glyphs: Map<u32, Glyph>,
    top_left: Coordinates,
    cw: usize,
    ch: usize,
)
    ensures
        only_brightens(buf, draw_spec(buf, w, h, chars, glyphs, top_left, cw, ch)),
        (forall|i: int| 0 <= i < chars.len() ==> (#[trigger] glyphs[chars[i].1 as u32]).bitmap@.len() == 0)
            ==> draw_spec(buf, w, h, chars, glyphs, top_left, cw, ch) == buf,
    decreases chars.len(),
{
    if chars.len() > 0 {
        let rest = chars.drop_last();
        let last = chars.last();
        lemma_draw_only_brightens(buf, w, h, rest, glyphs, top_left, cw, ch);
        let mid = draw_spec(buf, w, h, rest, glyphs, top_left, cw, ch);
        let g = glyphs[last.1 as u32];
        lemma_draw_glyph_brightens(mid, w, h, last.0, top_left, cw, ch, g);
        let after = draw_spec(buf, w, h, chars, glyphs, top_left, cw, ch);
        assert forall|k: int| 0 <= k < buf.len() implies brightens(#[trigger] buf[k], after[k]) by {
            assert(brightens(buf[k], mid[k]));
            assert(brightens(mid[k], after[k]));
        }
        if forall|i: int| 0 <= i < chars.len() ==> (#[trigger] glyphs[chars[i].1 as u32]).bitmap@.len() == 0 {
            assert forall|i: int| 0 <= i < rest.len() implies (#[trigger] glyphs[rest[i].1 as u32]).bitmap@.len() == 0 by {
                assert(rest[i] == chars[i]);
            }
            assert(glyphs[chars[chars.len() - 1].1 as u32].bitmap@.len() == 0);
        }
    }
}

/// Whether every glyph of `chars` is at hand and can be drawn.
pub open spec fn all_drawable(w: int, h: int, chars: Seq<(Coordinates, char)>, glyphs: Map<u32, Glyph>, top_left: Coordinates, cw: usize, ch: usize) -> bool {
    forall|i: int|
        0 <= i < chars.len() ==> glyphs.contains_key(#[trigger] chars[i].1 as u32) && glyph_drawable(
            w,
            h,
            chars[i].0,
            top_left,
            cw,
            ch,
            glyphs[chars[i].1 as u32],
        )
}

fn usize_min(a: usize, b: usize) -> (r: usize)
    ensures
        r == int_min(a as int, b as int),
{
    if a <= b {
        a
    } else {
        b
    }
}

impl FrameBuffer {
    /// Blends the glyph `g` of the cell at `coord` into the frame.
    fn draw_glyph(&mut self, coord: Coordinates, top_left: Coordinates, cw: usize, ch: usize, g: &Glyph)
        requires
            old(self).wf(),
            glyph_drawable(old(self).frame_width() as int, old(self).frame_height() as int, coord, top_left, cw, ch, *g),
        ensures
            final(self).wf(),
            final(self).frame_width() == old(self).frame_width(),
            final(self).frame_height() == old(self).frame_height(),
            final(self).pixels() == draw_glyph_spec(old(self).pixels(), old(self).frame_width() as int, old(self).frame_height() as int, coord, top_left, cw, ch, *g),
    {
        if g.bitmap.len() == 0 {
            return;
        }
        let w = self.width;
        let h = self.height;
        let mut origin = (coord + top_left) * Coordinates { x: cw as isize, y: ch as isize };
        origin.y = origin.y + ((ch as isize) - (g.ymin as isize) - (g.height as isize));
        origin.x = origin.x + (g.xmin as isize);
        let bounded = origin.max(0);
        let (dw, dh) = origin.min(0).unsigned_abs();
        let bx = bounded.x.max(0) as usize;
        let by = bounded.y.max(0) as usize;
        let shown_w = usize_min(g.width, w - bx);
        let shown_h = usize_min(g.height, w - by);
        if bx < w && by < h {
            let cols = shown_w - dw;
            let rows = usize_min(usize_min(shown_h - dh, h - by), g.height - dh);
            let ghost orig = self.buffer@;
            let total = self.buffer.len();
            let glyph_len = g.bitmap.len();
            let ghost f = blend_from(*g, dw as int, dh as int);
            proof {
                lemma_rect_empty(orig, w as int, by as int, bx as int, cols as int, f);
            }
            let mut r: usize = 0;
            while r < rows
                invariant
                    self.wf(),
                    self.width == w,
                    self.height == h,
                    orig.len() == w * h,
                    orig.len() == total,
                    g.bitmap@.len() == glyph_len,
                    w > 0,
                    g.wf(),
                    r <= rows,
                    by + rows <= h,
                    bx + cols <= w,
                    dh + rows <= g.height,
                    dw + cols <= g.width,
                    f == blend_from(*g, dw as int, dh as int),
                    self.buffer@ == rect_map(orig, w as int, by as int, bx as int, cols as int, r as int, 0, f),
                decreases rows - r,
            {
                let mut j: usize = 0;
                while j < cols
                    invariant
                        self.wf(),
                        self.width == w,
                        self.height == h,
                        orig.len() == w * h,
                        orig.len() == total,
                        g.bitmap@.len() == glyph_len,
                        w > 0,
                        g.wf(),
                        r < rows,
                        j <= cols,
                        by + rows <= h,
                        bx + cols <= w,
                        dh + rows <= g.height,
                        dw + cols <= g.width,
                        f == blend_from(*g, dw as int, dh as int),
                        self.buffer@ == rect_map(orig, w as int, by as int, bx as int, cols as int, r as int, j as int, f),
                    decreases cols - j,
                {
                    proof {
                        lemma_rect_step(orig, self.buffer@, w as int, h as int, by as int, bx as int, cols as int, r as int, j as int, f);
                        lemma_grid_index((dh + r) as int, (dw + j) as int, g.width as int, g.height as int);
                    }
                    let idx = (by + r) * w + bx + j;
                    let src = g.bitmap[(dh + r) * g.width + dw + j];
                    let v = blend_exec(self.buffer[idx], src);
                    self.buffer.set(idx, v);
                    j = j + 1;
                }
                proof {
                    lemma_rect_row_done(orig, w as int, by as int, bx as int, cols as int, r as int, f);
                }
                r = r + 1;
            }
        }
    }
}

/// Inverting each pixel, wherever it lies.
pub open spec fn invert_fn() -> spec_fn(int, int, u32) -> u32 {
    |rr: int, cc: int, d: u32| inverted(d)
}

/// The first buffer row that a cell with top pixel row `cy` covers, as the buffer's row
/// iteration skips to it (a cast to `usize`).
pub open spec fn cell_first_row(cy: int) -> int {
    ((cy as isize) as usize) as int
}

/// The first buffer column that a cell with left pixel column `cx` covers, as slicing
/// reaches it (a cast to `usize`).
pub open spec fn cell_first_col(cx: int) -> int {
    ((cx as isize) as usize) as int
}

/// How many buffer rows a cell `ch` high with top pixel row `cy` covers.
pub open spec fn cell_rows(h: int, cy: int, ch: usize) -> int {
    let ry = cell_first_row(cy);
    if ry < h {
        int_min(ch as int, h - ry)
    } else {
        0
    }
}

/// `buf` with the cell whose top left pixel is `(cx, cy)` inverted.
pub open spec fn invert_cell_spec(buf: Seq<u32>, w: int, h: int, cx: int, cy: int, cw: usize, ch: usize) -> Seq<u32> {
    rect_map(buf, w, cell_first_row(cy), cell_first_col(cx), cw as int, cell_rows(h, cy, ch), 0, invert_fn())
}

/// Whether the cell whose top left pixel is `(cx, cy)` can be inverted: the buffer has
/// columns, and the cell's columns lie within them where it covers a row.
pub open spec fn cell_invertible(w: int, h: int, cx: int, cy: int, cw: usize, ch: usize) -> bool {
    &&& w > 0
    &&& fits_isize(cx)
    &&& fits_isize(cy)
    &&& cell_rows(h, cy, ch) > 0 ==> cell_first_col(cx) + cw <= w
}

/// `buf` with the cells of grid row `y`, from column `x0` up to `x1`, inverted in order.
pub open spec fn invert_row_spec(buf: Seq<u32>, w: int, h: int, y: int, x0: int, x1: int, cw: usize, ch: usize) -> Seq<u32>
    decreases x1 - x0,
{
    if x1 <= x0 {
        buf
    } else {
        invert_cell_spec(
            invert_row_spec(buf, w, h, y, x0, x1 - 1, cw, ch),
            w,
            h,
            (x1 - 1) * (cw as isize),
            y * (ch as isize),
            cw,
            ch,
        )
    }
}

/// `buf` with the cells of grid rows `y0` up to `y1` and columns `x0` up to `x1` inverted,
/// row by row.
pub open spec fn invert_spec(buf: Seq<u32>, w: int, h: int, x0: int, x1: int, y0: int, y1: int, cw: usize, ch: usize) -> Seq<u32>
    decreases y1 - y0,
{
    if y1 <= y0 {
        buf
    } else {
        invert_row_spec(invert_spec(buf, w, h, x0, x1, y0, y1 - 1, cw, ch), w, h, y1 - 1, x0, x1, cw, ch)
    }
}

/// Whether every cell of grid rows `y0` up to `y1` and columns `x0` up to `x1` can be
/// inverted.
pub open spec fn cells_invertible(w: int, h: int, x0: int, x1: int, y0: int, y1: int, cw: usize, ch: usize) -> bool {
    forall|x: int, y: int|
        x0 <= x < x1 && y0 <= y < y1 ==> fits_isize(#[trigger] (x * (cw as isize))) && fits_isize(
            #[trigger] (y * (ch as isize)),
        ) && cell_invertible(w, h, x * (cw as isize), y * (ch as isize), cw, ch)
}

/// `pixels`, a frame `w` by `h`, with the cells of `bounding_box` moved by `top_left`
/// inverted, for the cell size of `font`: what `FrameBuffer::invert` does.
pub open spec fn inverted_by(
    pixels: Seq<u32>,
    w: usize,
    h: usize,
    bounding_box: BoundingBox,
    top_left: Coordinates,
    font: FontManager,
) -> Seq<u32> {
    invert_spec(
        pixels,
        w as int,
        h as int,
        top_left.x + bounding_box.top_left.x,
        top_left.x + bounding_box.top_left.x + (bounding_box.width as isize),
        top_left.y + bounding_box.top_left.y,
        top_left.y + bounding_box.top_left.y + (bounding_box.height as isize),
        font.cell_width(),
        font.cell_height(),
    )
}

/// Inverting the same cells twice gives the frame back: a second `FrameBuffer::invert`
/// with the same arguments undoes the first (which keeps the frame's size).
pub proof fn lemma_invert_undoes_itself(
    pixels: Seq<u32>,
    w: usize,
    h: usize,
    bounding_box: BoundingBox,
    top_left: Coordinates,
    font: FontManager,
)
    ensures
        inverted_by(inverted_by(pixels, w, h, bounding_box, top_left, font), w, h, bounding_box, top_left, font)
            == pixels,
{
    lemma_invert_twice(
        pixels,
        w as int,
        h as int,
        top_left.x + bounding_box.top_left.x,
        top_left.x + bounding_box.top_left.x + (bounding_box.width as isize),
        top_left.y + bounding_box.top_left.y,
        top_left.y + bounding_box.top_left.y + (bounding_box.height as isize),
        font.cell_width(),
        font.cell_height(),
    );
}

impl FrameBuffer {
    /// Blends the glyph of each character of `chars` into the frame, in order, at its
    /// cell moved by `top_left`.
    pub fn draw(&mut self, chars: &Vec<(Coordinates, char)>, font: &FontManager, top_left: Coordinates)
        requires
            old(self).wf(),
            font.wf(),
            all_drawable(
                old(self).frame_width() as int,
                old(self).frame_height() as int,
                chars@,
                font.glyph_map(),
                top_left,
                font.cell_width(),
                font.cell_height(),
            ),
        ensures
            final(self).wf(),
            final(self).frame_width() == old(self).frame_width(),
            final(self).frame_height() == old(self).frame_height(),
            final(self).pixels() == draw_spec(
                old(self).pixels(),
                old(self).frame_width() as int,
                old(self).frame_height() as int,
                chars@,
                font.glyph_map(),
                top_left,
                font.cell_width(),
                font.cell_height(),
            ),
    {
        let char_width = font.character_width();
        let char_height = font.character_height();
        let ghost orig = self.pixels();
        let ghost w = self.frame_width() as int;
        let ghost h = self.frame_height() as int;
        let mut i: usize = 0;
        while i < chars.len()
            invariant
                self.wf(),
                self.frame_width() == w,
                self.frame_height() == h,
                i <= chars@.len(),
                char_width == font.cell_width(),
                char_height == font.cell_height(),
                all_drawable(w, h, chars@, font.glyph_map(), top_left, char_width, char_height),
                self.pixels() == draw_spec(orig, w, h, chars@.take(i as int), font.glyph_map(), top_left, char_width, char_height),
            decreases chars@.len() - i,
        {
            let (coord, c) = chars[i];
            assert(chars@.take(i + 1).drop_last() =~= chars@.take(i as int));
            assert(chars@.take(i + 1).last() == chars@[i as int]);
            assert(font.glyph_map().contains_key(chars@[i as int].1 as u32));
            match font.glyph(c) {
                Some(g) => {
                    self.draw_glyph(coord, top_left, char_width, char_height, g);
                },
                None => {},
            }
            i = i + 1;
        }
        assert(chars@.take(chars@.len() as int) =~= chars@);
    }

    /// Inverts the cell whose top left pixel is `cell`.
    fn invert_cell(&mut self, cell: Coordinates, cw: usize, ch: usize)
        requires
            old(self).wf(),
            cell_invertible(old(self).frame_width() as int, old(self).frame_height() as int, cell.x as int, cell.y as int, cw, ch),
        ensures
            final(self).wf(),
            final(self).frame_width() == old(self).frame_width(),
            final(self).frame_height() == old(self).frame_height(),
            final(self).pixels() == invert_cell_spec(old(self).pixels(), old(self).frame_width() as int, old(self).frame_height() as int, cell.x as int, cell.y as int, cw, ch),
    {
        let w = self.width;
        let h = self.height;
        let ry = cell.y as usize;
        let rx = cell.x as usize;
        let ghost orig = self.buffer@;
        let ghost f = invert_fn();
        let total = self.buffer.len();
        let rows: usize = if ry < h { usize_min(ch, h - ry) } else { 0 };
        proof {
            lemma_rect_empty(orig, w as int, ry as int, rx as int, cw as int, f);
        }
        let mut r: usize = 0;
        while r < rows
            invariant
                self.wf(),
                self.width == w,
                self.height == h,
                orig.len() == w * h,
                orig.len() == total,
                w > 0,
                r <= rows,
                rows > 0 ==> ry + rows <= h && rx + cw <= w,
                f == invert_fn(),
                self.buffer@ == rect_map(orig, w as int, ry as int, rx as int, cw as int, r as int, 0, f),
            decreases rows - r,
        {
            let mut j: usize = 0;
            while j < cw
                invariant
                    self.wf(),
                    self.width == w,
                    self.height == h,
                    orig.len() == w * h,
                    orig.len() == total,
                    w > 0,
                    r < rows,
                    j <= cw,
                    ry + rows <= h,
                    rx + cw <= w,
                    f == invert_fn(),
                    self.buffer@ == rect_map(orig, w as int, ry as int, rx as int, cw as int, r as int, j as int, f),
                decreases cw - j,
            {
                proof {
                    lemma_rect_step(orig, self.buffer@, w as int, h as int, ry as int, rx as int, cw as int, r as int, j as int, f);
                }
                let idx = (ry + r) * w + rx + j;
                let v = self.buffer[idx] ^ 0x00FF_FFFF;
                self.buffer.set(idx, v);
                j = j + 1;
            }
            proof {
                lemma_rect_row_done(orig, w as int, ry as int, rx as int, cw as int, r as int, f);
            }
            r = r + 1;
        }
    }

    /// Inverts the cells of `bounding_box`, moved by `top_left`, row by row.
    pub fn invert(&mut self, bounding_box: BoundingBox, top_left: Coordinates, font: &FontManager)
        requires
            old(self).wf(),
            fits_isize(top_left.x + bounding_box.top_left.x),
            fits_isize(top_left.y + bounding_box.top_left.y),
            fits_isize(top_left.y + bounding_box.top_left.y + (bounding_box.height as isize)),
            (bounding_box.height as isize) > 0 ==> fits_isize(
                top_left.x + bounding_box.top_left.x + (bounding_box.width as isize),
            ),
            cells_invertible(
                old(self).frame_width() as int,
                old(self).frame_height() as int,
                top_left.x + bounding_box.top_left.x,
                top_left.x + bounding_box.top_left.x + (bounding_box.width as isize),
                top_left.y + bounding_box.top_left.y,
                top_left.y + bounding_box.top_left.y + (bounding_box.height as isize),
                font.cell_width(),
                font.cell_height(),
            ),
        ensures
            final(self).wf(),
            final(self).frame_width() == old(self).frame_width(),
            final(self).frame_height() == old(self).frame_height(),
            final(self).pixels() == inverted_by(
                old(self).pixels(),
                old(self).frame_width(),
                old(self).frame_height(),
                bounding_box,
                top_left,
                *font,
            ),
    {
        let char_width = font.character_width();
        let char_height = font.character_height();
        let tl = top_left + bounding_box.top_left;
        let y_end = tl.y + (bounding_box.height as isize);
        let ghost orig = self.pixels();
        let ghost w = self.frame_width() as int;
        let ghost h = self.frame_height() as int;
        let ghost x1 = tl.x + (bounding_box.width as isize);
        let mut y = tl.y;
        while y < y_end
            invariant
                self.wf(),
                self.frame_width() == w,
                self.frame_height() == h,
                tl.y <= y <= y_end || y_end <= tl.y == y,
                y < y_end ==> fits_isize(x1),
                x1 == tl.x + (bounding_box.width as isize),
                char_width == font.cell_width(),
                char_height == font.cell_height(),
                cells_invertible(w, h, tl.x as int, x1, tl.y as int, y_end as int, char_width, char_height),
                self.pixels() == invert_spec(orig, w, h, tl.x as int, x1, tl.y as int, y as int, char_width, char_height),
            decreases y_end - y,
        {
            let x_end = tl.x + (bounding_box.width as isize);
            let ghost row_start = self.pixels();
            let mut x = tl.x;
            while x < x_end
                invariant
                    self.wf(),
                    self.frame_width() == w,
                    self.frame_height() == h,
                    tl.x <= x <= x_end || x_end <= tl.x == x,
                    tl.y <= y < y_end,
                    x_end == x1,
                    char_width == font.cell_width(),
                    char_height == font.cell_height(),
                    cells_invertible(w, h, tl.x as int, x1, tl.y as int, y_end as int, char_width, char_height),
                    self.pixels() == invert_row_spec(row_start, w, h, y as int, tl.x as int, x as int, char_width, char_height),
                decreases x_end - x,
            {
                assert(fits_isize(x * (char_width as isize)) && fits_isize(y * (char_height as isize)));
                let cell = Coordinates { x: x * (char_width as isize), y: y * (char_height as isize) };
                self.invert_cell(cell, char_width, char_height);
                x = x + 1;
            }
            y = y + 1;
        }
    }
}

/// A black frame of `len` pixels.
pub open spec fn black(len: int) -> Seq<u32> {
    Seq::new(len as nat, |i: int| 0u32)
}

/// The canvas: a frame buffer, the font that fills its cells, and three text areas: a
/// status line at the top, the drawing area below it, and a line at the bottom.
pub struct Canvas {
    pub frame_buffer: FrameBuffer,
    pub font: FontManager,
    pub top_line: TextArea,
    pub draw_area: TextArea,
    pub bottom_line: TextArea,
}

impl Canvas {
    /// The pixels of the frame.
    pub open spec fn pixels(&self) -> Seq<u32> {
        self.frame_buffer.pixels()
    }

    /// The width of the frame in pixels.
    pub open spec fn frame_width(&self) -> usize {
        self.frame_buffer.frame_width()
    }

    /// The height of the frame in pixels.
    pub open spec fn frame_height(&self) -> usize {
        self.frame_buffer.frame_height()
    }

    /// The frame, the font and the three areas are each consistent.
    pub open spec fn wf(&self) -> bool {
        &&& self.pixels().len() == self.frame_width() * self.frame_height()
        &&& self.font.wf()
        &&& self.top_line.wf()
        &&& self.draw_area.wf()
        &&& self.bottom_line.wf()
    }

    /// A black canvas of `width` by `height` pixels. The lines are one cell high and as
    /// many cells wide as fit; the drawing area takes the rows of cells between them.
    pub fn new(font: FontManager, width: usize, height: usize) -> (r: Self)
        requires
            font.wf(),
            font.cell_width() > 0,
            font.cell_height() > 0,
            height / font.cell_height() >= 2,
            width * height <= usize::MAX,
        ensures
            r.wf(),
            r.frame_width() == width,
            r.frame_height() == height,
            r.pixels() == black(width * height),
            r.font == font,
            r.top_line.cells() == Map::<(isize, isize), char>::empty(),
            r.top_line.cursor() == (Coordinates { x: 0, y: 0 }),
            r.top_line.area() == (BoundingBox {
                top_left: Coordinates { x: 0, y: 0 },
                width: (width / font.cell_width()) as usize,
                height: 1,
            }),
            r.draw_area.cells() == Map::<(isize, isize), char>::empty(),
            r.draw_area.cursor() == (Coordinates { x: 0, y: 0 }),
            r.draw_area.area() == (BoundingBox {
                top_left: Coordinates { x: 0, y: 0 },
                width: (width / font.cell_width()) as usize,
                height: (height / font.cell_height() - 2) as usize,
            }),
            r.bottom_line.cells() == Map::<(isize, isize), char>::empty(),
            r.bottom_line.cursor() == (Coordinates { x: 0, y: 0 }),
            r.bottom_line.area() == r.top_line.area(),
    {
        let top_line = TextArea::new(width / font.character_width(), 1);
        let draw_area = TextArea::new(
            width / font.character_width(),
            (height / font.character_height()) - 2,
        );
        let bottom_line = TextArea::new(width / font.character_width(), 1);
        Canvas { frame_buffer: FrameBuffer::new(width, height), font, top_line, draw_area, bottom_line }
    }

    pub fn width(&self) -> (r: usize)
        ensures
            r == self.frame_width(),
    {
        self.frame_buffer.width
    }

    pub fn height(&self) -> (r: usize)
        ensures
            r == self.frame_height(),
    {
        self.frame_buffer.height
    }

    /// Paints the whole frame black.
    pub fn clear(&mut self)
        requires
            old(self).wf(),
        ensures
            final(self).wf(),
            final(self).pixels() == black(old(self).pixels().len() as int),
            final(self).frame_width() == old(self).frame_width(),
            final(self).frame_height() == old(self).frame_height(),
            final(self).font == old(self).font,
            final(self).top_line == old(self).top_line,
            final(self).draw_area == old(self).draw_area,
            final(self).bottom_line == old(self).bottom_line,
    {
        let n = self.frame_buffer.buffer.len();
        let ghost before = *self;
        let mut i: usize = 0;
        while i < n
            invariant
                i <= n,
                self.font == before.font,
                self.top_line == before.top_line,
                self.draw_area == before.draw_area,
                self.bottom_line == before.bottom_line,
                self.frame_buffer.width == before.frame_buffer.width,
                self.frame_buffer.height == before.frame_buffer.height,
                n == self.frame_buffer.buffer@.len(),
                forall|k: int| 0 <= k < i ==> self.frame_buffer.buffer@[k] == 0u32,
            decreases n - i,
        {
            self.frame_buffer.buffer.set(i, 0);
            i = i + 1;
        }
        assert(self.frame_buffer.buffer@ =~= black(n as int));
    }

    /// The pixels of the frame, row after row.
    pub fn get_buffer(&self) -> (r: &[u32])
        ensures
            r@ == self.pixels(),
    {
        self.frame_buffer.buffer.as_slice()
    }
}

/// The grid row at which the bottom line is drawn: the last full row of cells.
pub open spec fn bottom_row(c: Canvas) -> isize {
    ((c.frame_height() / c.font.cell_height()) - 1) as isize
}

/// The frame that rendering `c` paints: on black, the status line at the top, the
/// drawing area from the second row of cells, the status line again at the bottom row,
/// and the cell under the drawing area's cursor inverted.
pub open spec fn rendered(c: Canvas) -> Seq<u32> {
    let w = c.frame_width() as int;
    let h = c.frame_height() as int;
    let g = c.font.glyph_map();
    let cw = c.font.cell_width();
    let ch = c.font.cell_height();
    let top = c.top_line.shown();
    let area = c.draw_area.shown();
    let cur = c.draw_area.cursor();
    let p1 = draw_spec(black(w * h), w, h, top, g, Coordinates { x: 0, y: 0 }, cw, ch);
    let p2 = draw_spec(p1, w, h, area, g, Coordinates { x: 0, y: 1 }, cw, ch);
    let p3 = draw_spec(p2, w, h, top, g, Coordinates { x: 0, y: bottom_row(c) }, cw, ch);
    invert_spec(p3, w, h, cur.x as int, cur.x + 1, cur.y + 1, cur.y + 2, cw, ch)
}

/// Whether `c` can be rendered: the cells have a height and the frame a row of them,
/// every shown character has a glyph that can be drawn where it goes, and the cell under
/// the cursor can be inverted.
pub open spec fn render_ready(c: Canvas) -> bool {
    let w = c.frame_width() as int;
    let h = c.frame_height() as int;
    let g = c.font.glyph_map();
    let cw = c.font.cell_width();
    let ch = c.font.cell_height();
    let top = c.top_line.shown();
    let area = c.draw_area.shown();
    let cur = c.draw_area.cursor();
    &&& ch > 0
    &&& c.frame_height() / ch >= 1
    &&& all_drawable(w, h, top, g, Coordinates { x: 0, y: 0 }, cw, ch)
    &&& all_drawable(w, h, area, g, Coordinates { x: 0, y: 1 }, cw, ch)
    &&& all_drawable(w, h, top, g, Coordinates { x: 0, y: bottom_row(c) }, cw, ch)
    &&& fits_isize(cur.x + 1)
    &&& fits_isize(cur.y + 2)
    &&& cells_invertible(w, h, cur.x as int, cur.x + 1, cur.y + 1, cur.y + 2, cw, ch)
}

impl Canvas {
    /// Paints the frame: see `rendered`.
    pub fn render(&mut self)
        requires
            old(self).wf(),
            render_ready(*old(self)),
        ensures
            final(self).wf(),
            final(self).pixels() == rendered(*old(self)),
            lists_view_of(old(self).top_line.shown(), old(self).top_line.cells(), old(self).top_line.area()),
            listed_in_order(old(self).top_line.shown()),
            lists_view_of(old(self).draw_area.shown(), old(self).draw_area.cells(), old(self).draw_area.area()),
            listed_in_order(old(self).draw_area.shown()),
            final(self).frame_width() == old(self).frame_width(),
            final(self).frame_height() == old(self).frame_height(),
            final(self).font == old(self).font,
            final(self).top_line.cells() == old(self).top_line.cells(),
            final(self).top_line.area() == old(self).top_line.area(),
            final(self).top_line.cursor() == old(self).top_line.cursor(),
            final(self).top_line.shown() == old(self).top_line.shown(),
            final(self).draw_area.cells() == old(self).draw_area.cells(),
            final(self).draw_area.area() == old(self).draw_area.area(),
            final(self).draw_area.cursor() == old(self).draw_area.cursor(),
            final(self).draw_area.shown() == old(self).draw_area.shown(),
            final(self).bottom_line == old(self).bottom_line,
    {
        let char_height = self.font.character_height();
        self.clear();
        let top = self.top_line.chars();
        self.frame_buffer.draw(&top, &self.font, Coordinates { x: 0, y: 0 });
        let area = self.draw_area.chars();
        self.frame_buffer.draw(&area, &self.font, Coordinates { x: 0, y: 1 });
        let top_again = self.top_line.chars();
        let last_row = ((self.frame_buffer.height / char_height) - 1) as isize;
        self.frame_buffer.draw(&top_again, &self.font, Coordinates { x: 0, y: last_row });
        proof {
            lemma_area_at_origin(self.draw_area);
        }
        let cursor = self.draw_area.cursor_relative_position();
        self.frame_buffer.invert(BoundingBox::new(cursor, 1, 1), Coordinates { x: 0, y: 1 }, &self.font);
    }
}

/// What `render` paints depends on the frame's size, the font, and the cells, rectangles
/// and cursor of the areas, and not on the pixels the frame held before: two canvases
/// that agree on those render the same frame. (`render` states the listing conditions of
/// the canvas it renders; with them, rendering again right after gives the same frame.)
pub proof fn lemma_render_ignores_old_pixels(a: Canvas, b: Canvas)
    requires
        a.frame_width() == b.frame_width(),
        a.frame_height() == b.frame_height(),
        a.font == b.font,
        a.top_line.cells() == b.top_line.cells(),
        a.top_line.area() == b.top_line.area(),
        a.draw_area.cells() == b.draw_area.cells(),
        a.draw_area.area() == b.draw_area.area(),
        a.draw_area.cursor() == b.draw_area.cursor(),
        lists_view_of(a.top_line.shown(), a.top_line.cells(), a.top_line.area()),
        listed_in_order(a.top_line.shown()),
        lists_view_of(a.draw_area.shown(), a.draw_area.cells(), a.draw_area.area()),
        listed_in_order(a.draw_area.shown()),
        lists_view_of(b.top_line.shown(), b.top_line.cells(), b.top_line.area()),
        listed_in_order(b.top_line.shown()),
        lists_view_of(b.draw_area.shown(), b.draw_area.cells(), b.draw_area.area()),
        listed_in_order(b.draw_area.shown()),
    ensures
        rendered(a) == rendered(b),
{
    lemma_listing_unique(a.top_line.shown(), b.top_line.shown(), a.top_line.cells(), a.top_line.area());
    lemma_listing_unique(a.draw_area.shown(), b.draw_area.shown(), a.draw_area.cells(), a.draw_area.area());
}

/// Whether pixel `p` lies in the cell whose top left pixel is `(cx, cy)`.
pub open spec fn in_cell(w: int, h: int, cx: int, cy: int, cw: usize, ch: usize, p: int) -> bool {
    in_rect_prefix(p, w, cell_first_row(cy), cell_first_col(cx), cw as int, cell_rows(h, cy, ch), 0)
}

/// Whether an odd number of the cells of grid row `y`, columns `x0` up to `x1`, cover `p`.
pub open spec fn row_flips(w: int, h: int, y: int, x0: int, x1: int, cw: usize, ch: usize, p: int) -> bool
    decreases x1 - x0,
{
    if x1 <= x0 {
        false
    } else {
        row_flips(w, h, y, x0, x1 - 1, cw, ch, p) != in_cell(
            w,
            h,
            (x1 - 1) * (cw as isize),
            y * (ch as isize),
            cw,
            ch,
            p,
        )
    }
}

/// Whether an odd number of the cells of grid rows `y0` up to `y1`, columns `x0` up to
/// `x1`, cover `p`.
pub open spec fn flips(w: int, h: int, x0: int, x1: int, y0: int, y1: int, cw: usize, ch: usize, p: int) -> bool
    decreases y1 - y0,
{
    if y1 <= y0 {
        false
    } else {
        flips(w, h, x0, x1, y0, y1 - 1, cw, ch, p) != row_flips(w, h, y1 - 1, x0, x1, cw, ch, p)
    }
}

proof fn lemma_inverted_twice(v: u32)
    ensures
        inverted(inverted(v)) == v,
{
    assert((v ^ 0x00FF_FFFFu32) ^ 0x00FF_FFFFu32 == v) by (bit_vector);
}

proof fn lemma_invert_row_pixels(buf: Seq<u32>, w: int, h: int, y: int, x0: int, x1: int, cw: usize, ch: usize)
    ensures
        invert_row_spec(buf, w, h, y, x0, x1, cw, ch).len() == buf.len(),
        forall|p: int|
            0 <= p < buf.len() ==> #[trigger] invert_row_spec(buf, w, h, y, x0, x1, cw, ch)[p] == if row_flips(
                w,
                h,
                y,
                x0,
                x1,
                cw,
                ch,
                p,
            ) {
                inverted(buf[p])
            } else {
                buf[p]
            },
    decreases x1 - x0,
{
    if x1 > x0 {
        lemma_invert_row_pixels(buf, w, h, y, x0, x1 - 1, cw, ch);
        let prev = invert_row_spec(buf, w, h, y, x0, x1 - 1, cw, ch);
        assert forall|p: int| 0 <= p < buf.len() implies #[trigger] invert_row_spec(buf, w, h, y, x0, x1, cw, ch)[p]
            == if row_flips(w, h, y, x0, x1, cw, ch, p) {
            inverted(buf[p])
        } else {
            buf[p]
        } by {
            assert(prev[p] == if row_flips(w, h, y, x0, x1 - 1, cw, ch, p) {
                inverted(buf[p])
            } else {
                buf[p]
            });
            lemma_inverted_twice(buf[p]);
        }
    }
}

proof fn lemma_invert_pixels(buf: Seq<u32>, w: int, h: int, x0: int, x1: int, y0: int, y1: int, cw: usize, ch: usize)
    ensures
        invert_spec(buf, w, h, x0, x1, y0, y1, cw, ch).len() == buf.len(),
        forall|p: int|
            0 <= p < buf.len() ==> #[trigger] invert_spec(buf, w, h, x0, x1, y0, y1, cw, ch)[p] == if flips(
                w,
                h,
                x0,
                x1,
                y0,
                y1,
                cw,
                ch,
                p,
            ) {
                inverted(buf[p])
            } else {
                buf[p]
            },
    decreases y1 - y0,
{
    if y1 > y0 {
        lemma_invert_pixels(buf, w, h, x0, x1, y0, y1 - 1, cw, ch);
        let prev = invert_spec(buf, w, h, x0, x1, y0, y1 - 1, cw, ch);
        lemma_invert_row_pixels(prev, w, h, y1 - 1, x0, x1, cw, ch);
        assert forall|p: int| 0 <= p < buf.len() implies #[trigger] invert_spec(buf, w, h, x0, x1, y0, y1, cw, ch)[p]
            == if flips(w, h, x0, x1, y0, y1, cw, ch, p) {
            inverted(buf[p])
        } else {
            buf[p]
        } by {
            assert(prev[p] == if flips(w, h, x0, x1, y0, y1 - 1, cw, ch, p) {
                inverted(buf[p])
            } else {
                buf[p]
            });
            lemma_inverted_twice(buf[p]);
        }
    }
}

/// Inverting the same cells twice gives the frame back: showing the cursor by inversion
/// leaves no trace once it is inverted again.
pub proof fn lemma_invert_twice(buf: Seq<u32>, w: int, h: int, x0: int, x1: int, y0: int, y1: int, cw: usize, ch: usize)
    ensures
        invert_spec(invert_spec(buf, w, h, x0, x1, y0, y1, cw, ch), w, h, x0, x1, y0, y1, cw, ch)
            == buf,
{
    let once = invert_spec(buf, w, h, x0, x1, y0, y1, cw, ch);
    lemma_invert_pixels(buf, w, h, x0, x1, y0, y1, cw, ch);
    lemma_invert_pixels(once, w, h, x0, x1, y0, y1, cw, ch);
    assert forall|p: int| 0 <= p < buf.len() implies #[trigger] invert_spec(once, w, h, x0, x1, y0, y1, cw, ch)[p] == buf[p] by {
        lemma_inverted_twice(buf[p]);
    }
    assert(invert_spec(once, w, h, x0, x1, y0, y1, cw, ch) =~= buf);
}

/// The product of two values within the range of `isize`, or just past it, fits in
/// `i128`.
proof fn lemma_product_fits_i128(a: int, b: int)
    requires
        -0x8000_0000_0000_0000 <= a <= 0x8000_0000_0000_0000,
        -0x8000_0000_0000_0000 <= b <= 0x8000_0000_0000_0000,
    ensures
        i128::MIN <= a * b <= i128::MAX,
{
    assert(-0x4000_0000_0000_0000_0000_0000_0000_0000 <= a * b <= 0x4000_0000_0000_0000_0000_0000_0000_0000) by (nonlinear_arith)
        requires
            -0x8000_0000_0000_0000 <= a <= 0x8000_0000_0000_0000,
            -0x8000_0000_0000_0000 <= b <= 0x8000_0000_0000_0000,
    ;
}

/// Whether `v` fits in `isize`, for a value computed in `i128`.
fn fits_i128(v: i128) -> (r: bool)
    ensures
        r == fits_isize(v as int),
{
    (isize::MIN as i128) <= v && v <= (isize::MAX as i128)
}

fn max_i128(a: i128, b: i128) -> (r: i128)
    ensures
        r == int_max(a as int, b as int),
{
    if a >= b {
        a
    } else {
        b
    }
}

fn min_i128(a: i128, b: i128) -> (r: i128)
    ensures
        r == int_min(a as int, b as int),
{
    if a <= b {
        a
    } else {
        b
    }
}

/// Whether the glyph `g` of the cell at `coord` can be drawn into a frame `w` by `h`;
/// see `glyph_drawable`.
pub fn glyph_drawable_exec(w: usize, h: usize, coord: Coordinates, top_left: Coordinates, cw: usize, ch: usize, g: &Glyph) -> (r: bool)
    ensures
        r == glyph_drawable(w as int, h as int, coord, top_left, cw, ch, *g),
{
    let gw = g.width as u128;
    let gh = g.height as u128;
    assert(gw * gh <= u128::MAX) by (nonlinear_arith)
        requires
            gw <= 0xFFFF_FFFF_FFFF_FFFFu128,
            gh <= 0xFFFF_FFFF_FFFF_FFFFu128,
    ;
    let size = gw * gh;
    if (g.bitmap.len() as u128) != size {
        return false;
    }
    if g.bitmap.len() == 0 {
        return true;
    }
    let sx = coord.x as i128 + top_left.x as i128;
    let sy = coord.y as i128 + top_left.y as i128;
    if !fits_i128(sx) || !fits_i128(sy) {
        return false;
    }
    let cwi = (cw as isize) as i128;
    let chi = (ch as isize) as i128;
    proof {
        lemma_product_fits_i128(sx as int, cwi as int);
        lemma_product_fits_i128(sy as int, chi as int);
    }
    let px = sx * cwi;
    let py = sy * chi;
    if !fits_i128(px) || !fits_i128(py) {
        return false;
    }
    let d1 = chi - (g.ymin as i128);
    if !fits_i128(d1) {
        return false;
    }
    let d2 = d1 - ((g.height as isize) as i128);
    if !fits_i128(d2) {
        return false;
    }
    let ox = px + (g.xmin as i128);
    let oy = py + d2;
    if !fits_i128(ox) || !fits_i128(oy) {
        return false;
    }
    let wi = w as i128;
    let hi = h as i128;
    let bx = max_i128(ox, 0);
    let by = max_i128(oy, 0);
    let dw = 0 - min_i128(ox, 0);
    let dh = 0 - min_i128(oy, 0);
    if bx > wi || by > wi {
        return false;
    }
    if bx < wi && by < hi {
        dw <= min_i128(g.width as i128, wi - bx) && dh <= min_i128(g.height as i128, wi - by)
    } else {
        true
    }
}

/// Whether every character of `chars` has a glyph in `font` that can be drawn into a
/// frame `w` by `h` at its cell moved by `top_left`.
fn all_drawable_exec(w: usize, h: usize, chars: &Vec<(Coordinates, char)>, font: &FontManager, top_left: Coordinates) -> (r: bool)
    ensures
        r == all_drawable(w as int, h as int, chars@, font.glyph_map(), top_left, font.cell_width(), font.cell_height()),
{
    let cw = font.character_width();
    let ch = font.character_height();
    let mut i: usize = 0;
    while i < chars.len()
        invariant
            i <= chars@.len(),
            cw == font.cell_width(),
            ch == font.cell_height(),
            forall|j: int|
                0 <= j < i ==> font.glyph_map().contains_key(#[trigger] chars@[j].1 as u32)
                    && glyph_drawable(w as int, h as int, chars@[j].0, top_left, cw, ch, font.glyph_map()[chars@[j].1 as u32]),
        decreases chars@.len() - i,
    {
        let (coord, c) = chars[i];
        match font.glyph(c) {
            Some(g) => {
                if !glyph_drawable_exec(w, h, coord, top_left, cw, ch, g) {
                    return false;
                }
            },
            None => {
                return false;
            },
        }
        i = i + 1;
    }
    true
}

impl Canvas {
    /// Whether the canvas can be rendered; see `render_ready`. It lists the shown cells
    /// of the lines, which changes no model of them.
    pub fn can_render(&mut self) -> (r: bool)
        requires
            old(self).wf(),
        ensures
            final(self).wf(),
            r == render_ready(*old(self)),
            r == render_ready(*final(self)),
            rendered(*final(self)) == rendered(*old(self)),
            final(self).frame_buffer == old(self).frame_buffer,
            final(self).font == old(self).font,
            final(self).bottom_line == old(self).bottom_line,
            final(self).top_line.cells() == old(self).top_line.cells(),
            final(self).top_line.area() == old(self).top_line.area(),
            final(self).top_line.cursor() == old(self).top_line.cursor(),
            final(self).top_line.shown() == old(self).top_line.shown(),
            final(self).draw_area.cells() == old(self).draw_area.cells(),
            final(self).draw_area.area() == old(self).draw_area.area(),
            final(self).draw_area.cursor() == old(self).draw_area.cursor(),
            final(self).draw_area.shown() == old(self).draw_area.shown(),
    {
        let w = self.frame_buffer.width;
        let h = self.frame_buffer.height;
        let cw = self.font.character_width();
        let ch = self.font.character_height();
        let top = self.top_line.chars();
        let area = self.draw_area.chars();
        if ch == 0 || h / ch < 1 {
            return false;
        }
        let last_row = ((h / ch) - 1) as isize;
        if !all_drawable_exec(w, h, &top, &self.font, Coordinates { x: 0, y: 0 }) {
            return false;
        }
        if !all_drawable_exec(w, h, &area, &self.font, Coordinates { x: 0, y: 1 }) {
            return false;
        }
        if !all_drawable_exec(w, h, &top, &self.font, Coordinates { x: 0, y: last_row }) {
            return false;
        }
        proof {
            lemma_area_at_origin(self.draw_area);
        }
        let cur = self.draw_area.cursor_relative_position();
        let cx = cur.x as i128;
        let cy = cur.y as i128 + 1;
        if !fits_i128(cx + 1) || !fits_i128(cy + 1) {
            return false;
        }
        proof {
            lemma_product_fits_i128(cx as int, ((cw as isize) as i128) as int);
            lemma_product_fits_i128(cy as int, ((ch as isize) as i128) as int);
        }
        let px = cx * ((cw as isize) as i128);
        let py = cy * ((ch as isize) as i128);
        if !fits_i128(px) || !fits_i128(py) || w == 0 {
            return false;
        }
        let ry = (py as isize) as usize;
        let rx = (px as isize) as usize;
        let covers_rows = ry < h && ch > 0;
        let ok = if covers_rows { (rx as u128) + (cw as u128) <= (w as u128) } else { true };
        proof {
            let cwv = self.font.cell_width();
            let chv = self.font.cell_height();
            let c = self.draw_area.cursor();
            assert(cur == c);
            if ok {
                assert forall|x: int, y: int|
                    c.x <= x < c.x + 1 && c.y + 1 <= y < c.y + 2 implies fits_isize(
                    #[trigger] (x * (cwv as isize)),
                ) && fits_isize(#[trigger] (y * (chv as isize))) && cell_invertible(
                    w as int,
                    h as int,
                    x * (cwv as isize),
                    y * (chv as isize),
                    cwv,
                    chv,
                ) by {
                    assert(x == c.x && y == c.y + 1);
                }
            } else {
                assert(!cell_invertible(w as int, h as int, c.x * (cwv as isize), (c.y + 1) * (chv as isize), cwv, chv));
            }
        }
        ok
    }
}

/// Whether `c` is one of the characters that `cells` lists.
pub open spec fn lists_char(cells: Seq<(Coordinates, char)>, c: char) -> bool {
    exists|i: int| 0 <= i < cells.len() && #[trigger] cells[i].1 == c
}

/// Appends to `r` each character of `cells` that `font` has no glyph for and `r` does not
/// hold yet.
fn collect_missing(cells: &Vec<(Coordinates, char)>, font: &FontManager, prior: Vec<char>) -> (r: Vec<char>)
    requires
        prior@.no_duplicates(),
    ensures
        r@.no_duplicates(),
        forall|c: char|
            r@.contains(c) <==> (prior@.contains(c) || (lists_char(cells@, c)
                && !font.glyph_map().contains_key(c as u32))),
{
    let ghost r0 = prior@;
    let mut r = prior;
    let mut i: usize = 0;
    while i < cells.len()
        invariant
            i <= cells@.len(),
            r@.no_duplicates(),
            forall|d: char|
                r@.contains(d) <==> (r0.contains(d) || (lists_char(cells@.take(i as int), d)
                    && !font.glyph_map().contains_key(d as u32))),
        decreases cells@.len() - i,
    {
        let c = cells[i].1;
        let ghost before = r@;
        assert(forall|d: char|
            before.contains(d) <==> (r0.contains(d) || (lists_char(cells@.take(i as int), d)
                && !font.glyph_map().contains_key(d as u32))));
        if !font.contains_glyph(c) {
            let mut held = false;
            let mut j: usize = 0;
            while j < r.len()
                invariant
                    j <= r@.len(),
                    held <==> exists|k: int| 0 <= k < j && r@[k] == c,
                decreases r@.len() - j,
            {
                if r[j] == c {
                    held = true;
                }
                j = j + 1;
            }
            assert(held <==> before.contains(c));
            if !held {
                r.push(c);
                assert forall|a: int, b: int| 0 <= a < b < r@.len() implies r@[a] != r@[b] by {
                    if b == r@.len() - 1 {
                        assert(r@[a] == before[a]);
                    } else {
                        assert(r@[a] == before[a] && r@[b] == before[b]);
                    }
                }
            }
        }
        assert forall|d: char|
            lists_char(cells@.take(i + 1), d) <==> (lists_char(cells@.take(i as int), d) || d == c) by {
            if lists_char(cells@.take(i + 1), d) {
                let k = choose|k: int|
                    0 <= k < cells@.take(i + 1).len() && #[trigger] cells@.take(i + 1)[k].1 == d;
                if k < i {
                    assert(cells@.take(i as int)[k].1 == d);
                }
            }
            if lists_char(cells@.take(i as int), d) {
                let k = choose|k: int|
                    0 <= k < cells@.take(i as int).len() && #[trigger] cells@.take(i as int)[k].1 == d;
                assert(cells@.take(i + 1)[k].1 == d);
            }
            if d == c {
                assert(cells@.take(i + 1)[i as int].1 == d);
            }
        }
        assert forall|d: char|
            r@.contains(d) <==> (before.contains(d) || (d == c && !font.glyph_map().contains_key(
                c as u32,
            ))) by {
            if r@.len() == before.len() + 1 {
                assert(r@ == before.push(c));
                if before.contains(d) {
                    let m = choose|m: int| 0 <= m < before.len() && before[m] == d;
                    assert(r@[m] == d);
                }
                if d == c {
                    assert(r@[r@.len() - 1] == d);
                }
            } else {
                assert(r@ == before);
                if d == c && !font.glyph_map().contains_key(c as u32) {
                    let k = choose|k: int| 0 <= k < r@.len() && r@[k] == c;
                    assert(before[k] == d);
                }
            }
        }
        assert(forall|d: char|
            r@.contains(d) <==> (r0.contains(d) || (lists_char(cells@.take(i + 1), d)
                && !font.glyph_map().contains_key(d as u32))));
        let ghost i0 = i;
        i = i + 1;
        assert forall|d: char|
            r@.contains(d) <==> (r0.contains(d) || (lists_char(cells@.take(i as int), d)
                && !font.glyph_map().contains_key(d as u32))) by {
            assert(cells@.take(i as int) == cells@.take(i0 + 1));
            assert(r@.contains(d) <==> (r0.contains(d) || (lists_char(cells@.take(i0 + 1), d)
                && !font.glyph_map().contains_key(d as u32))));
        }
    }
    assert(cells@.take(cells@.len() as int) =~= cells@);
    r
}

impl Canvas {
    /// The characters that rendering shows and the font has no glyph for yet, each once.
    pub fn missing_glyphs(&mut self) -> (r: Vec<char>)
        requires
            old(self).wf(),
        ensures
            final(self).wf(),
            r@.no_duplicates(),
            forall|c: char|
                r@.contains(c) <==> ((lists_char(old(self).top_line.shown(), c) || lists_char(
                    old(self).draw_area.shown(),
                    c,
                )) && !old(self).font.glyph_map().contains_key(c as u32)),
            rendered(*final(self)) == rendered(*old(self)),
            render_ready(*final(self)) == render_ready(*old(self)),
            final(self).frame_buffer == old(self).frame_buffer,
            final(self).font == old(self).font,
            final(self).bottom_line == old(self).bottom_line,
            final(self).top_line.cells() == old(self).top_line.cells(),
            final(self).top_line.area() == old(self).top_line.area(),
            final(self).top_line.cursor() == old(self).top_line.cursor(),
            final(self).top_line.shown() == old(self).top_line.shown(),
            final(self).draw_area.cells() == old(self).draw_area.cells(),
            final(self).draw_area.area() == old(self).draw_area.area(),
            final(self).draw_area.cursor() == old(self).draw_area.cursor(),
            final(self).draw_area.shown() == old(self).draw_area.shown(),
    {
        let top = self.top_line.chars();
        let area = self.draw_area.chars();
        let none: Vec<char> = Vec::new();
        let r = collect_missing(&top, &self.font, none);
        collect_missing(&area, &self.font, r)
    }
}

} // verus!
