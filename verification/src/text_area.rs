//! Grid coordinates, rectangular areas, and the editable character grid.

use std::collections::BTreeMap;
use crate::chars::push_char;
use vstd::prelude::*;
use vstd::std_specs::btree::spec_btree_map_iter;
use vstd::std_specs::iter::IteratorSpec;
use vstd::std_specs::cmp::OrdSpec;

verus! {

/// True when `v` can be held by an `isize`.
pub open spec fn fits_isize(v: int) -> bool {
    isize::MIN <= v <= isize::MAX
}

/// The smaller of two integers.
pub open spec fn int_min(a: int, b: int) -> int {
    if a <= b { a } else { b }
}

/// The larger of two integers.
pub open spec fn int_max(a: int, b: int) -> int {
    if a >= b { a } else { b }
}

/// The absolute value of an integer.
pub open spec fn int_abs(a: int) -> int {
    if a < 0 { -a } else { a }
}

/// A position on the character grid (or, in the frame buffer, a pixel position).
#[derive(Debug, Clone, Copy, PartialEq, Eq, Hash, Structural)]
pub struct Coordinates {
    pub x: isize,
    pub y: isize,
}

impl Coordinates {
    /// The grid key under which this position is stored.
    pub open spec fn key(self) -> (isize, isize) {
        (self.x, self.y)
    }

    /// Componentwise minimum with `value`.
    pub fn min(&self, value: isize) -> (r: Self)
        ensures
            r.x == int_min(self.x as int, value as int),
            r.y == int_min(self.y as int, value as int),
    {
        let x = if self.x <= value { self.x } else { value };
        let y = if self.y <= value { self.y } else { value };
        Coordinates { x, y }
    }

    /// Componentwise maximum with `value`.
    pub fn max(&self, value: isize) -> (r: Self)
        ensures
            r.x == int_max(self.x as int, value as int),
            r.y == int_max(self.y as int, value as int),
    {
        let x = if self.x >= value { self.x } else { value };
        let y = if self.y >= value { self.y } else { value };
        Coordinates { x, y }
    }

    /// The absolute values of both components, which always fit in `usize`.
    pub fn unsigned_abs(&self) -> (r: (usize, usize))
        ensures
            r.0 == int_abs(self.x as int),
            r.1 == int_abs(self.y as int),
    {
        (abs_isize(self.x), abs_isize(self.y))
    }

    /// In-place componentwise sum.
    pub fn add_assign(&mut self, rhs: Self)
        requires
            fits_isize(old(self).x + rhs.x),
            fits_isize(old(self).y + rhs.y),
        ensures
            final(self).x == old(self).x + rhs.x,
            final(self).y == old(self).y + rhs.y,
    {
        self.x = self.x + rhs.x;
        self.y = self.y + rhs.y;
    }

    /// In-place componentwise difference.
    pub fn sub_assign(&mut self, rhs: Self)
        requires
            fits_isize(old(self).x - rhs.x),
            fits_isize(old(self).y - rhs.y),
        ensures
            final(self).x == old(self).x - rhs.x,
            final(self).y == old(self).y - rhs.y,
    {
        self.x = self.x - rhs.x;
        self.y = self.y - rhs.y;
    }

    /// In-place multiplication of both components by `rhs`.
    pub fn mul_assign(&mut self, rhs: isize)
        requires
            fits_isize(old(self).x * rhs),
            fits_isize(old(self).y * rhs),
        ensures
            final(self).x == old(self).x * rhs,
            final(self).y == old(self).y * rhs,
    {
        self.x = self.x * rhs;
        self.y = self.y * rhs;
    }
}

impl std::ops::Add for Coordinates {
    type Output = Coordinates;

    /// Componentwise sum.
    fn add(self, rhs: Coordinates) -> (r: Coordinates) {
        Coordinates { x: self.x + rhs.x, y: self.y + rhs.y }
    }
}

impl vstd::std_specs::ops::AddSpecImpl for Coordinates {
    open spec fn obeys_add_spec() -> bool {
        true
    }

    open spec fn add_req(self, rhs: Coordinates) -> bool {
        fits_isize(self.x + rhs.x) && fits_isize(self.y + rhs.y)
    }

    open spec fn add_spec(self, rhs: Coordinates) -> Coordinates {
        Coordinates { x: (self.x + rhs.x) as isize, y: (self.y + rhs.y) as isize }
    }
}

impl std::ops::Sub for Coordinates {
    type Output = Coordinates;

    /// Componentwise difference.
    fn sub(self, rhs: Coordinates) -> (r: Coordinates) {
        Coordinates { x: self.x - rhs.x, y: self.y - rhs.y }
    }
}

impl vstd::std_specs::ops::SubSpecImpl for Coordinates {
    open spec fn obeys_sub_spec() -> bool {
        true
    }

    open spec fn sub_req(self, rhs: Coordinates) -> bool {
        fits_isize(self.x - rhs.x) && fits_isize(self.y - rhs.y)
    }

    open spec fn sub_spec(self, rhs: Coordinates) -> Coordinates {
        Coordinates { x: (self.x - rhs.x) as isize, y: (self.y - rhs.y) as isize }
    }
}

impl std::ops::Mul for Coordinates {
    type Output = Coordinates;

    /// Componentwise product.
    fn mul(self, rhs: Coordinates) -> (r: Coordinates) {
        Coordinates { x: self.x * rhs.x, y: self.y * rhs.y }
    }
}

impl vstd::std_specs::ops::MulSpecImpl for Coordinates {
    open spec fn obeys_mul_spec() -> bool {
        true
    }

    open spec fn mul_req(self, rhs: Coordinates) -> bool {
        fits_isize(self.x * rhs.x) && fits_isize(self.y * rhs.y)
    }

    open spec fn mul_spec(self, rhs: Coordinates) -> Coordinates {
        Coordinates { x: (self.x * rhs.x) as isize, y: (self.y * rhs.y) as isize }
    }
}

impl std::ops::Mul<isize> for Coordinates {
    type Output = Coordinates;

    /// Both components multiplied by `rhs`.
    fn mul(self, rhs: isize) -> (r: Coordinates) {
        Coordinates { x: self.x * rhs, y: self.y * rhs }
    }
}

impl vstd::std_specs::ops::MulSpecImpl<isize> for Coordinates {
    open spec fn obeys_mul_spec() -> bool {
        true
    }

    open spec fn mul_req(self, rhs: isize) -> bool {
        fits_isize(self.x * rhs) && fits_isize(self.y * rhs)
    }

    open spec fn mul_spec(self, rhs: isize) -> Coordinates {
        Coordinates { x: (self.x * rhs) as isize, y: (self.y * rhs) as isize }
    }
}

/// The absolute value of an `isize`, as a `usize`.
fn abs_isize(v: isize) -> (r: usize)
    ensures
        r == int_abs(v as int),
{
    if v >= 0 {
        v as usize
    } else {
        let w: isize = v + 1;
        let m: usize = (-w) as usize;
        m + 1
    }
}

impl From<(isize, isize)> for Coordinates {
    fn from(v: (isize, isize)) -> (r: Self) {
        Coordinates { x: v.0, y: v.1 }
    }
}

impl vstd::std_specs::convert::FromSpecImpl<(isize, isize)> for Coordinates {
    open spec fn obeys_from_spec() -> bool {
        true
    }

    open spec fn from_spec(v: (isize, isize)) -> Coordinates {
        Coordinates { x: v.0, y: v.1 }
    }
}

/// `a + b`, clamped to `isize::MAX`.
pub open spec fn saturating_add_unsigned(a: isize, b: usize) -> int {
    if a + b > isize::MAX { isize::MAX as int } else { a + b }
}

fn saturating_add_unsigned_exec(a: isize, b: usize) -> (r: isize)
    ensures
        r == saturating_add_unsigned(a, b),
{
    let s: i128 = a as i128 + b as i128;
    if s > isize::MAX as i128 {
        isize::MAX
    } else {
        s as isize
    }
}

/// A rectangle of the grid: `width` columns and `height` rows from `top_left`.
#[derive(Debug, Clone, Copy, PartialEq, Eq, Structural)]
pub struct BoundingBox {
    pub top_left: Coordinates,
    pub width: usize,
    pub height: usize,
}

impl BoundingBox {
    /// Whether the point `(px, py)` lies in the box. The box ends at `isize::MAX`
    /// where its extent would run past it.
    pub open spec fn contains_at(self, px: int, py: int) -> bool {
        &&& self.top_left.x <= px < saturating_add_unsigned(self.top_left.x, self.width)
        &&& self.top_left.y <= py < saturating_add_unsigned(self.top_left.y, self.height)
    }

    pub fn new(top_left: Coordinates, width: usize, height: usize) -> (r: Self)
        ensures
            r == (BoundingBox { top_left, width, height }),
    {
        BoundingBox { top_left, width, height }
    }

    /// Whether `point` lies in the box.
    pub fn contains(&self, point: &Coordinates) -> (r: bool)
        ensures
            r == self.contains_at(point.x as int, point.y as int),
    {
        let x_end = saturating_add_unsigned_exec(self.top_left.x, self.width);
        let y_end = saturating_add_unsigned_exec(self.top_left.y, self.height);
        self.top_left.x <= point.x && point.x < x_end && self.top_left.y <= point.y && point.y
            < y_end
    }

    /// The position of `point` relative to the top left corner, when the point lies in
    /// the box.
    pub fn convert_to_relative(&self, point: &Coordinates) -> (r: Option<Coordinates>)
        requires
            self.contains_at(point.x as int, point.y as int) ==> fits_isize(point.x - self.top_left.x)
                && fits_isize(point.y - self.top_left.y),
        ensures
            r is Some <==> self.contains_at(point.x as int, point.y as int),
            r matches Some(rel) ==> rel.x == point.x - self.top_left.x && rel.y == point.y
                - self.top_left.y,
            r matches Some(rel) ==> 0 <= rel.x < self.width && 0 <= rel.y < self.height,
    {
        if self.contains(point) {
            Some(Coordinates { x: point.x - self.top_left.x, y: point.y - self.top_left.y })
        } else {
            None
        }
    }
}

impl From<(Coordinates, usize, usize)> for BoundingBox {
    fn from(v: (Coordinates, usize, usize)) -> (r: Self) {
        BoundingBox::new(v.0, v.1, v.2)
    }
}

impl vstd::std_specs::convert::FromSpecImpl<(Coordinates, usize, usize)> for BoundingBox {
    open spec fn obeys_from_spec() -> bool {
        true
    }

    open spec fn from_spec(v: (Coordinates, usize, usize)) -> BoundingBox {
        BoundingBox { top_left: v.0, width: v.1, height: v.2 }
    }
}

/// One of the four directions in which the cursor moves.
#[derive(Debug, Clone, Copy, PartialEq, Eq, Structural)]
pub enum Direction {
    Up,
    Right,
    Down,
    Left,
}

impl Direction {
    /// The unit step of this direction; rows grow downwards.
    pub open spec fn step(self) -> (int, int) {
        match self {
            Direction::Up => (0, -1),
            Direction::Right => (1, 0),
            Direction::Down => (0, 1),
            Direction::Left => (-1, 0),
        }
    }

    pub fn vector(&self) -> (r: Coordinates)
        ensures
            r.x == self.step().0,
            r.y == self.step().1,
    {
        match self {
            Direction::Up => Coordinates { x: 0, y: -1 },
            Direction::Right => Coordinates { x: 1, y: 0 },
            Direction::Down => Coordinates { x: 0, y: 1 },
            Direction::Left => Coordinates { x: -1, y: 0 },
        }
    }
}

/// Opposite directions have opposite steps, and every step has length one.
pub proof fn lemma_direction_steps(d: Direction)
    ensures
        int_abs(d.step().0) + int_abs(d.step().1) == 1,
        Direction::Up.step().0 + Direction::Down.step().0 == 0,
        Direction::Up.step().1 + Direction::Down.step().1 == 0,
        Direction::Left.step().0 + Direction::Right.step().0 == 0,
        Direction::Left.step().1 + Direction::Right.step().1 == 0,
{
}

/// Whether the box lies where relative positions of its points fit in `isize`.
pub open spec fn relative_positions_fit(m: Map<(isize, isize), char>, bb: BoundingBox) -> bool {
    forall|k: (isize, isize)|
        #[trigger] m.contains_key(k) && bb.contains_at(k.0 as int, k.1 as int) ==> fits_isize(
            k.0 - bb.top_left.x,
        ) && fits_isize(k.1 - bb.top_left.y)
}

/// The position of the grid key `k` relative to the top left corner of `bb`.
pub open spec fn relative_to(bb: BoundingBox, k: (isize, isize)) -> Coordinates {
    Coordinates { x: (k.0 - bb.top_left.x) as isize, y: (k.1 - bb.top_left.y) as isize }
}

/// Whether `(rel, c)` is what `bb` shows of the grid `m`: `rel` is a position relative
/// to the box, the cell there lies in the box, and it holds `c`.
pub open spec fn shows(m: Map<(isize, isize), char>, bb: BoundingBox, rel: Coordinates, c: char) -> bool {
    let ax = bb.top_left.x + rel.x;
    let ay = bb.top_left.y + rel.y;
    &&& bb.contains_at(ax, ay)
    &&& m.contains_key((ax as isize, ay as isize))
    &&& m[(ax as isize, ay as isize)] == c
}

/// The cells of `es` that lie in `bb`, in the order of `es`, at positions relative to
/// the box.
pub open spec fn visible_of(es: Seq<((isize, isize), char)>, bb: BoundingBox) -> Seq<
    (Coordinates, char),
>
    decreases es.len(),
{
    if es.len() == 0 {
        Seq::empty()
    } else {
        let rest = visible_of(es.drop_last(), bb);
        let e = es.last();
        if bb.contains_at(e.0.0 as int, e.0.1 as int) {
            rest.push((relative_to(bb, e.0), e.1))
        } else {
            rest
        }
    }
}

/// Whether `v` lists exactly what `bb` shows of the grid `m`, each cell once.
pub open spec fn lists_view_of(
    v: Seq<(Coordinates, char)>,
    m: Map<(isize, isize), char>,
    bb: BoundingBox,
) -> bool {
    &&& v.no_duplicates()
    &&& forall|i: int| 0 <= i < v.len() ==> shows(m, bb, #[trigger] v[i].0, v[i].1)
    &&& forall|k: (isize, isize)|
        #[trigger] m.contains_key(k) && bb.contains_at(k.0 as int, k.1 as int) ==> v.contains(
            (relative_to(bb, k), m[k]),
        )
}

/// What `visible_of` lists, for a listing `es` of the grid `m` that holds each cell once.
proof fn lemma_visible_of(
    es: Seq<((isize, isize), char)>,
    m: Map<(isize, isize), char>,
    bb: BoundingBox,
)
    requires
        es.no_duplicates(),
        forall|i: int| 0 <= i < es.len() ==> #[trigger] m.contains_key(es[i].0) && m[es[i].0] == es[i].1,
        relative_positions_fit(m, bb),
    ensures
        visible_of(es, bb).no_duplicates(),
        forall|j: int|
            0 <= j < visible_of(es, bb).len() ==> shows(
                m,
                bb,
                #[trigger] visible_of(es, bb)[j].0,
                visible_of(es, bb)[j].1,
            ),
        forall|i: int|
            0 <= i < es.len() && bb.contains_at(es[i].0.0 as int, es[i].0.1 as int)
                ==> #[trigger] visible_of(es, bb).contains((relative_to(bb, es[i].0), es[i].1)),
    decreases es.len(),
{
    if es.len() > 0 {
        let rest = es.drop_last();
        assert forall|i: int| 0 <= i < rest.len() implies #[trigger] m.contains_key(rest[i].0)
            && m[rest[i].0] == rest[i].1 by {
            assert(rest[i] == es[i]);
        }
        lemma_visible_of(rest, m, bb);
        let v = visible_of(es, bb);
        let vr = visible_of(rest, bb);
        let e = es.last();
        if bb.contains_at(e.0.0 as int, e.0.1 as int) {
            let new = (relative_to(bb, e.0), e.1);
            assert(m.contains_key(es[es.len() - 1].0));
            if vr.contains(new) {
                let j = choose|j: int| 0 <= j < vr.len() && vr[j] == new;
                assert(shows(m, bb, vr[j].0, vr[j].1));
                let ax = bb.top_left.x + new.0.x;
                let ay = bb.top_left.y + new.0.y;
                assert((ax as isize, ay as isize) == e.0);
                assert(vr[j].1 == m[e.0]);
                assert(false) by {
                    // the cell shown at `new` comes from an earlier entry with the same key
                    lemma_visible_source(rest, m, bb, j);
                    let i = choose|i: int|
                        0 <= i < rest.len() && bb.contains_at(rest[i].0.0 as int, rest[i].0.1 as int)
                            && vr[j] == (relative_to(bb, rest[i].0), rest[i].1);
                    assert(rest[i] == es[i]);
                    assert(m.contains_key(es[i].0));
                    assert(rest[i].0 == e.0);
                    assert(es[i] == es[es.len() - 1]);
                }
            }
            assert forall|j: int| 0 <= j < v.len() implies shows(m, bb, #[trigger] v[j].0, v[j].1) by {
                if j < vr.len() {
                    assert(v[j] == vr[j]);
                }
            }
            assert forall|i: int|
                0 <= i < es.len() && bb.contains_at(es[i].0.0 as int, es[i].0.1 as int) implies #[trigger] v.contains(
                (relative_to(bb, es[i].0), es[i].1),
            ) by {
                if i < es.len() - 1 {
                    assert(rest[i] == es[i]);
                    let x = (relative_to(bb, rest[i].0), rest[i].1);
                    assert(vr.contains(x));
                    let j = choose|j: int| 0 <= j < vr.len() && vr[j] == x;
                    assert(v[j] == vr[j]);
                } else {
                    assert(v[v.len() - 1] == new);
                }
            }
        } else {
            assert forall|i: int|
                0 <= i < es.len() && bb.contains_at(es[i].0.0 as int, es[i].0.1 as int) implies #[trigger] v.contains(
                (relative_to(bb, es[i].0), es[i].1),
            ) by {
                assert(rest[i] == es[i]);
            }
        }
    }
}

/// Each cell that `visible_of` lists comes from an entry of the listing that lies in
/// the box.
proof fn lemma_visible_source(es: Seq<((isize, isize), char)>, m: Map<(isize, isize), char>, bb: BoundingBox, j: int)
    requires
        0 <= j < visible_of(es, bb).len(),
    ensures
        exists|i: int|
            0 <= i < es.len() && bb.contains_at(es[i].0.0 as int, es[i].0.1 as int)
                && visible_of(es, bb)[j] == (relative_to(bb, es[i].0), es[i].1),
    decreases es.len(),
{
    let rest = es.drop_last();
    let vr = visible_of(rest, bb);
    if j < vr.len() {
        lemma_visible_source(rest, m, bb, j);
        let i = choose|i: int|
            0 <= i < rest.len() && bb.contains_at(rest[i].0.0 as int, rest[i].0.1 as int)
                && vr[j] == (relative_to(bb, rest[i].0), rest[i].1);
        assert(es[i] == rest[i]);
    } else {
        let i = es.len() - 1;
        assert(visible_of(es, bb)[j] == (relative_to(bb, es[i].0), es[i].1));
    }
}

/// Whether the grid key `a` comes before `b` in the order in which the grid lists its
/// cells: by column, then by row.
pub open spec fn key_before(a: (isize, isize), b: (isize, isize)) -> bool {
    a.0 < b.0 || (a.0 == b.0 && a.1 < b.1)
}

proof fn lemma_less_is_key_before(a: (isize, isize), b: (isize, isize))
    requires
        a.cmp_spec(&b) is Less,
    ensures
        key_before(a, b),
{
}

/// Whether the keys of the listing `es` strictly increase in the order of `key_before`.
pub open spec fn keys_increasing(es: Seq<((isize, isize), char)>) -> bool {
    forall|i: int, j: int| #![trigger es[i], es[j]] 0 <= i < j < es.len() ==> key_before(es[i].0, es[j].0)
}

/// Whether the positions of `v` strictly increase: by column, then by row.
pub open spec fn listed_in_order(v: Seq<(Coordinates, char)>) -> bool {
    forall|i: int, j: int| #![trigger v[i], v[j]] 0 <= i < j < v.len() ==> key_before(v[i].0.key(), v[j].0.key())
}

/// `visible_of` keeps the order of a listing whose keys increase.
proof fn lemma_visible_in_order(es: Seq<((isize, isize), char)>, m: Map<(isize, isize), char>, bb: BoundingBox)
    requires
        keys_increasing(es),
        forall|i: int| 0 <= i < es.len() ==> #[trigger] m.contains_key(es[i].0),
        relative_positions_fit(m, bb),
    ensures
        listed_in_order(visible_of(es, bb)),
    decreases es.len(),
{
    if es.len() > 0 {
        let rest = es.drop_last();
        assert forall|i: int, j: int| #![trigger rest[i], rest[j]] 0 <= i < j < rest.len() implies key_before(
            rest[i].0,
            rest[j].0,
        ) by {
            assert(rest[i] == es[i] && rest[j] == es[j]);
        }
        assert forall|i: int| 0 <= i < rest.len() implies #[trigger] m.contains_key(rest[i].0) by {
            assert(rest[i] == es[i]);
        }
        lemma_visible_in_order(rest, m, bb);
        let e = es.last();
        let vr = visible_of(rest, bb);
        let v = visible_of(es, bb);
        if bb.contains_at(e.0.0 as int, e.0.1 as int) {
            assert(m.contains_key(es[es.len() - 1].0));
            assert forall|j: int| 0 <= j < vr.len() implies key_before(vr[j].0.key(), relative_to(bb, e.0).key()) by {
                lemma_visible_source(rest, m, bb, j);
                let i = choose|i: int|
                    0 <= i < rest.len() && bb.contains_at(rest[i].0.0 as int, rest[i].0.1 as int)
                        && vr[j] == (relative_to(bb, rest[i].0), rest[i].1);
                assert(rest[i] == es[i]);
                assert(m.contains_key(es[i].0));
                assert(key_before(es[i].0, es[es.len() - 1].0));
            }
            assert forall|i: int, j: int| #![trigger v[i], v[j]] 0 <= i < j < v.len() implies key_before(
                v[i].0.key(),
                v[j].0.key(),
            ) by {
                assert(v[i] == vr[i]);
                if j < vr.len() {
                    assert(v[j] == vr[j]);
                }
            }
        }
    }
}

/// Two listings in order with the same items are the same listing.
proof fn lemma_ordered_same_items(v: Seq<(Coordinates, char)>, w: Seq<(Coordinates, char)>)
    requires
        listed_in_order(v),
        listed_in_order(w),
        forall|x: (Coordinates, char)| v.contains(x) <==> w.contains(x),
    ensures
        v == w,
    decreases v.len(),
{
    if v.len() == 0 {
        if w.len() > 0 {
            assert(w.contains(w[0]));
        }
        assert(v =~= w);
    } else {
        assert(v.contains(v[0]));
        let j = choose|j: int| 0 <= j < w.len() && w[j] == v[0];
        assert(w.contains(w[0]));
        let i = choose|i: int| 0 <= i < v.len() && v[i] == w[0];
        if j > 0 {
            assert(key_before(w[0].0.key(), w[j].0.key()));
            if i > 0 {
                assert(key_before(v[0].0.key(), v[i].0.key()));
            }
        }
        assert(v[0] == w[0]);
        let v1 = v.drop_first();
        let w1 = w.drop_first();
        assert forall|i: int, j: int| #![trigger v1[i], v1[j]] 0 <= i < j < v1.len() implies key_before(
            v1[i].0.key(),
            v1[j].0.key(),
        ) by {
            assert(v1[i] == v[i + 1] && v1[j] == v[j + 1]);
        }
        assert forall|i: int, j: int| #![trigger w1[i], w1[j]] 0 <= i < j < w1.len() implies key_before(
            w1[i].0.key(),
            w1[j].0.key(),
        ) by {
            assert(w1[i] == w[i + 1] && w1[j] == w[j + 1]);
        }
        assert forall|x: (Coordinates, char)| v1.contains(x) <==> w1.contains(x) by {
            if v1.contains(x) {
                let a = choose|a: int| 0 <= a < v1.len() && v1[a] == x;
                assert(v[a + 1] == x);
                assert(key_before(v[0].0.key(), v[a + 1].0.key()));
                assert(v.contains(x));
                let b = choose|b: int| 0 <= b < w.len() && w[b] == x;
                assert(b != 0);
                assert(w1[b - 1] == x);
            }
            if w1.contains(x) {
                let a = choose|a: int| 0 <= a < w1.len() && w1[a] == x;
                assert(w[a + 1] == x);
                assert(key_before(w[0].0.key(), w[a + 1].0.key()));
                assert(w.contains(x));
                let b = choose|b: int| 0 <= b < v.len() && v[b] == x;
                assert(b != 0);
                assert(v1[b - 1] == x);
            }
        }
        lemma_ordered_same_items(v1, w1);
        assert forall|i: int| 0 <= i < v.len() implies v[i] == w[i] by {
            if i > 0 {
                assert(v[i] == v1[i - 1] && w[i] == w1[i - 1]);
            }
        }
        assert(v =~= w);
    }
}

/// What a rectangle shows of a grid has one listing in order: two lists that each hold
/// exactly the shown cells, each once, in order of position, are the same list.
pub proof fn lemma_listing_unique(
    v: Seq<(Coordinates, char)>,
    w: Seq<(Coordinates, char)>,
    m: Map<(isize, isize), char>,
    bb: BoundingBox,
)
    requires
        lists_view_of(v, m, bb),
        lists_view_of(w, m, bb),
        listed_in_order(v),
        listed_in_order(w),
    ensures
        v == w,
{
    assert forall|x: (Coordinates, char)| v.contains(x) implies w.contains(x) by {
        let i = choose|i: int| 0 <= i < v.len() && v[i] == x;
        assert(shows(m, bb, v[i].0, v[i].1));
        let k = ((bb.top_left.x + x.0.x) as isize, (bb.top_left.y + x.0.y) as isize);
        assert(m.contains_key(k) && bb.contains_at(k.0 as int, k.1 as int));
        assert(relative_to(bb, k) == x.0);
    }
    assert forall|x: (Coordinates, char)| w.contains(x) implies v.contains(x) by {
        let i = choose|i: int| 0 <= i < w.len() && w[i] == x;
        assert(shows(m, bb, w[i].0, w[i].1));
        let k = ((bb.top_left.x + x.0.x) as isize, (bb.top_left.y + x.0.y) as isize);
        assert(m.contains_key(k) && bb.contains_at(k.0 as int, k.1 as int));
        assert(relative_to(bb, k) == x.0);
    }
    lemma_ordered_same_items(v, w);
}

/// A sparse grid of characters, keyed by position.
///
/// The cells are kept in a `BTreeMap` keyed by `(x, y)`. vstd specifies `HashMap` only
/// for key types that obey its hash-table model, which it grants to primitive types
/// alone: with an `(isize, isize)` key, not even that a key is present after inserting
/// it can be shown, and a position key would need the model assumed, which the library
/// does not do. A tuple of integers obeys vstd's ordering model outright, so the
/// `BTreeMap` is fully specified, and it lists its cells in key order (by column, then
/// by row).
pub struct TextStorage {
    characters: BTreeMap<(isize, isize), char>,
}

impl View for TextStorage {
    type V = Map<(isize, isize), char>;

    closed spec fn view(&self) -> Map<(isize, isize), char> {
        self.characters@
    }
}

impl TextStorage {
    /// The stored cells, in the order in which the storage lists them.
    pub closed spec fn entries(&self) -> Seq<((isize, isize), char)> {
        vstd::std_specs::btree::into_iter(spec_btree_map_iter(&self.characters))
    }

    pub fn new() -> (r: Self)
        ensures
            r@ == Map::<(isize, isize), char>::empty(),
    {
        TextStorage { characters: BTreeMap::new() }
    }

    /// The cells that lie in `bounding_box`, at positions relative to its top left
    /// corner.
    pub fn characters_in_bounding_box(&self, bounding_box: BoundingBox) -> (r: Vec<
        (Coordinates, char),
    >)
        requires
            relative_positions_fit(self@, bounding_box),
        ensures
            r@ == visible_of(self.entries(), bounding_box),
            lists_view_of(r@, self@, bounding_box),
            listed_in_order(r@),
    {
        let mut result: Vec<(Coordinates, char)> = Vec::new();
        let iter = self.characters.iter();
        let ghost es = self.entries();
        proof {
            assert(iter.remaining().unref() == es);
            assert(es.no_duplicates());
            let ks = iter.remaining().map_values(|kv: (&(isize, isize), &char)| *kv.0);
            assert forall|i: int, j: int| #![trigger es[i], es[j]] 0 <= i < j < es.len() implies key_before(
                es[i].0,
                es[j].0,
            ) by {
                assert(ks[i] == es[i].0);
                assert(ks[j] == es[j].0);
                lemma_less_is_key_before(ks[i], ks[j]);
            }
            assert forall|i: int| 0 <= i < es.len() implies #[trigger] self@.contains_key(es[i].0)
                && self@[es[i].0] == es[i].1 by {
                assert(self@.contains_key(*iter.remaining()[i].0));
            }
            assert forall|k: (isize, isize)| #[trigger] self@.contains_key(k) implies es.contains(
                (k, self@[k]),
            ) by {
                let j = choose|j: int|
                    0 <= j < iter.remaining().len() && iter.remaining()[j] == (&k, &self@[k]);
                assert(es[j] == (k, self@[k]));
            }
        }
        for kv in it: iter
            invariant
                relative_positions_fit(self@, bounding_box),
                it.seq().unref() == es,
                es == self.entries(),
                es.no_duplicates(),
                forall|i: int|
                    0 <= i < es.len() ==> #[trigger] self@.contains_key(es[i].0) && self@[es[i].0]
                        == es[i].1,
                forall|k: (isize, isize)| #[trigger]
                    self@.contains_key(k) ==> es.contains((k, self@[k])),
                result@ == visible_of(es.take(it.index()), bounding_box),
        {
            let (k, c) = kv;
            let ghost i = it.index();
            assert(es.take(i + 1).drop_last() =~= es.take(i));
            assert(es[i] == (*k, *c));
            assert(self@.contains_key(es[i].0));
            let point = Coordinates { x: k.0, y: k.1 };
            match bounding_box.convert_to_relative(&point) {
                Some(rel) => {
                    result.push((rel, *c));
                },
                None => {},
            }
        }
        proof {
            assert(es.take(es.len() as int) =~= es);
            lemma_visible_of(es, self@, bounding_box);
            lemma_visible_in_order(es, self@, bounding_box);
        }
        result
    }
}

/// The grid cells holding `s`, one character per column from column `x0` of row `y`.
pub open spec fn row_of(s: Seq<char>, x0: int, y: isize) -> Map<(isize, isize), char> {
    Map::new(
        |k: (isize, isize)| k.1 == y && x0 <= k.0 < x0 + s.len(),
        |k: (isize, isize)| s[k.0 - x0],
    )
}

/// Whether `r` is the run of characters of `m` that starts at `start` and goes right
/// up to the first empty cell.
pub open spec fn reads_row(m: Map<(isize, isize), char>, start: Coordinates, r: Seq<char>) -> bool {
    &&& start.x + r.len() <= isize::MAX
    &&& forall|i: int|
        0 <= i < r.len() ==> #[trigger] m.contains_key(((start.x + i) as isize, start.y)) && m[(
            (start.x + i) as isize,
            start.y,
        )] == r[i]
    &&& !m.contains_key(((start.x + r.len()) as isize, start.y))
}

/// Whether the row of `start` has an empty cell at or right of `start`.
pub open spec fn row_has_gap(m: Map<(isize, isize), char>, start: Coordinates) -> bool {
    exists|k: int| start.x <= k <= isize::MAX && !#[trigger] m.contains_key((k as isize, start.y))
}

/// The cells of row `y` at or right of column `x`.
spec fn row_from(m: Map<(isize, isize), char>, x: int, y: isize) -> Set<(isize, isize)> {
    m.dom().filter(|k: (isize, isize)| k.1 == y && k.0 >= x)
}

proof fn lemma_row_from_shrinks(m: Map<(isize, isize), char>, x: isize, y: isize)
    requires
        m.dom().finite(),
        m.contains_key((x, y)),
    ensures
        row_from(m, x + 1, y).finite(),
        row_from(m, x + 1, y).len() < row_from(m, x as int, y).len(),
{
    m.dom().lemma_len_filter(|k: (isize, isize)| k.1 == y && k.0 >= x);
    assert(row_from(m, x + 1, y) =~= row_from(m, x as int, y).remove((x, y)));
}

/// An editable area: a sparse grid of characters, the rectangle of it that is shown,
/// and a cursor.
pub struct TextArea {
    text_storage: TextStorage,
    bounding_box: BoundingBox,
    cursor_absolute_position: Coordinates,
    view_cache: Option<Vec<(Coordinates, char)>>,
}

impl TextArea {
    /// The characters of the grid, by position.
    pub closed spec fn cells(&self) -> Map<(isize, isize), char> {
        self.text_storage@
    }

    /// The rectangle of the grid that the area shows.
    pub closed spec fn area(&self) -> BoundingBox {
        self.bounding_box
    }

    /// The cursor, as a grid position.
    pub closed spec fn cursor(&self) -> Coordinates {
        self.cursor_absolute_position
    }

    /// The cells the area shows, relative to its top left corner, in the order in which
    /// `chars` lists them.
    pub closed spec fn shown(&self) -> Seq<(Coordinates, char)> {
        visible_of(self.text_storage.entries(), self.bounding_box)
    }

    /// Whether the list of shown cells is at hand.
    pub closed spec fn is_cached(&self) -> bool {
        self.view_cache is Some
    }

    /// The area's internal consistency: the shown rectangle starts at the origin of the
    /// grid, and a kept list of shown cells matches the grid.
    pub closed spec fn wf(&self) -> bool {
        &&& self.bounding_box.top_left == Coordinates { x: 0, y: 0 }
        &&& self.view_cache matches Some(v) ==> {
            &&& v@ == visible_of(self.text_storage.entries(), self.bounding_box)
            &&& lists_view_of(v@, self.text_storage@, self.bounding_box)
            &&& listed_in_order(v@)
        }
    }

    /// An empty area of `width` columns and `height` rows, with the cursor at the origin.
    pub fn new(width: usize, height: usize) -> (r: Self)
        ensures
            r.wf(),
            r.cells() == Map::<(isize, isize), char>::empty(),
            r.area() == (BoundingBox { top_left: Coordinates { x: 0, y: 0 }, width, height }),
            r.cursor() == (Coordinates { x: 0, y: 0 }),
            !r.is_cached(),
    {
        TextArea {
            text_storage: TextStorage::new(),
            bounding_box: BoundingBox::new(Coordinates { x: 0, y: 0 }, width, height),
            cursor_absolute_position: Coordinates { x: 0, y: 0 },
            view_cache: None,
        }
    }

    /// The cursor relative to the top left corner of the shown rectangle.
    pub fn cursor_relative_position(&self) -> (r: Coordinates)
        requires
            self.wf(),
        ensures
            r.x == self.cursor().x - self.area().top_left.x,
            r.y == self.cursor().y - self.area().top_left.y,
    {
        Coordinates {
            x: self.cursor_absolute_position.x - self.bounding_box.top_left.x,
            y: self.cursor_absolute_position.y - self.bounding_box.top_left.y,
        }
    }

    /// Computes the list of shown cells, unless it is already at hand.
    pub fn ensure_cache(&mut self)
        requires
            old(self).wf(),
        ensures
            final(self).wf(),
            final(self).cells() == old(self).cells(),
            final(self).area() == old(self).area(),
            final(self).cursor() == old(self).cursor(),
            final(self).shown() == old(self).shown(),
            final(self).is_cached(),
    {
        if self.view_cache.is_none() {
            let v = self.text_storage.characters_in_bounding_box(self.bounding_box);
            self.view_cache = Some(v);
        }
    }

    /// The shown cells, relative to the top left corner of the shown rectangle: exactly
    /// the cells of the grid that lie in it, each once, in order of position (by column,
    /// then by row).
    pub fn chars(&mut self) -> (r: Vec<(Coordinates, char)>)
        requires
            old(self).wf(),
        ensures
            final(self).wf(),
            r@ == old(self).shown(),
            lists_view_of(r@, old(self).cells(), old(self).area()),
            listed_in_order(r@),
            final(self).cells() == old(self).cells(),
            final(self).area() == old(self).area(),
            final(self).cursor() == old(self).cursor(),
            final(self).shown() == old(self).shown(),
    {
        self.ensure_cache();
        let mut result: Vec<(Coordinates, char)> = Vec::new();
        match &self.view_cache {
            Some(v) => {
                let mut i: usize = 0;
                while i < v.len()
                    invariant
                        i <= v.len(),
                        result@ == v@.take(i as int),
                    decreases v.len() - i,
                {
                    result.push(v[i]);
                    i = i + 1;
                    assert(result@ =~= v@.take(i as int));
                }
                assert(v@.take(v.len() as int) =~= v@);
            },
            None => {},
        }
        result
    }

    /// Moves the cursor one step in `direction`.
    pub fn move_cursor(&mut self, direction: Direction)
        requires
            old(self).wf(),
            fits_isize(old(self).cursor().x + direction.step().0),
            fits_isize(old(self).cursor().y + direction.step().1),
        ensures
            final(self).wf(),
            final(self).cursor().x == old(self).cursor().x + direction.step().0,
            final(self).cursor().y == old(self).cursor().y + direction.step().1,
            final(self).cells() == old(self).cells(),
            final(self).area() == old(self).area(),
            !final(self).is_cached(),
    {
        let v = direction.vector();
        self.cursor_absolute_position = self.cursor_absolute_position + v;
        self.view_cache = None;
    }

    /// Moves the cursor `amount` steps in `direction`; `amount` is taken as an `isize`,
    /// as a cast gives it.
    pub fn move_cursor_by(&mut self, direction: Direction, amount: usize)
        requires
            old(self).wf(),
            fits_isize(direction.step().0 * (amount as isize)),
            fits_isize(direction.step().1 * (amount as isize)),
            fits_isize(old(self).cursor().x + direction.step().0 * (amount as isize)),
            fits_isize(old(self).cursor().y + direction.step().1 * (amount as isize)),
        ensures
            final(self).wf(),
            final(self).cursor().x == old(self).cursor().x + direction.step().0 * (amount as isize),
            final(self).cursor().y == old(self).cursor().y + direction.step().1 * (amount as isize),
            final(self).cells() == old(self).cells(),
            final(self).area() == old(self).area(),
            !final(self).is_cached(),
    {
        let v = direction.vector() * (amount as isize);
        self.cursor_absolute_position = self.cursor_absolute_position + v;
        self.view_cache = None;
    }

    /// Writes `c` in the cell under the cursor, replacing what was there.
    pub fn write_at_cursor(&mut self, c: char)
        requires
            old(self).wf(),
        ensures
            final(self).wf(),
            final(self).cells() == old(self).cells().insert(old(self).cursor().key(), c),
            final(self).cursor() == old(self).cursor(),
            final(self).area() == old(self).area(),
            !final(self).is_cached(),
    {
        self.view_cache = None;
        let k = (self.cursor_absolute_position.x, self.cursor_absolute_position.y);
        self.text_storage.characters.insert(k, c);
    }

    /// Empties the cell under the cursor.
    pub fn erase_at_cursor(&mut self)
        requires
            old(self).wf(),
        ensures
            final(self).wf(),
            final(self).cells() == old(self).cells().remove(old(self).cursor().key()),
            final(self).cursor() == old(self).cursor(),
            final(self).area() == old(self).area(),
            !final(self).is_cached(),
    {
        self.view_cache = None;
        let k = (self.cursor_absolute_position.x, self.cursor_absolute_position.y);
        self.text_storage.characters.remove(&k);
    }

    /// The characters from `start` rightwards, up to the first empty cell.
    pub fn string_at(&self, start: Coordinates) -> (r: String)
        requires
            self.wf(),
            row_has_gap(self.cells(), start),
        ensures
            reads_row(self.cells(), start, r@),
    {
        let ghost m = self.cells();
        let mut s = String::new();
        let mut cur = start;
        assert(m.dom().finite());
        loop
            invariant_except_break
                m == self.cells(),
                m.dom().finite(),
                cur.y == start.y,
                start.x <= cur.x,
                s@.len() == cur.x - start.x,
                forall|i: int|
                    0 <= i < s@.len() ==> #[trigger] m.contains_key(((start.x + i) as isize, start.y))
                        && m[((start.x + i) as isize, start.y)] == s@[i],
                row_has_gap(m, cur),
            ensures
                reads_row(m, start, s@),
            decreases row_from(m, cur.x as int, cur.y).len(),
        {
            let k = (cur.x, cur.y);
            match self.text_storage.characters.get(&k) {
                Some(c) => {
                    assert(m.contains_key(k) && m[k] == *c);
                    let ghost old_s = s@;
                    let ghost g = choose|g: int|
                        cur.x <= g <= isize::MAX && !#[trigger] m.contains_key((g as isize, cur.y));
                    assert(g != cur.x);
                    proof {
                        lemma_row_from_shrinks(m, cur.x, cur.y);
                    }
                    push_char(&mut s, *c);
                    cur.x = cur.x + 1;
                    assert(!m.contains_key((g as isize, cur.y)));
                    assert forall|i: int|
                        0 <= i < s@.len() implies #[trigger] m.contains_key(
                        ((start.x + i) as isize, start.y),
                    ) && m[((start.x + i) as isize, start.y)] == s@[i] by {
                        if i < old_s.len() {
                            assert(s@[i] == old_s[i]);
                        } else {
                            assert(((start.x + i) as isize, start.y) == k);
                        }
                    }
                },
                None => {
                    break ;
                },
            }
        }
        s
    }

    /// Empties the grid.
    pub fn clear(&mut self)
        requires
            old(self).wf(),
        ensures
            final(self).wf(),
            final(self).cells() == Map::<(isize, isize), char>::empty(),
            final(self).cursor() == old(self).cursor(),
            final(self).area() == old(self).area(),
            !final(self).is_cached(),
    {
        self.view_cache = None;
        self.text_storage.characters.clear();
    }

    /// Writes the characters of `s` rightwards from the cursor, leaving the cursor just
    /// after the last of them.
    pub fn write_string_at_cursor(&mut self, s: &str)
        requires
            old(self).wf(),
            old(self).cursor().x + s@.len() <= isize::MAX,
        ensures
            final(self).wf(),
            final(self).cells() == old(self).cells().union_prefer_right(
                row_of(s@, old(self).cursor().x as int, old(self).cursor().y),
            ),
            final(self).cursor().x == old(self).cursor().x + s@.len(),
            final(self).cursor().y == old(self).cursor().y,
            final(self).area() == old(self).area(),
            s@.len() == 0 ==> *final(self) == *old(self),
            s@.len() > 0 ==> !final(self).is_cached(),
    {
        let ghost m0 = self.cells();
        let ghost c0 = self.cursor();
        for c in it: s.chars()
            invariant
                it.seq() == s@,
                self.wf(),
                c0.x + s@.len() <= isize::MAX,
                self.cursor().x == c0.x + it.index(),
                self.cursor().y == c0.y,
                self.area() == old(self).area(),
                self.cells() == m0.union_prefer_right(
                    row_of(s@.take(it.index()), c0.x as int, c0.y),
                ),
                it.index() == 0 ==> *self == *old(self),
                it.index() > 0 ==> !self.is_cached(),
        {
            let ghost i = it.index();
            assert(s@[i] == c);
            self.write_at_cursor(c);
            self.move_cursor(Direction::Right);
            assert(self.cells() =~= m0.union_prefer_right(
                row_of(s@.take(i + 1), c0.x as int, c0.y),
            ));
        }
        assert(s@.take(s@.len() as int) =~= s@);
    }

    /// Moves the cursor to the origin of the grid.
    pub fn reset_cursor(&mut self)
        requires
            old(self).wf(),
        ensures
            final(self).wf(),
            final(self).cursor() == (Coordinates { x: 0, y: 0 }),
            final(self).cells() == old(self).cells(),
            final(self).area() == old(self).area(),
            final(self).is_cached() == old(self).is_cached(),
            final(self).shown() == old(self).shown(),
    {
        self.cursor_absolute_position = Coordinates { x: 0, y: 0 };
    }

    /// Replaces the whole grid with `s`, written rightwards from the origin, and leaves
    /// the cursor just after it.
    pub fn replace_with_string(&mut self, s: &str)
        requires
            old(self).wf(),
            s@.len() <= isize::MAX,
        ensures
            final(self).wf(),
            final(self).cells() == row_of(s@, 0, 0),
            final(self).cursor() == (Coordinates { x: s@.len() as isize, y: 0 }),
            final(self).area() == old(self).area(),
            !final(self).is_cached(),
    {
        self.clear();
        self.reset_cursor();
        self.write_string_at_cursor(s);
        assert(Map::<(isize, isize), char>::empty().union_prefer_right(row_of(s@, 0, 0)) =~= row_of(s@, 0, 0));
    }
}

/// The shown rectangle of a consistent area starts at the origin of the grid.
pub proof fn lemma_area_at_origin(a: TextArea)
    requires
        a.wf(),
    ensures
        a.area().top_left == (Coordinates { x: 0, y: 0 }),
{
}

/// Reading back from the origin after `replace_with_string(s)` gives `s`: the row read
/// is defined there, and whatever satisfies the reading contract equals `s`.
pub proof fn lemma_read_back_replaced(s: Seq<char>, r: Seq<char>)
    requires
        s.len() <= isize::MAX,
    ensures
        row_has_gap(row_of(s, 0, 0), Coordinates { x: 0, y: 0 }),
        reads_row(row_of(s, 0, 0), Coordinates { x: 0, y: 0 }, s),
        reads_row(row_of(s, 0, 0), Coordinates { x: 0, y: 0 }, r) ==> r == s,
{
    let m = row_of(s, 0, 0);
    assert(!m.contains_key((s.len() as isize, 0isize)));
    if reads_row(m, Coordinates { x: 0, y: 0 }, r) {
        if r.len() < s.len() {
            assert(m.contains_key((r.len() as isize, 0isize)));
        }
        if r.len() > s.len() {
            assert(m.contains_key((s.len() as isize, 0isize)));
        }
        let st = Coordinates { x: 0, y: 0 };
        assert forall|i: int| 0 <= i < r.len() implies r[i] == s[i] by {
            assert(m.contains_key(((st.x + i) as isize, st.y)));
            assert(m[((st.x + i) as isize, st.y)] == s[i]);
        }
        assert(r =~= s);
    }
}

/// Erasing the cell just written restores a grid in which that cell was empty.
pub proof fn lemma_erase_undoes_write(m: Map<(isize, isize), char>, k: (isize, isize), c: char)
    requires
        !m.contains_key(k),
    ensures
        m.insert(k, c).remove(k) == m,
{
    assert(m.insert(k, c).remove(k) =~= m);
}

/// The row read at the cursor after writing `s` there starts with `s`.
pub proof fn lemma_written_string_reads_back(
    m: Map<(isize, isize), char>,
    s: Seq<char>,
    start: Coordinates,
    i: int,
)
    requires
        0 <= i < s.len(),
        start.x + s.len() <= isize::MAX,
    ensures
        m.union_prefer_right(row_of(s, start.x as int, start.y)).contains_key(
            ((start.x + i) as isize, start.y),
        ),
        m.union_prefer_right(row_of(s, start.x as int, start.y))[((start.x + i) as isize, start.y)]
            == s[i],
{
    let k = ((start.x + i) as isize, start.y);
    assert(row_of(s, start.x as int, start.y).contains_key(k));
}

} // verus!
