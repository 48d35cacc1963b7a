//! Sparse spatial index over axis-aligned rectangular footprints.
//!
//! A [`Grid`] maps integer coordinates to occupants: each occupant owns every
//! cell of its rectangular footprint, and footprints never overlap — inserting
//! over an occupant evicts it. The grid is generic over the occupant's
//! [`GridItem`] reorientation capability, so whole-grid transforms (rotate,
//! flip) can keep orientation-dependent occupant state consistent.

use vstd::prelude::*;
use crate::math::Vec2i;

verus! {

/// A grid cell address.
pub type XY = Vec2i;

/// A footprint size: positive width and height in cells.
pub type WH = (usize, usize);

/// Largest coordinate magnitude the grid accepts, so that footprint and
/// perimeter arithmetic never overflows `isize`, even on doubled coordinates.
pub const MAX_COORD: isize = 0x1000_0000;

/// Largest footprint side the grid accepts (see [`MAX_COORD`]).
pub const MAX_SIDE: usize = 0x100_0000;

/// An occupant able to reorient itself when the grid it sits in is
/// transformed as a whole. Items without orientation implement the three
/// operations as the identity.
pub trait GridItem: Sized {
    /// The inputs on which the reorientation operations are defined
    /// (an item whose internal invariant they need states it here).
    spec fn reorientable(self) -> bool;

    /// How the result of `turns` counterclockwise quarter turns relates to
    /// the item (exact on the item's model; items without orientation say
    /// `r == self`).
    spec fn rotated_in_grid(self, turns: int, r: Self) -> bool;

    /// How the result of a mirror across a vertical axis relates to the item.
    spec fn flipped_x_in_grid(self, r: Self) -> bool;

    /// How the result of a mirror across a horizontal axis relates to the
    /// item.
    spec fn flipped_y_in_grid(self, r: Self) -> bool;

    /// Reorients the item by `turns` counterclockwise quarter turns.
    fn rotate_in_grid(self, turns: isize) -> (r: Self)
        requires
            self.reorientable(),
        ensures
            self.rotated_in_grid(turns as int, r),
            r.reorientable(),
    ;

    /// Reorients the item for a mirror across a vertical axis.
    fn flip_x_in_grid(self) -> (r: Self)
        requires
            self.reorientable(),
        ensures
            self.flipped_x_in_grid(r),
            r.reorientable(),
    ;

    /// Reorients the item for a mirror across a horizontal axis.
    fn flip_y_in_grid(self) -> (r: Self)
        requires
            self.reorientable(),
        ensures
            self.flipped_y_in_grid(r),
            r.reorientable(),
    ;
}

/// Plain strings have no orientation; this impl keeps simple items (and the
/// grid's own tests) independent of any particular occupant type.
impl<'a> GridItem for &'a str {
    open spec fn reorientable(self) -> bool {
        true
    }

    open spec fn rotated_in_grid(self, turns: int, r: Self) -> bool {
        r == self
    }

    open spec fn flipped_x_in_grid(self, r: Self) -> bool {
        r == self
    }

    open spec fn flipped_y_in_grid(self, r: Self) -> bool {
        r == self
    }

    fn rotate_in_grid(self, turns: isize) -> (r: Self) {
        self
    }

    fn flip_x_in_grid(self) -> (r: Self) {
        self
    }

    fn flip_y_in_grid(self) -> (r: Self) {
        self
    }
}

/// Whether the cell `(cx, cy)` lies inside the footprint at `xy` of size `wh`.
pub open spec fn covers(xy: XY, wh: WH, cx: int, cy: int) -> bool {
    &&& xy.x <= cx < xy.x + wh.0
    &&& xy.y <= cy < xy.y + wh.1
}

/// Whether two footprints share no cell (for positive sizes, exactly
/// rectangle separation).
pub open spec fn disjoint(a_xy: XY, a_wh: WH, b_xy: XY, b_wh: WH) -> bool {
    ||| a_xy.x + a_wh.0 <= b_xy.x
    ||| b_xy.x + b_wh.0 <= a_xy.x
    ||| a_xy.y + a_wh.1 <= b_xy.y
    ||| b_xy.y + b_wh.1 <= a_xy.y
}

/// Whether an entry's footprint is positive, not oversized, and lies fully
/// within the coordinate bounds.
pub open spec fn entry_wf<T>(e: (T, XY, WH)) -> bool {
    &&& 0 < e.2.0 <= MAX_SIDE
    &&& 0 < e.2.1 <= MAX_SIDE
    &&& -MAX_COORD <= e.1.x && e.1.x + e.2.0 <= MAX_COORD
    &&& -MAX_COORD <= e.1.y && e.1.y + e.2.1 <= MAX_COORD
}

/// Sparse grid for storing things that do not necessarily take up
/// a 1x1 slot.
#[derive(Debug)]
pub struct Grid<T: GridItem> {
    /// Occupants, each with its minimal XY coordinates and its size.
    entries: Vec<(T, XY, WH)>,
}

impl<T: GridItem> View for Grid<T> {
    type V = Seq<(T, XY, WH)>;

    closed spec fn view(&self) -> Seq<(T, XY, WH)> {
        self.entries@
    }
}

impl<T: GridItem> Grid<T> {
    /// Well-formedness: every footprint is positive and in bounds, and no two
    /// footprints overlap. Every operation preserves this.
    pub open spec fn wf(&self) -> bool {
        &&& forall|i: int| 0 <= i < self@.len() ==> entry_wf(#[trigger] self@[i])
        &&& forall|i: int, j: int|
            0 <= i < j < self@.len() ==> disjoint(
                #[trigger] self@[i].1,
                self@[i].2,
                #[trigger] self@[j].1,
                self@[j].2,
            )
    }

    /// Whether some entry of the grid covers the cell `(cx, cy)`.
    pub open spec fn occupied(&self, cx: int, cy: int) -> bool {
        exists|i: int| 0 <= i < self@.len() && covers(#[trigger] self@[i].1, self@[i].2, cx, cy)
    }

    /// Creates an empty grid.
    pub fn new() -> (g: Self)
        ensures
            g@ == Seq::<(T, XY, WH)>::empty(),
            g.wf(),
    {
        Grid { entries: Vec::new() }
    }

    pub fn is_empty(&self) -> (r: bool)
        ensures
            r == (self@.len() == 0),
    {
        self.entries.len() == 0
    }

    /// The grid's entries, each an item with its minimal XY coordinates and
    /// its size, in insertion order.
    pub fn iter(&self) -> (r: &Vec<(T, XY, WH)>)
        ensures
            r@ == self@,
    {
        &self.entries
    }

    /// Finds the index of the entry covering `position`, if any.
    fn find_index(&self, position: XY) -> (r: Option<usize>)
        requires
            self.wf(),
        ensures
            match r {
                Some(i) => 0 <= i < self@.len() && covers(
                    self@[i as int].1,
                    self@[i as int].2,
                    position.x as int,
                    position.y as int,
                ),
                None => !self.occupied(position.x as int, position.y as int),
            },
    {
        let n = self.entries.len();
        let mut i: usize = 0;
        while i < n
            invariant
                self.wf(),
                n == self@.len(),
                0 <= i <= n,
                forall|k: int|
                    0 <= k < i ==> !covers(
                        #[trigger] self@[k].1,
                        self@[k].2,
                        position.x as int,
                        position.y as int,
                    ),
            decreases n - i,
        {
            let e = &self.entries[i];
            if covers_at(e.1, e.2, position) {
                return Some(i);
            }
            i = i + 1;
        }
        None
    }

    /// Gets a mutable borrow of the item at a specific position, along with
    /// that item's minimal XY coordinates and size. Writing through the
    /// borrow replaces the item in place; the footprint stays as it was.
    pub fn get_mut(&mut self, position: XY) -> (r: Option<(&mut T, XY, WH)>)
        requires
            old(self).wf(),
        ensures
            final(self).wf(),
            match r {
                Some((t, xy, wh)) => exists|i: int|
                    0 <= i < old(self)@.len() && (#[trigger] old(self)@[i]).1 == xy && old(
                        self,
                    )@[i].2 == wh && covers(xy, wh, position.x as int, position.y as int) && *t
                        == old(self)@[i].0 && final(self)@ == old(self)@.update(
                        i,
                        (*final(t), xy, wh),
                    ),
                None => {
                    &&& *final(self) == *old(self)
                    &&& !old(self).occupied(position.x as int, position.y as int)
                },
            },
    {
        match self.find_index(position) {
            Some(i) => {
                let xy = self.entries[i].1;
                let wh = self.entries[i].2;
                let t = &mut self.entries[i].0;
                Some((t, xy, wh))
            },
            None => None,
        }
    }

    /// Gets the item at a specific position, along with that item's
    /// minimal XY coordinates and size.
    pub fn get(&self, position: XY) -> (r: Option<&(T, XY, WH)>)
        requires
            self.wf(),
        ensures
            match r {
                Some(e) => exists|i: int|
                    0 <= i < self@.len() && self@[i] == *e && covers(
                        #[trigger] self@[i].1,
                        self@[i].2,
                        position.x as int,
                        position.y as int,
                    ),
                None => !self.occupied(position.x as int, position.y as int),
            },
    {
        match self.find_index(position) {
            Some(i) => Some(&self.entries[i]),
            None => None,
        }
    }
}

/// Whether every entry of `s` is well-formed.
pub open spec fn all_wf<T>(s: Seq<(T, XY, WH)>) -> bool {
    forall|i: int| 0 <= i < s.len() ==> entry_wf(#[trigger] s[i])
}

/// Whether the entries of `s` have pairwise disjoint footprints.
pub open spec fn pairwise_disjoint<T>(s: Seq<(T, XY, WH)>) -> bool {
    forall|i: int, j: int|
        0 <= i < j < s.len() ==> disjoint(
            #[trigger] s[i].1,
            s[i].2,
            #[trigger] s[j].1,
            s[j].2,
        )
}

/// The entries of `s` whose footprints do not meet the rectangle at `xy` of
/// size `wh`: what an insertion there keeps.
pub open spec fn kept_by<T>(s: Seq<(T, XY, WH)>, xy: XY, wh: WH) -> Seq<(T, XY, WH)> {
    s.filter(|e: (T, XY, WH)| disjoint(e.1, e.2, xy, wh))
}

/// The entries of `s` whose footprints meet the rectangle at `xy` of size
/// `wh`: what an insertion there evicts.
pub open spec fn evicted_by<T>(s: Seq<(T, XY, WH)>, xy: XY, wh: WH) -> Seq<(T, XY, WH)> {
    s.filter(|e: (T, XY, WH)| !disjoint(e.1, e.2, xy, wh))
}

/// `filter` looks at each pushed element in turn.
proof fn lemma_filter_push<A>(s: Seq<A>, pred: spec_fn(A) -> bool, x: A)
    ensures
        s.push(x).filter(pred) == (if pred(x) {
            s.filter(pred).push(x)
        } else {
            s.filter(pred)
        }),
{
    reveal(Seq::filter);
    assert(s.push(x).drop_last() =~= s);
    assert(s.push(x).last() == x);
}

/// A filtered sequence keeps disjointness from a fixed rectangle.
proof fn lemma_filter_all_disjoint<T>(
    s: Seq<(T, XY, WH)>,
    pred: spec_fn((T, XY, WH)) -> bool,
    xy: XY,
    wh: WH,
)
    requires
        forall|i: int| 0 <= i < s.len() ==> disjoint(#[trigger] s[i].1, s[i].2, xy, wh),
    ensures
        forall|i: int|
            0 <= i < s.filter(pred).len() ==> disjoint(
                #[trigger] s.filter(pred)[i].1,
                s.filter(pred)[i].2,
                xy,
                wh,
            ),
    decreases s.len(),
{
    reveal(Seq::filter);
    if s.len() > 0 {
        lemma_filter_all_disjoint(s.drop_last(), pred, xy, wh);
        assert(s.last() == s[s.len() - 1]);
        if pred(s.last()) {
            assert(s.filter(pred) == s.drop_last().filter(pred).push(s.last()));
        } else {
            assert(s.filter(pred) == s.drop_last().filter(pred));
        }
    }
}

/// An insertion whose rectangle meets no entry keeps every entry.
pub proof fn lemma_kept_all<T>(s: Seq<(T, XY, WH)>, xy: XY, wh: WH)
    requires
        forall|i: int| 0 <= i < s.len() ==> disjoint(#[trigger] s[i].1, s[i].2, xy, wh),
    ensures
        kept_by(s, xy, wh) == s,
    decreases s.len(),
{
    reveal(Seq::filter);
    if s.len() > 0 {
        assert(forall|i: int| 0 <= i < s.len() - 1 ==> s.drop_last()[i] == s[i]);
        lemma_kept_all(s.drop_last(), xy, wh);
        assert(s.last() == s[s.len() - 1]);
        assert(kept_by(s, xy, wh) =~= s);
    }
}

/// Filtering a well-formed entry sequence leaves it well-formed.
proof fn lemma_filter_wf<T>(s: Seq<(T, XY, WH)>, pred: spec_fn((T, XY, WH)) -> bool)
    requires
        all_wf(s),
        pairwise_disjoint(s),
    ensures
        all_wf(s.filter(pred)),
        pairwise_disjoint(s.filter(pred)),
    decreases s.len(),
{
    reveal(Seq::filter);
    if s.len() > 0 {
        let d = s.drop_last();
        lemma_filter_wf(d, pred);
        if pred(s.last()) {
            lemma_filter_all_disjoint(d, pred, s.last().1, s.last().2);
        }
    }
}

impl<T: GridItem> Grid<T> {
    /// Inserts an item at a specific minimal XY position with a specific size.
    /// Removes and returns overlapping items.
    pub fn insert(&mut self, t: T, position: XY, size: WH) -> (overlapping: Vec<(T, XY, WH)>)
        requires
            old(self).wf(),
            0 < size.0 <= MAX_SIDE,
            0 < size.1 <= MAX_SIDE,
            -MAX_COORD <= position.x && position.x + size.0 <= MAX_COORD,
            -MAX_COORD <= position.y && position.y + size.1 <= MAX_COORD,
        ensures
            final(self)@ == kept_by(old(self)@, position, size).push((t, position, size)),
            overlapping@ == evicted_by(old(self)@, position, size),
            final(self).wf(),
    {
        let ghost orig = self@;
        let ghost dis_pred = |e: (T, XY, WH)| disjoint(e.1, e.2, position, size);
        let ghost ov_pred = |e: (T, XY, WH)| !disjoint(e.1, e.2, position, size);

        let mut rest: Vec<(T, XY, WH)> = Vec::new();
        std::mem::swap(&mut rest, &mut self.entries);
        let mut overlapping: Vec<(T, XY, WH)> = Vec::new();
        let mut kept: Vec<(T, XY, WH)> = Vec::new();
        let ghost mut done: int = 0;

        while rest.len() > 0
            invariant
                all_wf(orig),
                pairwise_disjoint(orig),
                0 < size.0 <= MAX_SIDE,
                0 < size.1 <= MAX_SIDE,
                -MAX_COORD <= position.x && position.x + size.0 <= MAX_COORD,
                -MAX_COORD <= position.y && position.y + size.1 <= MAX_COORD,
                0 <= done <= orig.len(),
                done + rest@.len() == orig.len(),
                rest@ == orig.subrange(done, orig.len() as int),
                kept@ == orig.subrange(0, done).filter(dis_pred),
                overlapping@ == orig.subrange(0, done).filter(ov_pred),
                dis_pred == (|e: (T, XY, WH)| disjoint(e.1, e.2, position, size)),
                ov_pred == (|e: (T, XY, WH)| !disjoint(e.1, e.2, position, size)),
            decreases rest@.len(),
        {
            let e = rest.remove(0);
            proof {
                assert(e == orig[done]);
                assert(entry_wf(orig[done]));
                assert(orig.subrange(0, done + 1) =~= orig.subrange(0, done).push(orig[done]));
                lemma_filter_push(orig.subrange(0, done), dis_pred, e);
                lemma_filter_push(orig.subrange(0, done), ov_pred, e);
                assert(rest@ =~= orig.subrange(done + 1, orig.len() as int));
            }
            if overlaps_at(e.1, e.2, position, size) {
                overlapping.push(e);
            } else {
                kept.push(e);
            }
            proof {
                done = done + 1;
            }
        }
        proof {
            assert(orig.subrange(0, done) =~= orig);
            lemma_filter_wf(orig, dis_pred);
            assert forall|i: int| 0 <= i < kept@.len() implies disjoint(
                #[trigger] kept@[i].1,
                kept@[i].2,
                position,
                size,
            ) by {
                orig.lemma_filter_pred(dis_pred, i);
            }
        }
        self.entries = kept;
        self.entries.push((t, position, size));
        overlapping
    }

    /// Removes and returns the item at a specific position.
    pub fn remove(&mut self, position: XY) -> (r: Option<(T, XY, WH)>)
        requires
            old(self).wf(),
        ensures
            final(self).wf(),
            match r {
                Some(e) => {
                    &&& covers(e.1, e.2, position.x as int, position.y as int)
                    &&& exists|i: int|
                        0 <= i < old(self)@.len() && old(self)@[i] == e && final(self)@ == old(
                            self,
                        )@.remove(i)
                },
                None => {
                    &&& final(self)@ == old(self)@
                    &&& !old(self).occupied(position.x as int, position.y as int)
                },
            },
    {
        match self.find_index(position) {
            Some(i) => {
                let e = self.entries.remove(i);
                proof {
                    lemma_remove_wf(old(self)@, i as int);
                }
                Some(e)
            },
            None => None,
        }
    }
}

/// Whether a doubled coordinate lies exactly on a unit-cell edge midpoint:
/// exactly one component is odd.
pub open spec fn on_edge(p: XY) -> bool {
    (p.x % 2 != 0) != (p.y % 2 != 0)
}

/// The cell a query at doubled coordinate `double_xy` examines: the halved
/// coordinate, biased toward the lower cell on each axis where `direction`
/// is negative.
pub open spec fn edge_cell(double_xy: XY, direction: XY) -> (int, int) {
    (
        if direction.x < 0 {
            double_xy.x as int / 2 - 1
        } else {
            double_xy.x as int / 2
        },
        if direction.y < 0 {
            double_xy.y as int / 2 - 1
        } else {
            double_xy.y as int / 2
        },
    )
}

/// The index, along the counterclockwise perimeter walk of the footprint at
/// `min` of size `wh` (bottom edge first, starting just after the bottom-left
/// corner), of the edge whose midpoint is at halved coordinate `(ux, uy)`.
/// `x_odd` tells whether the doubled query coordinate was odd in x (a
/// horizontal edge) or in y (a vertical edge).
pub open spec fn perimeter_index(min: XY, wh: WH, ux: int, uy: int, x_odd: bool) -> int {
    if x_odd {
        if uy == min.y {
            ux - min.x  // bottom edge
        } else {
            (wh.0 + wh.1 + wh.0) - (ux - min.x) - 1  // top edge
        }
    } else {
        if ux == min.x {
            2 * (wh.0 + wh.1) - (uy - min.y) - 1  // left edge
        } else {
            wh.0 + (uy - min.y)  // right edge
        }
    }
}

impl<T: GridItem> Grid<T> {
    /// Gets the entry touching an edge centered at `double_xy / 2`, in the
    /// direction `direction`: its index in [`Grid::iter`], its minimal XY
    /// coordinates, its size, and the index of the touched edge along the
    /// occupant's perimeter.
    ///
    /// `double_xy` must lie exactly on a unit-cell edge midpoint and
    /// `direction` must be the cardinal unit vector pointing across that
    /// edge: both are caller contracts.
    pub fn get_item_touching_edge(&self, double_xy: XY, direction: XY) -> (r: Option<
        (usize, XY, WH, usize),
    >)
        requires
            self.wf(),
            direction.is_cardinal(),
            on_edge(double_xy),
            double_xy.x % 2 != 0 ==> direction.x == 0,
            double_xy.y % 2 != 0 ==> direction.y == 0,
        ensures
            match r {
                Some((i, min_xy, wh, pidx)) => {
                    &&& 0 <= i < self@.len()
                    &&& self@[i as int].1 == min_xy
                    &&& self@[i as int].2 == wh
                    &&& covers(
                        min_xy,
                        wh,
                        edge_cell(double_xy, direction).0,
                        edge_cell(double_xy, direction).1,
                    )
                    &&& pidx == perimeter_index(
                        min_xy,
                        wh,
                        double_xy.x as int / 2,
                        double_xy.y as int / 2,
                        double_xy.x % 2 != 0,
                    )
                    &&& pidx < 2 * (wh.0 + wh.1)
                },
                None => !self.occupied(
                    edge_cell(double_xy, direction).0,
                    edge_cell(double_xy, direction).1,
                ),
            },
    {
        let x_mis = double_xy.x.checked_rem_euclid(2).unwrap() != 0;
        let ux = double_xy.x.checked_div_euclid(2).unwrap();
        let uy = double_xy.y.checked_div_euclid(2).unwrap();

        let cx = if direction.x < 0 {
            ux - 1
        } else {
            ux
        };
        let cy = if direction.y < 0 {
            uy - 1
        } else {
            uy
        };

        match self.find_index(Vec2i { x: cx, y: cy }) {
            Some(i) => {
                let e = &self.entries[i];
                let min_xy = e.1;
                let (w, h) = e.2;
                proof {
                    assert(entry_wf(self@[i as int]));
                }
                let idx: isize = if x_mis {
                    if uy == min_xy.y {
                        // Bottom edge
                        ux - min_xy.x
                    } else {
                        // Top edge
                        (w + h + w) as isize - (ux - min_xy.x) - 1
                    }
                } else {
                    if ux == min_xy.x {
                        // Left edge
                        (w + h + w + h) as isize - (uy - min_xy.y) - 1
                    } else {
                        // Right edge
                        w as isize + (uy - min_xy.y)
                    }
                };
                Some((i, min_xy, (w, h), idx as usize))
            },
            None => None,
        }
    }

    /// Removes and returns the entry at index `i` of [`Grid::iter`].
    pub(crate) fn remove_at(&mut self, i: usize) -> (e: (T, XY, WH))
        requires
            old(self).wf(),
            i < old(self)@.len(),
        ensures
            e == old(self)@[i as int],
            final(self)@ == old(self)@.remove(i as int),
            final(self).wf(),
    {
        let e = self.entries.remove(i);
        proof {
            lemma_remove_wf(old(self)@, i as int);
        }
        e
    }
}

/// Removing an entry from a well-formed sequence leaves it well-formed.
proof fn lemma_remove_wf<T>(s: Seq<(T, XY, WH)>, i: int)
    requires
        all_wf(s),
        pairwise_disjoint(s),
        0 <= i < s.len(),
    ensures
        all_wf(s.remove(i)),
        pairwise_disjoint(s.remove(i)),
{
    let r = s.remove(i);
    assert forall|k: int| 0 <= k < r.len() implies entry_wf(#[trigger] r[k]) by {
        if k < i {
            assert(r[k] == s[k]);
        } else {
            assert(r[k] == s[k + 1]);
        }
    }
    assert forall|k: int, l: int| 0 <= k < l < r.len() implies disjoint(
        #[trigger] r[k].1,
        r[k].2,
        #[trigger] r[l].1,
        r[l].2,
    ) by {
        let k0 = if k < i { k } else { k + 1 };
        let l0 = if l < i { l } else { l + 1 };
        assert(r[k] == s[k0]);
        assert(r[l] == s[l0]);
    }
}

/// An entry's footprint as a mathematical rectangle `(x, y, w, h)`.
pub open spec fn rect_of<T>(e: (T, XY, WH)) -> (int, int, int, int) {
    (e.1.x as int, e.1.y as int, e.2.0 as int, e.2.1 as int)
}

/// [`disjoint`] over mathematical rectangles.
pub open spec fn rect_disjoint(a: (int, int, int, int), b: (int, int, int, int)) -> bool {
    ||| a.0 + a.2 <= b.0
    ||| b.0 + b.2 <= a.0
    ||| a.1 + a.3 <= b.1
    ||| b.1 + b.3 <= a.1
}

/// Whether a mathematical rectangle lies fully within the coordinate bounds.
pub open spec fn rect_in_bounds(r: (int, int, int, int)) -> bool {
    &&& -MAX_COORD <= r.0 && r.0 + r.2 <= MAX_COORD
    &&& -MAX_COORD <= r.1 && r.1 + r.3 <= MAX_COORD
}

/// One counterclockwise quarter turn of a footprint rectangle around the
/// half-integer point `c + (1/2, 1/2)`: rotate the origin, swap width and
/// height, then shift x so the origin is again the minimum corner.
pub open spec fn rotate1_rect(r: (int, int, int, int), c: XY) -> (int, int, int, int) {
    (c.x + c.y - r.1 + 1 - r.3, c.y - c.x + r.0, r.3, r.2)
}

/// `n` counterclockwise quarter turns of a footprint rectangle.
pub open spec fn rotate_rect(r: (int, int, int, int), c: XY, n: nat) -> (int, int, int, int)
    decreases n,
{
    if n == 0 {
        r
    } else {
        rotate1_rect(rotate_rect(r, c, (n - 1) as nat), c)
    }
}

/// A footprint rectangle mirrored across the vertical line `axis + 1/2`.
pub open spec fn flip_x_rect(r: (int, int, int, int), axis: int) -> (int, int, int, int) {
    (2 * axis + 1 - r.0 - r.2, r.1, r.2, r.3)
}

/// A footprint rectangle mirrored across the horizontal line `axis + 1/2`.
pub open spec fn flip_y_rect(r: (int, int, int, int), axis: int) -> (int, int, int, int) {
    (r.0, 2 * axis + 1 - r.1 - r.3, r.2, r.3)
}

/// A footprint rectangle translated by `v`.
pub open spec fn translate_rect(r: (int, int, int, int), v: XY) -> (int, int, int, int) {
    (r.0 + v.x, r.1 + v.y, r.2, r.3)
}

/// A quarter turn keeps disjoint rectangles disjoint.
proof fn lemma_rotate1_rect_disjoint(a: (int, int, int, int), b: (int, int, int, int), c: XY)
    requires
        rect_disjoint(a, b),
    ensures
        rect_disjoint(rotate1_rect(a, c), rotate1_rect(b, c)),
{
}

/// Quarter turns keep disjoint rectangles disjoint.
proof fn lemma_rotate_rect_disjoint(
    a: (int, int, int, int),
    b: (int, int, int, int),
    c: XY,
    n: nat,
)
    requires
        rect_disjoint(a, b),
    ensures
        rect_disjoint(rotate_rect(a, c, n), rotate_rect(b, c, n)),
    decreases n,
{
    if n > 0 {
        lemma_rotate_rect_disjoint(a, b, c, (n - 1) as nat);
        lemma_rotate1_rect_disjoint(rotate_rect(a, c, (n - 1) as nat), rotate_rect(b, c, (n - 1) as nat), c);
    }
}

/// Law: four quarter turns around any center are the identity on footprint
/// rectangles — rotating a grid four times reproduces every origin and size.
pub proof fn lemma_rotate_rect_four_times(r: (int, int, int, int), c: XY)
    ensures
        rotate_rect(r, c, 4) == r,
{
    reveal_with_fuel(rotate_rect, 5);
}

/// Law: mirroring twice across the same vertical axis is the identity on
/// footprint rectangles.
pub proof fn lemma_flip_x_rect_involution(r: (int, int, int, int), axis: int)
    ensures
        flip_x_rect(flip_x_rect(r, axis), axis) == r,
{
}

/// Law: mirroring twice across the same horizontal axis is the identity on
/// footprint rectangles.
pub proof fn lemma_flip_y_rect_involution(r: (int, int, int, int), axis: int)
    ensures
        flip_y_rect(flip_y_rect(r, axis), axis) == r,
{
}

/// Exec quarter turn of a footprint, proved against [`rotate1_rect`].
fn rotate1_at(xy: XY, wh: WH, c: XY) -> (r: (XY, WH))
    requires
        0 < wh.0 <= MAX_SIDE,
        0 < wh.1 <= MAX_SIDE,
        -MAX_COORD <= xy.x && xy.x + wh.0 <= MAX_COORD,
        -MAX_COORD <= xy.y && xy.y + wh.1 <= MAX_COORD,
        -MAX_COORD <= c.x <= MAX_COORD,
        -MAX_COORD <= c.y <= MAX_COORD,
    ensures
        ({
            let rr = rotate1_rect(rect_of(((), xy, wh)), c);
            r.0.x as int == rr.0 && r.0.y as int == rr.1 && r.1.0 as int == rr.2 && r.1.1 as int
                == rr.3
        }),
{
    let x = c.x + c.y - xy.y + 1 - (wh.1 as isize);
    let y = c.y - c.x + xy.x;
    (Vec2i { x, y }, (wh.1, wh.0))
}

impl<T: GridItem> Grid<T> {
    /// The grid's entries as a plain vector, consuming the grid.
    pub fn into_entries(self) -> (r: Vec<(T, XY, WH)>)
        ensures
            r@ == self@,
    {
        self.entries
    }

    /// Moves the whole grid by some vector.
    pub fn translate(self, vec: XY) -> (g: Self)
        requires
            self.wf(),
            forall|i: int|
                0 <= i < self@.len() ==> rect_in_bounds(
                    translate_rect(rect_of(#[trigger] self@[i]), vec),
                ),
        ensures
            g.wf(),
            g@.len() == self@.len(),
            forall|i: int|
                0 <= i < self@.len() ==> {
                    let rr = translate_rect(rect_of(self@[i]), vec);
                    &&& (#[trigger] g@[i]).0 == self@[i].0
                    &&& g@[i].1.x as int == rr.0
                    &&& g@[i].1.y as int == rr.1
                    &&& g@[i].2 == self@[i].2
                },
    {
        let ghost orig = self@;
        let mut rest = self.entries;
        let mut out: Vec<(T, XY, WH)> = Vec::new();
        let ghost mut done: int = 0;

        while rest.len() > 0
            invariant
                all_wf(orig),
                pairwise_disjoint(orig),
                forall|i: int|
                    0 <= i < orig.len() ==> rect_in_bounds(
                        translate_rect(rect_of(#[trigger] orig[i]), vec),
                    ),
                0 <= done <= orig.len(),
                done + rest@.len() == orig.len(),
                rest@ == orig.subrange(done, orig.len() as int),
                out@.len() == done,
                forall|i: int|
                    0 <= i < done ==> {
                        let rr = translate_rect(rect_of(orig[i]), vec);
                        &&& (#[trigger] out@[i]).0 == orig[i].0
                        &&& out@[i].1.x as int == rr.0
                        &&& out@[i].1.y as int == rr.1
                        &&& out@[i].2 == orig[i].2
                    },
                all_wf(out@),
                pairwise_disjoint(out@),
            decreases rest@.len(),
        {
            let e = rest.remove(0);
            proof {
                assert(e == orig[done]);
                assert(entry_wf(orig[done]));
                assert(rect_in_bounds(translate_rect(rect_of(orig[done]), vec)));
                assert(rest@ =~= orig.subrange(done + 1, orig.len() as int));
            }
            let nxy = Vec2i { x: e.1.x + vec.x, y: e.1.y + vec.y };
            out.push((e.0, nxy, e.2));
            proof {
                done = done + 1;
            }
        }
        proof {
            assert(done == orig.len());
        }
        Grid { entries: out }
    }
}

impl<T: GridItem> Grid<T> {
    /// Rotates the grid around `center + (1/2, 1/2)` by some number of
    /// counterclockwise quarter turns (negative for clockwise), recomputing
    /// every footprint and reorienting every item.
    pub fn rotate(self, center: XY, turns: isize) -> (g: Self)
        requires
            self.wf(),
            -MAX_COORD <= center.x <= MAX_COORD,
            -MAX_COORD <= center.y <= MAX_COORD,
            forall|i: int| 0 <= i < self@.len() ==> (#[trigger] self@[i]).0.reorientable(),
            forall|i: int, k: nat|
                0 <= i < self@.len() && 1 <= k <= (turns as int) % 4 ==> rect_in_bounds(
                    #[trigger] rotate_rect(rect_of(self@[i]), center, k),
                ),
        ensures
            g.wf(),
            g@.len() == self@.len(),
            forall|i: int|
                0 <= i < self@.len() ==> {
                    let rr = rotate_rect(rect_of(self@[i]), center, ((turns as int) % 4) as nat);
                    &&& self@[i].0.rotated_in_grid((turns as int) % 4, (#[trigger] g@[i]).0)
                    &&& g@[i].1.x as int == rr.0
                    &&& g@[i].1.y as int == rr.1
                    &&& g@[i].2.0 as int == rr.2
                    &&& g@[i].2.1 as int == rr.3
                },
    {
        let t: usize = turns.checked_rem_euclid(4).unwrap() as usize;
        let ghost orig = self@;
        let mut rest = self.entries;
        let mut out: Vec<(T, XY, WH)> = Vec::new();
        let ghost mut done: int = 0;

        while rest.len() > 0
            invariant
                all_wf(orig),
                pairwise_disjoint(orig),
                -MAX_COORD <= center.x <= MAX_COORD,
                -MAX_COORD <= center.y <= MAX_COORD,
                0 <= t < 4,
                forall|i: int| 0 <= i < orig.len() ==> (#[trigger] orig[i]).0.reorientable(),
                forall|i: int, k: nat|
                    0 <= i < orig.len() && 1 <= k <= t ==> rect_in_bounds(
                        #[trigger] rotate_rect(rect_of(orig[i]), center, k),
                    ),
                0 <= done <= orig.len(),
                done + rest@.len() == orig.len(),
                rest@ == orig.subrange(done, orig.len() as int),
                out@.len() == done,
                forall|i: int|
                    0 <= i < done ==> {
                        let rr = rotate_rect(rect_of(orig[i]), center, t as nat);
                        &&& orig[i].0.rotated_in_grid(t as int, (#[trigger] out@[i]).0)
                        &&& out@[i].1.x as int == rr.0
                        &&& out@[i].1.y as int == rr.1
                        &&& out@[i].2.0 as int == rr.2
                        &&& out@[i].2.1 as int == rr.3
                    },
                all_wf(out@),
                pairwise_disjoint(out@),
            decreases rest@.len(),
        {
            let e = rest.remove(0);
            proof {
                assert(e == orig[done]);
                assert(entry_wf(orig[done]));
                assert(rest@ =~= orig.subrange(done + 1, orig.len() as int));
            }
            let (item, mut xy, mut wh) = e;
            let ghost r0 = rect_of((item, xy, wh));
            let mut k: usize = 0;
            while k < t
                invariant
                    0 <= k <= t < 4,
                    -MAX_COORD <= center.x <= MAX_COORD,
                    -MAX_COORD <= center.y <= MAX_COORD,
                    rect_in_bounds(r0),
                    0 < r0.2 <= MAX_SIDE,
                    0 < r0.3 <= MAX_SIDE,
                    forall|k2: nat|
                        1 <= k2 <= t ==> rect_in_bounds(#[trigger] rotate_rect(r0, center, k2)),
                    xy.x as int == rotate_rect(r0, center, k as nat).0,
                    xy.y as int == rotate_rect(r0, center, k as nat).1,
                    wh.0 as int == rotate_rect(r0, center, k as nat).2,
                    wh.1 as int == rotate_rect(r0, center, k as nat).3,
                    0 < wh.0 <= MAX_SIDE,
                    0 < wh.1 <= MAX_SIDE,
                decreases t - k,
            {
                let (nxy, nwh) = rotate1_at(xy, wh, center);
                proof {
                    assert(rotate_rect(r0, center, (k + 1) as nat) == rotate1_rect(
                        rotate_rect(r0, center, k as nat),
                        center,
                    ));
                }
                xy = nxy;
                wh = nwh;
                k = k + 1;
            }
            let item = item.rotate_in_grid(t as isize);
            proof {
                let rr = rotate_rect(r0, center, t as nat);
                assert(rect_in_bounds(rr) || t == 0);
                assert forall|j: int| 0 <= j < done implies rect_disjoint(
                    #[trigger] rotate_rect(rect_of(orig[j]), center, t as nat),
                    rr,
                ) by {
                    lemma_rotate_rect_disjoint(rect_of(orig[j]), r0, center, t as nat);
                }
            }
            out.push((item, xy, wh));
            proof {
                done = done + 1;
            }
        }
        proof {
            assert(done == orig.len());
        }
        Grid { entries: out }
    }

    /// Mirrors the grid across the vertical line `axis + 1/2`, recomputing
    /// every footprint and reorienting every item.
    pub fn flip_x(self, axis: isize) -> (g: Self)
        requires
            self.wf(),
            forall|i: int| 0 <= i < self@.len() ==> (#[trigger] self@[i]).0.reorientable(),
            forall|i: int|
                0 <= i < self@.len() ==> rect_in_bounds(
                    flip_x_rect(rect_of(#[trigger] self@[i]), axis as int),
                ),
        ensures
            g.wf(),
            g@.len() == self@.len(),
            forall|i: int|
                0 <= i < self@.len() ==> {
                    let rr = flip_x_rect(rect_of(self@[i]), axis as int);
                    &&& self@[i].0.flipped_x_in_grid((#[trigger] g@[i]).0)
                    &&& g@[i].1.x as int == rr.0
                    &&& g@[i].1.y as int == rr.1
                    &&& g@[i].2 == self@[i].2
                },
    {
        let ghost orig = self@;
        let mut rest = self.entries;
        let mut out: Vec<(T, XY, WH)> = Vec::new();
        let ghost mut done: int = 0;

        while rest.len() > 0
            invariant
                all_wf(orig),
                pairwise_disjoint(orig),
                forall|i: int| 0 <= i < orig.len() ==> (#[trigger] orig[i]).0.reorientable(),
                forall|i: int|
                    0 <= i < orig.len() ==> rect_in_bounds(
                        flip_x_rect(rect_of(#[trigger] orig[i]), axis as int),
                    ),
                0 <= done <= orig.len(),
                done + rest@.len() == orig.len(),
                rest@ == orig.subrange(done, orig.len() as int),
                out@.len() == done,
                forall|i: int|
                    0 <= i < done ==> {
                        let rr = flip_x_rect(rect_of(orig[i]), axis as int);
                        &&& orig[i].0.flipped_x_in_grid((#[trigger] out@[i]).0)
                        &&& out@[i].1.x as int == rr.0
                        &&& out@[i].1.y as int == rr.1
                        &&& out@[i].2 == orig[i].2
                    },
                all_wf(out@),
                pairwise_disjoint(out@),
            decreases rest@.len(),
        {
            let e = rest.remove(0);
            proof {
                assert(e == orig[done]);
                assert(entry_wf(orig[done]));
                assert(rect_in_bounds(flip_x_rect(rect_of(orig[done]), axis as int)));
                assert(rest@ =~= orig.subrange(done + 1, orig.len() as int));
            }
            let (item, xy, wh) = e;
            let nx = 2 * axis + 1 - xy.x - (wh.0 as isize);
            let item = item.flip_x_in_grid();
            out.push((item, Vec2i { x: nx, y: xy.y }, wh));
            proof {
                done = done + 1;
            }
        }
        proof {
            assert(done == orig.len());
        }
        Grid { entries: out }
    }

    /// Mirrors the grid across the horizontal line `axis + 1/2`, recomputing
    /// every footprint and reorienting every item.
    pub fn flip_y(self, axis: isize) -> (g: Self)
        requires
            self.wf(),
            forall|i: int| 0 <= i < self@.len() ==> (#[trigger] self@[i]).0.reorientable(),
            forall|i: int|
                0 <= i < self@.len() ==> rect_in_bounds(
                    flip_y_rect(rect_of(#[trigger] self@[i]), axis as int),
                ),
        ensures
            g.wf(),
            g@.len() == self@.len(),
            forall|i: int|
                0 <= i < self@.len() ==> {
                    let rr = flip_y_rect(rect_of(self@[i]), axis as int);
                    &&& self@[i].0.flipped_y_in_grid((#[trigger] g@[i]).0)
                    &&& g@[i].1.x as int == rr.0
                    &&& g@[i].1.y as int == rr.1
                    &&& g@[i].2 == self@[i].2
                },
    {
        let ghost orig = self@;
        let mut rest = self.entries;
        let mut out: Vec<(T, XY, WH)> = Vec::new();
        let ghost mut done: int = 0;

        while rest.len() > 0
            invariant
                all_wf(orig),
                pairwise_disjoint(orig),
                forall|i: int| 0 <= i < orig.len() ==> (#[trigger] orig[i]).0.reorientable(),
                forall|i: int|
                    0 <= i < orig.len() ==> rect_in_bounds(
                        flip_y_rect(rect_of(#[trigger] orig[i]), axis as int),
                    ),
                0 <= done <= orig.len(),
                done + rest@.len() == orig.len(),
                rest@ == orig.subrange(done, orig.len() as int),
                out@.len() == done,
                forall|i: int|
                    0 <= i < done ==> {
                        let rr = flip_y_rect(rect_of(orig[i]), axis as int);
                        &&& orig[i].0.flipped_y_in_grid((#[trigger] out@[i]).0)
                        &&& out@[i].1.x as int == rr.0
                        &&& out@[i].1.y as int == rr.1
                        &&& out@[i].2 == orig[i].2
                    },
                all_wf(out@),
                pairwise_disjoint(out@),
            decreases rest@.len(),
        {
            let e = rest.remove(0);
            proof {
                assert(e == orig[done]);
                assert(entry_wf(orig[done]));
                assert(rect_in_bounds(flip_y_rect(rect_of(orig[done]), axis as int)));
                assert(rest@ =~= orig.subrange(done + 1, orig.len() as int));
            }
            let (item, xy, wh) = e;
            let ny = 2 * axis + 1 - xy.y - (wh.1 as isize);
            let item = item.flip_y_in_grid();
            out.push((item, Vec2i { x: xy.x, y: ny }, wh));
            proof {
                done = done + 1;
            }
        }
        proof {
            assert(done == orig.len());
        }
        Grid { entries: out }
    }
}

/// An entry's extent as `(min_x, max_x, min_y, max_y)`, edges exclusive on
/// the max side.
pub open spec fn entry_box<T>(e: (T, XY, WH)) -> (int, int, int, int) {
    (e.1.x as int, e.1.x + e.2.0, e.1.y as int, e.1.y + e.2.1)
}

/// The bounding box of all entries as `(min_x, max_x, min_y, max_y)`;
/// `(0, 0, 0, 0)` for an empty sequence.
pub open spec fn bbox<T>(s: Seq<(T, XY, WH)>) -> (int, int, int, int)
    decreases s.len(),
{
    if s.len() == 0 {
        (0, 0, 0, 0)
    } else if s.len() == 1 {
        entry_box(s[0])
    } else {
        let b = bbox(s.drop_last());
        let e = entry_box(s.last());
        (
            vstd::math::min(b.0, e.0),
            vstd::math::max(b.1, e.1),
            vstd::math::min(b.2, e.2),
            vstd::math::max(b.3, e.3),
        )
    }
}

/// The bounding box contains every entry, and well-formed entries keep it
/// within the coordinate bounds.
proof fn lemma_bbox_bounds<T>(s: Seq<(T, XY, WH)>)
    requires
        all_wf(s),
    ensures
        forall|i: int|
            0 <= i < s.len() ==> {
                let b = bbox(s);
                &&& b.0 <= (#[trigger] s[i]).1.x
                &&& s[i].1.x + s[i].2.0 <= b.1
                &&& b.2 <= s[i].1.y
                &&& s[i].1.y + s[i].2.1 <= b.3
            },
        s.len() > 0 ==> -MAX_COORD <= bbox(s).0 <= bbox(s).1 <= MAX_COORD && -MAX_COORD <= bbox(
            s,
        ).2 <= bbox(s).3 <= MAX_COORD,
    decreases s.len(),
{
    if s.len() > 1 {
        lemma_bbox_bounds(s.drop_last());
        assert(forall|i: int| 0 <= i < s.len() - 1 ==> s.drop_last()[i] == s[i]);
        assert(entry_wf(s[s.len() - 1]));
    }
}

impl<T: GridItem> Grid<T> {
    /// Translates the grid so the bounding box of all occupants is centered
    /// at the origin (biased toward the lower left on odd total extents).
    pub fn center(self) -> (g: Self)
        requires
            self.wf(),
        ensures
            g.wf(),
            g@.len() == self@.len(),
            forall|i: int|
                0 <= i < self@.len() ==> {
                    let b = bbox(self@);
                    &&& (#[trigger] g@[i]).0 == self@[i].0
                    &&& g@[i].1.x as int == self@[i].1.x - (b.0 + b.1) / 2
                    &&& g@[i].1.y as int == self@[i].1.y - (b.2 + b.3) / 2
                    &&& g@[i].2 == self@[i].2
                },
    {
        let ghost orig = self@;
        let n = self.entries.len();
        let mut min_x: isize = 0;
        let mut max_x: isize = 0;
        let mut min_y: isize = 0;
        let mut max_y: isize = 0;
        if n > 0 {
            let e = &self.entries[0];
            proof {
                assert(entry_wf(orig[0]));
            }
            min_x = e.1.x;
            max_x = e.1.x + e.2.0 as isize;
            min_y = e.1.y;
            max_y = e.1.y + e.2.1 as isize;
            let mut i: usize = 1;
            proof {
                assert(orig.subrange(0, 1) =~= seq![orig[0]]);
            }
            while i < n
                invariant
                    self.wf(),
                    n == orig.len(),
                    orig == self@,
                    1 <= i <= n,
                    min_x as int == bbox(orig.subrange(0, i as int)).0,
                    max_x as int == bbox(orig.subrange(0, i as int)).1,
                    min_y as int == bbox(orig.subrange(0, i as int)).2,
                    max_y as int == bbox(orig.subrange(0, i as int)).3,
                decreases n - i,
            {
                let e = &self.entries[i];
                proof {
                    assert(entry_wf(orig[i as int]));
                    assert(orig.subrange(0, i + 1).drop_last() =~= orig.subrange(0, i as int));
                    assert(orig.subrange(0, i + 1).last() == orig[i as int]);
                }
                let right = e.1.x + e.2.0 as isize;
                let top = e.1.y + e.2.1 as isize;
                if e.1.x < min_x {
                    min_x = e.1.x;
                }
                if right > max_x {
                    max_x = right;
                }
                if e.1.y < min_y {
                    min_y = e.1.y;
                }
                if top > max_y {
                    max_y = top;
                }
                i = i + 1;
            }
            proof {
                assert(orig.subrange(0, n as int) =~= orig);
            }
        }
        proof {
            lemma_bbox_bounds(orig);
        }
        let vx = -(min_x + max_x).checked_div_euclid(2).unwrap();
        let vy = -(min_y + max_y).checked_div_euclid(2).unwrap();
        proof {
            let b = bbox(orig);
            assert(b.0 + b.1 == 2 * ((b.0 + b.1) / 2) + (b.0 + b.1) % 2);
            assert(b.2 + b.3 == 2 * ((b.2 + b.3) / 2) + (b.2 + b.3) % 2);
        }
        self.translate(Vec2i { x: vx, y: vy })
    }

    /// Inserts every entry in turn; overlapping occupants are evicted and
    /// dropped, later entries evicting earlier ones.
    pub fn extend(&mut self, items: Vec<(T, XY, WH)>)
        requires
            old(self).wf(),
            forall|i: int| 0 <= i < items@.len() ==> entry_wf(#[trigger] items@[i]),
        ensures
            final(self).wf(),
            final(self)@ == after_inserts(old(self)@, items@),
    {
        let mut rest = items;
        let ghost all = rest@;
        let ghost mut done: int = 0;
        proof {
            assert(all.subrange(0, all.len() as int) =~= all);
        }
        while rest.len() > 0
            invariant
                self.wf(),
                forall|i: int| 0 <= i < all.len() ==> entry_wf(#[trigger] all[i]),
                0 <= done <= all.len(),
                done + rest@.len() == all.len(),
                rest@ == all.subrange(done, all.len() as int),
                after_inserts(old(self)@, all) == after_inserts(self@, all.subrange(done, all.len() as int)),
            decreases rest@.len(),
        {
            let e = rest.remove(0);
            proof {
                assert(e == all[done]);
                assert(entry_wf(all[done]));
                assert(rest@ =~= all.subrange(done + 1, all.len() as int));
            }
            self.insert(e.0, e.1, e.2);
            proof {
                done = done + 1;
            }
        }
        proof {
            assert(all.subrange(done, all.len() as int) =~= Seq::<(T, XY, WH)>::empty());
        }
    }

    /// Builds a grid by inserting every entry in turn.
    pub fn from_entries(items: Vec<(T, XY, WH)>) -> (g: Self)
        requires
            forall|i: int| 0 <= i < items@.len() ==> entry_wf(#[trigger] items@[i]),
        ensures
            g.wf(),
            g@ == after_inserts(Seq::<(T, XY, WH)>::empty(), items@),
    {
        let mut g = Self::new();
        g.extend(items);
        g
    }
}

/// The entries of a grid that held `s` after inserting each of `items` in
/// turn: each insertion keeps the disjoint entries and appends the new one.
pub open spec fn after_inserts<T>(s: Seq<(T, XY, WH)>, items: Seq<(T, XY, WH)>) -> Seq<(T, XY, WH)>
    decreases items.len(),
{
    if items.len() == 0 {
        s
    } else {
        after_inserts(kept_by(s, items[0].1, items[0].2).push(items[0]), items.drop_first())
    }
}

/// Law: every occupied cell has exactly one occupant — two entries of a
/// well-formed grid that cover the same cell are the same entry. Together
/// with [`covers`] (origin <= cell < origin + size componentwise, the
/// definition of occupancy) this pins the cell-to-occupant map down.
pub proof fn lemma_occupant_unique<T>(s: Seq<(T, XY, WH)>, i: int, j: int, cx: int, cy: int)
    requires
        pairwise_disjoint(s),
        0 <= i < s.len(),
        0 <= j < s.len(),
        covers(s[i].1, s[i].2, cx, cy),
        covers(s[j].1, s[j].2, cx, cy),
    ensures
        i == j,
{
}

/// Law: inserting an entry into an empty grid and then removing it at any
/// cell of its footprint returns exactly that entry and leaves the grid
/// empty, with nothing evicted on the way in. Stated over the model the
/// contracts of [`Grid::insert`] and [`Grid::remove`] use.
pub proof fn lemma_insert_remove_round_trip<T>(t: T, xy: XY, wh: WH, cx: int, cy: int)
    requires
        0 < wh.0,
        0 < wh.1,
        covers(xy, wh, cx, cy),
    ensures
        kept_by(Seq::<(T, XY, WH)>::empty(), xy, wh).push((t, xy, wh)) == seq![(t, xy, wh)],
        evicted_by(Seq::<(T, XY, WH)>::empty(), xy, wh) == Seq::<(T, XY, WH)>::empty(),
        seq![(t, xy, wh)].remove(0) == Seq::<(T, XY, WH)>::empty(),
{
    reveal(Seq::filter);
    assert(kept_by(Seq::<(T, XY, WH)>::empty(), xy, wh).push((t, xy, wh)) =~= seq![(t, xy, wh)]);
    assert(seq![(t, xy, wh)].remove(0) =~= Seq::<(T, XY, WH)>::empty());
}

/// Whether an entry's footprint meets the inclusive box
/// `[min_x, max_x] x [min_y, max_y]`.
pub open spec fn in_box<T>(e: (T, XY, WH), min_x: int, max_x: int, min_y: int, max_y: int) -> bool {
    &&& e.1.x + e.2.0 >= min_x
    &&& e.1.x <= max_x
    &&& e.1.y + e.2.1 >= min_y
    &&& e.1.y <= max_y
}

/// The entries of `s` that meet the inclusive box, in order.
pub open spec fn boxed_entries<T>(
    s: Seq<(T, XY, WH)>,
    min_x: int,
    max_x: int,
    min_y: int,
    max_y: int,
) -> Seq<(T, XY, WH)>
    decreases s.len(),
{
    if s.len() == 0 {
        Seq::empty()
    } else {
        let rest = boxed_entries(s.drop_last(), min_x, max_x, min_y, max_y);
        if in_box(s.last(), min_x, max_x, min_y, max_y) {
            rest.push(s.last())
        } else {
            rest
        }
    }
}

impl<T: GridItem> Grid<T> {
    /// The entries whose footprints intersect the inclusive box, in entry
    /// order.
    pub fn get_in_bounds(&self, min_x: isize, max_x: isize, min_y: isize, max_y: isize) -> (r: Vec<
        &(T, XY, WH),
    >)
        requires
            self.wf(),
        ensures
            ({
                let picked = boxed_entries(
                    self@,
                    min_x as int,
                    max_x as int,
                    min_y as int,
                    max_y as int,
                );
                &&& r@.len() == picked.len()
                &&& forall|k: int| 0 <= k < r@.len() ==> *(#[trigger] r@[k]) == picked[k]
            }),
    {
        let n = self.entries.len();
        let mut out: Vec<&(T, XY, WH)> = Vec::new();
        let mut i: usize = 0;
        while i < n
            invariant
                self.wf(),
                n == self@.len(),
                0 <= i <= n,
                ({
                    let picked = boxed_entries(
                        self@.subrange(0, i as int),
                        min_x as int,
                        max_x as int,
                        min_y as int,
                        max_y as int,
                    );
                    &&& out@.len() == picked.len()
                    &&& forall|k: int| 0 <= k < out@.len() ==> *(#[trigger] out@[k]) == picked[k]
                }),
            decreases n - i,
        {
            let e = &self.entries[i];
            proof {
                assert(entry_wf(self@[i as int]));
                assert(self@.subrange(0, i + 1).drop_last() =~= self@.subrange(0, i as int));
                assert(self@.subrange(0, i + 1).last() == self@[i as int]);
            }
            let ghost prev = out@;
            if e.1.x + (e.2.0 as isize) >= min_x && e.1.x <= max_x && e.1.y + (e.2.1 as isize)
                >= min_y && e.1.y <= max_y {
                out.push(e);
            }
            proof {
                let now = boxed_entries(
                    self@.subrange(0, i + 1),
                    min_x as int,
                    max_x as int,
                    min_y as int,
                    max_y as int,
                );
                assert forall|k: int| 0 <= k < out@.len() implies *(#[trigger] out@[k])
                    == now[k] by {
                    if k < prev.len() {
                        assert(out@[k] == prev[k]);
                    }
                }
            }
            i = i + 1;
        }
        proof {
            assert(self@.subrange(0, n as int) =~= self@);
        }
        out
    }

    /// The unoccupied integer cells in the inclusive box
    /// `[min_x, max_x] x [min_y, max_y]`.
    pub fn get_empty_in_bounds(&self, min_x: isize, max_x: isize, min_y: isize, max_y: isize) -> (r:
        Vec<XY>)
        requires
            self.wf(),
            -MAX_COORD <= min_x <= MAX_COORD,
            -MAX_COORD <= max_x <= MAX_COORD,
            -MAX_COORD <= min_y <= MAX_COORD,
            -MAX_COORD <= max_y <= MAX_COORD,
        ensures
            forall|v: XY|
                r@.contains(v) <==> (min_x <= v.x <= max_x && min_y <= v.y <= max_y
                    && !self.occupied(v.x as int, v.y as int)),
    {
        broadcast use vstd::seq_lib::lemma_seq_contains_after_push;

        let mut out: Vec<XY> = Vec::new();
        if min_x > max_x || min_y > max_y {
            return out;
        }
        let mut x: isize = min_x;
        while x <= max_x
            invariant
                self.wf(),
                min_x <= max_x,
                min_y <= max_y,
                min_x <= x <= max_x + 1,
                -MAX_COORD <= min_x <= MAX_COORD,
                -MAX_COORD <= max_x <= MAX_COORD,
                -MAX_COORD <= min_y <= MAX_COORD,
                -MAX_COORD <= max_y <= MAX_COORD,
                forall|v: XY|
                    out@.contains(v) <==> (min_x <= v.x < x && min_y <= v.y <= max_y
                        && !self.occupied(v.x as int, v.y as int)),
            decreases max_x + 1 - x,
        {
            let mut y: isize = min_y;
            while y <= max_y
                invariant
                    self.wf(),
                    min_x <= x <= max_x,
                    min_y <= max_y,
                    min_y <= y <= max_y + 1,
                    -MAX_COORD <= min_y <= MAX_COORD,
                    -MAX_COORD <= max_y <= MAX_COORD,
                    forall|v: XY|
                        out@.contains(v) <==> (((min_x <= v.x < x && min_y <= v.y <= max_y) || (v.x
                            == x && min_y <= v.y < y)) && !self.occupied(v.x as int, v.y as int)),
                decreases max_y + 1 - y,
            {
                let cell = Vec2i { x, y };
                let ghost prev = out@;
                let found = self.find_index(cell);
                if found.is_none() {
                    out.push(cell);
                    proof {
                        assert(out@ == prev.push(cell));
                        assert forall|v: XY| #[trigger] out@.contains(v) <==> (prev.contains(v)
                            || v == cell) by {
                            vstd::seq_lib::lemma_seq_contains_after_push(prev, cell, v);
                        }
                    }
                }
                y = y + 1;
            }
            x = x + 1;
        }
        out
    }
}

/// Exec test for the negation of [`disjoint`].
fn overlaps_at(a_xy: XY, a_wh: WH, b_xy: XY, b_wh: WH) -> (r: bool)
    requires
        0 < a_wh.0 <= MAX_SIDE,
        0 < a_wh.1 <= MAX_SIDE,
        -MAX_COORD <= a_xy.x && a_xy.x + a_wh.0 <= MAX_COORD,
        -MAX_COORD <= a_xy.y && a_xy.y + a_wh.1 <= MAX_COORD,
        0 < b_wh.0 <= MAX_SIDE,
        0 < b_wh.1 <= MAX_SIDE,
        -MAX_COORD <= b_xy.x && b_xy.x + b_wh.0 <= MAX_COORD,
        -MAX_COORD <= b_xy.y && b_xy.y + b_wh.1 <= MAX_COORD,
    ensures
        r == !disjoint(a_xy, a_wh, b_xy, b_wh),
{
    !(a_xy.x + a_wh.0 as isize <= b_xy.x || b_xy.x + b_wh.0 as isize <= a_xy.x || a_xy.y
        + a_wh.1 as isize <= b_xy.y || b_xy.y + b_wh.1 as isize <= a_xy.y)
}

/// Exec test for [`covers`].
fn covers_at(xy: XY, wh: WH, p: XY) -> (r: bool)
    requires
        0 < wh.0 <= MAX_SIDE,
        0 < wh.1 <= MAX_SIDE,
        -MAX_COORD <= xy.x && xy.x + wh.0 <= MAX_COORD,
        -MAX_COORD <= xy.y && xy.y + wh.1 <= MAX_COORD,
    ensures
        r == covers(xy, wh, p.x as int, p.y as int),
{
    p.x >= xy.x && p.x < xy.x + wh.0 as isize && p.y >= xy.y && p.y < xy.y + wh.1 as isize
}

} // verus!
