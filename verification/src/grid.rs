//! The occupancy grid: one flag per cell and a running count of the free
//! cells, with searches for a free cell and for a free rectangle.

use crate::error::{fails_as, LayoutError, MAX_ATTEMPTS};
use crate::geometry::{Line, Point};
use crate::random::uniform_in;
use crate::rectangle::Rectangle;
use rand::rngs::ThreadRng;
use vstd::prelude::*;

verus! {

/// The number of free cells, that is of `false` entries, in `cells`.
pub open spec fn count_free(cells: Seq<bool>) -> nat
    decreases cells.len(),
{
    if cells.len() == 0 {
        0
    } else {
        count_free(cells.drop_last()) + if cells.last() {
            0nat
        } else {
            1nat
        }
    }
}

pub proof fn lemma_count_free_bound(cells: Seq<bool>)
    ensures
        count_free(cells) <= cells.len(),
    decreases cells.len(),
{
    if cells.len() > 0 {
        lemma_count_free_bound(cells.drop_last());
    }
}

/// Writing one cell changes the count by what that cell gains or loses.
pub proof fn lemma_count_free_update(cells: Seq<bool>, i: int, occupied: bool)
    requires
        0 <= i < cells.len(),
    ensures
        count_free(cells.update(i, occupied)) + (if occupied {
            1int
        } else {
            0int
        }) == count_free(cells) + (if cells[i] {
            1int
        } else {
            0int
        }),
    decreases cells.len(),
{
    if i == cells.len() - 1 {
        assert(cells.update(i, occupied).drop_last() =~= cells.drop_last());
    } else {
        assert(cells.update(i, occupied).drop_last() =~= cells.drop_last().update(i, occupied));
        lemma_count_free_update(cells.drop_last(), i, occupied);
    }
}

/// With no free cell counted, every cell is occupied.
pub proof fn lemma_count_free_none(cells: Seq<bool>)
    requires
        count_free(cells) == 0,
    ensures
        forall|i: int| 0 <= i < cells.len() ==> cells[i],
    decreases cells.len(),
{
    if cells.len() > 0 {
        lemma_count_free_none(cells.drop_last());
        assert forall|i: int| 0 <= i < cells.len() implies cells[i] by {
            if i < cells.len() - 1 {
                assert(cells.drop_last()[i] == cells[i]);
            }
        }
    }
}

/// Cells of a grid `width` wide are stored row by row.
pub proof fn lemma_slot_in_range(width: nat, height: nat, x: int, y: int)
    requires
        0 <= x < width,
        0 <= y < height,
    ensures
        0 <= y * width + x < width * height,
{
    assert(0 <= y * width && (y + 1) * width <= height * width && (y + 1) * width == y * width
        + width) by (nonlinear_arith)
        requires
            0 <= y < height,
            0 <= width,
    ;
}

/// Two cells of a row-by-row grid share a slot only if they are the same.
pub proof fn lemma_slot_distinct(width: nat, x1: int, y1: int, x2: int, y2: int)
    requires
        0 <= x1 < width,
        0 <= x2 < width,
        y1 * width + x1 == y2 * width + x2,
    ensures
        x1 == x2,
        y1 == y2,
{
    if y1 < y2 {
        assert((y1 + 1) * width <= y2 * width && (y1 + 1) * width == y1 * width + width)
            by (nonlinear_arith)
            requires
                y1 + 1 <= y2,
                0 <= width,
        ;
    } else if y2 < y1 {
        assert((y2 + 1) * width <= y1 * width && (y2 + 1) * width == y2 * width + width)
            by (nonlinear_arith)
            requires
                y2 + 1 <= y1,
                0 <= width,
        ;
    }
}

/// Every slot of a row-by-row grid is that of one cell of the grid.
pub proof fn lemma_slot_cell(width: nat, height: nat, i: int)
    requires
        0 <= i < width * height,
    ensures
        0 <= i % (width as int) < width,
        0 <= i / (width as int) < height,
        (i / (width as int)) * width + i % (width as int) == i,
{
    let w = width as int;
    assert(w > 0) by (nonlinear_arith)
        requires
            0 <= i < w * height,
            w >= 0,
    ;
    vstd::arithmetic::div_mod::lemma_fundamental_div_mod(i, w);
    vstd::arithmetic::div_mod::lemma_mod_pos_bound(i, w);
    vstd::arithmetic::div_mod::lemma_div_pos_is_pos(i, w);
    let x = i % w;
    let y = i / w;
    assert(y * w == w * y) by (nonlinear_arith);
    assert(y < height) by (nonlinear_arith)
        requires
            i == w * y + x,
            0 <= x,
            i < w * height,
            w > 0,
    ;
}

/// What a grid is: its size and, row by row, whether each cell is occupied.
pub struct GridView {
    pub width: nat,
    pub height: nat,
    pub cells: Seq<bool>,
}

impl GridView {
    pub open spec fn wf(self) -> bool {
        &&& self.cells.len() == self.width * self.height
        &&& self.width * self.height <= u32::MAX
    }

    pub open spec fn in_bounds(self, x: int, y: int) -> bool {
        0 <= x < self.width && 0 <= y < self.height
    }

    /// Where the cell `(x, y)` is kept in `cells`.
    pub open spec fn slot(self, x: int, y: int) -> int {
        y * self.width + x
    }

    pub open spec fn occupied(self, x: int, y: int) -> bool {
        self.cells[self.slot(x, y)]
    }

    pub open spec fn free_cells(self) -> nat {
        count_free(self.cells)
    }

    /// The grid with the cell `(x, y)` set to `occupied`.
    pub open spec fn with_cell(self, x: int, y: int, occupied: bool) -> GridView {
        GridView { cells: self.cells.update(self.slot(x, y), occupied), ..self }
    }

    /// The rectangle is well-formed and lies within the grid.
    pub open spec fn holds(self, r: Rectangle) -> bool {
        r.wf() && r.x2 < self.width && r.y2 < self.height
    }

    /// Some cell from `(x1, y1)` to `(x2, y2)` is occupied.
    pub open spec fn region_blocked(self, x1: int, y1: int, x2: int, y2: int) -> bool {
        exists|x: int, y: int| x1 <= x <= x2 && y1 <= y <= y2 && #[trigger] self.occupied(x, y)
    }

    /// Some cell of the rectangle is occupied.
    pub open spec fn blocked(self, r: Rectangle) -> bool {
        self.region_blocked(r.x1 as int, r.y1 as int, r.x2 as int, r.y2 as int)
    }

    /// No cell is occupied.
    pub open spec fn all_free(self) -> bool {
        forall|x: int, y: int| self.in_bounds(x, y) ==> !#[trigger] self.occupied(x, y)
    }

    /// Some cell within `sx` columns and `sy` rows of `c`, or of the ring
    /// one cell wide around those, is occupied.
    pub open spec fn probe_blocked(self, c: Point, sx: int, sy: int) -> bool {
        self.region_blocked(c.x - sx - 1, c.y - sy - 1, c.x + sx + 1, c.y + sy + 1)
    }

    /// A centre for a rectangle that reaches `min_size` cells from it: the
    /// centre keeps `min_size + 1` cells from the rim of the grid.
    pub open spec fn valid_center(self, c: Point, min_size: int) -> bool {
        &&& min_size + 1 <= c.x <= self.width - min_size - 2
        &&& min_size + 1 <= c.y <= self.height - min_size - 2
    }

    /// The grid is large enough for a centre to exist.
    pub open spec fn admits(self, min_size: int) -> bool {
        self.width >= 2 * min_size + 3 && self.height >= 2 * min_size + 3
    }

    /// A reach of `s` cells from the coordinate `c`, on an axis of `size`
    /// cells, may become `s + 1`: it stays within half of `max_size` and
    /// two cells away from both ends of the axis.
    pub open spec fn may_extend(c: int, s: int, size: int, max_size: int) -> bool {
        c > s + 2 && c + s < size - 3 && s < max_size / 2
    }

    pub open spec fn can_grow_x(self, c: Point, sx: int, sy: int, max_size: int) -> bool {
        &&& Self::may_extend(c.x as int, sx, self.width as int, max_size)
        &&& !self.probe_blocked(c, sx + 1, sy)
    }

    pub open spec fn can_grow_y(self, c: Point, sx: int, sy: int, max_size: int) -> bool {
        &&& Self::may_extend(c.y as int, sy, self.height as int, max_size)
        &&& !self.probe_blocked(c, sx, sy + 1)
    }

    /// `(sx, sy)` is where the growth from `(min_size, min_size)` stops.
    /// The reaches grow by one cell in turn, `sx` before `sy`, each as long
    /// as it can; once one has stopped, the other goes on alone. So the
    /// rectangle and the ring around it are free, neither reach can grow,
    /// and the one that stopped first did so while both were in step.
    pub open spec fn grown(self, c: Point, min_size: int, max_size: int, sx: int, sy: int) -> bool {
        &&& min_size <= sx
        &&& min_size <= sy
        &&& !self.probe_blocked(c, sx, sy)
        &&& sx > min_size ==> Self::may_extend(c.x as int, sx - 1, self.width as int, max_size)
        &&& sy > min_size ==> Self::may_extend(c.y as int, sy - 1, self.height as int, max_size)
        &&& !self.can_grow_x(c, sx, sy, max_size)
        &&& !self.can_grow_y(c, sx, sy, max_size)
        &&& sx <= sy ==> !self.can_grow_x(c, sx, sx, max_size)
        &&& sx > sy ==> !self.can_grow_y(c, sy + 1, sy, max_size)
    }

    /// `r` is the rectangle grown around the centre `c`: it reaches as far
    /// from `c` on either side, as far as the growth went.
    pub open spec fn clear_rectangle_at(
        self,
        c: Point,
        min_size: int,
        max_size: int,
        r: Rectangle,
    ) -> bool {
        &&& r.x1 + r.x2 == 2 * c.x
        &&& r.y1 + r.y2 == 2 * c.y
        &&& self.grown(c, min_size, max_size, c.x - r.x1, c.y - r.y1)
    }

    /// A blocked region stays blocked when it is enlarged.
    pub proof fn lemma_region_blocked_grows(
        self,
        x1: int,
        y1: int,
        x2: int,
        y2: int,
        wx1: int,
        wy1: int,
        wx2: int,
        wy2: int,
    )
        requires
            self.region_blocked(x1, y1, x2, y2),
            wx1 <= x1,
            wy1 <= y1,
            x2 <= wx2,
            y2 <= wy2,
        ensures
            self.region_blocked(wx1, wy1, wx2, wy2),
    {
        let (x, y) = choose|x: int, y: int|
            x1 <= x <= x2 && y1 <= y <= y2 && #[trigger] self.occupied(x, y);
        assert(wx1 <= x <= wx2 && wy1 <= y <= wy2 && self.occupied(x, y));
    }

    /// A free rectangle with a free ring stays so when it reaches less far.
    pub proof fn lemma_probe_shrinks(self, c: Point, sx: int, sy: int, tx: int, ty: int)
        requires
            !self.probe_blocked(c, sx, sy),
            tx <= sx,
            ty <= sy,
        ensures
            !self.probe_blocked(c, tx, ty),
    {
        if self.probe_blocked(c, tx, ty) {
            self.lemma_region_blocked_grows(
                c.x - tx - 1,
                c.y - ty - 1,
                c.x + tx + 1,
                c.y + ty + 1,
                c.x - sx - 1,
                c.y - sy - 1,
                c.x + sx + 1,
                c.y + sy + 1,
            );
        }
    }

    /// Of two outcomes of the growth around one centre, the second does
    /// not reach farther in `x` than the first.
    proof fn lemma_grown_reach_x(
        self,
        c: Point,
        min_size: int,
        max_size: int,
        a1: int,
        b1: int,
        a2: int,
        b2: int,
    )
        requires
            self.grown(c, min_size, max_size, a1, b1),
            self.grown(c, min_size, max_size, a2, b2),
        ensures
            a2 <= a1,
    {
        if a1 < a2 {
            if a1 <= b1 {
                if a1 <= b2 {
                    self.lemma_probe_shrinks(c, a2, b2, a1 + 1, a1);
                } else {
                    self.lemma_probe_shrinks(c, a1, b1, b2 + 1, b2 + 1);
                }
            } else {
                if b1 <= b2 {
                    self.lemma_probe_shrinks(c, a2, b2, a1 + 1, b1);
                } else {
                    self.lemma_probe_shrinks(c, a1, b1, b2 + 1, b2 + 1);
                }
            }
        }
    }

    /// Of two outcomes of the growth around one centre, the second does
    /// not reach farther in `y` than the first.
    proof fn lemma_grown_reach_y(
        self,
        c: Point,
        min_size: int,
        max_size: int,
        a1: int,
        b1: int,
        a2: int,
        b2: int,
    )
        requires
            self.grown(c, min_size, max_size, a1, b1),
            self.grown(c, min_size, max_size, a2, b2),
        ensures
            b2 <= b1,
    {
        if b1 < b2 {
            if a1 > b1 {
                if b1 + 1 <= a2 {
                    self.lemma_probe_shrinks(c, a2, b2, b1 + 1, b1 + 1);
                } else {
                    self.lemma_probe_shrinks(c, a1, b1, a2 + 1, a2);
                }
            } else {
                if a1 <= a2 {
                    self.lemma_probe_shrinks(c, a2, b2, a1, b1 + 1);
                } else {
                    self.lemma_probe_shrinks(c, a1, b1, a2 + 1, a2);
                }
            }
        }
    }

    /// The growth around a centre has one outcome: `grown` holds of no two
    /// pairs of reaches.
    pub proof fn lemma_grown_unique(
        self,
        c: Point,
        min_size: int,
        max_size: int,
        a1: int,
        b1: int,
        a2: int,
        b2: int,
    )
        requires
            self.grown(c, min_size, max_size, a1, b1),
            self.grown(c, min_size, max_size, a2, b2),
        ensures
            a1 == a2,
            b1 == b2,
    {
        self.lemma_grown_reach_x(c, min_size, max_size, a1, b1, a2, b2);
        self.lemma_grown_reach_x(c, min_size, max_size, a2, b2, a1, b1);
        self.lemma_grown_reach_y(c, min_size, max_size, a1, b1, a2, b2);
        self.lemma_grown_reach_y(c, min_size, max_size, a2, b2, a1, b1);
    }

    /// Around one centre there is one free rectangle grown.
    pub proof fn lemma_clear_rectangle_unique(
        self,
        c: Point,
        min_size: int,
        max_size: int,
        r1: Rectangle,
        r2: Rectangle,
    )
        requires
            self.clear_rectangle_at(c, min_size, max_size, r1),
            self.clear_rectangle_at(c, min_size, max_size, r2),
        ensures
            r1 == r2,
    {
        self.lemma_grown_unique(
            c,
            min_size,
            max_size,
            c.x - r1.x1,
            c.y - r1.y1,
            c.x - r2.x1,
            c.y - r2.y1,
        );
    }
}

/// The occupancy grid.
pub struct Obstructions {
    w: u32,
    h: u32,
    tiles: Vec<bool>,
    unobstructed_count: u32,
}

impl View for Obstructions {
    type V = GridView;

    closed spec fn view(&self) -> GridView {
        GridView { width: self.w as nat, height: self.h as nat, cells: self.tiles@ }
    }
}

impl Obstructions {
    /// The running count of free cells.
    pub closed spec fn counter(&self) -> nat {
        self.unobstructed_count as nat
    }

    /// The cells fill the grid and the running count is the number of free
    /// cells.
    pub open spec fn wf(&self) -> bool {
        &&& self@.wf()
        &&& self.counter() == self@.free_cells()
    }

    /// A grid with every cell free.
    pub fn new(width: u32, height: u32) -> (grid: Obstructions)
        requires
            width * height <= u32::MAX,
        ensures
            grid.wf(),
            grid@.width == width,
            grid@.height == height,
            grid@.all_free(),
            grid@.free_cells() == width * height,
    {
        let cells: u64 = width as u64 * height as u64;
        let mut t: Vec<bool> = Vec::new();
        let mut filled: u32 = 0;
        while (filled as u64) < cells
            invariant
                cells == width * height,
                cells <= u32::MAX,
                filled <= cells,
                t@.len() == filled,
                count_free(t@) == filled,
                forall|i: int| 0 <= i < t@.len() ==> !t@[i],
            decreases cells - filled,
        {
            let ghost before = t@;
            t.push(false);
            assert(t@.drop_last() =~= before);
            filled += 1;
        }
        let grid = Obstructions { w: width, h: height, tiles: t, unobstructed_count: filled };
        proof {
            assert forall|x: int, y: int| grid@.in_bounds(x, y) implies !#[trigger] grid@.occupied(
                x,
                y,
            ) by {
                lemma_slot_in_range(width as nat, height as nat, x, y);
            }
        }
        grid
    }

    pub fn width(&self) -> (w: u32)
        ensures
            w == self@.width,
    {
        self.w
    }

    pub fn height(&self) -> (h: u32)
        ensures
            h == self@.height,
    {
        self.h
    }

    /// Where the cell `(x, y)` is kept.
    fn slot_of(&self, x: u32, y: u32) -> (t: usize)
        requires
            self.wf(),
            self@.in_bounds(x as int, y as int),
        ensures
            t == self@.slot(x as int, y as int),
            t < self.tiles@.len(),
    {
        proof {
            lemma_slot_in_range(self.w as nat, self.h as nat, x as int, y as int);
        }
        (y as u64 * self.w as u64 + x as u64) as usize
    }

    /// Sets the cell `(x, y)` and moves the count of free cells by what the
    /// cell gained or lost. No other cell changes.
    pub fn obstruct(&mut self, x: u32, y: u32, obstructed: bool)
        requires
            old(self).wf(),
            old(self)@.in_bounds(x as int, y as int),
        ensures
            final(self).wf(),
            final(self).counter() == final(self)@.free_cells(),
            final(self)@ == old(self)@.with_cell(x as int, y as int, obstructed),
            final(self)@.occupied(x as int, y as int) == obstructed,
            forall|cx: int, cy: int|
                old(self)@.in_bounds(cx, cy) && (cx != x || cy != y)
                    ==> #[trigger] final(self)@.occupied(cx, cy) == old(self)@.occupied(cx, cy),
            final(self)@.free_cells() + (if obstructed {
                1int
            } else {
                0int
            }) == old(self)@.free_cells() + (if old(self)@.occupied(x as int, y as int) {
                1int
            } else {
                0int
            }),
    {
        let t = self.slot_of(x, y);
        proof {
            lemma_count_free_update(self.tiles@, t as int, obstructed);
            lemma_count_free_bound(self.tiles@.update(t as int, obstructed));
        }
        if obstructed && !self.tiles[t] {
            self.unobstructed_count -= 1;
        } else if !obstructed && self.tiles[t] {
            self.unobstructed_count += 1;
        }
        self.tiles.set(t, obstructed);
        proof {
            assert forall|cx: int, cy: int|
                old(self)@.in_bounds(cx, cy) && (cx != x || cy != y) implies #[trigger] self@.occupied(
                cx,
                cy,
            ) == old(self)@.occupied(cx, cy) by {
                lemma_slot_in_range(self.w as nat, self.h as nat, cx, cy);
                if self@.slot(cx, cy) == t {
                    lemma_slot_distinct(self.w as nat, cx, cy, x as int, y as int);
                }
            }
        }
    }

    pub fn is_obstructed(&self, x: u32, y: u32) -> (occupied: bool)
        requires
            self.wf(),
            self@.in_bounds(x as int, y as int),
        ensures
            occupied == self@.occupied(x as int, y as int),
    {
        let t = self.slot_of(x, y);
        self.tiles[t]
    }

    /// Whether any cell of the rectangle is occupied.
    pub fn obstructed_rectangle(&self, r: &Rectangle) -> (blocked: bool)
        requires
            self.wf(),
            self@.holds(*r),
        ensures
            blocked == self@.blocked(*r),
    {
        let mut x: u32 = r.x1;
        while x <= r.x2
            invariant
                self.wf(),
                self@.holds(*r),
                r.x1 <= x <= r.x2 + 1,
                !self@.region_blocked(r.x1 as int, r.y1 as int, x - 1, r.y2 as int),
            decreases r.x2 + 1 - x,
        {
            let mut y: u32 = r.y1;
            while y <= r.y2
                invariant
                    self.wf(),
                    self@.holds(*r),
                    r.x1 <= x <= r.x2,
                    r.y1 <= y <= r.y2 + 1,
                    !self@.region_blocked(r.x1 as int, r.y1 as int, x - 1, r.y2 as int),
                    !self@.region_blocked(x as int, r.y1 as int, x as int, y - 1),
                decreases r.y2 + 1 - y,
            {
                if self.is_obstructed(x, y) {
                    return true;
                }
                y += 1;
            }
            x += 1;
        }
        false
    }

    pub fn get_unobstructed_count(&self) -> (free: u32)
        requires
            self.wf(),
        ensures
            free == self@.free_cells(),
    {
        self.unobstructed_count
    }

    /// Marks every cell of the rectangle occupied. No other cell changes.
    pub fn obstruct_rectangle(&mut self, r: &Rectangle)
        requires
            old(self).wf(),
            old(self)@.holds(*r),
        ensures
            final(self).wf(),
            final(self)@.width == old(self)@.width,
            final(self)@.height == old(self)@.height,
            forall|cx: int, cy: int|
                old(self)@.in_bounds(cx, cy) ==> #[trigger] final(self)@.occupied(cx, cy) == (old(
                    self,
                )@.occupied(cx, cy) || r.has_cell(cx, cy)),
    {
        let ghost before = self@;
        let mut x: u32 = r.x1;
        while x <= r.x2
            invariant
                self.wf(),
                self@.width == before.width,
                self@.height == before.height,
                before.holds(*r),
                r.x1 <= x <= r.x2 + 1,
                forall|cx: int, cy: int|
                    before.in_bounds(cx, cy) ==> #[trigger] self@.occupied(cx, cy) == (
                    before.occupied(cx, cy) || (r.x1 <= cx < x && r.y1 <= cy <= r.y2)),
            decreases r.x2 + 1 - x,
        {
            let mut y: u32 = r.y1;
            while y <= r.y2
                invariant
                    self.wf(),
                    self@.width == before.width,
                    self@.height == before.height,
                    before.holds(*r),
                    r.x1 <= x <= r.x2,
                    r.y1 <= y <= r.y2 + 1,
                    forall|cx: int, cy: int|
                        before.in_bounds(cx, cy) ==> #[trigger] self@.occupied(cx, cy) == (
                        before.occupied(cx, cy) || (r.x1 <= cx < x && r.y1 <= cy <= r.y2) || (cx
                            == x && r.y1 <= cy < y)),
                decreases r.y2 + 1 - y,
            {
                self.obstruct(x, y, true);
                y += 1;
            }
            x += 1;
        }
    }

    /// Marks occupied every cell of the grid that is near `line`: on it,
    /// or beside it less than `margin` cells away.
    pub fn obstruct_band(&mut self, line: &Line, margin: u32)
        requires
            old(self).wf(),
        ensures
            final(self).wf(),
            final(self)@.width == old(self)@.width,
            final(self)@.height == old(self)@.height,
            forall|cx: int, cy: int|
                old(self)@.in_bounds(cx, cy) ==> #[trigger] final(self)@.occupied(cx, cy) == (old(
                    self,
                )@.occupied(cx, cy) || line.near(margin as int, cx, cy)),
    {
        if self.w == 0 || self.h == 0 {
            return ;
        }
        let whole = Rectangle { x1: 0, y1: 0, x2: self.w - 1, y2: self.h - 1 };
        match whole.band_around(line, margin) {
            None => {
                assert forall|cx: int, cy: int| self@.in_bounds(cx, cy) implies !line.near(
                    margin as int,
                    cx,
                    cy,
                ) by {
                    assert(whole.has_cell(cx, cy));
                }
            },
            Some(band) => {
                assert(band.has_cell(band.x2 as int, band.y2 as int));
                self.obstruct_rectangle(&band);
                assert forall|cx: int, cy: int| old(self)@.in_bounds(cx, cy) implies band.has_cell(
                    cx,
                    cy,
                ) == line.near(margin as int, cx, cy) by {
                    assert(whole.has_cell(cx, cy));
                }
            },
        }
    }

    /// A free cell, drawn uniformly among all cells until one is free or
    /// the attempts run out.
    pub fn find_clear_tile(&self, rng: &mut ThreadRng) -> (found: Result<(u32, u32), LayoutError>)
        requires
            self.wf(),
        ensures
            self@.width == 0 || self@.height == 0 ==> fails_as(found, LayoutError::Infeasible),
            self@.width > 0 && self@.height > 0 ==> found is Ok || fails_as(
                found,
                LayoutError::PlacementFailed,
            ),
            found matches Ok((x, y)) ==> self@.in_bounds(x as int, y as int) && !self@.occupied(
                x as int,
                y as int,
            ),
            self@.width > 0 && self@.height > 0 && self@.all_free() ==> found is Ok,
            self@.free_cells() == 0 ==> found is Err,
    {
        if self.w == 0 || self.h == 0 {
            return Err(LayoutError::Infeasible);
        }
        let mut attempts: u32 = 0;
        while attempts < MAX_ATTEMPTS
            invariant
                self.wf(),
                self@.width > 0,
                self@.height > 0,
                self@.all_free() ==> attempts == 0,
            decreases MAX_ATTEMPTS - attempts,
        {
            let x: u32 = uniform_in(rng, 0, self.w);
            let y: u32 = uniform_in(rng, 0, self.h);
            if !self.is_obstructed(x, y) {
                proof {
                    if self@.free_cells() == 0 {
                        lemma_count_free_none(self@.cells);
                        lemma_slot_in_range(self.w as nat, self.h as nat, x as int, y as int);
                    }
                }
                return Ok((x, y));
            }
            attempts += 1;
        }
        Err(LayoutError::PlacementFailed)
    }

    /// Whether the rectangle that reaches `size_x` columns and `size_y`
    /// rows from `center`, or the ring around it, holds an occupied cell.
    fn probe(&self, center: &Point, size_x: u32, size_y: u32) -> (blocked: bool)
        requires
            self.wf(),
            size_x + 1 <= center.x,
            center.x + size_x + 1 < self@.width,
            size_y + 1 <= center.y,
            center.y + size_y + 1 < self@.height,
        ensures
            blocked == self@.probe_blocked(*center, size_x as int, size_y as int),
    {
        let padded = Rectangle {
            x1: center.x - size_x - 1,
            y1: center.y - size_y - 1,
            x2: center.x + size_x + 1,
            y2: center.y + size_y + 1,
        };
        self.obstructed_rectangle(&padded)
    }

    fn may_extend_from(c: u32, s: u32, size: u32, max_size: u32) -> (yes: bool)
        ensures
            yes == GridView::may_extend(c as int, s as int, size as int, max_size as int),
    {
        c as u64 > s as u64 + 2 && c as u64 + s as u64 + 3 < size as u64 && s < max_size / 2
    }

    /// The one free rectangle grown around `center`, or `None` where the
    /// smallest one, reaching `min_size` cells from the centre, or the ring
    /// around it is not free. The rectangle grows one cell at a time on
    /// both sides of an axis, first in `x`, then in `y`, as long as the
    /// reach stays within half of `max_size`, two cells stay free of it at
    /// both ends of the axis, and the rectangle with its ring stays free.
    pub fn grow_rectangle_at(&self, center: &Point, min_size: u32, max_size: u32) -> (found: Option<
        Rectangle,
    >)
        requires
            self.wf(),
            self@.valid_center(*center, min_size as int),
        ensures
            found is None <==> self@.probe_blocked(*center, min_size as int, min_size as int),
            found matches Some(r) ==> {
                &&& self@.clear_rectangle_at(*center, min_size as int, max_size as int, r)
                &&& forall|other: Rectangle| #[trigger]
                    self@.clear_rectangle_at(*center, min_size as int, max_size as int, other)
                        ==> other == r
                &&& self@.holds(r)
                &&& !self@.blocked(r)
            },
    {
        let mut size_x: u32 = min_size;
        let mut size_y: u32 = min_size;
        if self.probe(center, size_x, size_y) {
            return None;
        }
        let mut growing_x = true;
        let mut growing_y = true;
        let ghost grid = self@;
        let ghost c = *center;
        let ghost least = min_size as int;
        let ghost most = max_size as int;
        while growing_x || growing_y
            invariant
                self.wf(),
                grid == self@,
                c == *center,
                least == min_size,
                most == max_size,
                least <= size_x,
                least <= size_y,
                size_x + 1 <= c.x,
                c.x + size_x + 1 < grid.width,
                size_y + 1 <= c.y,
                c.y + size_y + 1 < grid.height,
                !grid.probe_blocked(c, size_x as int, size_y as int),
                size_x > least ==> GridView::may_extend(
                    c.x as int,
                    size_x - 1,
                    grid.width as int,
                    most,
                ),
                size_y > least ==> GridView::may_extend(
                    c.y as int,
                    size_y - 1,
                    grid.height as int,
                    most,
                ),
                !growing_x ==> !grid.can_grow_x(c, size_x as int, size_y as int, most),
                !growing_y ==> !grid.can_grow_y(c, size_x as int, size_y as int, most),
                growing_x && growing_y ==> size_x == size_y,
                growing_x && !growing_y ==> size_x > size_y,
                !growing_x && growing_y ==> size_x <= size_y,
                !growing_x && size_x <= size_y ==> !grid.can_grow_x(
                    c,
                    size_x as int,
                    size_x as int,
                    most,
                ),
                !growing_y && size_x > size_y ==> !grid.can_grow_y(
                    c,
                    size_y + 1,
                    size_y as int,
                    most,
                ),
            decreases
                    (c.x - size_x) + (c.y - size_y) + (if growing_x {
                        1int
                    } else {
                        0int
                    }) + (if growing_y {
                        1int
                    } else {
                        0int
                    }),
        {
            if growing_x {
                if Self::may_extend_from(center.x, size_x, self.w, max_size) && !self.probe(
                    center,
                    size_x + 1,
                    size_y,
                ) {
                    proof {
                        if !growing_y && grid.probe_blocked(c, size_x as int, size_y + 1) {
                            grid.lemma_region_blocked_grows(
                                c.x - size_x - 1,
                                c.y - size_y - 2,
                                c.x + size_x + 1,
                                c.y + size_y + 2,
                                c.x - size_x - 2,
                                c.y - size_y - 2,
                                c.x + size_x + 2,
                                c.y + size_y + 2,
                            );
                        }
                    }
                    size_x += 1;
                } else {
                    growing_x = false;
                }
            }
            if growing_y {
                if Self::may_extend_from(center.y, size_y, self.h, max_size) && !self.probe(
                    center,
                    size_x,
                    size_y + 1,
                ) {
                    proof {
                        if !growing_x && grid.probe_blocked(c, size_x + 1, size_y as int) {
                            grid.lemma_region_blocked_grows(
                                c.x - size_x - 2,
                                c.y - size_y - 1,
                                c.x + size_x + 2,
                                c.y + size_y + 1,
                                c.x - size_x - 2,
                                c.y - size_y - 2,
                                c.x + size_x + 2,
                                c.y + size_y + 2,
                            );
                        }
                    }
                    size_y += 1;
                } else {
                    growing_y = false;
                }
            }
        }
        let found = Rectangle {
            x1: center.x - size_x,
            y1: center.y - size_y,
            x2: center.x + size_x,
            y2: center.y + size_y,
        };
        proof {
            assert forall|other: Rectangle| #[trigger]
                grid.clear_rectangle_at(c, least, most, other) implies other == found by {
                grid.lemma_clear_rectangle_unique(c, least, most, found, other);
            }
            if grid.blocked(found) {
                grid.lemma_region_blocked_grows(
                    found.x1 as int,
                    found.y1 as int,
                    found.x2 as int,
                    found.y2 as int,
                    c.x - size_x - 1,
                    c.y - size_y - 1,
                    c.x + size_x + 1,
                    c.y + size_y + 1,
                );
            }
        }
        Some(found)
    }

    /// A free rectangle around a centre drawn uniformly among the cells
    /// that keep `min_size + 1` cells from the rim of the grid. A centre
    /// is drawn again, until the attempts run out, while the smallest
    /// rectangle around it, with its ring, is not free.
    pub fn find_clear_rectangle(&self, min_size: u32, max_size: u32, rng: &mut ThreadRng) -> (found:
        Result<Rectangle, LayoutError>)
        requires
            self.wf(),
        ensures
            !self@.admits(min_size as int) ==> fails_as(found, LayoutError::Infeasible),
            self@.admits(min_size as int) ==> found is Ok || fails_as(
                found,
                LayoutError::PlacementFailed,
            ),
            found matches Ok(r) ==> {
                &&& exists|c: Point|
                    self@.valid_center(c, min_size as int) && #[trigger] self@.clear_rectangle_at(
                        c,
                        min_size as int,
                        max_size as int,
                        r,
                    )
                &&& self@.holds(r)
                &&& !self@.blocked(r)
            },
            self@.admits(min_size as int) && self@.all_free() ==> found is Ok,
    {
        let needed: u64 = 2 * (min_size as u64) + 3;
        if (self.w as u64) < needed || (self.h as u64) < needed {
            return Err(LayoutError::Infeasible);
        }
        let outer_bounds = Rectangle { x1: 0, y1: 0, x2: self.w - 1, y2: self.h - 1 };
        let mut attempts: u32 = 0;
        while attempts < MAX_ATTEMPTS
            invariant
                self.wf(),
                self@.admits(min_size as int),
                outer_bounds == (Rectangle { x1: 0, y1: 0, x2: (self.w - 1) as u32, y2: (self.h - 1) as u32 }),
                self@.all_free() ==> attempts == 0,
            decreases MAX_ATTEMPTS - attempts,
        {
            let center = outer_bounds.find_point_within(min_size + 1, rng);
            match self.grow_rectangle_at(&center, min_size, max_size) {
                Some(r) => {
                    return Ok(r);
                },
                None => {},
            }
            attempts += 1;
        }
        Err(LayoutError::PlacementFailed)
    }
}

} // verus!
