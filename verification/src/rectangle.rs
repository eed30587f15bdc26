//! Rectangles with inclusive corners, their measures and their divisions.

use crate::error::{fails_as, LayoutError};
use crate::geometry::{opposite_orientation, Line, Orientation, Point};
use crate::random::{coin_flip, uniform_in};
use rand::rngs::ThreadRng;
use vstd::prelude::*;

verus! {

/// The cells from `(x1, y1)` to `(x2, y2)`, corners included.
#[derive(Copy, Clone, PartialEq, Eq, Structural, Debug)]
pub struct Rectangle {
    pub x1: u32,
    pub y1: u32,
    pub x2: u32,
    pub y2: u32,
}

pub open spec fn larger(a: int, b: int) -> int {
    if a >= b {
        a
    } else {
        b
    }
}

pub open spec fn smaller(a: int, b: int) -> int {
    if a <= b {
        a
    } else {
        b
    }
}

fn larger_of(a: u32, b: u32) -> (m: u32)
    ensures
        m == larger(a as int, b as int),
{
    if a >= b {
        a
    } else {
        b
    }
}

fn smaller_of(a: u32, b: u32) -> (m: u32)
    ensures
        m == smaller(a as int, b as int),
{
    if a <= b {
        a
    } else {
        b
    }
}

impl Rectangle {
    /// The corners are in order, so the rectangle has at least one cell.
    pub open spec fn wf(self) -> bool {
        self.x1 <= self.x2 && self.y1 <= self.y2
    }

    pub open spec fn spec_width(self) -> int {
        self.x2 - self.x1 + 1
    }

    pub open spec fn spec_height(self) -> int {
        self.y2 - self.y1 + 1
    }

    pub open spec fn spec_area(self) -> int {
        self.spec_width() * self.spec_height()
    }

    /// The number of cells on the border of a rectangle at least two cells
    /// wide and high.
    pub open spec fn spec_perimeter(self) -> int {
        2 * self.spec_width() + 2 * self.spec_height() - 4
    }

    pub open spec fn spec_divisible(self, min_size: int) -> bool {
        self.spec_width() >= 2 * min_size || self.spec_height() >= 2 * min_size
    }

    /// The cell `(x, y)` lies in the rectangle.
    pub open spec fn has_cell(self, x: int, y: int) -> bool {
        self.x1 <= x <= self.x2 && self.y1 <= y <= self.y2
    }

    pub open spec fn contains(self, p: Point) -> bool {
        self.has_cell(p.x as int, p.y as int)
    }

    /// The least coordinate of the rectangle along the axis `o`.
    pub open spec fn low(self, o: Orientation) -> int {
        match o {
            Orientation::Horiz => self.x1 as int,
            Orientation::Vert => self.y1 as int,
        }
    }

    /// The greatest coordinate of the rectangle along the axis `o`.
    pub open spec fn high(self, o: Orientation) -> int {
        match o {
            Orientation::Horiz => self.x2 as int,
            Orientation::Vert => self.y2 as int,
        }
    }

    /// The number of cells of the rectangle along the axis `o`.
    pub open spec fn extent(self, o: Orientation) -> int {
        self.high(o) - self.low(o) + 1
    }

    /// The origin of `line` and all of its cells lie in the rectangle.
    pub open spec fn holds(self, line: Line) -> bool {
        &&& self.low(line.orientation.flipped()) <= line.fixed() <= self.high(
            line.orientation.flipped(),
        )
        &&& self.low(line.orientation) <= line.start() <= self.high(line.orientation)
        &&& line.end() <= self.high(line.orientation) + 1
    }

    pub fn low_edge(&self, o: Orientation) -> (c: u32)
        ensures
            c == self.low(o),
    {
        match o {
            Orientation::Horiz => self.x1,
            Orientation::Vert => self.y1,
        }
    }

    pub fn high_edge(&self, o: Orientation) -> (c: u32)
        ensures
            c == self.high(o),
    {
        match o {
            Orientation::Horiz => self.x2,
            Orientation::Vert => self.y2,
        }
    }

    pub fn width(&self) -> (w: u32)
        requires
            self.wf(),
            self.spec_width() <= u32::MAX,
        ensures
            w == self.spec_width(),
    {
        self.x2 - self.x1 + 1
    }

    pub fn height(&self) -> (h: u32)
        requires
            self.wf(),
            self.spec_height() <= u32::MAX,
        ensures
            h == self.spec_height(),
    {
        self.y2 - self.y1 + 1
    }

    pub fn area(&self) -> (a: u32)
        requires
            self.wf(),
            self.spec_area() <= u32::MAX,
        ensures
            a == self.spec_area(),
    {
        let w: u64 = (self.x2 - self.x1) as u64 + 1;
        let h: u64 = (self.y2 - self.y1) as u64 + 1;
        assert(w * h <= 0x1_0000_0000 * 0x1_0000_0000) by (nonlinear_arith)
            requires
                0 <= w <= 0x1_0000_0000,
                0 <= h <= 0x1_0000_0000,
        ;
        (w * h) as u32
    }

    pub fn perimeter(&self) -> (p: u32)
        requires
            self.wf(),
            self.spec_perimeter() <= u32::MAX,
        ensures
            p == self.spec_perimeter(),
    {
        let around: u64 = (self.x2 - self.x1) as u64 * 2 + (self.y2 - self.y1) as u64 * 2;
        around as u32
    }

    pub fn divisible(&self, min_size: u32) -> (yes: bool)
        requires
            self.wf(),
        ensures
            yes == self.spec_divisible(min_size as int),
    {
        let w: u64 = (self.x2 - self.x1) as u64 + 1;
        let h: u64 = (self.y2 - self.y1) as u64 + 1;
        let twice: u64 = min_size as u64 * 2;
        w >= twice || h >= twice
    }

    /// The cells common to both rectangles. The result is well-formed
    /// exactly when there is such a cell.
    pub fn intersection_with(&self, other_rect: Rectangle) -> (common: Rectangle)
        ensures
            common.x1 == larger(self.x1 as int, other_rect.x1 as int),
            common.y1 == larger(self.y1 as int, other_rect.y1 as int),
            common.x2 == smaller(self.x2 as int, other_rect.x2 as int),
            common.y2 == smaller(self.y2 as int, other_rect.y2 as int),
            forall|x: int, y: int|
                common.has_cell(x, y) <==> self.has_cell(x, y) && other_rect.has_cell(x, y),
            common.wf() <==> exists|x: int, y: int|
                self.has_cell(x, y) && #[trigger] other_rect.has_cell(x, y),
    {
        let mut intersection = *self;
        if other_rect.x1 > intersection.x1 {
            intersection.x1 = other_rect.x1;
        }
        if other_rect.x2 < intersection.x2 {
            intersection.x2 = other_rect.x2;
        }
        if other_rect.y1 > intersection.y1 {
            intersection.y1 = other_rect.y1;
        }
        if other_rect.y2 < intersection.y2 {
            intersection.y2 = other_rect.y2;
        }
        proof {
            if intersection.wf() {
                assert(self.has_cell(intersection.x1 as int, intersection.y1 as int)
                    && other_rect.has_cell(intersection.x1 as int, intersection.y1 as int));
            }
        }
        intersection
    }

    /// The two rectangles are apart along exactly one axis: one lies wholly
    /// above, below, left or right of the other, and along the other axis
    /// their ranges meet.
    pub open spec fn faces(self, other: Rectangle) -> bool {
        &&& self.wf()
        &&& other.wf()
        &&& (self.y2 < other.y1 || self.y1 > other.y2) != (self.x2 < other.x1 || self.x1
            > other.x2)
    }

    /// The segment along the edge of `self` that looks at `other`: it runs
    /// from the first coordinate the two rectangles share up to, and not
    /// including, the last one.
    pub open spec fn spec_border(self, other: Rectangle) -> Line {
        let x = larger(self.x1 as int, other.x1 as int);
        let y = larger(self.y1 as int, other.y1 as int);
        let across = (smaller(self.x2 as int, other.x2 as int) - x) as u32;
        let down = (smaller(self.y2 as int, other.y2 as int) - y) as u32;
        if self.y2 < other.y1 {
            Line { x: x as u32, y: self.y2, orientation: Orientation::Horiz, length: across }
        } else if self.y1 > other.y2 {
            Line { x: x as u32, y: self.y1, orientation: Orientation::Horiz, length: across }
        } else if self.x2 < other.x1 {
            Line { x: self.x2, y: y as u32, orientation: Orientation::Vert, length: down }
        } else {
            Line { x: self.x1, y: y as u32, orientation: Orientation::Vert, length: down }
        }
    }

    pub fn connecting_border_with(&self, other_rect: Rectangle) -> (border: Line)
        requires
            self.faces(other_rect),
        ensures
            border == self.spec_border(other_rect),
            self.holds(border),
            forall|p: Point| #[trigger]
                border.covers(p) ==> self.contains(p) && other_rect.low(border.orientation)
                    <= border.orientation.along(p) < other_rect.high(border.orientation),
    {
        let mut border = Line { x: 0, y: 0, orientation: Orientation::Horiz, length: 0 };
        if self.y2 < other_rect.y1 {
            border.x = larger_of(self.x1, other_rect.x1);
            border.y = self.y2;
            border.length = smaller_of(self.x2, other_rect.x2) - border.x;
        } else if self.y1 > other_rect.y2 {
            border.x = larger_of(self.x1, other_rect.x1);
            border.y = self.y1;
            border.length = smaller_of(self.x2, other_rect.x2) - border.x;
        } else if self.x2 < other_rect.x1 {
            border.y = larger_of(self.y1, other_rect.y1);
            border.x = self.x2;
            border.length = smaller_of(self.y2, other_rect.y2) - border.y;
            border.orientation = Orientation::Vert;
        } else {
            border.y = larger_of(self.y1, other_rect.y1);
            border.x = self.x1;
            border.length = smaller_of(self.y2, other_rect.y2) - border.y;
            border.orientation = Orientation::Vert;
        }
        border
    }

    /// Moves all four edges inward by `amount`. The result is well-formed
    /// exactly when the rectangle was and is more than `2 * amount` cells
    /// wide and high.
    pub fn shrink(&mut self, amount: u32)
        requires
            old(self).x1 + amount <= u32::MAX,
            old(self).y1 + amount <= u32::MAX,
            amount <= old(self).x2,
            amount <= old(self).y2,
        ensures
            final(self).x1 == old(self).x1 + amount,
            final(self).y1 == old(self).y1 + amount,
            final(self).x2 == old(self).x2 - amount,
            final(self).y2 == old(self).y2 - amount,
            final(self).wf() <==> old(self).spec_width() > 2 * amount && old(self).spec_height() > 2
                * amount,
    {
        self.x1 += amount;
        self.y1 += amount;
        self.x2 -= amount;
        self.y2 -= amount;
    }
}

impl Rectangle {
    /// `p` lies in the rectangle, at least `margin` cells from each edge.
    pub open spec fn contains_inside(self, p: Point, margin: int) -> bool {
        &&& self.x1 + margin <= p.x <= self.x2 - margin
        &&& self.y1 + margin <= p.y <= self.y2 - margin
    }

    /// `p` lies on one of the four edges and is not a corner.
    pub open spec fn on_edge(self, p: Point) -> bool {
        ||| (p.y == self.y1 || p.y == self.y2) && self.x1 < p.x < self.x2
        ||| (p.x == self.x1 || p.x == self.x2) && self.y1 < p.y < self.y2
    }

    /// The point on the chosen edge at `coordinate` along it. The edge is
    /// the top or bottom one if `horiz_wall`, else the left or right one; of
    /// the two, the one with the lesser coordinate if `lowest`.
    pub open spec fn spec_edge_point(self, horiz_wall: bool, lowest: bool, coordinate: u32) -> Point {
        if horiz_wall {
            Point {
                x: coordinate,
                y: if lowest {
                    self.y1
                } else {
                    self.y2
                },
            }
        } else {
            Point {
                x: if lowest {
                    self.x1
                } else {
                    self.x2
                },
                y: coordinate,
            }
        }
    }

    /// A cell at least `margin` cells from all four edges, drawn uniformly.
    pub fn find_point_within(&self, margin: u32, rng: &mut ThreadRng) -> (p: Point)
        requires
            2 * margin <= self.x2 - self.x1,
            2 * margin <= self.y2 - self.y1,
            self.x2 - margin < u32::MAX,
            self.y2 - margin < u32::MAX,
        ensures
            self.contains_inside(p, margin as int),
    {
        let x: u32 = uniform_in(rng, self.x1 + margin, self.x2 - margin + 1);
        let y: u32 = uniform_in(rng, self.y1 + margin, self.y2 - margin + 1);
        Point::new(x, y)
    }

    pub fn edge_point(&self, horiz_wall: bool, lowest: bool, coordinate: u32) -> (p: Point)
        ensures
            p == self.spec_edge_point(horiz_wall, lowest, coordinate),
    {
        let mut point = Point::new(self.x1, self.y1);
        if horiz_wall {
            point.x = coordinate;
            if !lowest {
                point.y = self.y2;
            }
        } else {
            point.y = coordinate;
            if !lowest {
                point.x = self.x2;
            }
        }
        point
    }

    /// A cell on one of the four edges, corners excluded. Two coin flips
    /// pick the edge, one draw the place along it.
    pub fn find_exterior_point(&self, rng: &mut ThreadRng) -> (p: Point)
        requires
            self.x1 + 1 < self.x2,
            self.y1 + 1 < self.y2,
        ensures
            self.on_edge(p),
    {
        let horiz_wall = coin_flip(rng);
        let lowest = coin_flip(rng);
        let coordinate: u32 = if horiz_wall {
            uniform_in(rng, self.x1 + 1, self.x2)
        } else {
            uniform_in(rng, self.y1 + 1, self.y2)
        };
        self.edge_point(horiz_wall, lowest, coordinate)
    }

    /// The least size of a half: `min_size`, and one cell where that is
    /// zero, since a rectangle is never empty.
    pub open spec fn half_floor(min_size: int) -> int {
        larger(min_size, 1)
    }

    /// A division line of orientation `d` leaves room for two halves of
    /// at least `min_size` cells each.
    pub open spec fn has_room(self, d: Orientation, min_size: int) -> bool {
        self.extent(d.flipped()) >= 2 * Self::half_floor(min_size)
    }

    /// The orientation of the division line: the one that leaves room, and
    /// the coin's choice where both do.
    pub open spec fn spec_division_line(self, min_size: int, coin: bool) -> Option<Orientation> {
        if self.has_room(Orientation::Vert, min_size) && self.has_room(
            Orientation::Horiz,
            min_size,
        ) {
            Some(
                if coin {
                    Orientation::Vert
                } else {
                    Orientation::Horiz
                },
            )
        } else if self.has_room(Orientation::Vert, min_size) {
            Some(Orientation::Vert)
        } else if self.has_room(Orientation::Horiz, min_size) {
            Some(Orientation::Horiz)
        } else {
            None
        }
    }

    /// The two halves on either side of a division line of orientation `d`,
    /// the first one `size` cells across it.
    pub open spec fn spec_split(self, d: Orientation, size: int) -> (Rectangle, Rectangle) {
        match d {
            Orientation::Vert => (
                Rectangle { x2: (self.x1 + size - 1) as u32, ..self },
                Rectangle { x1: (self.x1 + size) as u32, ..self },
            ),
            Orientation::Horiz => (
                Rectangle { y2: (self.y1 + size - 1) as u32, ..self },
                Rectangle { y1: (self.y1 + size) as u32, ..self },
            ),
        }
    }

    /// `first` and `second` are the halves of a division that `min_size`
    /// allows.
    pub open spec fn divides_into(self, first: Rectangle, second: Rectangle, min_size: int) -> bool {
        exists|d: Orientation, size: int|
            {
                &&& self.has_room(d, min_size)
                &&& Self::half_floor(min_size) <= size <= self.extent(d.flipped())
                    - Self::half_floor(min_size)
                &&& #[trigger] self.spec_split(d, size) == (first, second)
            }
    }

    /// The number of cells of the rectangle across a line of orientation `d`.
    fn extent_across(&self, d: Orientation) -> (n: u64)
        requires
            self.wf(),
        ensures
            n == self.extent(d.flipped()),
    {
        match d {
            Orientation::Vert => (self.x2 - self.x1) as u64 + 1,
            Orientation::Horiz => (self.y2 - self.y1) as u64 + 1,
        }
    }

    pub fn division_line(&self, min_size: u32, coin: bool) -> (d: Option<Orientation>)
        requires
            self.wf(),
        ensures
            d == self.spec_division_line(min_size as int, coin),
    {
        let floor: u64 = if min_size == 0 {
            1
        } else {
            min_size as u64
        };
        let vert = self.extent_across(Orientation::Vert) >= 2 * floor;
        let horiz = self.extent_across(Orientation::Horiz) >= 2 * floor;
        if vert && horiz {
            if coin {
                Some(Orientation::Vert)
            } else {
                Some(Orientation::Horiz)
            }
        } else if vert {
            Some(Orientation::Vert)
        } else if horiz {
            Some(Orientation::Horiz)
        } else {
            None
        }
    }

    /// Cuts the rectangle by a line of orientation `d` so that the first
    /// half is `size` cells across. Every cell of the rectangle lies in
    /// exactly one half.
    pub fn split_at(&self, d: Orientation, size: u32) -> (halves: (Rectangle, Rectangle))
        requires
            self.wf(),
            1 <= size < self.extent(d.flipped()),
        ensures
            halves == self.spec_split(d, size as int),
            halves.0.wf(),
            halves.1.wf(),
            halves.0.extent(d.flipped()) == size,
            halves.1.extent(d.flipped()) == self.extent(d.flipped()) - size,
            forall|x: int, y: int|
                self.has_cell(x, y) <==> (#[trigger] halves.0.has_cell(x, y)) != (
                #[trigger] halves.1.has_cell(x, y)),
    {
        let mut rect1 = *self;
        let mut rect2 = *self;
        match d {
            Orientation::Horiz => {
                rect1.y2 = rect1.y1 + (size - 1);
                rect2.y1 = rect1.y1 + size;
            },
            Orientation::Vert => {
                rect1.x2 = rect1.x1 + (size - 1);
                rect2.x1 = rect1.x1 + size;
            },
        }
        (rect1, rect2)
    }

    /// Splits the rectangle in two along a random line. The line's
    /// orientation is the one that leaves each half at least `min_size`
    /// cells, by a coin flip where both do; its place is drawn uniformly
    /// among those that leave each half that size. Fails exactly when no
    /// orientation leaves room.
    pub fn randomly_divide(&self, min_size: u32, rng: &mut ThreadRng) -> (halves: Result<
        (Rectangle, Rectangle),
        LayoutError,
    >)
        ensures
            halves is Ok <==> self.wf() && (self.has_room(Orientation::Vert, min_size as int)
                || self.has_room(Orientation::Horiz, min_size as int)),
            halves is Err ==> fails_as(halves, LayoutError::Infeasible),
            halves matches Ok((first, second)) ==> {
                &&& self.divides_into(first, second, min_size as int)
                &&& first.wf()
                &&& second.wf()
                &&& forall|x: int, y: int|
                    self.has_cell(x, y) <==> (#[trigger] first.has_cell(x, y)) != (
                    #[trigger] second.has_cell(x, y))
            },
    {
        if self.x1 > self.x2 || self.y1 > self.y2 {
            return Err(LayoutError::Infeasible);
        }
        let both = self.division_line(min_size, true) != self.division_line(min_size, false);
        let coin = if both {
            coin_flip(rng)
        } else {
            false
        };
        match self.division_line(min_size, coin) {
            None => Err(LayoutError::Infeasible),
            Some(d) => {
                let floor: u64 = if min_size == 0 {
                    1
                } else {
                    min_size as u64
                };
                let places: u64 = self.extent_across(d) - 2 * floor + 1;
                let extra: u32 = uniform_in(rng, 0, places as u32);
                let size: u32 = floor as u32 + extra;
                let halves = self.split_at(d, size);
                assert(self.spec_split(d, size as int) == halves);
                Ok(halves)
            },
        }
    }
}

impl Rectangle {
    /// The rectangle from `from` to `to` along the axis `o` and from
    /// `side_from` to `side_to` across it.
    fn on_axis(o: Orientation, from: u32, to: u32, side_from: u32, side_to: u32) -> (r: Rectangle)
        ensures
            r.low(o) == from,
            r.high(o) == to,
            r.low(o.flipped()) == side_from,
            r.high(o.flipped()) == side_to,
    {
        match o {
            Orientation::Horiz => Rectangle { x1: from, y1: side_from, x2: to, y2: side_to },
            Orientation::Vert => Rectangle { x1: side_from, y1: from, x2: side_to, y2: to },
        }
    }

    /// The cells of the rectangle that are level with a cell of `line`, at
    /// most `before` cells before it across its axis or `after` cells
    /// after it. `None` where there is no such cell.
    pub fn strip_around(&self, line: &Line, before: u32, after: u32) -> (strip: Option<Rectangle>)
        ensures
            match strip {
                Some(s) => s.wf() && forall|x: int, y: int| #[trigger]
                    s.has_cell(x, y) <==> self.has_cell(x, y) && line.beside(
                        before as int,
                        after as int,
                        x,
                        y,
                    ),
                None => forall|x: int, y: int|
                    !(#[trigger] self.has_cell(x, y) && line.beside(
                        before as int,
                        after as int,
                        x,
                        y,
                    )),
            },
    {
        if line.length == 0 {
            return None;
        }
        let o = line.orientation;
        let start: u64 = line.start_coord() as u64;
        let last: u64 = start + (line.length as u64 - 1);
        let fixed: u64 = line.fixed_coord() as u64;
        let side_start: u64 = if fixed >= before as u64 {
            fixed - before as u64
        } else {
            0
        };
        let side_last: u64 = fixed + after as u64;
        let low: u64 = self.low_edge(o) as u64;
        let high: u64 = self.high_edge(o) as u64;
        let side_low: u64 = self.low_edge(opposite_orientation(o)) as u64;
        let side_high: u64 = self.high_edge(opposite_orientation(o)) as u64;
        let from: u64 = if start >= low {
            start
        } else {
            low
        };
        let to: u64 = if last <= high {
            last
        } else {
            high
        };
        let side_from: u64 = if side_start >= side_low {
            side_start
        } else {
            side_low
        };
        let side_to: u64 = if side_last <= side_high {
            side_last
        } else {
            side_high
        };
        if from > to || side_from > side_to {
            return None;
        }
        let s = Self::on_axis(o, from as u32, to as u32, side_from as u32, side_to as u32);
        Some(s)
    }

    /// The cells of the rectangle that are near `line`: on it, or beside
    /// it less than `margin` cells away. `None` where there is no such
    /// cell.
    pub fn band_around(&self, line: &Line, margin: u32) -> (band: Option<Rectangle>)
        ensures
            match band {
                Some(b) => b.wf() && forall|x: int, y: int| #[trigger]
                    b.has_cell(x, y) <==> self.has_cell(x, y) && line.near(margin as int, x, y),
                None => forall|x: int, y: int|
                    !(#[trigger] self.has_cell(x, y) && line.near(margin as int, x, y)),
            },
    {
        let reach: u32 = if margin == 0 {
            0
        } else {
            margin - 1
        };
        let band = self.strip_around(line, reach, reach);
        proof {
            assert forall|x: int, y: int|
                line.near(margin as int, x, y) == line.beside(reach as int, reach as int, x, y) by {}
        }
        band
    }
}

} // verus!
