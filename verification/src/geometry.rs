//! Points, axis-aligned lines and rectangles on the cell grid.

use crate::random::uniform_in;
use rand::rngs::ThreadRng;
use vstd::prelude::*;

verus! {

/// The axis a line runs along. A horizontal line varies in `x` at a fixed
/// `y`; a vertical line varies in `y` at a fixed `x`.
#[derive(Copy, Clone, PartialEq, Eq, Structural, Debug)]
pub enum Orientation {
    Horiz,
    Vert,
}

impl Orientation {
    /// The other axis.
    pub open spec fn flipped(self) -> Orientation {
        match self {
            Orientation::Horiz => Orientation::Vert,
            Orientation::Vert => Orientation::Horiz,
        }
    }

    /// The coordinate of the cell `(x, y)` along this axis.
    pub open spec fn along_of(self, x: int, y: int) -> int {
        match self {
            Orientation::Horiz => x,
            Orientation::Vert => y,
        }
    }

    /// The coordinate of the cell `(x, y)` across this axis.
    pub open spec fn across_of(self, x: int, y: int) -> int {
        match self {
            Orientation::Horiz => y,
            Orientation::Vert => x,
        }
    }

    /// The coordinate of `p` along this axis.
    pub open spec fn along(self, p: Point) -> int {
        match self {
            Orientation::Horiz => p.x as int,
            Orientation::Vert => p.y as int,
        }
    }

    /// The coordinate of `p` across this axis.
    pub open spec fn across(self, p: Point) -> int {
        match self {
            Orientation::Horiz => p.y as int,
            Orientation::Vert => p.x as int,
        }
    }
}

pub fn opposite_orientation(original: Orientation) -> (flipped: Orientation)
    ensures
        flipped == original.flipped(),
{
    match original {
        Orientation::Vert => Orientation::Horiz,
        Orientation::Horiz => Orientation::Vert,
    }
}

/// A cell of the grid.
#[derive(Copy, Clone, PartialEq, Eq, Structural, Debug)]
pub struct Point {
    pub x: u32,
    pub y: u32,
}

impl Point {
    pub fn new(x: u32, y: u32) -> (p: Point)
        ensures
            p.x == x,
            p.y == y,
    {
        Point { x, y }
    }

    /// The point whose coordinate along `o` is `along` and across it `across`.
    pub open spec fn on_axis(o: Orientation, along: int, across: int) -> Point {
        match o {
            Orientation::Horiz => Point { x: along as u32, y: across as u32 },
            Orientation::Vert => Point { x: across as u32, y: along as u32 },
        }
    }

    /// The coordinate of the point along the axis `o`.
    pub fn coord_along(&self, o: Orientation) -> (c: u32)
        ensures
            c == o.along(*self),
    {
        match o {
            Orientation::Horiz => self.x,
            Orientation::Vert => self.y,
        }
    }

    /// The coordinate of the point across the axis `o`.
    pub fn coord_across(&self, o: Orientation) -> (c: u32)
        ensures
            c == o.across(*self),
    {
        match o {
            Orientation::Horiz => self.y,
            Orientation::Vert => self.x,
        }
    }
}

/// A segment one cell wide: `length` cells from the origin `(x, y)` in the
/// positive direction of its axis.
#[derive(Copy, Clone, PartialEq, Eq, Structural, Debug)]
pub struct Line {
    pub x: u32,
    pub y: u32,
    pub orientation: Orientation,
    pub length: u32,
}

impl Line {
    /// The line of orientation `o` that starts at `start` along its axis,
    /// at `fixed` across it.
    pub open spec fn spec_on_axis(o: Orientation, start: int, fixed: int, length: int) -> Line {
        let origin = Point::on_axis(o, start, fixed);
        Line { x: origin.x, y: origin.y, orientation: o, length: length as u32 }
    }

    pub fn on_axis(o: Orientation, start: u32, fixed: u32, length: u32) -> (line: Line)
        ensures
            line == Line::spec_on_axis(o, start as int, fixed as int, length as int),
            line.orientation == o,
            line.start() == start,
            line.fixed() == fixed,
            line.length == length,
    {
        match o {
            Orientation::Horiz => Line { x: start, y: fixed, orientation: o, length },
            Orientation::Vert => Line { x: fixed, y: start, orientation: o, length },
        }
    }

    /// The coordinate of the origin along the line's axis.
    pub open spec fn start(self) -> int {
        self.orientation.along(Point { x: self.x, y: self.y })
    }

    /// The coordinate that all cells of the line share.
    pub open spec fn fixed(self) -> int {
        self.orientation.across(Point { x: self.x, y: self.y })
    }

    /// One past the coordinate of the last cell along the axis.
    pub open spec fn end(self) -> int {
        self.start() + self.length
    }

    /// Every cell of the line has coordinates that fit the machine integer.
    pub open spec fn fits(self) -> bool {
        self.end() <= u32::MAX + 1
    }

    /// `p` is one of the cells of the line.
    pub open spec fn covers(self, p: Point) -> bool {
        &&& self.orientation.across(p) == self.fixed()
        &&& self.start() <= self.orientation.along(p) < self.end()
    }

    /// The coordinate `c` along the axis falls on a cell of the line.
    pub open spec fn spans(self, c: int) -> bool {
        self.start() <= c < self.end()
    }

    /// The cell `(x, y)` is level with a cell of the line and at most
    /// `before` cells before it across the axis, or `after` cells after it.
    pub open spec fn beside(self, before: int, after: int, x: int, y: int) -> bool {
        let across = self.orientation.across_of(x, y);
        &&& self.spans(self.orientation.along_of(x, y))
        &&& self.fixed() - before <= across <= self.fixed() + after
    }

    /// The cell `(x, y)` is beside a cell of the line, less than `margin`
    /// cells from it across the axis, or is itself a cell of the line.
    pub open spec fn near(self, margin: int, x: int, y: int) -> bool {
        let across = self.orientation.across_of(x, y);
        &&& self.spans(self.orientation.along_of(x, y))
        &&& across == self.fixed() || self.fixed() - margin < across < self.fixed() + margin
    }

    /// The cell `distance` cells after the origin.
    pub open spec fn spec_point_at(self, distance: int) -> Point {
        Point::on_axis(self.orientation, self.start() + distance, self.fixed())
    }

    /// The two lines run along different axes and have a cell in common.
    pub open spec fn crosses(self, other: Line) -> bool {
        &&& self.orientation != other.orientation
        &&& exists|p: Point| #[trigger] self.covers(p) && other.covers(p)
    }

    /// The cell where the line meets the fixed coordinate of `other`.
    pub open spec fn meeting_point(self, other: Line) -> (int, int) {
        match self.orientation {
            Orientation::Horiz => (other.x as int, self.y as int),
            Orientation::Vert => (self.x as int, other.y as int),
        }
    }

    pub fn start_coord(&self) -> (c: u32)
        ensures
            c == self.start(),
    {
        match self.orientation {
            Orientation::Horiz => self.x,
            Orientation::Vert => self.y,
        }
    }

    pub fn fixed_coord(&self) -> (c: u32)
        ensures
            c == self.fixed(),
    {
        match self.orientation {
            Orientation::Horiz => self.y,
            Orientation::Vert => self.x,
        }
    }

    pub fn point_at(&self, distance: u32) -> (p: Point)
        requires
            self.start() + distance <= u32::MAX,
        ensures
            p == self.spec_point_at(distance as int),
            distance < self.length ==> self.covers(p),
    {
        match self.orientation {
            Orientation::Horiz => Point { x: self.x + distance, y: self.y },
            Orientation::Vert => Point { x: self.x, y: self.y + distance },
        }
    }

    /// `p` is a cell of the line at least `margin` cells from both of its
    /// ends.
    pub open spec fn covers_inside(self, p: Point, margin: int) -> bool {
        &&& self.covers(p)
        &&& self.start() + margin <= self.orientation.along(p) < self.end() - margin
    }

    /// A cell of the line at least `margin` cells from both of its ends,
    /// drawn uniformly among them.
    pub fn find_point_within(&self, margin: u32, rng: &mut ThreadRng) -> (p: Point)
        requires
            self.length > 2 * margin,
            self.fits(),
        ensures
            self.covers_inside(p, margin as int),
    {
        let distance: u32 = uniform_in(rng, margin, self.length - margin);
        self.point_at(distance)
    }

    pub fn point_intersects(&self, point: &Point) -> (hit: bool)
        ensures
            hit == self.covers(*point),
    {
        match self.orientation {
            Orientation::Horiz => {
                point.y == self.y && point.x >= self.x && point.x - self.x < self.length
            },
            Orientation::Vert => {
                point.x == self.x && point.y >= self.y && point.y - self.y < self.length
            },
        }
    }

    /// Whether two perpendicular segments cross or touch, that is, share a
    /// cell. Parallel segments never do.
    pub fn line_intersects(&self, other_line: Line) -> (hit: bool)
        ensures
            hit == self.crosses(other_line),
    {
        let hit = match (self.orientation, other_line.orientation) {
            (Orientation::Horiz, Orientation::Vert) => {
                self.y >= other_line.y && self.y - other_line.y < other_line.length
                    && other_line.x >= self.x && other_line.x - self.x < self.length
            },
            (Orientation::Vert, Orientation::Horiz) => {
                self.x >= other_line.x && self.x - other_line.x < other_line.length
                    && other_line.y >= self.y && other_line.y - self.y < self.length
            },
            _ => false,
        };
        proof {
            if hit {
                let p = match self.orientation {
                    Orientation::Horiz => Point { x: other_line.x, y: self.y },
                    Orientation::Vert => Point { x: self.x, y: other_line.y },
                };
                assert(self.covers(p) && other_line.covers(p));
            }
        }
        hit
    }

    /// The cell at which this line meets the row or column of `other_line`.
    /// Where the two lines cross, it is the cell they share.
    pub fn intersection_point_with(&self, other_line: Line) -> (point: (u32, u32))
        ensures
            (point.0 as int, point.1 as int) == self.meeting_point(other_line),
            self.crosses(other_line) ==> {
                let p = Point { x: point.0, y: point.1 };
                self.covers(p) && other_line.covers(p)
            },
    {
        let mut point = (self.x, self.y);
        match self.orientation {
            Orientation::Horiz => {
                point.0 = other_line.x;
            },
            Orientation::Vert => {
                point.1 = other_line.y;
            },
        }
        point
    }
}

} // verus!
