//! A building on its footprint: doors on the perimeter, interior walls with
//! a door each, and obstacles clear of the walls.

use crate::error::{fails_as, LayoutError, MAX_ATTEMPTS};
use crate::geometry::{Line, Point};
use crate::random::uniform_in;
use crate::rectangle::Rectangle;
use rand::rngs::ThreadRng;
use vstd::prelude::*;

verus! {

/// The margin that interior walls keep.
pub const WALL_MARGIN: u32 = 3;

/// Some line of `lines` passes through `p`.
pub open spec fn on_lines(lines: Seq<Line>, p: Point) -> bool {
    exists|i: int| 0 <= i < lines.len() && (#[trigger] lines[i]).covers(p)
}

/// One of `points` is the cell `(x, y)`.
pub open spec fn on_points(points: Seq<Point>, x: int, y: int) -> bool {
    exists|i: int| 0 <= i < points.len() && (#[trigger] points[i]).x == x && points[i].y == y
}

/// An interior wall: its line, the number of its cells that are drawn,
/// counted from the origin, and which of them is a door.
#[derive(Copy, Clone, PartialEq, Eq, Structural, Debug)]
pub struct Wall {
    pub line: Line,
    pub draw_length: u32,
    pub door: u32,
}

impl Wall {
    /// The number of cells of `line` that are drawn: all of them, but for
    /// the last one where the line starts off the low edge of the
    /// footprint and ends short of the high edge.
    pub open spec fn spec_draw_length(line: Line, footprint: Rectangle) -> int {
        if line.length > 0 && line.start() > footprint.low(line.orientation) && line.end()
            <= footprint.high(line.orientation) {
            line.length - 1
        } else {
            line.length as int
        }
    }

    /// The door of a wall with more than three drawn cells is one of them,
    /// neither the first nor one of the last two; in a shorter wall it is
    /// the second cell.
    pub open spec fn door_allowed(draw_length: int, door: int) -> bool {
        if draw_length > 3 {
            1 <= door < draw_length - 2
        } else {
            door == 1
        }
    }

    pub open spec fn fitted(self, footprint: Rectangle) -> bool {
        &&& self.draw_length == Self::spec_draw_length(self.line, footprint)
        &&& Self::door_allowed(self.draw_length as int, self.door as int)
    }

    pub fn draw_length_of(line: &Line, footprint: &Rectangle) -> (n: u32)
        ensures
            n == Self::spec_draw_length(*line, *footprint),
    {
        let start: u32 = line.start_coord();
        let end: u64 = start as u64 + line.length as u64;
        if line.length > 0 && start > footprint.low_edge(line.orientation) && end
            <= footprint.high_edge(line.orientation) as u64 {
            line.length - 1
        } else {
            line.length
        }
    }

    /// The wall on `line`, with its door drawn among the cells allowed.
    pub fn fit(line: Line, footprint: &Rectangle, rng: &mut ThreadRng) -> (wall: Wall)
        ensures
            wall.line == line,
            wall.fitted(*footprint),
    {
        let draw_length: u32 = Self::draw_length_of(&line, footprint);
        let door: u32 = if draw_length > 3 {
            uniform_in(rng, 1, draw_length - 2)
        } else {
            1
        };
        Wall { line, draw_length, door }
    }
}

/// A building.
#[derive(Debug)]
pub struct Building {
    pub footprint: Rectangle,
    pub doors: Vec<Point>,
    pub walls: Vec<Wall>,
    pub obstacles: Vec<Point>,
}

impl Building {
    pub open spec fn spec_door_count(footprint: Rectangle) -> int {
        footprint.spec_perimeter() / 20 + 1
    }

    pub open spec fn spec_wall_count(footprint: Rectangle) -> int {
        footprint.spec_area() / 30
    }

    pub open spec fn spec_obstacle_count(footprint: Rectangle) -> int {
        footprint.spec_area() / 50
    }

    /// A footprint that a building can stand on: at least three cells wide
    /// and high, with an area that fits the machine integer.
    pub open spec fn stands_on(footprint: Rectangle) -> bool {
        &&& footprint.x1 + 1 < footprint.x2
        &&& footprint.y1 + 1 < footprint.y2
        &&& footprint.spec_area() <= u32::MAX
    }

    /// The lines of the walls, in order.
    pub open spec fn wall_lines(self) -> Seq<Line> {
        Seq::new(self.walls@.len(), |i: int| self.walls@[i].line)
    }

    /// The building is complete: it has a door for every twenty cells of
    /// perimeter and one more, each on an edge of the footprint; a wall
    /// for every thirty cells of area, the walls being a network over the
    /// footprint, each with its door; and an obstacle for every fifty
    /// cells of area, each off the edges and off the walls.
    pub open spec fn laid_out(self) -> bool {
        &&& Self::stands_on(self.footprint)
        &&& self.doors@.len() == Self::spec_door_count(self.footprint)
        &&& forall|i: int|
            0 <= i < self.doors@.len() ==> self.footprint.on_edge(#[trigger] self.doors@[i])
        &&& self.walls@.len() == Self::spec_wall_count(self.footprint)
        &&& self.footprint.is_network(WALL_MARGIN as int, self.wall_lines())
        &&& forall|i: int|
            0 <= i < self.walls@.len() ==> (#[trigger] self.walls@[i]).fitted(self.footprint)
        &&& self.obstacles@.len() == Self::spec_obstacle_count(self.footprint)
        &&& forall|i: int|
            0 <= i < self.obstacles@.len() ==> {
                &&& self.footprint.contains_inside(#[trigger] self.obstacles@[i], 1)
                &&& !on_lines(self.wall_lines(), self.obstacles@[i])
            }
    }

    /// A footprint at least three cells wide and high has no more cells
    /// on its perimeter than in all.
    pub proof fn lemma_perimeter_within_area(footprint: Rectangle)
        requires
            footprint.x1 + 1 < footprint.x2,
            footprint.y1 + 1 < footprint.y2,
        ensures
            0 <= footprint.spec_perimeter() <= footprint.spec_area(),
            footprint.spec_width() <= footprint.spec_area(),
            footprint.spec_height() <= footprint.spec_area(),
    {
        let w = footprint.spec_width();
        let h = footprint.spec_height();
        assert((w - 2) * (h - 2) >= 0 && (w - 2) * (h - 2) == w * h - 2 * w - 2 * h + 4 && w * h
            >= w && w * h >= h) by (nonlinear_arith)
            requires
                w >= 3,
                h >= 3,
        ;
    }

    /// The doors of a building on `footprint`, each drawn on its edges.
    pub fn choose_doors(footprint: &Rectangle, rng: &mut ThreadRng) -> (doors: Vec<Point>)
        requires
            Self::stands_on(*footprint),
        ensures
            doors@.len() == Self::spec_door_count(*footprint),
            forall|i: int| 0 <= i < doors@.len() ==> footprint.on_edge(#[trigger] doors@[i]),
    {
        proof {
            Self::lemma_perimeter_within_area(*footprint);
        }
        let door_count: u32 = footprint.perimeter() / 20 + 1;
        let mut doors: Vec<Point> = Vec::new();
        let mut placed: u32 = 0;
        while placed < door_count
            invariant
                Self::stands_on(*footprint),
                placed <= door_count,
                doors@.len() == placed,
                forall|i: int| 0 <= i < doors@.len() ==> footprint.on_edge(#[trigger] doors@[i]),
            decreases door_count - placed,
        {
            let door = footprint.find_exterior_point(rng);
            doors.push(door);
            placed += 1;
        }
        doors
    }

    /// A wall on each of `lines`, each with its door.
    pub fn fit_walls(footprint: &Rectangle, lines: &Vec<Line>, rng: &mut ThreadRng) -> (walls: Vec<
        Wall,
    >)
        ensures
            walls@.len() == lines@.len(),
            forall|i: int|
                0 <= i < walls@.len() ==> (#[trigger] walls@[i]).line == lines@[i] && walls@[i].fitted(
                    *footprint,
                ),
    {
        let mut walls: Vec<Wall> = Vec::new();
        let mut k: usize = 0;
        while k < lines.len()
            invariant
                k <= lines@.len(),
                walls@.len() == k,
                forall|i: int|
                    0 <= i < walls@.len() ==> (#[trigger] walls@[i]).line == lines@[i]
                        && walls@[i].fitted(*footprint),
            decreases lines@.len() - k,
        {
            let wall = Wall::fit(lines[k], footprint, rng);
            walls.push(wall);
            k += 1;
        }
        walls
    }

    /// Whether one of `lines` passes through `p`.
    pub fn on_any_line(lines: &Vec<Line>, p: &Point) -> (hit: bool)
        ensures
            hit == on_lines(lines@, *p),
    {
        let mut k: usize = 0;
        while k < lines.len()
            invariant
                k <= lines@.len(),
                forall|i: int| 0 <= i < k ==> !(#[trigger] lines@[i]).covers(*p),
            decreases lines@.len() - k,
        {
            if lines[k].point_intersects(p) {
                return true;
            }
            k += 1;
        }
        false
    }

    /// `count` obstacles within the footprint, each drawn among the cells
    /// off its edges, and drawn again, until the attempts run out, while
    /// it falls on one of `lines`.
    pub fn scatter_inside(
        footprint: &Rectangle,
        lines: &Vec<Line>,
        count: u32,
        rng: &mut ThreadRng,
    ) -> (scattered: Result<Vec<Point>, LayoutError>)
        requires
            footprint.x1 + 1 < footprint.x2,
            footprint.y1 + 1 < footprint.y2,
        ensures
            scattered is Ok || fails_as(scattered, LayoutError::PlacementFailed),
            count == 0 ==> scattered is Ok,
            lines@.len() == 0 ==> scattered is Ok,
            scattered matches Ok(points) ==> {
                &&& points@.len() == count
                &&& forall|i: int|
                    0 <= i < points@.len() ==> {
                        &&& footprint.contains_inside(#[trigger] points@[i], 1)
                        &&& !on_lines(lines@, points@[i])
                    }
            },
    {
        let mut points: Vec<Point> = Vec::new();
        let mut placed: u32 = 0;
        while placed < count
            invariant
                footprint.x1 + 1 < footprint.x2,
                footprint.y1 + 1 < footprint.y2,
                placed <= count,
                points@.len() == placed,
                forall|i: int|
                    0 <= i < points@.len() ==> {
                        &&& footprint.contains_inside(#[trigger] points@[i], 1)
                        &&& !on_lines(lines@, points@[i])
                    },
            decreases count - placed,
        {
            let mut attempts: u32 = 0;
            let mut found: Option<Point> = None;
            while found.is_none() && attempts < MAX_ATTEMPTS
                invariant
                    footprint.x1 + 1 < footprint.x2,
                    footprint.y1 + 1 < footprint.y2,
                    lines@.len() == 0 ==> attempts == 0 || found is Some,
                    found matches Some(p) ==> footprint.contains_inside(p, 1) && !on_lines(
                        lines@,
                        p,
                    ),
                decreases MAX_ATTEMPTS - attempts,
            {
                attempts += 1;
                let thing = footprint.find_point_within(1, rng);
                if !Self::on_any_line(lines, &thing) {
                    found = Some(thing);
                }
            }
            match found {
                None => {
                    return Err(LayoutError::PlacementFailed);
                },
                Some(thing) => {
                    points.push(thing);
                    placed += 1;
                },
            }
        }
        Ok(points)
    }

    /// The building on `footprint`: its doors, then its walls, then its
    /// obstacles. Fails as infeasible exactly when a wall is due and the
    /// footprint admits none; a footprint due no obstacle, and no wall or
    /// one that it admits, always gets its building.
    pub fn raise(footprint: Rectangle, rng: &mut ThreadRng) -> (raised: Result<
        Building,
        LayoutError,
    >)
        requires
            Self::stands_on(footprint),
        ensures
            fails_as(raised, LayoutError::Infeasible) <==> Self::spec_wall_count(footprint) > 0
                && !footprint.admits_lines(WALL_MARGIN as int),
            raised is Ok || fails_as(raised, LayoutError::Infeasible) || fails_as(
                raised,
                LayoutError::PlacementFailed,
            ),
            footprint.spec_area() < 50 && (footprint.spec_area() < 30 || footprint.admits_lines(
                WALL_MARGIN as int,
            )) ==> raised is Ok,
            raised matches Ok(building) ==> building.footprint == footprint && building.laid_out(),
    {
        proof {
            Self::lemma_perimeter_within_area(footprint);
        }
        let doors = Self::choose_doors(&footprint, rng);
        let wall_count: u32 = footprint.area() / 30;
        let lines = match footprint.divide_with_lines(wall_count, WALL_MARGIN, rng) {
            Ok(lines) => lines,
            Err(e) => {
                return Err(e);
            },
        };
        let walls = Self::fit_walls(&footprint, &lines, rng);
        let obstacle_count: u32 = footprint.area() / 50;
        let obstacles = match Self::scatter_inside(&footprint, &lines, obstacle_count, rng) {
            Ok(points) => points,
            Err(e) => {
                return Err(e);
            },
        };
        let building = Building { footprint, doors, walls, obstacles };
        assert(building.wall_lines() =~= lines@);
        Ok(building)
    }
}

} // verus!
