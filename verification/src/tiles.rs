//! Which tile shows on which cell of a generated map.

use crate::building::{on_points, Building, Wall};
use crate::composer::{BattleMap, Vehicle, TILE_SIZE};
use crate::geometry::{Line, Orientation};
use crate::rectangle::Rectangle;
use vstd::prelude::*;

verus! {

/// The tiles of the sheet.
#[derive(Copy, Clone, PartialEq, Eq, Structural, Debug)]
pub enum Tile {
    Ground,
    Road,
    CarHorizontal,
    CarVertical,
    Floor,
    WallNW,
    WallNE,
    WallSW,
    WallSE,
    WallN,
    WallS,
    WallW,
    WallE,
    DoorW,
    DoorN,
    DoorE,
    DoorS,
    Crate,
    Bush,
}

impl Tile {
    /// Where the tile lies on the sheet: left, top, width and height, in
    /// pixels. A car takes two cells, every other tile one.
    pub open spec fn spec_sheet_area(self) -> (u32, u32, u32, u32) {
        match self {
            Tile::Ground => (0, 0, 32, 32),
            Tile::Road => (32, 0, 32, 32),
            Tile::CarHorizontal => (64, 32, 64, 32),
            Tile::CarVertical => (128, 0, 32, 64),
            Tile::Floor => (96, 0, 32, 32),
            Tile::WallNW => (0, 96, 32, 32),
            Tile::WallNE => (32, 96, 32, 32),
            Tile::WallSW => (64, 96, 32, 32),
            Tile::WallSE => (96, 96, 32, 32),
            Tile::WallN => (128, 96, 32, 32),
            Tile::WallS => (160, 96, 32, 32),
            Tile::WallW => (192, 96, 32, 32),
            Tile::WallE => (224, 96, 32, 32),
            Tile::DoorW => (0, 64, 32, 32),
            Tile::DoorN => (32, 64, 32, 32),
            Tile::DoorE => (64, 64, 32, 32),
            Tile::DoorS => (96, 64, 32, 32),
            Tile::Crate => (0, 32, 32, 32),
            Tile::Bush => (32, 32, 32, 32),
        }
    }

    pub fn sheet_area(&self) -> (area: (u32, u32, u32, u32))
        ensures
            area == self.spec_sheet_area(),
    {
        match self {
            Tile::Ground => (0, 0, TILE_SIZE, TILE_SIZE),
            Tile::Road => (32, 0, TILE_SIZE, TILE_SIZE),
            Tile::CarHorizontal => (64, 32, 64, 32),
            Tile::CarVertical => (128, 0, 32, 64),
            Tile::Floor => (96, 0, TILE_SIZE, TILE_SIZE),
            Tile::WallNW => (0, 96, TILE_SIZE, TILE_SIZE),
            Tile::WallNE => (32, 96, TILE_SIZE, TILE_SIZE),
            Tile::WallSW => (64, 96, TILE_SIZE, TILE_SIZE),
            Tile::WallSE => (96, 96, TILE_SIZE, TILE_SIZE),
            Tile::WallN => (128, 96, TILE_SIZE, TILE_SIZE),
            Tile::WallS => (160, 96, TILE_SIZE, TILE_SIZE),
            Tile::WallW => (192, 96, TILE_SIZE, TILE_SIZE),
            Tile::WallE => (224, 96, TILE_SIZE, TILE_SIZE),
            Tile::DoorW => (0, 64, TILE_SIZE, TILE_SIZE),
            Tile::DoorN => (32, 64, TILE_SIZE, TILE_SIZE),
            Tile::DoorE => (64, 64, TILE_SIZE, TILE_SIZE),
            Tile::DoorS => (96, 64, TILE_SIZE, TILE_SIZE),
            Tile::Crate => (0, 32, TILE_SIZE, TILE_SIZE),
            Tile::Bush => (32, 32, TILE_SIZE, TILE_SIZE),
        }
    }
}

/// The tile over the floor on the cell `(x, y)` of a footprint: a door
/// where there is one, facing out of the edge it is on; else the corner
/// or the wall of the edge; nothing off the edges.
pub open spec fn spec_perimeter_tile(footprint: Rectangle, door: bool, x: int, y: int) -> Option<
    Tile,
> {
    if door {
        Some(
            if x == footprint.x1 {
                Tile::DoorW
            } else if x == footprint.x2 {
                Tile::DoorE
            } else if y == footprint.y1 {
                Tile::DoorN
            } else {
                Tile::DoorS
            },
        )
    } else if x == footprint.x1 {
        Some(
            if y == footprint.y1 {
                Tile::WallNW
            } else if y == footprint.y2 {
                Tile::WallSW
            } else {
                Tile::WallW
            },
        )
    } else if x == footprint.x2 {
        Some(
            if y == footprint.y1 {
                Tile::WallNE
            } else if y == footprint.y2 {
                Tile::WallSE
            } else {
                Tile::WallE
            },
        )
    } else if y == footprint.y1 {
        Some(Tile::WallN)
    } else if y == footprint.y2 {
        Some(Tile::WallS)
    } else {
        None
    }
}

impl Building {
    /// Whether one of the doors is on the cell `(x, y)`.
    pub fn has_door_at(&self, x: u32, y: u32) -> (yes: bool)
        ensures
            yes == on_points(self.doors@, x as int, y as int),
    {
        let mut k: usize = 0;
        while k < self.doors.len()
            invariant
                k <= self.doors@.len(),
                forall|i: int| 0 <= i < k ==> !((#[trigger] self.doors@[i]).x == x && self.doors@[i].y == y),
            decreases self.doors@.len() - k,
        {
            if self.doors[k].x == x && self.doors[k].y == y {
                return true;
            }
            k += 1;
        }
        false
    }

    /// The tile that shows over the floor on the cell `(x, y)`.
    pub fn perimeter_tile(&self, x: u32, y: u32) -> (tile: Option<Tile>)
        ensures
            tile == spec_perimeter_tile(
                self.footprint,
                on_points(self.doors@, x as int, y as int),
                x as int,
                y as int,
            ),
    {
        let building = &self.footprint;
        if self.has_door_at(x, y) {
            if x == building.x1 {
                Some(Tile::DoorW)
            } else if x == building.x2 {
                Some(Tile::DoorE)
            } else if y == building.y1 {
                Some(Tile::DoorN)
            } else {
                Some(Tile::DoorS)
            }
        } else if x == building.x1 {
            if y == building.y1 {
                Some(Tile::WallNW)
            } else if y == building.y2 {
                Some(Tile::WallSW)
            } else {
                Some(Tile::WallW)
            }
        } else if x == building.x2 {
            if y == building.y1 {
                Some(Tile::WallNE)
            } else if y == building.y2 {
                Some(Tile::WallSE)
            } else {
                Some(Tile::WallE)
            }
        } else if y == building.y1 {
            Some(Tile::WallN)
        } else if y == building.y2 {
            Some(Tile::WallS)
        } else {
            None
        }
    }
}

impl Wall {
    /// The tile on the cell `l` cells from the origin of the wall: the
    /// door on the door cell, else the wall, each as the wall runs.
    pub open spec fn spec_tile_at(self, l: int) -> Tile {
        match self.line.orientation {
            Orientation::Horiz => if l == self.door {
                Tile::DoorN
            } else {
                Tile::WallN
            },
            Orientation::Vert => if l == self.door {
                Tile::DoorW
            } else {
                Tile::WallW
            },
        }
    }

    pub fn tile_at(&self, l: u32) -> (tile: Tile)
        ensures
            tile == self.spec_tile_at(l as int),
    {
        match self.line.orientation {
            Orientation::Horiz => if l == self.door {
                Tile::DoorN
            } else {
                Tile::WallN
            },
            Orientation::Vert => if l == self.door {
                Tile::DoorW
            } else {
                Tile::WallW
            },
        }
    }
}

impl Vehicle {
    pub fn tile(&self) -> (tile: Tile)
        ensures
            tile == if self.vertical {
                Tile::CarVertical
            } else {
                Tile::CarHorizontal
            },
    {
        if self.vertical {
            Tile::CarVertical
        } else {
            Tile::CarHorizontal
        }
    }
}

impl BattleMap {
    /// The cells of the lot that show the surface of `road`: `road_width`
    /// cells across it, the first one half of that before the line.
    /// `None` where there is no such cell.
    pub fn road_surface(&self, road: &Line) -> (surface: Option<Rectangle>)
        ensures
            match surface {
                Some(s) => s.wf() && forall|x: int, y: int| #[trigger]
                    s.has_cell(x, y) <==> 0 <= x < self.w && 0 <= y < self.h && road.beside(
                        self.road_width as int / 2,
                        self.road_width - 1 - self.road_width as int / 2,
                        x,
                        y,
                    ),
                None => forall|x: int, y: int|
                    0 <= x < self.w && 0 <= y < self.h ==> !#[trigger] road.beside(
                        self.road_width as int / 2,
                        self.road_width - 1 - self.road_width as int / 2,
                        x,
                        y,
                    ),
            },
    {
        if self.w == 0 || self.h == 0 || self.road_width == 0 {
            return None;
        }
        let lot = Rectangle { x1: 0, y1: 0, x2: self.w - 1, y2: self.h - 1 };
        let before: u32 = self.road_width / 2;
        let surface = lot.strip_around(road, before, self.road_width - 1 - before);
        proof {
            assert forall|x: int, y: int|
                lot.has_cell(x, y) == (0 <= x < self.w && 0 <= y < self.h) by {}
            if surface is None {
                assert forall|x: int, y: int| 0 <= x < self.w && 0 <= y < self.h implies !#[trigger] road.beside(
                    before as int,
                    self.road_width - 1 - before,
                    x,
                    y,
                ) by {
                    assert(lot.has_cell(x, y));
                }
            }
        }
        surface
    }
}

/// Whether the pixel `(x, y)` of the picture lies on a line of the grid
/// drawn over the map.
pub fn on_grid_line(x: u32, y: u32) -> (yes: bool)
    ensures
        yes == (x % TILE_SIZE == 0 || y % TILE_SIZE == 0),
{
    x % TILE_SIZE == 0 || y % TILE_SIZE == 0
}

} // verus!
