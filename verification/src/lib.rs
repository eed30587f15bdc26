//! Procedural layout of tile-grid battle maps: a road network over a
//! rectangular lot, building footprints with doors, interior walls and
//! obstacles, all placed on an occupancy grid.
//!
//! Every function is verified against its contract. The only trusted code
//! is in `random`: the handle to the random generator and the two draws
//! from it.

pub mod building;
pub mod composer;
pub mod error;
pub mod geometry;
pub mod grid;
pub mod network;
pub mod random;
pub mod rectangle;
pub mod tiles;

pub use building::{Building, Wall, WALL_MARGIN};
pub use composer::{BattleMap, MapLayout, Vehicle, TILE_SIZE};
pub use error::{fails_as, LayoutError, MAX_ATTEMPTS};
pub use grid::{GridView, Obstructions};
pub use geometry::{opposite_orientation, Line, Orientation, Point};
pub use rectangle::Rectangle;
pub use tiles::{on_grid_line, Tile};
