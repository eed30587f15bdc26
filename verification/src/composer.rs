//! The map composer: roads over the lot, then buildings on free ground,
//! then obstacles on what is left.

use crate::building::{on_points, Building};
use crate::error::{fails_as, LayoutError};
use crate::geometry::{Line, Point};
use crate::grid::{lemma_slot_cell, GridView, Obstructions};
use crate::random::coin_flip;
use crate::rectangle::Rectangle;
use rand::rngs::ThreadRng;
use vstd::prelude::*;

verus! {

/// The side of a cell, in pixels.
pub const TILE_SIZE: u32 = 32;

/// How far a building's ground reaches from its centre, at the least.
pub const BUILDING_REACH: u32 = 3;

/// The length up to which a road is too short to carry a vehicle.
pub const SHORT_ROAD: u32 = 4;

/// The cells that a vehicle keeps from both ends of its road.
pub const VEHICLE_MARGIN: u32 = 2;

/// The number of free cells for which one outdoor obstacle is placed.
pub const CELLS_PER_OBSTACLE: u32 = 50;

/// What a map is made to: the size of the lot in cells, the number and
/// width of its roads, the number of its buildings and the bound on their
/// size.
#[derive(Copy, Clone, PartialEq, Eq, Structural, Debug)]
pub struct BattleMap {
    pub w: u32,
    pub h: u32,
    pub road_count: u32,
    pub road_width: u32,
    pub building_count: u32,
    pub building_size: u32,
}

/// A vehicle on a road.
#[derive(Copy, Clone, PartialEq, Eq, Structural, Debug)]
pub struct Vehicle {
    pub position: Point,
    pub vertical: bool,
}

/// A generated map. `vehicles` goes with `roads`, entry by entry.
#[derive(Debug)]
pub struct MapLayout {
    pub roads: Vec<Line>,
    pub vehicles: Vec<Option<Vehicle>>,
    pub buildings: Vec<Building>,
    pub obstacles: Vec<Point>,
}

/// The cell `(x, y)` is near one of `roads`: on it, or beside it less than
/// `margin` cells away.
pub open spec fn on_roads(roads: Seq<Line>, margin: int, x: int, y: int) -> bool {
    exists|i: int| 0 <= i < roads.len() && (#[trigger] roads[i]).near(margin, x, y)
}

/// The cell `(x, y)` lies in the footprint of one of `buildings`.
pub open spec fn in_buildings(buildings: Seq<Building>, x: int, y: int) -> bool {
    exists|i: int| 0 <= i < buildings.len() && (#[trigger] buildings[i]).footprint.has_cell(x, y)
}

/// The cell `(x, y)` is taken by a road or by a building.
pub open spec fn built_up(
    roads: Seq<Line>,
    margin: int,
    buildings: Seq<Building>,
    x: int,
    y: int,
) -> bool {
    on_roads(roads, margin, x, y) || in_buildings(buildings, x, y)
}

/// The grid of a lot on which the cells near `roads` and those of the
/// footprints of `buildings` are occupied.
pub open spec fn lot_grid(
    width: nat,
    height: nat,
    roads: Seq<Line>,
    margin: int,
    buildings: Seq<Building>,
) -> GridView {
    GridView {
        width,
        height,
        cells: Seq::new(
            width * height,
            |i: int| built_up(roads, margin, buildings, i % (width as int), i / (width as int)),
        ),
    }
}

/// A grid on which exactly the built-up cells are occupied is the grid of
/// the lot.
pub proof fn lemma_lot_grid(g: GridView, roads: Seq<Line>, margin: int, buildings: Seq<Building>)
    requires
        g.wf(),
        forall|x: int, y: int|
            g.in_bounds(x, y) ==> #[trigger] g.occupied(x, y) == built_up(
                roads,
                margin,
                buildings,
                x,
                y,
            ),
    ensures
        g == lot_grid(g.width, g.height, roads, margin, buildings),
{
    let lot = lot_grid(g.width, g.height, roads, margin, buildings);
    assert forall|i: int| 0 <= i < g.cells.len() implies g.cells[i] == lot.cells[i] by {
        lemma_slot_cell(g.width, g.height, i);
        let x = i % (g.width as int);
        let y = i / (g.width as int);
        assert(g.in_bounds(x, y));
        assert(g.occupied(x, y) == built_up(roads, margin, buildings, x, y));
    }
    assert(g.cells =~= lot.cells);
}

/// The vehicle, or its absence, suits the road: a road of more than four
/// cells carries one, at least two cells from both of its ends.
pub open spec fn rides(vehicle: Option<Vehicle>, road: Line) -> bool {
    match vehicle {
        Some(v) => road.length > SHORT_ROAD && road.covers_inside(
            v.position,
            VEHICLE_MARGIN as int,
        ),
        None => road.length <= SHORT_ROAD,
    }
}

/// The footprint with the ring of cells around it.
pub open spec fn grounds(footprint: Rectangle) -> Rectangle {
    Rectangle {
        x1: (footprint.x1 - 1) as u32,
        y1: (footprint.y1 - 1) as u32,
        x2: (footprint.x2 + 1) as u32,
        y2: (footprint.y2 + 1) as u32,
    }
}

/// `footprint` is where a building may stand on `grid`: its grounds, the
/// footprint with the ring of cells around it, are a free rectangle grown
/// around a centre on the grid.
pub open spec fn placed_on(grid: GridView, footprint: Rectangle, building_size: int) -> bool {
    &&& 1 <= footprint.x1
    &&& 1 <= footprint.y1
    &&& footprint.x2 + 1 < grid.width
    &&& footprint.y2 + 1 < grid.height
    &&& !grid.blocked(grounds(footprint))
    &&& exists|c: Point|
        grid.valid_center(c, BUILDING_REACH as int) && #[trigger] grid.clear_rectangle_at(
            c,
            BUILDING_REACH as int,
            building_size,
            grounds(footprint),
        )
}

/// The roads up to and including the one at `k` take the cells that the
/// roads before it take, and those near it.
pub proof fn lemma_on_roads_next(roads: Seq<Line>, margin: int, k: int, x: int, y: int)
    requires
        0 <= k < roads.len(),
    ensures
        on_roads(roads.take(k + 1), margin, x, y) == (on_roads(roads.take(k), margin, x, y)
            || roads[k].near(margin, x, y)),
{
    let shorter = roads.take(k);
    let longer = roads.take(k + 1);
    if on_roads(shorter, margin, x, y) {
        let i = choose|i: int| 0 <= i < shorter.len() && (#[trigger] shorter[i]).near(margin, x, y);
        assert(longer[i].near(margin, x, y));
    }
    if roads[k].near(margin, x, y) {
        assert(longer[k].near(margin, x, y));
    }
    if on_roads(longer, margin, x, y) {
        let i = choose|i: int| 0 <= i < longer.len() && (#[trigger] longer[i]).near(margin, x, y);
        if i < k {
            assert(shorter[i].near(margin, x, y));
        }
    }
}

/// One more building takes the cells of its footprint.
pub proof fn lemma_in_buildings_push(buildings: Seq<Building>, b: Building, x: int, y: int)
    ensures
        in_buildings(buildings.push(b), x, y) == (in_buildings(buildings, x, y)
            || b.footprint.has_cell(x, y)),
{
    let longer = buildings.push(b);
    if in_buildings(buildings, x, y) {
        let i = choose|i: int|
            0 <= i < buildings.len() && (#[trigger] buildings[i]).footprint.has_cell(x, y);
        assert(longer[i].footprint.has_cell(x, y));
    }
    if b.footprint.has_cell(x, y) {
        assert(longer[buildings.len() as int].footprint.has_cell(x, y));
    }
    if in_buildings(longer, x, y) {
        let i = choose|i: int|
            0 <= i < longer.len() && (#[trigger] longer[i]).footprint.has_cell(x, y);
        if i < buildings.len() {
            assert(buildings[i].footprint.has_cell(x, y));
        }
    }
}

/// One more point takes its cell.
pub proof fn lemma_on_points_push(points: Seq<Point>, p: Point, x: int, y: int)
    ensures
        on_points(points.push(p), x, y) == (on_points(points, x, y) || (p.x == x && p.y == y)),
{
    let longer = points.push(p);
    if on_points(points, x, y) {
        let i = choose|i: int| 0 <= i < points.len() && (#[trigger] points[i]).x == x && points[i].y == y;
        assert(longer[i].x == x && longer[i].y == y);
    }
    if p.x == x && p.y == y {
        assert(longer[points.len() as int].x == x);
    }
    if on_points(longer, x, y) {
        let i = choose|i: int| 0 <= i < longer.len() && (#[trigger] longer[i]).x == x && longer[i].y == y;
        if i < points.len() {
            assert(points[i].x == x && points[i].y == y);
        }
    }
}

/// A vehicle on every road of more than four cells, at a point drawn at
/// least two cells from both ends of the road, lying along or across it
/// as a coin falls.
pub fn park_vehicles(roads: &Vec<Line>, rng: &mut ThreadRng) -> (vehicles: Vec<Option<Vehicle>>)
    requires
        forall|i: int| 0 <= i < roads@.len() ==> (#[trigger] roads@[i]).fits(),
    ensures
        vehicles@.len() == roads@.len(),
        forall|i: int| 0 <= i < vehicles@.len() ==> rides(#[trigger] vehicles@[i], roads@[i]),
{
    let mut vehicles: Vec<Option<Vehicle>> = Vec::new();
    let mut k: usize = 0;
    while k < roads.len()
        invariant
            k <= roads@.len(),
            vehicles@.len() == k,
            forall|i: int| 0 <= i < roads@.len() ==> (#[trigger] roads@[i]).fits(),
            forall|i: int| 0 <= i < vehicles@.len() ==> rides(#[trigger] vehicles@[i], roads@[i]),
        decreases roads@.len() - k,
    {
        let road = roads[k];
        if road.length > SHORT_ROAD {
            let position = road.find_point_within(VEHICLE_MARGIN, rng);
            let vertical = coin_flip(rng);
            vehicles.push(Some(Vehicle { position, vertical }));
        } else {
            vehicles.push(None);
        }
        k += 1;
    }
    vehicles
}

/// Marks occupied the cells near each of `roads`.
pub fn mark_roads(grid: &mut Obstructions, roads: &Vec<Line>, margin: u32)
    requires
        old(grid).wf(),
    ensures
        final(grid).wf(),
        final(grid)@.width == old(grid)@.width,
        final(grid)@.height == old(grid)@.height,
        forall|x: int, y: int|
            old(grid)@.in_bounds(x, y) ==> #[trigger] final(grid)@.occupied(x, y) == (old(
                grid,
            )@.occupied(x, y) || on_roads(roads@, margin as int, x, y)),
{
    let ghost before = grid@;
    let mut k: usize = 0;
    while k < roads.len()
        invariant
            k <= roads@.len(),
            grid.wf(),
            grid@.width == before.width,
            grid@.height == before.height,
            forall|x: int, y: int|
                before.in_bounds(x, y) ==> #[trigger] grid@.occupied(x, y) == (before.occupied(x, y)
                    || on_roads(roads@.take(k as int), margin as int, x, y)),
        decreases roads@.len() - k,
    {
        let ghost marked = grid@;
        grid.obstruct_band(&roads[k], margin);
        proof {
            assert forall|x: int, y: int| before.in_bounds(x, y) implies #[trigger] grid@.occupied(
                x,
                y,
            ) == (before.occupied(x, y) || on_roads(
                roads@.take(k as int + 1),
                margin as int,
                x,
                y,
            )) by {
                lemma_on_roads_next(roads@, margin as int, k as int, x, y);
                assert(grid@.occupied(x, y) == (marked.occupied(x, y) || roads@[k as int].near(
                    margin as int,
                    x,
                    y,
                )));
            }
        }
        k += 1;
    }
    assert(roads@.take(k as int) =~= roads@);
}

/// A building on free ground. Its grounds are a free rectangle grown
/// around a centre drawn on the grid, reaching at least three cells from
/// the centre and at most half of `building_size`; the building stands on
/// the grounds less the ring of cells on their rim, and these cells of its
/// footprint are marked occupied. Where there is no building, the grid is
/// as it was.
pub fn place_building(grid: &mut Obstructions, building_size: u32, rng: &mut ThreadRng) -> (placed:
    Result<Building, LayoutError>)
    requires
        old(grid).wf(),
    ensures
        final(grid).wf(),
        final(grid)@.width == old(grid)@.width,
        final(grid)@.height == old(grid)@.height,
        fails_as(placed, LayoutError::Infeasible) <==> !old(grid)@.admits(BUILDING_REACH as int),
        placed is Ok || fails_as(placed, LayoutError::Infeasible) || fails_as(
            placed,
            LayoutError::PlacementFailed,
        ),
        placed is Err ==> final(grid)@ == old(grid)@,
        old(grid)@.admits(BUILDING_REACH as int) && old(grid)@.all_free() && building_size / 2
            <= BUILDING_REACH ==> placed is Ok,
        placed matches Ok(b) ==> {
            &&& b.laid_out()
            &&& placed_on(old(grid)@, b.footprint, building_size as int)
            &&& forall|x: int, y: int|
                old(grid)@.in_bounds(x, y) ==> #[trigger] final(grid)@.occupied(x, y) == (old(
                    grid,
                )@.occupied(x, y) || b.footprint.has_cell(x, y))
        },
{
    let found = match grid.find_clear_rectangle(BUILDING_REACH, building_size, rng) {
        Ok(found) => found,
        Err(e) => {
            return Err(e);
        },
    };
    let ghost c = choose|c: Point|
        grid@.valid_center(c, BUILDING_REACH as int) && #[trigger] grid@.clear_rectangle_at(
            c,
            BUILDING_REACH as int,
            building_size as int,
            found,
        );
    let mut footprint = found;
    footprint.shrink(1);
    proof {
        assert(grounds(footprint) == found);
        let fw = footprint.spec_width();
        let fh = footprint.spec_height();
        let gw = grid@.width as int;
        let gh = grid@.height as int;
        assert(fw * fh <= gw * gh) by (nonlinear_arith)
            requires
                0 < fw <= gw,
                0 < fh <= gh,
        ;
        if (fw <= 6 && fh <= 6) || building_size / 2 <= BUILDING_REACH {
            assert(fw == 5 && fh == 5);
            assert(fw * fh == 25) by (nonlinear_arith)
                requires
                    fw == 5,
                    fh == 5,
            ;
        }
    }
    match Building::raise(footprint, rng) {
        Err(e) => Err(e),
        Ok(building) => {
            grid.obstruct_rectangle(&footprint);
            Ok(building)
        },
    }
}

/// An obstacle for every fifty free cells of the grid, each on a free
/// cell, which it then occupies.
pub fn scatter_outdoors(grid: &mut Obstructions, rng: &mut ThreadRng) -> (scattered: Result<
    Vec<Point>,
    LayoutError,
>)
    requires
        old(grid).wf(),
    ensures
        final(grid).wf(),
        final(grid)@.width == old(grid)@.width,
        final(grid)@.height == old(grid)@.height,
        scattered is Ok || fails_as(scattered, LayoutError::PlacementFailed),
        old(grid)@.free_cells() < CELLS_PER_OBSTACLE ==> scattered is Ok,
        old(grid)@.all_free() && old(grid)@.free_cells() < 2 * CELLS_PER_OBSTACLE
            ==> scattered is Ok,
        scattered matches Ok(points) ==> {
            &&& points@.len() == old(grid)@.free_cells() / (CELLS_PER_OBSTACLE as nat)
            &&& forall|i: int|
                0 <= i < points@.len() ==> {
                    &&& old(grid)@.in_bounds((#[trigger] points@[i]).x as int, points@[i].y as int)
                    &&& !old(grid)@.occupied(points@[i].x as int, points@[i].y as int)
                }
            &&& forall|i: int, j: int|
                0 <= i < j < points@.len() ==> #[trigger] points@[i] != #[trigger] points@[j]
            &&& forall|x: int, y: int|
                old(grid)@.in_bounds(x, y) ==> #[trigger] final(grid)@.occupied(x, y) == (old(
                    grid,
                )@.occupied(x, y) || on_points(points@, x, y))
        },
{
    let ghost before = grid@;
    let count: u32 = grid.get_unobstructed_count() / CELLS_PER_OBSTACLE;
    let mut points: Vec<Point> = Vec::new();
    let mut placed: u32 = 0;
    proof {
        crate::grid::lemma_count_free_bound(grid@.cells);
        if count > 0 {
            let gw = grid@.width as int;
            let gh = grid@.height as int;
            assert(gw > 0 && gh > 0) by (nonlinear_arith)
                requires
                    gw * gh > 0,
                    gw >= 0,
                    gh >= 0,
            ;
        }
    }
    while placed < count
        invariant
            grid.wf(),
            grid@.width == before.width,
            grid@.height == before.height,
            before == old(grid)@,
            placed == 0 ==> grid@ == before,
            count == before.free_cells() / (CELLS_PER_OBSTACLE as nat),
            count > 0 ==> before.width > 0 && before.height > 0,
            placed <= count,
            points@.len() == placed,
            forall|i: int|
                0 <= i < points@.len() ==> {
                    &&& before.in_bounds((#[trigger] points@[i]).x as int, points@[i].y as int)
                    &&& !before.occupied(points@[i].x as int, points@[i].y as int)
                },
            forall|i: int, j: int|
                0 <= i < j < points@.len() ==> #[trigger] points@[i] != #[trigger] points@[j],
            forall|x: int, y: int|
                before.in_bounds(x, y) ==> #[trigger] grid@.occupied(x, y) == (before.occupied(x, y)
                    || on_points(points@, x, y)),
        decreases count - placed,
    {
        match grid.find_clear_tile(rng) {
            Err(e) => {
                return Err(e);
            },
            Ok((x, y)) => {
                let ghost marked = grid@;
                let ghost earlier = points@;
                let p = Point::new(x, y);
                proof {
                    assert(!on_points(earlier, x as int, y as int));
                }
                grid.obstruct(x, y, true);
                points.push(p);
                placed += 1;
                proof {
                    assert forall|cx: int, cy: int| before.in_bounds(cx, cy) implies #[trigger] grid@.occupied(
                        cx,
                        cy,
                    ) == (before.occupied(cx, cy) || on_points(points@, cx, cy)) by {
                        lemma_on_points_push(earlier, p, cx, cy);
                    }
                    assert forall|i: int, j: int| 0 <= i < j < points@.len() implies #[trigger] points@[i]
                        != #[trigger] points@[j] by {
                        if j == earlier.len() {
                            assert(points@[i] == earlier[i]);
                            if earlier[i] == p {
                                assert(earlier[i].x == x && earlier[i].y == y);
                            }
                        } else {
                            assert(points@[i] == earlier[i] && points@[j] == earlier[j]);
                        }
                    }
                }
            },
        }
    }
    Ok(points)
}

impl BattleMap {
    pub open spec fn spec_road_margin(self) -> int {
        self.road_width / 2 + 1
    }

    /// The whole lot.
    pub open spec fn lot(self) -> Rectangle {
        Rectangle { x1: 0, y1: 0, x2: (self.w - 1) as u32, y2: (self.h - 1) as u32 }
    }

    /// A map can be made: the lot has a cell and no more cells than the
    /// machine integer counts; if a road is asked for, the lot is more
    /// than twice the road margin wide or high; if a building is, the lot
    /// has room for the grounds of the smallest one.
    pub open spec fn feasible(self) -> bool {
        &&& self.w >= 1
        &&& self.h >= 1
        &&& self.w * self.h <= u32::MAX
        &&& self.road_count > 0 ==> self.w > 2 * self.spec_road_margin() || self.h > 2
            * self.spec_road_margin()
        &&& self.building_count > 0 ==> self.w >= 2 * BUILDING_REACH + 3 && self.h >= 2
            * BUILDING_REACH + 3
    }

    /// The building at `i` was placed on the lot as the roads and the
    /// buildings before it left it: it is complete, and its grounds were
    /// free, so they touch neither a road nor a building placed before.
    pub open spec fn building_placed(
        self,
        roads: Seq<Line>,
        buildings: Seq<Building>,
        i: int,
    ) -> bool {
        let b = buildings[i];
        let margin = self.spec_road_margin();
        &&& b.laid_out()
        &&& placed_on(
            lot_grid(self.w as nat, self.h as nat, roads, margin, buildings.take(i)),
            b.footprint,
            self.building_size as int,
        )
        &&& forall|x: int, y: int| #[trigger]
            grounds(b.footprint).has_cell(x, y) ==> !built_up(
                roads,
                margin,
                buildings.take(i),
                x,
                y,
            )
    }

    /// `layout` is a map made to this description: the roads are a network
    /// over the lot; each road that is long enough carries a vehicle; each
    /// building was placed on ground that roads and earlier buildings had
    /// left free; and for every fifty cells then still free there is an
    /// obstacle, each on a free cell of its own.
    pub open spec fn lays_out(self, layout: MapLayout) -> bool {
        let margin = self.spec_road_margin();
        let roads = layout.roads@;
        let buildings = layout.buildings@;
        let obstacles = layout.obstacles@;
        &&& roads.len() == self.road_count
        &&& self.lot().is_network(margin, roads)
        &&& layout.vehicles@.len() == roads.len()
        &&& forall|i: int|
            0 <= i < roads.len() ==> rides(#[trigger] layout.vehicles@[i], roads[i])
        &&& buildings.len() == self.building_count
        &&& forall|i: int|
            0 <= i < buildings.len() ==> #[trigger] self.building_placed(roads, buildings, i)
        &&& obstacles.len() == lot_grid(
            self.w as nat,
            self.h as nat,
            roads,
            margin,
            buildings,
        ).free_cells() / (CELLS_PER_OBSTACLE as nat)
        &&& forall|i: int|
            0 <= i < obstacles.len() ==> {
                &&& (#[trigger] obstacles[i]).x < self.w
                &&& obstacles[i].y < self.h
                &&& !built_up(roads, margin, buildings, obstacles[i].x as int, obstacles[i].y as int)
            }
        &&& forall|i: int, j: int|
            0 <= i < j < obstacles.len() ==> #[trigger] obstacles[i] != #[trigger] obstacles[j]
    }

    pub fn new(
        w: u32,
        h: u32,
        road_count: u32,
        road_width: u32,
        building_count: u32,
        building_size: u32,
    ) -> (map: BattleMap)
        ensures
            map == (BattleMap { w, h, road_count, road_width, building_count, building_size }),
    {
        BattleMap { w, h, road_count, road_width, building_count, building_size }
    }

    /// The size of the picture of the map, in pixels.
    pub fn pixel_dimensions(&self) -> (size: (u32, u32))
        requires
            self.w * TILE_SIZE <= u32::MAX,
            self.h * TILE_SIZE <= u32::MAX,
        ensures
            size.0 == self.w * TILE_SIZE,
            size.1 == self.h * TILE_SIZE,
    {
        (self.w * TILE_SIZE, self.h * TILE_SIZE)
    }

    /// The margin that roads keep: half their width, and one.
    pub fn road_margin(&self) -> (margin: u32)
        ensures
            margin == self.spec_road_margin(),
    {
        self.road_width / 2 + 1
    }

    pub fn is_feasible(&self) -> (yes: bool)
        ensures
            yes == self.feasible(),
    {
        if self.w == 0 || self.h == 0 {
            return false;
        }
        assert(self.w * self.h <= 0xffff_ffff * 0xffff_ffff) by (nonlinear_arith)
            requires
                0 <= self.w <= 0xffff_ffff,
                0 <= self.h <= 0xffff_ffff,
        ;
        let cells: u64 = self.w as u64 * self.h as u64;
        let twice: u64 = 2 * (self.road_margin() as u64);
        let ground: u32 = 2 * BUILDING_REACH + 3;
        cells <= 0xffff_ffff && (self.road_count == 0 || self.w as u64 > twice || self.h as u64
            > twice) && (self.building_count == 0 || (self.w >= ground && self.h >= ground))
    }

    /// Makes a map: the road network over the lot, a vehicle on each road
    /// that is long enough, the buildings one after the other on ground
    /// still free, and the outdoor obstacles on free cells. Fails as
    /// infeasible, before anything is drawn, exactly when the description
    /// is not feasible; otherwise it fails only where a placement found no
    /// room within the attempts allowed. A map of at most two roads, no
    /// building and no obstacle is always made, and so is one of no road,
    /// no building and one obstacle.
    pub fn generate(&self, rng: &mut ThreadRng) -> (made: Result<MapLayout, LayoutError>)
        ensures
            fails_as(made, LayoutError::Infeasible) <==> !self.feasible(),
            made is Ok || fails_as(made, LayoutError::Infeasible) || fails_as(
                made,
                LayoutError::PlacementFailed,
            ),
            made matches Ok(layout) ==> self.lays_out(layout),
            self.feasible() && self.road_count <= 2 && self.building_count == 0 && self.w * self.h
                < CELLS_PER_OBSTACLE ==> made is Ok,
            self.feasible() && self.road_count == 0 && self.building_count == 0 && self.w * self.h
                < 2 * CELLS_PER_OBSTACLE ==> made is Ok,
    {
        if !self.is_feasible() {
            return Err(LayoutError::Infeasible);
        }
        let lot = Rectangle { x1: 0, y1: 0, x2: self.w - 1, y2: self.h - 1 };
        let margin: u32 = self.road_margin();
        let roads = match lot.divide_with_lines(self.road_count, margin, rng) {
            Ok(roads) => roads,
            Err(e) => {
                return Err(e);
            },
        };
        let mut grid = Obstructions::new(self.w, self.h);
        mark_roads(&mut grid, &roads, margin);
        let vehicles = park_vehicles(&roads, rng);
        let mut buildings: Vec<Building> = Vec::new();
        proof {
            assert forall|x: int, y: int| grid@.in_bounds(x, y) implies #[trigger] grid@.occupied(
                x,
                y,
            ) == built_up(roads@, margin as int, buildings@, x, y) by {}
        }
        while buildings.len() < self.building_count as usize
            invariant
                self.feasible(),
                margin == self.spec_road_margin(),
                grid.wf(),
                grid@.width == self.w,
                grid@.height == self.h,
                buildings@.len() <= self.building_count,
                forall|x: int, y: int|
                    grid@.in_bounds(x, y) ==> #[trigger] grid@.occupied(x, y) == built_up(
                        roads@,
                        margin as int,
                        buildings@,
                        x,
                        y,
                    ),
                forall|i: int|
                    0 <= i < buildings@.len() ==> #[trigger] self.building_placed(
                        roads@,
                        buildings@,
                        i,
                    ),
            decreases self.building_count - buildings@.len(),
        {
            let ghost earlier = buildings@;
            let ghost ground = grid@;
            match place_building(&mut grid, self.building_size, rng) {
                Err(e) => {
                    return Err(e);
                },
                Ok(building) => {
                    let ghost b = building;
                    buildings.push(building);
                    proof {
                        let n = earlier.len() as int;
                        lemma_lot_grid(ground, roads@, margin as int, earlier);
                        assert(buildings@.take(n) =~= earlier);
                        assert forall|x: int, y: int| #[trigger]
                            grounds(b.footprint).has_cell(x, y) implies !built_up(
                            roads@,
                            margin as int,
                            earlier,
                            x,
                            y,
                        ) by {
                            assert(ground.in_bounds(x, y));
                            if built_up(roads@, margin as int, earlier, x, y) {
                                assert(ground.occupied(x, y));
                            }
                        }
                        assert(self.building_placed(roads@, buildings@, n));
                        assert forall|i: int| 0 <= i < buildings@.len() implies #[trigger] self.building_placed(
                            roads@,
                            buildings@,
                            i,
                        ) by {
                            if i < n {
                                assert(buildings@.take(i) =~= earlier.take(i));
                                assert(buildings@[i] == earlier[i]);
                                assert(self.building_placed(roads@, earlier, i));
                            }
                        }
                        assert forall|x: int, y: int| grid@.in_bounds(x, y) implies #[trigger] grid@.occupied(
                            x,
                            y,
                        ) == built_up(roads@, margin as int, buildings@, x, y) by {
                            lemma_in_buildings_push(earlier, b, x, y);
                        }
                    }
                },
            }
        }
        let ghost ground = grid@;
        proof {
            lemma_lot_grid(ground, roads@, margin as int, buildings@);
            crate::grid::lemma_count_free_bound(ground.cells);
        }
        let obstacles = match scatter_outdoors(&mut grid, rng) {
            Ok(obstacles) => obstacles,
            Err(e) => {
                return Err(e);
            },
        };
        let layout = MapLayout { roads, vehicles, buildings, obstacles };
        Ok(layout)
    }
}

} // verus!
