use battlemapper::composer::{mark_roads, park_vehicles, place_building, scatter_outdoors};
use battlemapper::{on_grid_line, BattleMap, LayoutError, Line, MapLayout, Obstructions, Orientation};
use battlemapper::{Point, Rectangle, Tile, Vehicle, TILE_SIZE};

fn horiz(x: u32, y: u32, length: u32) -> Line {
    Line { x, y, orientation: Orientation::Horiz, length }
}

fn vert(x: u32, y: u32, length: u32) -> Line {
    Line { x, y, orientation: Orientation::Vert, length }
}

fn rect(x1: u32, y1: u32, x2: u32, y2: u32) -> Rectangle {
    Rectangle { x1, y1, x2, y2 }
}

fn near(road: &Line, margin: u32, x: u32, y: u32) -> bool {
    let (along, across) = match road.orientation {
        Orientation::Horiz => (x, y),
        Orientation::Vert => (y, x),
    };
    let start = road.start_coord();
    let fixed = road.fixed_coord() as i64;
    along >= start && along - start < road.length
        && (across as i64 == fixed
            || (across as i64 > fixed - margin as i64 && (across as i64) < fixed + margin as i64))
}

fn check_layout(map: &BattleMap, layout: &MapLayout) {
    let margin = map.road_margin();
    let lot = rect(0, 0, map.w - 1, map.h - 1);
    assert_eq!(layout.roads.len() as u32, map.road_count);
    assert_eq!(layout.vehicles.len(), layout.roads.len());
    for (road, vehicle) in layout.roads.iter().zip(layout.vehicles.iter()) {
        assert!(road.x <= lot.x2 && road.y <= lot.y2);
        match vehicle {
            Some(v) => {
                assert!(road.length > 4);
                assert!(road.point_intersects(&v.position));
                let along = v.position.coord_along(road.orientation);
                assert!(along >= road.start_coord() + 2);
                assert!(along < road.start_coord() + road.length - 2);
            },
            None => assert!(road.length <= 4),
        }
    }
    assert_eq!(layout.buildings.len() as u32, map.building_count);
    let mut taken = vec![false; (map.w * map.h) as usize];
    for x in 0..map.w {
        for y in 0..map.h {
            for road in &layout.roads {
                if near(road, margin, x, y) {
                    taken[(y * map.w + x) as usize] = true;
                }
            }
        }
    }
    for b in &layout.buildings {
        let f = b.footprint;
        assert!(f.x1 >= 1 && f.y1 >= 1 && f.x2 + 1 < map.w && f.y2 + 1 < map.h);
        assert!(f.width() >= 5 && f.height() >= 5);
        assert_eq!(f.width() % 2, 1);
        assert_eq!(f.height() % 2, 1);
        assert!((f.width() + 1) / 2 <= map.building_size / 2 || f.width() == 5);
        assert_eq!(b.doors.len() as u32, f.perimeter() / 20 + 1);
        assert_eq!(b.walls.len() as u32, f.area() / 30);
        assert_eq!(b.obstacles.len() as u32, f.area() / 50);
        for x in f.x1 - 1..=f.x2 + 1 {
            for y in f.y1 - 1..=f.y2 + 1 {
                assert!(!taken[(y * map.w + x) as usize]);
            }
        }
        for x in f.x1..=f.x2 {
            for y in f.y1..=f.y2 {
                taken[(y * map.w + x) as usize] = true;
            }
        }
        for w in &b.walls {
            assert!(w.line.x >= f.x1 && w.line.x <= f.x2 && w.line.y >= f.y1 && w.line.y <= f.y2);
        }
    }
    let free = taken.iter().filter(|t| !**t).count();
    assert_eq!(layout.obstacles.len(), free / 50);
    for (i, o) in layout.obstacles.iter().enumerate() {
        assert!(o.x < map.w && o.y < map.h);
        assert!(!taken[(o.y * map.w + o.x) as usize]);
        for other in &layout.obstacles[..i] {
            assert!(other != o);
        }
    }
}

#[test]
fn map_description_keeps_its_fields() {
    let map = BattleMap::new(48, 40, 6, 2, 5, 16);
    assert_eq!(
        map,
        BattleMap { w: 48, h: 40, road_count: 6, road_width: 2, building_count: 5, building_size: 16 }
    );
    assert_eq!(map.pixel_dimensions(), (1536, 1280));
    assert_eq!(TILE_SIZE, 32);
}

#[test]
fn road_margin_is_half_the_width_and_one() {
    assert_eq!(BattleMap::new(48, 48, 6, 2, 6, 16).road_margin(), 2);
    assert_eq!(BattleMap::new(48, 48, 6, 3, 6, 16).road_margin(), 2);
    assert_eq!(BattleMap::new(48, 48, 6, 0, 6, 16).road_margin(), 1);
    assert_eq!(BattleMap::new(48, 48, 6, 7, 6, 16).road_margin(), 4);
    assert_eq!(BattleMap::new(48, 48, 6, u32::MAX, 6, 16).road_margin(), 0x8000_0000);
}

#[test]
fn feasibility_follows_the_sizes() {
    assert!(BattleMap::new(48, 48, 6, 2, 6, 16).is_feasible());
    assert!(!BattleMap::new(0, 48, 0, 2, 0, 16).is_feasible());
    assert!(!BattleMap::new(48, 0, 0, 2, 0, 16).is_feasible());
    assert!(BattleMap::new(1, 1, 0, 2, 0, 16).is_feasible());
    assert!(!BattleMap::new(4, 4, 1, 2, 0, 16).is_feasible());
    assert!(BattleMap::new(5, 4, 1, 2, 0, 16).is_feasible());
    assert!(BattleMap::new(4, 5, 1, 2, 0, 16).is_feasible());
    assert!(!BattleMap::new(8, 48, 0, 2, 1, 16).is_feasible());
    assert!(!BattleMap::new(48, 8, 0, 2, 1, 16).is_feasible());
    assert!(BattleMap::new(9, 9, 0, 2, 1, 16).is_feasible());
    assert!(!BattleMap::new(65536, 65536, 0, 2, 0, 16).is_feasible());
    assert!(BattleMap::new(65535, 65537, 0, 2, 0, 16).is_feasible());
}

#[test]
fn an_infeasible_map_is_refused() {
    let mut rng = rand::thread_rng();
    for map in [
        BattleMap::new(0, 48, 6, 2, 6, 16),
        BattleMap::new(4, 4, 1, 2, 0, 16),
        BattleMap::new(8, 48, 0, 2, 1, 16),
    ] {
        assert!(matches!(map.generate(&mut rng), Err(LayoutError::Infeasible)));
    }
}

#[test]
fn an_empty_map_has_only_obstacles() {
    let mut rng = rand::thread_rng();
    let map = BattleMap::new(20, 10, 0, 2, 0, 16);
    let layout = map.generate(&mut rng).unwrap();
    assert!(layout.roads.is_empty());
    assert!(layout.vehicles.is_empty());
    assert!(layout.buildings.is_empty());
    assert_eq!(layout.obstacles.len(), 4);
    check_layout(&map, &layout);
}

#[test]
fn a_generated_map_meets_its_description() {
    let mut rng = rand::thread_rng();
    let map = BattleMap::new(48, 48, 6, 2, 6, 16);
    let mut made = 0;
    for _ in 0..40 {
        match map.generate(&mut rng) {
            Ok(layout) => {
                made += 1;
                check_layout(&map, &layout);
            },
            Err(e) => assert_eq!(e, LayoutError::PlacementFailed),
        }
    }
    assert!(made > 0);
}

#[test]
fn a_map_of_one_building_is_always_made() {
    let mut rng = rand::thread_rng();
    let map = BattleMap::new(9, 9, 0, 2, 1, 16);
    for _ in 0..20 {
        let layout = map.generate(&mut rng).unwrap();
        assert_eq!(layout.buildings.len(), 1);
        assert_eq!(layout.buildings[0].footprint, rect(2, 2, 6, 6));
        assert!(layout.buildings[0].walls.is_empty());
        assert_eq!(layout.obstacles.len(), 1);
        check_layout(&map, &layout);
    }
}

#[test]
fn roads_are_marked_with_their_margin() {
    let mut grid = Obstructions::new(12, 10);
    let roads = vec![horiz(0, 4, 12), vert(6, 4, 6)];
    mark_roads(&mut grid, &roads, 2);
    for x in 0..12 {
        for y in 0..10 {
            let expected = (y >= 3 && y <= 5) || (x >= 5 && x <= 7 && y >= 4);
            assert_eq!(grid.is_obstructed(x, y), expected);
            assert_eq!(expected, near(&roads[0], 2, x, y) || near(&roads[1], 2, x, y));
        }
    }
}

#[test]
fn vehicles_go_on_the_long_roads() {
    let mut rng = rand::thread_rng();
    let roads = vec![horiz(0, 4, 12), vert(6, 4, 4), vert(3, 0, 5), horiz(2, 2, 0)];
    let mut seen_vertical = false;
    let mut seen_horizontal = false;
    for _ in 0..100 {
        let vehicles = park_vehicles(&roads, &mut rng);
        assert_eq!(vehicles.len(), 4);
        let first = vehicles[0].unwrap();
        assert_eq!(first.position.y, 4);
        assert!(first.position.x >= 2 && first.position.x < 10);
        assert!(vehicles[1].is_none());
        let third = vehicles[2].unwrap();
        assert_eq!(third.position, Point::new(3, 2));
        assert!(vehicles[3].is_none());
        seen_vertical = seen_vertical || first.vertical;
        seen_horizontal = seen_horizontal || !first.vertical;
    }
    assert!(seen_vertical && seen_horizontal);
}

#[test]
fn a_building_takes_its_footprint() {
    let mut rng = rand::thread_rng();
    let mut grid = Obstructions::new(9, 9);
    let building = place_building(&mut grid, 16, &mut rng).unwrap();
    assert_eq!(building.footprint, rect(2, 2, 6, 6));
    assert_eq!(grid.get_unobstructed_count(), 81 - 25);
    for x in 0..9 {
        for y in 0..9 {
            assert_eq!(grid.is_obstructed(x, y), x >= 2 && x <= 6 && y >= 2 && y <= 6);
        }
    }
    assert!(matches!(place_building(&mut grid, 16, &mut rng), Err(LayoutError::PlacementFailed)));
    assert_eq!(grid.get_unobstructed_count(), 81 - 25);
}

#[test]
fn a_building_on_a_small_grid_is_infeasible() {
    let mut rng = rand::thread_rng();
    let mut grid = Obstructions::new(8, 9);
    assert!(matches!(place_building(&mut grid, 16, &mut rng), Err(LayoutError::Infeasible)));
    assert_eq!(grid.get_unobstructed_count(), 72);
}

#[test]
fn outdoor_obstacles_take_a_free_cell_each() {
    let mut rng = rand::thread_rng();
    let mut grid = Obstructions::new(20, 10);
    grid.obstruct_rectangle(&rect(0, 0, 19, 4));
    let points = scatter_outdoors(&mut grid, &mut rng).unwrap();
    assert_eq!(points.len(), 2);
    assert!(points[0] != points[1]);
    for p in &points {
        assert!(p.x < 20 && p.y >= 5 && p.y < 10);
        assert!(grid.is_obstructed(p.x, p.y));
    }
    assert_eq!(grid.get_unobstructed_count(), 98);
    let mut few = Obstructions::new(7, 7);
    assert!(scatter_outdoors(&mut few, &mut rng).unwrap().is_empty());
    let mut none = Obstructions::new(0, 7);
    assert!(scatter_outdoors(&mut none, &mut rng).unwrap().is_empty());
}

#[test]
fn road_surface_is_the_width_of_the_road() {
    let map = BattleMap::new(12, 10, 1, 2, 0, 16);
    assert_eq!(map.road_surface(&horiz(0, 4, 12)), Some(rect(0, 3, 11, 4)));
    assert_eq!(map.road_surface(&vert(6, 4, 6)), Some(rect(5, 4, 6, 9)));
    assert_eq!(map.road_surface(&horiz(0, 0, 12)), Some(rect(0, 0, 11, 0)));
    let wide = BattleMap::new(12, 10, 1, 5, 0, 16);
    assert_eq!(wide.road_surface(&horiz(2, 4, 5)), Some(rect(2, 2, 6, 6)));
    let none = BattleMap::new(12, 10, 1, 0, 0, 16);
    assert_eq!(none.road_surface(&horiz(0, 4, 12)), None);
    assert_eq!(map.road_surface(&horiz(3, 4, 0)), None);
}

#[test]
fn tiles_lie_where_the_sheet_has_them() {
    assert_eq!(Tile::Ground.sheet_area(), (0, 0, 32, 32));
    assert_eq!(Tile::Road.sheet_area(), (32, 0, 32, 32));
    assert_eq!(Tile::CarHorizontal.sheet_area(), (64, 32, 64, 32));
    assert_eq!(Tile::CarVertical.sheet_area(), (128, 0, 32, 64));
    assert_eq!(Tile::Floor.sheet_area(), (96, 0, 32, 32));
    assert_eq!(Tile::WallNW.sheet_area(), (0, 96, 32, 32));
    assert_eq!(Tile::WallNE.sheet_area(), (32, 96, 32, 32));
    assert_eq!(Tile::WallSW.sheet_area(), (64, 96, 32, 32));
    assert_eq!(Tile::WallSE.sheet_area(), (96, 96, 32, 32));
    assert_eq!(Tile::WallN.sheet_area(), (128, 96, 32, 32));
    assert_eq!(Tile::WallS.sheet_area(), (160, 96, 32, 32));
    assert_eq!(Tile::WallW.sheet_area(), (192, 96, 32, 32));
    assert_eq!(Tile::WallE.sheet_area(), (224, 96, 32, 32));
    assert_eq!(Tile::DoorW.sheet_area(), (0, 64, 32, 32));
    assert_eq!(Tile::DoorN.sheet_area(), (32, 64, 32, 32));
    assert_eq!(Tile::DoorE.sheet_area(), (64, 64, 32, 32));
    assert_eq!(Tile::DoorS.sheet_area(), (96, 64, 32, 32));
    assert_eq!(Tile::Crate.sheet_area(), (0, 32, 32, 32));
    assert_eq!(Tile::Bush.sheet_area(), (32, 32, 32, 32));
}

#[test]
fn vehicles_show_as_they_lie() {
    let v = Vehicle { position: Point::new(3, 4), vertical: true };
    assert_eq!(v.tile(), Tile::CarVertical);
    let h = Vehicle { position: Point::new(3, 4), vertical: false };
    assert_eq!(h.tile(), Tile::CarHorizontal);
}

#[test]
fn grid_lines_run_along_the_cells() {
    assert!(on_grid_line(0, 5));
    assert!(on_grid_line(5, 0));
    assert!(on_grid_line(64, 17));
    assert!(on_grid_line(17, 96));
    assert!(!on_grid_line(1, 31));
    assert!(!on_grid_line(33, 63));
}
