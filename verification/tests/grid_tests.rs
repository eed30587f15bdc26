use battlemapper::{LayoutError, Line, Obstructions, Orientation, Point, Rectangle};

fn rect(x1: u32, y1: u32, x2: u32, y2: u32) -> Rectangle {
    Rectangle { x1, y1, x2, y2 }
}

#[test]
fn empty_grid_counts_every_cell() {
    let grid = Obstructions::new(5, 5);
    assert_eq!(grid.get_unobstructed_count(), 25);
    assert_eq!(grid.width(), 5);
    assert_eq!(grid.height(), 5);
    for x in 0..5 {
        for y in 0..5 {
            assert!(!grid.is_obstructed(x, y));
        }
    }
}

#[test]
fn obstructing_two_rows_drops_the_count() {
    let mut grid = Obstructions::new(5, 5);
    for y in 0..2 {
        for x in 0..5 {
            grid.obstruct(x, y, true);
        }
    }
    assert_eq!(grid.get_unobstructed_count(), 15);
    assert!(grid.obstructed_rectangle(&rect(0, 0, 4, 4)));
    assert!(!grid.obstructed_rectangle(&rect(0, 2, 4, 4)));
}

#[test]
fn count_follows_every_write() {
    let mut grid = Obstructions::new(4, 3);
    grid.obstruct(1, 2, true);
    assert_eq!(grid.get_unobstructed_count(), 11);
    grid.obstruct(1, 2, true);
    assert_eq!(grid.get_unobstructed_count(), 11);
    grid.obstruct(3, 0, true);
    assert_eq!(grid.get_unobstructed_count(), 10);
    grid.obstruct(1, 2, false);
    assert_eq!(grid.get_unobstructed_count(), 11);
    grid.obstruct(1, 2, false);
    assert_eq!(grid.get_unobstructed_count(), 11);
    grid.obstruct(3, 0, false);
    assert_eq!(grid.get_unobstructed_count(), 12);
    let mut free = 0;
    for x in 0..4 {
        for y in 0..3 {
            if !grid.is_obstructed(x, y) {
                free += 1;
            }
        }
    }
    assert_eq!(free, grid.get_unobstructed_count());
}

#[test]
fn a_write_changes_one_cell() {
    let mut grid = Obstructions::new(4, 3);
    grid.obstruct(3, 1, true);
    for x in 0..4 {
        for y in 0..3 {
            assert_eq!(grid.is_obstructed(x, y), x == 3 && y == 1);
        }
    }
}

#[test]
fn asking_twice_gives_the_same_answer() {
    let mut grid = Obstructions::new(6, 6);
    grid.obstruct(2, 4, true);
    assert_eq!(grid.is_obstructed(2, 4), grid.is_obstructed(2, 4));
    assert_eq!(grid.is_obstructed(4, 2), grid.is_obstructed(4, 2));
    assert!(grid.is_obstructed(2, 4));
    assert!(!grid.is_obstructed(4, 2));
}

#[test]
fn obstructed_rectangle_sees_a_single_cell() {
    let mut grid = Obstructions::new(8, 8);
    grid.obstruct(5, 6, true);
    assert!(grid.obstructed_rectangle(&rect(5, 6, 5, 6)));
    assert!(grid.obstructed_rectangle(&rect(0, 0, 7, 7)));
    assert!(grid.obstructed_rectangle(&rect(5, 0, 5, 7)));
    assert!(!grid.obstructed_rectangle(&rect(0, 0, 4, 7)));
    assert!(!grid.obstructed_rectangle(&rect(0, 0, 7, 5)));
    assert!(!grid.obstructed_rectangle(&rect(6, 6, 7, 7)));
}

#[test]
fn obstruct_rectangle_marks_its_cells() {
    let mut grid = Obstructions::new(8, 6);
    grid.obstruct(0, 0, true);
    grid.obstruct_rectangle(&rect(2, 1, 4, 3));
    assert_eq!(grid.get_unobstructed_count(), 48 - 1 - 9);
    for x in 0..8 {
        for y in 0..6 {
            let inside = x >= 2 && x <= 4 && y >= 1 && y <= 3;
            assert_eq!(grid.is_obstructed(x, y), inside || (x == 0 && y == 0));
        }
    }
}

#[test]
fn obstruct_band_marks_the_cells_near_a_line() {
    let mut grid = Obstructions::new(10, 10);
    let road = Line { x: 0, y: 0, orientation: Orientation::Horiz, length: 10 };
    grid.obstruct_band(&road, 2);
    for x in 0..10 {
        for y in 0..10 {
            assert_eq!(grid.is_obstructed(x, y), y <= 1);
        }
    }
    let lane = Line { x: 5, y: 4, orientation: Orientation::Vert, length: 3 };
    grid.obstruct_band(&lane, 3);
    for x in 0..10 {
        for y in 0..10 {
            let near = x >= 3 && x <= 7 && y >= 4 && y <= 6;
            assert_eq!(grid.is_obstructed(x, y), y <= 1 || near);
        }
    }
}

#[test]
fn clear_tile_on_a_free_grid_is_found() {
    let mut rng = rand::thread_rng();
    let grid = Obstructions::new(7, 3);
    for _ in 0..100 {
        let (x, y) = grid.find_clear_tile(&mut rng).unwrap();
        assert!(x < 7 && y < 3);
    }
}

#[test]
fn clear_tile_is_the_only_free_cell() {
    let mut rng = rand::thread_rng();
    let mut grid = Obstructions::new(3, 3);
    grid.obstruct_rectangle(&rect(0, 0, 2, 2));
    grid.obstruct(1, 2, false);
    assert_eq!(grid.find_clear_tile(&mut rng), Ok((1, 2)));
}

#[test]
fn clear_tile_on_a_full_grid_is_not_placed() {
    let mut rng = rand::thread_rng();
    let mut grid = Obstructions::new(3, 3);
    grid.obstruct_rectangle(&rect(0, 0, 2, 2));
    assert_eq!(grid.get_unobstructed_count(), 0);
    assert_eq!(grid.find_clear_tile(&mut rng), Err(LayoutError::PlacementFailed));
}

#[test]
fn clear_tile_on_a_grid_without_cells_is_infeasible() {
    let mut rng = rand::thread_rng();
    assert_eq!(Obstructions::new(0, 5).find_clear_tile(&mut rng), Err(LayoutError::Infeasible));
    assert_eq!(Obstructions::new(5, 0).find_clear_tile(&mut rng), Err(LayoutError::Infeasible));
}

#[test]
fn rectangle_grows_to_half_the_largest_size() {
    let grid = Obstructions::new(20, 20);
    let found = grid.grow_rectangle_at(&Point::new(10, 10), 3, 8);
    assert_eq!(found, Some(rect(6, 6, 14, 14)));
}

#[test]
fn rectangle_does_not_grow_past_a_small_largest_size() {
    let grid = Obstructions::new(20, 20);
    assert_eq!(grid.grow_rectangle_at(&Point::new(10, 10), 3, 0), Some(rect(7, 7, 13, 13)));
    assert_eq!(grid.grow_rectangle_at(&Point::new(10, 10), 3, 7), Some(rect(7, 7, 13, 13)));
}

#[test]
fn rectangle_stays_two_cells_from_the_rim() {
    let grid = Obstructions::new(20, 14);
    let found = grid.grow_rectangle_at(&Point::new(10, 7), 3, 100);
    assert_eq!(found, Some(rect(3, 3, 17, 11)));
    let found = grid.grow_rectangle_at(&Point::new(8, 6), 3, 100);
    assert_eq!(found, Some(rect(2, 2, 14, 10)));
}

#[test]
fn rectangle_stops_one_cell_short_of_an_occupied_cell() {
    let mut grid = Obstructions::new(30, 30);
    grid.obstruct(21, 15, true);
    let found = grid.grow_rectangle_at(&Point::new(15, 15), 3, 100).unwrap();
    assert_eq!(found.x1, 15 - 4);
    assert_eq!(found.x2, 15 + 4);
    assert_eq!(found.y1, 3);
    assert_eq!(found.y2, 27);
    assert!(!grid.obstructed_rectangle(&rect(found.x1 - 1, found.y1 - 1, found.x2 + 1, found.y2 + 1)));
}

#[test]
fn rectangle_is_refused_where_the_smallest_one_is_not_free() {
    let mut grid = Obstructions::new(20, 20);
    grid.obstruct(14, 14, true);
    assert_eq!(grid.grow_rectangle_at(&Point::new(10, 10), 3, 8), None);
    assert!(grid.grow_rectangle_at(&Point::new(9, 9), 3, 8).is_some());
}

#[test]
fn clear_rectangle_is_inside_and_free() {
    let mut rng = rand::thread_rng();
    let mut grid = Obstructions::new(48, 48);
    grid.obstruct_rectangle(&rect(0, 20, 47, 22));
    grid.obstruct_rectangle(&rect(30, 0, 32, 47));
    for _ in 0..100 {
        match grid.find_clear_rectangle(3, 16, &mut rng) {
            Ok(r) => {
                assert!(r.x1 <= r.x2 && r.y1 <= r.y2);
                assert!(r.x2 < 48 && r.y2 < 48);
                assert!(r.x2 - r.x1 >= 6 && r.y2 - r.y1 >= 6);
                assert!(r.x2 - r.x1 <= 16 && r.y2 - r.y1 <= 16);
                assert!(!grid.obstructed_rectangle(&r));
                assert!(!grid.obstructed_rectangle(&rect(r.x1 - 1, r.y1 - 1, r.x2 + 1, r.y2 + 1)));
            },
            Err(e) => assert_eq!(e, LayoutError::PlacementFailed),
        }
    }
}

#[test]
fn clear_rectangle_on_a_free_grid_is_found() {
    let mut rng = rand::thread_rng();
    let grid = Obstructions::new(9, 9);
    assert_eq!(grid.find_clear_rectangle(3, 16, &mut rng), Ok(rect(1, 1, 7, 7)));
}

#[test]
fn clear_rectangle_on_a_small_grid_is_infeasible() {
    let mut rng = rand::thread_rng();
    let grid = Obstructions::new(8, 20);
    assert_eq!(grid.find_clear_rectangle(3, 16, &mut rng), Err(LayoutError::Infeasible));
    let grid = Obstructions::new(20, 8);
    assert_eq!(grid.find_clear_rectangle(3, 16, &mut rng), Err(LayoutError::Infeasible));
}

#[test]
fn clear_rectangle_on_a_full_grid_is_not_placed() {
    let mut rng = rand::thread_rng();
    let mut grid = Obstructions::new(12, 12);
    grid.obstruct_rectangle(&rect(0, 0, 11, 11));
    assert_eq!(grid.find_clear_rectangle(3, 16, &mut rng), Err(LayoutError::PlacementFailed));
}
