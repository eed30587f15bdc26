use battlemapper::network::{branch_line, forced_direction};
use battlemapper::{LayoutError, Line, Orientation, Point, Rectangle};

fn horiz(x: u32, y: u32, length: u32) -> Line {
    Line { x, y, orientation: Orientation::Horiz, length }
}

fn vert(x: u32, y: u32, length: u32) -> Line {
    Line { x, y, orientation: Orientation::Vert, length }
}

fn rect(x1: u32, y1: u32, x2: u32, y2: u32) -> Rectangle {
    Rectangle { x1, y1, x2, y2 }
}

fn inside(r: &Rectangle, l: &Line) -> bool {
    let (end_x, end_y) = match l.orientation {
        Orientation::Horiz => (l.x as u64 + l.length as u64, l.y as u64 + 1),
        Orientation::Vert => (l.x as u64 + 1, l.y as u64 + l.length as u64),
    };
    l.x >= r.x1 && l.y >= r.y1 && l.x <= r.x2 && l.y <= r.y2 && end_x <= r.x2 as u64 + 1
        && end_y <= r.y2 as u64 + 1
}

fn springs_from(b: &Line, a: &Line, margin: u32) -> bool {
    if b.orientation == a.orientation || a.length <= 2 * margin {
        return false;
    }
    for d in margin..a.length - margin {
        let p = a.point_at(d);
        let along = p.coord_along(b.orientation);
        if b.fixed_coord() == p.coord_across(b.orientation) && (b.start_coord() == along
            || b.start_coord() + b.length == along)
        {
            return true;
        }
    }
    false
}

#[test]
fn one_line_spans_the_rectangle() {
    let mut rng = rand::thread_rng();
    let lot = rect(0, 0, 9, 9);
    let mut seen_horiz = false;
    let mut seen_vert = false;
    for _ in 0..200 {
        let lines = lot.divide_with_lines(1, 1, &mut rng).unwrap();
        assert_eq!(lines.len(), 1);
        assert_eq!(lines[0].length, 10);
        assert!(lines[0].x <= 9 && lines[0].y <= 9);
        match lines[0].orientation {
            Orientation::Horiz => {
                seen_horiz = true;
                assert_eq!(lines[0].x, 0);
                assert!(lines[0].y >= 1 && lines[0].y < 8);
            },
            Orientation::Vert => {
                seen_vert = true;
                assert_eq!(lines[0].y, 0);
                assert!(lines[0].x >= 1 && lines[0].x < 8);
            },
        }
    }
    assert!(seen_horiz && seen_vert);
}

#[test]
fn one_line_has_the_length_of_its_axis() {
    let mut rng = rand::thread_rng();
    let lot = rect(3, 5, 22, 11);
    for _ in 0..100 {
        let lines = lot.divide_with_lines(1, 2, &mut rng).unwrap();
        assert_eq!(lines.len(), 1);
        match lines[0].orientation {
            Orientation::Horiz => assert_eq!(lines[0].length, lot.width()),
            Orientation::Vert => assert_eq!(lines[0].length, lot.height()),
        }
        assert!(inside(&lot, &lines[0]));
    }
}

#[test]
fn no_line_is_an_empty_network() {
    let mut rng = rand::thread_rng();
    let lines = rect(0, 0, 9, 9).divide_with_lines(0, 1, &mut rng).unwrap();
    assert!(lines.is_empty());
    let lines = rect(0, 0, 4, 4).divide_with_lines(0, 3, &mut rng).unwrap();
    assert!(lines.is_empty());
}

#[test]
fn a_rectangle_too_small_for_the_margin_is_infeasible() {
    let mut rng = rand::thread_rng();
    assert_eq!(rect(0, 0, 1, 1).divide_with_lines(1, 1, &mut rng), Err(LayoutError::Infeasible));
    assert_eq!(rect(0, 0, 5, 5).divide_with_lines(2, 3, &mut rng), Err(LayoutError::Infeasible));
    assert_eq!(rect(4, 0, 2, 9).divide_with_lines(1, 0, &mut rng), Err(LayoutError::Infeasible));
}

#[test]
fn a_flat_rectangle_gets_a_horizontal_first_line_on_its_low_edge() {
    let mut rng = rand::thread_rng();
    let lot = rect(2, 4, 21, 5);
    for _ in 0..50 {
        let lines = lot.divide_with_lines(1, 1, &mut rng).unwrap();
        assert_eq!(lines, vec![horiz(2, 4, 20)]);
    }
}

#[test]
fn a_narrow_rectangle_gets_a_vertical_first_line_on_its_low_edge() {
    let mut rng = rand::thread_rng();
    let lot = rect(2, 4, 5, 30);
    for _ in 0..50 {
        let lines = lot.divide_with_lines(1, 2, &mut rng).unwrap();
        assert_eq!(lines, vec![vert(2, 4, 27)]);
    }
}

#[test]
fn first_line_orientation_follows_the_sizes() {
    let square = rect(0, 0, 9, 9);
    assert_eq!(square.first_line_orientation(2, true), Orientation::Vert);
    assert_eq!(square.first_line_orientation(2, false), Orientation::Horiz);
    let flat = rect(0, 0, 9, 3);
    assert_eq!(flat.first_line_orientation(2, true), Orientation::Horiz);
    assert_eq!(flat.first_line_orientation(2, false), Orientation::Horiz);
    let narrow = rect(0, 0, 3, 9);
    assert_eq!(narrow.first_line_orientation(2, true), Orientation::Vert);
    assert_eq!(narrow.first_line_orientation(2, false), Orientation::Vert);
}

#[test]
fn first_line_range_keeps_the_margin() {
    let lot = rect(2, 10, 21, 30);
    assert_eq!(lot.first_line_range(3, Orientation::Horiz), Some((13, 27)));
    assert_eq!(lot.first_line_range(3, Orientation::Vert), Some((5, 18)));
    assert_eq!(lot.first_line_range(10, Orientation::Horiz), None);
    assert_eq!(lot.first_line_range(9, Orientation::Vert), Some((11, 12)));
    assert_eq!(lot.first_line_range(10, Orientation::Vert), None);
}

#[test]
fn spanning_line_runs_from_edge_to_edge() {
    let lot = rect(2, 10, 21, 30);
    assert_eq!(lot.spanning_line(Orientation::Horiz, 15), horiz(2, 15, 20));
    assert_eq!(lot.spanning_line(Orientation::Vert, 7), vert(7, 10, 21));
}

#[test]
fn can_hold_lines_needs_room_on_one_axis() {
    assert!(rect(0, 0, 9, 9).can_hold_lines(4));
    assert!(!rect(0, 0, 9, 9).can_hold_lines(5));
    assert!(rect(0, 0, 10, 3).can_hold_lines(5));
    assert!(!rect(3, 0, 2, 30).can_hold_lines(0));
    assert!(!rect(0, 0, u32::MAX, 5).can_hold_lines(1));
}

#[test]
fn growth_bounds_are_the_nearest_bars() {
    let lot = rect(0, 0, 29, 29);
    let lines = vec![
        horiz(0, 10, 30),
        vert(5, 0, 30),
        vert(20, 0, 10),
        vert(25, 5, 20),
        vert(8, 11, 10),
        horiz(0, 3, 5),
    ];
    let p = Point::new(12, 10);
    assert_eq!(lot.growth_bounds(&lines, 0, Orientation::Vert, &p), Some((0, 29)));
    let q = Point::new(5, 7);
    assert_eq!(lot.growth_bounds(&lines, 1, Orientation::Horiz, &q), Some((0, 20)));
    let r = Point::new(5, 3);
    assert_eq!(lot.growth_bounds(&lines, 1, Orientation::Horiz, &r), Some((0, 20)));
    let s = Point::new(5, 12);
    assert_eq!(lot.growth_bounds(&lines, 1, Orientation::Horiz, &s), Some((0, 8)));
    let t = Point::new(25, 7);
    assert_eq!(lot.growth_bounds(&lines, 3, Orientation::Horiz, &t), Some((20, 29)));
}

#[test]
fn growth_bounds_refuse_a_point_that_another_line_passes() {
    let lot = rect(0, 0, 29, 29);
    let lines = vec![horiz(0, 10, 30), vert(5, 0, 30)];
    let p = Point::new(5, 10);
    assert_eq!(lot.growth_bounds(&lines, 0, Orientation::Vert, &p), None);
    assert_eq!(lot.growth_bounds(&lines, 1, Orientation::Horiz, &p), None);
    let q = Point::new(6, 10);
    assert_eq!(lot.growth_bounds(&lines, 0, Orientation::Vert, &q), Some((0, 29)));
}

#[test]
fn direction_is_forced_by_the_nearer_bound() {
    assert_eq!(forced_direction(5, 4, 20, 2), Some(false));
    assert_eq!(forced_direction(5, 0, 6, 2), Some(true));
    assert_eq!(forced_direction(5, 4, 6, 2), Some(false));
    assert_eq!(forced_direction(5, 3, 7, 2), None);
    assert_eq!(forced_direction(5, 0, 20, 2), None);
    assert_eq!(forced_direction(5, 5, 5, 0), None);
}

#[test]
fn branch_runs_from_the_point_to_a_bound() {
    let p = Point::new(12, 10);
    assert_eq!(branch_line(Orientation::Vert, &p, 2, 29, true), vert(12, 2, 8));
    assert_eq!(branch_line(Orientation::Vert, &p, 2, 29, false), vert(12, 10, 20));
    assert_eq!(branch_line(Orientation::Horiz, &p, 5, 20, true), horiz(5, 10, 7));
    assert_eq!(branch_line(Orientation::Horiz, &p, 5, 20, false), horiz(12, 10, 9));
    assert_eq!(branch_line(Orientation::Horiz, &p, 12, 12, true), horiz(12, 10, 0));
    assert_eq!(branch_line(Orientation::Horiz, &p, 12, 12, false), horiz(12, 10, 1));
}

#[test]
fn every_line_of_a_network_lies_in_the_rectangle() {
    let mut rng = rand::thread_rng();
    let lot = rect(3, 2, 50, 40);
    let mut made = 0;
    for _ in 0..100 {
        match lot.divide_with_lines(8, 2, &mut rng) {
            Ok(lines) => {
                made += 1;
                assert_eq!(lines.len(), 8);
                for l in &lines {
                    assert!(inside(&lot, l));
                }
            },
            Err(e) => assert_eq!(e, LayoutError::PlacementFailed),
        }
    }
    assert!(made > 0);
}

#[test]
fn every_branch_springs_from_an_earlier_line_with_margin() {
    let mut rng = rand::thread_rng();
    let lot = rect(0, 0, 47, 47);
    let mut made = 0;
    for _ in 0..100 {
        if let Ok(lines) = lot.divide_with_lines(6, 2, &mut rng) {
            made += 1;
            for i in 1..lines.len() {
                let mut found = false;
                for j in 0..i {
                    if springs_from(&lines[i], &lines[j], 2) {
                        found = true;
                    }
                }
                assert!(found);
            }
        }
    }
    assert!(made > 0);
}

#[test]
fn no_branch_springs_where_another_line_passes() {
    let mut rng = rand::thread_rng();
    let lot = rect(0, 0, 29, 29);
    for _ in 0..100 {
        if let Ok(lines) = lot.divide_with_lines(5, 1, &mut rng) {
            for i in 1..lines.len() {
                let b = &lines[i];
                let cells: Vec<Point> = (0..b.length).map(|d| b.point_at(d)).collect();
                for (k, other) in lines[..i].iter().enumerate() {
                    if other.orientation == b.orientation {
                        continue;
                    }
                    let crossing: Vec<&Point> =
                        cells.iter().filter(|p| other.point_intersects(p)).collect();
                    for p in crossing {
                        let at_start = *p == b.point_at(0);
                        let at_end = *p == b.point_at(b.length - 1);
                        assert!(at_start || at_end, "line {} crosses line {} midway", i, k);
                    }
                }
            }
        }
    }
}

#[test]
fn two_lines_are_always_placed() {
    let mut rng = rand::thread_rng();
    for lot in [rect(0, 0, 9, 9), rect(0, 0, 2, 0), rect(4, 4, 5, 30)] {
        for _ in 0..50 {
            let lines = lot.divide_with_lines(2, 1, &mut rng).unwrap();
            assert_eq!(lines.len(), 2);
            assert!(inside(&lot, &lines[0]));
            assert!(inside(&lot, &lines[1]));
            assert!(springs_from(&lines[1], &lines[0], 1));
        }
    }
}
