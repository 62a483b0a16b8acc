use tower::board::Board;
use tower::geometry::Point;
use tower::path::{join_legs, manhattan, priced_path};
use tower::unit::Unit;

fn wall_at(board: &mut Board, x: i32, y: i32) {
    board.place_unit(Unit::default(), Point::new(x, y)).unwrap();
}

fn touching(a: Point, b: Point) -> bool {
    a != b && (a.x - b.x).abs() <= 1 && (a.y - b.y).abs() <= 1
}

#[test]
fn open_grid_path_is_adjacent_and_priced_per_move() {
    let board = Board::new(10, 10, Point::new(0, 0), Vec::new());
    let pairs = [((0, 0), (9, 9)), ((2, 7), (8, 1)), ((4, 4), (4, 4)), ((0, 9), (9, 0))];
    for ((sx, sy), (gx, gy)) in pairs {
        let (start, goal) = (Point::new(sx, sy), Point::new(gx, gy));
        let (path, cost) = board.calculate_path(&start, &goal).expect("open grid");
        assert_eq!(path[0], start);
        assert_eq!(*path.last().unwrap(), goal);
        assert_eq!(cost as usize, path.len() - 1);
        for w in path.windows(2) {
            assert!(touching(w[0], w[1]));
        }
    }
}

#[test]
fn path_to_itself_is_single_point() {
    let board = Board::new(5, 5, Point::new(0, 0), Vec::new());
    let p = Point::new(2, 3);
    assert_eq!(board.calculate_path(&p, &p), Some((vec![p], 0)));
}

#[test]
fn enclosed_start_has_no_path() {
    let mut board = Board::new(10, 10, Point::new(0, 0), Vec::new());
    for (x, y) in [(4, 4), (5, 4), (6, 4), (4, 5), (6, 5), (4, 6), (5, 6), (6, 6)] {
        wall_at(&mut board, x, y);
    }
    assert_eq!(board.calculate_path(&Point::new(5, 5), &Point::new(0, 0)), None);
    assert_eq!(board.calculate_path(&Point::new(0, 0), &Point::new(5, 5)), None);
    let (path, _) = board.calculate_path(&Point::new(0, 0), &Point::new(9, 9)).unwrap();
    for p in &path {
        assert!(board.at_position(p).is_none());
    }
}

#[test]
fn path_avoids_units_and_grid_edges() {
    let mut board = Board::new(6, 3, Point::new(0, 0), Vec::new());
    wall_at(&mut board, 2, 0);
    wall_at(&mut board, 2, 1);
    let (path, cost) = board.calculate_path(&Point::new(0, 0), &Point::new(5, 0)).unwrap();
    for p in &path {
        assert!(p.x >= 0 && p.x < 6 && p.y >= 0 && p.y < 3);
        assert!(board.at_position(p).is_none());
    }
    assert!(path.contains(&Point::new(2, 2)));
    assert_eq!(cost as usize, path.len() - 1);
}

#[test]
fn corner_cut_between_diagonal_units_is_allowed() {
    let mut board = Board::new(2, 2, Point::new(0, 0), Vec::new());
    wall_at(&mut board, 1, 0);
    wall_at(&mut board, 0, 1);
    let found = board.calculate_path(&Point::new(0, 0), &Point::new(1, 1));
    assert_eq!(found, Some((vec![Point::new(0, 0), Point::new(1, 1)], 1)));
}

#[test]
fn route_is_concatenation_of_legs() {
    let board = Board::new(12, 12, Point::new(0, 0), Vec::new());
    let (a, b, c) = (Point::new(1, 1), Point::new(10, 2), Point::new(3, 9));
    let route = board.find_route(&vec![(a, b), (b, c)]).unwrap();
    let (first, _) = board.calculate_path(&a, &b).unwrap();
    let (second, _) = board.calculate_path(&b, &c).unwrap();
    let mut expected = first.clone();
    expected.extend(second);
    assert_eq!(route, expected);
    assert_eq!(route.len(), first.len() + board.calculate_path(&b, &c).unwrap().0.len());
}

#[test]
fn route_fails_when_one_leg_is_blocked() {
    let mut board = Board::new(10, 10, Point::new(0, 0), Vec::new());
    for (x, y) in [(7, 7), (8, 7), (9, 7), (7, 8), (7, 9)] {
        wall_at(&mut board, x, y);
    }
    let (a, b, c) = (Point::new(0, 0), Point::new(5, 0), Point::new(9, 9));
    assert!(board.calculate_path(&a, &b).is_some());
    assert_eq!(board.find_route(&vec![(a, b), (b, c)]), None);
    assert_eq!(board.find_route(&vec![(c, b), (b, a)]), None);
    assert!(board.find_route(&vec![(a, b), (b, a)]).is_some());
}

#[test]
fn empty_route_is_empty() {
    let board = Board::new(4, 4, Point::new(0, 0), Vec::new());
    assert_eq!(board.find_route(&Vec::new()), Some(Vec::new()));
}

#[test]
fn default_board_route_through_waypoints() {
    let mut board = Board::default();
    assert!(board.plan_route());
    let route = &board.route;
    assert_eq!(route[0], Point::new(5, 19));
    assert_eq!(*route.last().unwrap(), Point::new(33, 33));
    assert!(route.contains(&Point::new(33, 5)));
    assert!(route.contains(&Point::new(19, 5)));
    assert_eq!(board.calculate_paths(), Some(board.route.clone()));
}

#[test]
fn plan_route_keeps_old_route_when_blocked() {
    let mut board = Board::new(5, 5, Point::new(0, 0), vec![(Point::new(0, 0), Point::new(4, 4))]);
    for (x, y) in [(3, 3), (3, 4), (4, 3)] {
        wall_at(&mut board, x, y);
    }
    assert!(!board.plan_route());
    assert!(board.route.is_empty());
}

#[test]
fn successors_on_corner_and_inside() {
    let mut board = Board::new(5, 5, Point::new(0, 0), Vec::new());
    assert_eq!(board.successors(&Point::new(0, 0)).len(), 3);
    assert_eq!(board.successors(&Point::new(2, 2)).len(), 8);
    assert_eq!(board.successors(&Point::new(4, 2)).len(), 5);
    wall_at(&mut board, 1, 1);
    let next = board.successors(&Point::new(2, 2));
    assert_eq!(next.len(), 7);
    assert!(next.iter().all(|(p, c)| *c == 1 && *p != Point::new(1, 1)));
}

#[test]
fn manhattan_distance_values() {
    assert_eq!(manhattan(&Point::new(1, 2), &Point::new(4, -2)), 7);
    assert_eq!(manhattan(&Point::new(0, 0), &Point::new(0, 0)), 0);
    assert_eq!(manhattan(&Point::new(i32::MIN, 0), &Point::new(i32::MAX, 0)), u32::MAX as u64);
}

#[test]
fn priced_path_counts_moves() {
    let p = vec![Point::new(0, 0), Point::new(1, 1), Point::new(2, 1)];
    assert_eq!(priced_path(Some(p.clone())), Some((p, 2)));
    assert_eq!(priced_path(None), None);
}

#[test]
fn join_legs_concatenates_or_fails() {
    let a = vec![Point::new(0, 0), Point::new(1, 0)];
    let b = vec![Point::new(1, 0), Point::new(2, 0)];
    let joined = join_legs(vec![Some(a.clone()), Some(b.clone())]);
    assert_eq!(
        joined,
        Some(vec![Point::new(0, 0), Point::new(1, 0), Point::new(1, 0), Point::new(2, 0)])
    );
    assert_eq!(join_legs(vec![Some(a), None, Some(b)]), None);
    assert_eq!(join_legs(Vec::new()), Some(Vec::new()));
}

#[test]
fn occupancy_query() {
    let mut board = Board::new(3, 3, Point::new(0, 0), Vec::new());
    assert!(!board.is_occupied(&Point::new(1, 2)));
    wall_at(&mut board, 1, 2);
    assert!(board.is_occupied(&Point::new(1, 2)));
    assert!(!board.is_occupied(&Point::new(2, 1)));
}

#[test]
fn successors_are_distinct() {
    let board = Board::new(3, 3, Point::new(0, 0), Vec::new());
    let next = board.successors(&Point::new(1, 1));
    for (i, a) in next.iter().enumerate() {
        for b in &next[i + 1..] {
            assert_ne!(a.0, b.0);
        }
    }
}
