use std::collections::HashMap;

use knight_tour::coord::{knight_moves, Coord};
use knight_tour::tour::{find_path, is_reachable, search};

fn c(x: i32, y: i32) -> Coord {
    Coord::new(x, y)
}

fn is_knight_step(a: &Coord, b: &Coord) -> bool {
    let dx = (a.x - b.x).abs();
    let dy = (a.y - b.y).abs();
    (dx == 1 && dy == 2) || (dx == 2 && dy == 1)
}

fn assert_full_tour(size: &Coord, start: &Coord, t: &Vec<Coord>) {
    assert_eq!(t.len() as i32, size.x * size.y);
    assert_eq!(t[0], *start);
    for x in 0..size.x {
        for y in 0..size.y {
            assert_eq!(t.iter().filter(|p| **p == c(x, y)).count(), 1);
        }
    }
    for i in 1..t.len() {
        assert!(is_knight_step(&t[i - 1], &t[i]));
    }
}

#[test]
fn single_square_board_has_one_tour() {
    let tours = search(&c(1, 1), &c(0, 0), &HashMap::new());
    assert_eq!(tours, vec![vec![c(0, 0)]]);
}

#[test]
fn three_by_three_has_no_tour() {
    let tours = search(&c(3, 3), &c(0, 0), &HashMap::new());
    assert_eq!(tours.len(), 0);
}

#[test]
fn five_by_five_tours_cover_the_board() {
    let size = c(5, 5);
    let start = c(0, 0);
    let tours = search(&size, &start, &HashMap::new());
    assert!(!tours.is_empty());
    assert_eq!(tours.len(), 304);
    for t in &tours {
        assert_full_tour(&size, &start, t);
    }
}

#[test]
fn first_five_by_five_tour_follows_move_order() {
    let tours = search(&c(5, 5), &c(0, 0), &HashMap::new());
    let first = &tours[0];
    assert_eq!(first[1], c(2, 1));
    let mut sorted = tours.clone();
    sorted.sort();
    sorted.dedup();
    assert_eq!(sorted.len(), tours.len());
}

#[test]
fn checkpoint_search_is_filtered_full_search() {
    let size = c(5, 5);
    let start = c(0, 0);
    let mut checkpoints = HashMap::new();
    checkpoints.insert(2, c(4, 2));
    let constrained = search(&size, &start, &checkpoints);
    let full = search(&size, &start, &HashMap::new());
    let filtered: Vec<Vec<Coord>> = full.into_iter().filter(|t| t[2] == c(4, 2)).collect();
    assert!(!constrained.is_empty());
    assert!(constrained.len() < 304);
    assert_eq!(constrained, filtered);
    for t in &constrained {
        assert_eq!(t[2], c(4, 2));
        assert_full_tour(&size, &start, t);
    }
}

#[test]
fn six_by_six_checkpoint_holds_in_every_tour() {
    let size = c(6, 6);
    let start = c(0, 0);
    let mut checkpoints = HashMap::new();
    checkpoints.insert(2, c(1, 2));
    let tours = search(&size, &start, &checkpoints);
    for t in &tours {
        assert_eq!(t[2], c(1, 2));
        assert_full_tour(&size, &start, t);
    }
    assert!(tours.is_empty());
}

#[test]
fn unreachable_checkpoint_gives_no_tour() {
    let mut checkpoints = HashMap::new();
    checkpoints.insert(1, c(1, 1));
    let tours = search(&c(5, 5), &c(0, 0), &checkpoints);
    assert!(tours.is_empty());
}

#[test]
fn search_twice_gives_same_tours() {
    let mut checkpoints = HashMap::new();
    checkpoints.insert(3, c(2, 2));
    let a = search(&c(5, 5), &c(0, 0), &checkpoints);
    let b = search(&c(5, 5), &c(0, 0), &checkpoints);
    assert_eq!(a, b);
}

#[test]
fn find_path_restores_path_and_appends() {
    let delta = knight_moves();
    let size = c(5, 5);
    let start = c(0, 0);
    let mut path = vec![start];
    let mut paths = vec![vec![c(9, 9)]];
    find_path(&delta, &size, &start, &mut path, &mut paths, &HashMap::new());
    assert_eq!(path, vec![start]);
    assert_eq!(paths.len(), 305);
    assert_eq!(paths[0], vec![c(9, 9)]);
}

#[test]
fn find_path_reports_a_full_path_once() {
    let delta = knight_moves();
    let size = c(1, 2);
    let mut path = vec![c(0, 0), c(0, 1)];
    let mut paths = Vec::new();
    find_path(&delta, &size, &c(0, 1), &mut path, &mut paths, &HashMap::new());
    assert_eq!(paths, vec![vec![c(0, 0), c(0, 1)]]);
}

#[test]
fn reachability_checks_bounds_and_visits() {
    let size = c(4, 3);
    let path = vec![c(0, 0), c(2, 1)];
    assert!(is_reachable(&c(3, 2), &size, &path));
    assert!(!is_reachable(&c(2, 1), &size, &path));
    assert!(!is_reachable(&c(4, 0), &size, &path));
    assert!(!is_reachable(&c(0, 3), &size, &path));
    assert!(!is_reachable(&c(-1, 0), &size, &path));
    assert!(!is_reachable(&c(0, -2), &size, &path));
}

#[test]
fn knight_moves_in_order() {
    let m = knight_moves();
    assert_eq!(
        m,
        [c(2, 1), c(2, -1), c(-2, 1), c(-2, -1), c(1, -2), c(1, 2), c(-1, 2), c(-1, -2)]
    );
}

#[test]
fn two_by_three_has_no_tour_from_corner() {
    let tours = search(&c(2, 3), &c(0, 0), &HashMap::new());
    assert!(tours.is_empty());
}

#[test]
fn off_board_start_gives_no_tour() {
    assert!(search(&c(1, 1), &c(5, 5), &HashMap::new()).is_empty());
    assert!(search(&c(5, 5), &c(-1, 0), &HashMap::new()).is_empty());
}

#[test]
fn find_path_skips_path_with_off_board_start() {
    let delta = knight_moves();
    let size = c(1, 2);
    let mut path = vec![c(5, 5), c(0, 0)];
    let mut paths = Vec::new();
    find_path(&delta, &size, &c(0, 0), &mut path, &mut paths, &HashMap::new());
    assert!(paths.is_empty());
    assert_eq!(path, vec![c(5, 5), c(0, 0)]);
}
