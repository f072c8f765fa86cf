use std::collections::HashMap;

use knight_tour::checkpoints::{default_checkpoints, fails_checkpoint};
use knight_tour::coord::Coord;
use knight_tour::opts::{build_checkpoints, check_board, check_checkpoint, ConfigError, Opts};
use knight_tour::render::{board_numbers, move_number};
use knight_tour::unique_vec::UniqueVec;

fn c(x: i32, y: i32) -> Coord {
    Coord::new(x, y)
}

#[test]
fn default_options() {
    let o = Opts::new();
    assert_eq!(o.start, c(0, 0));
    assert_eq!(o.size, c(6, 6));
    assert!(!o.help);
    assert_eq!(o.checkpoints, default_checkpoints());
}

#[test]
fn default_checkpoint_table() {
    let m = default_checkpoints();
    assert_eq!(m.len(), 5);
    assert_eq!(m.get(&2), Some(&c(1, 2)));
    assert_eq!(m.get(&11), Some(&c(0, 4)));
    assert_eq!(m.get(&15), Some(&c(5, 1)));
    assert_eq!(m.get(&19), Some(&c(1, 3)));
    assert_eq!(m.get(&28), Some(&c(5, 0)));
}

#[test]
fn empty_table_never_fails() {
    let empty = HashMap::new();
    let mut path = vec![c(0, 0)];
    for n in 0..6 {
        for x in -2..3 {
            for y in -2..3 {
                assert!(!fails_checkpoint(&c(x, y), &path, &empty));
            }
        }
        path.push(c(n + 10, 0));
    }
}

#[test]
fn checkpoint_move_number_is_path_length() {
    let mut table = HashMap::new();
    table.insert(2, c(1, 2));
    let one = vec![c(0, 0)];
    let two = vec![c(0, 0), c(2, 1)];
    assert!(!fails_checkpoint(&c(3, 3), &one, &table));
    assert!(fails_checkpoint(&c(3, 3), &two, &table));
    assert!(!fails_checkpoint(&c(1, 2), &two, &table));
}

#[test]
fn upush_skips_duplicates() {
    let mut v: Vec<Coord> = Vec::new();
    v.upush(c(1, 2));
    v.upush(c(3, 4));
    v.upush(c(1, 2));
    assert_eq!(v, vec![c(1, 2), c(3, 4)]);
}

#[test]
fn board_check_errors() {
    assert_eq!(check_board(&c(0, 5), &c(0, 0)), Err(ConfigError::InvalidBoardSize));
    assert_eq!(check_board(&c(5, -1), &c(0, 0)), Err(ConfigError::InvalidBoardSize));
    assert_eq!(check_board(&c(5, 5), &c(5, 0)), Err(ConfigError::StartOutOfBounds));
    assert_eq!(check_board(&c(5, 5), &c(0, -1)), Err(ConfigError::StartOutOfBounds));
    assert_eq!(check_board(&c(5, 5), &c(4, 4)), Ok(()));
}

#[test]
fn checkpoint_check_errors() {
    let size = c(6, 6);
    assert_eq!(check_checkpoint(&size, 0, &c(1, 1)), Err(ConfigError::CheckpointMoveNumberInvalid));
    assert_eq!(check_checkpoint(&size, 37, &c(1, 1)), Err(ConfigError::CheckpointMoveNumberInvalid));
    assert_eq!(check_checkpoint(&size, 36, &c(6, 1)), Err(ConfigError::CheckpointOutOfBounds));
    assert_eq!(check_checkpoint(&size, 36, &c(5, 5)), Ok(()));
    assert_eq!(check_checkpoint(&size, 1, &c(0, 0)), Ok(()));
}

#[test]
fn build_table_from_entries() {
    let size = c(6, 6);
    let entries = vec![(2, c(1, 2)), (5, c(0, 0)), (2, c(3, 3))];
    let m = build_checkpoints(&size, &entries).unwrap();
    assert_eq!(m.len(), 2);
    assert_eq!(m.get(&2), Some(&c(3, 3)));
    assert_eq!(m.get(&5), Some(&c(0, 0)));
    let bad = vec![(2, c(1, 2)), (3, c(9, 9)), (0, c(1, 1))];
    assert_eq!(build_checkpoints(&size, &bad), Err(ConfigError::CheckpointOutOfBounds));
    let empty: Vec<(i32, Coord)> = Vec::new();
    assert_eq!(build_checkpoints(&size, &empty).unwrap().len(), 0);
}

#[test]
fn board_numbers_of_a_path() {
    let path = vec![c(0, 0), c(2, 1), c(0, 2)];
    let b = board_numbers(&c(3, 3), &path);
    assert_eq!(b, vec![vec![1, 0, 0], vec![0, 0, 2], vec![3, 0, 0]]);
    assert_eq!(move_number(&path, &c(0, 2)), 3);
    assert_eq!(move_number(&path, &c(1, 1)), 0);
}

#[test]
fn board_numbers_single_square() {
    assert_eq!(board_numbers(&c(1, 1), &vec![c(0, 0)]), vec![vec![1]]);
}

#[test]
fn coordinates_order_lexicographically() {
    assert!(c(1, 5) < c(2, 0));
    assert!(c(1, 2) < c(1, 3));
    assert_eq!(c(4, 4), c(4, 4));
}
