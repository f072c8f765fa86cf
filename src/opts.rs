use vstd::prelude::*;
use std::collections::HashMap;
use crate::coord::{Coord, area, in_bounds};
use crate::checkpoints::{default_checkpoints, default_checkpoints_spec};

verus! {

broadcast use vstd::std_specs::hash::group_hash_axioms;

/// The configuration of a search.
pub struct Opts {
    /// The square the knight starts on.
    pub start: Coord,
    /// The board: `size.x` columns and `size.y` rows.
    pub size: Coord,
    /// The square required at each listed move number.
    pub checkpoints: HashMap<i32, Coord>,
    /// Only the usage text was asked for.
    pub help: bool,
}

impl Opts {
    /// The built-in configuration: a 6x6 board entered at its corner, with
    /// the built-in checkpoint table.
    pub fn new() -> (r: Opts)
        ensures
            r.start == (Coord { x: 0, y: 0 }),
            r.size == (Coord { x: 6, y: 6 }),
            r.checkpoints@ == default_checkpoints_spec(),
            !r.help,
    {
        Opts {
            start: Coord { x: 0, y: 0 },
            size: Coord { x: 6, y: 6 },
            checkpoints: default_checkpoints(),
            help: false,
        }
    }
}

/// Why a configuration cannot be searched.
#[derive(Clone, Copy, Debug, PartialEq, Eq, Structural)]
pub enum ConfigError {
    /// The board has no columns or no rows.
    InvalidBoardSize,
    /// The start square is off the board.
    StartOutOfBounds,
    /// A checkpoint names a square off the board.
    CheckpointOutOfBounds,
    /// A checkpoint names a move number below 1 or above the number of squares.
    CheckpointMoveNumberInvalid,
}

/// What is wrong with a board and start square, if anything.
pub open spec fn board_error(size: Coord, start: Coord) -> Option<ConfigError> {
    if size.x <= 0 || size.y <= 0 {
        Some(ConfigError::InvalidBoardSize)
    } else if !in_bounds(size, start.x as int, start.y as int) {
        Some(ConfigError::StartOutOfBounds)
    } else {
        None
    }
}

/// What is wrong with one checkpoint on a board with positive sides, if anything.
pub open spec fn checkpoint_error(size: Coord, n: i32, c: Coord) -> Option<ConfigError> {
    if n < 1 || n > area(size) {
        Some(ConfigError::CheckpointMoveNumberInvalid)
    } else if !in_bounds(size, c.x as int, c.y as int) {
        Some(ConfigError::CheckpointOutOfBounds)
    } else {
        None
    }
}

/// The table that inserting `entries` in order builds: a later entry for a
/// move number replaces an earlier one.
pub open spec fn entries_map(entries: Seq<(i32, Coord)>) -> Map<i32, Coord>
    decreases entries.len(),
{
    if entries.len() == 0 {
        Map::empty()
    } else {
        entries_map(entries.drop_last()).insert(entries.last().0, entries.last().1)
    }
}

/// Checks the board and the start square.
pub fn check_board(size: &Coord, start: &Coord) -> (r: Result<(), ConfigError>)
    ensures
        r is Ok <==> board_error(*size, *start) is None,
        r matches Err(e) ==> board_error(*size, *start) == Some(e),
{
    if size.x <= 0 || size.y <= 0 {
        Err(ConfigError::InvalidBoardSize)
    } else if start.x < 0 || start.y < 0 || start.x >= size.x || start.y >= size.y {
        Err(ConfigError::StartOutOfBounds)
    } else {
        Ok(())
    }
}

/// Checks one checkpoint against a board with positive sides.
pub fn check_checkpoint(size: &Coord, n: i32, c: &Coord) -> (r: Result<(), ConfigError>)
    requires
        size.x > 0,
        size.y > 0,
    ensures
        r is Ok <==> checkpoint_error(*size, n, *c) is None,
        r matches Err(e) ==> checkpoint_error(*size, n, *c) == Some(e),
{
    proof {
        let (w, h) = (size.x as int, size.y as int);
        assert(0 < w * h <= 0x7fff_ffff * 0x7fff_ffff) by (nonlinear_arith)
            requires 0 < w <= 0x7fff_ffff, 0 < h <= 0x7fff_ffff;
    }
    let squares: i64 = (size.x as i64) * (size.y as i64);
    if n < 1 || n as i64 > squares {
        Err(ConfigError::CheckpointMoveNumberInvalid)
    } else if c.x < 0 || c.y < 0 || c.x >= size.x || c.y >= size.y {
        Err(ConfigError::CheckpointOutOfBounds)
    } else {
        Ok(())
    }
}

/// Builds a checkpoint table from `(move number, square)` entries after
/// checking each one against a board with positive sides. On failure the
/// error is that of the first entry that is wrong.
pub fn build_checkpoints(size: &Coord, entries: &Vec<(i32, Coord)>) -> (r: Result<HashMap<i32, Coord>, ConfigError>)
    requires
        size.x > 0,
        size.y > 0,
    ensures
        r is Ok <==> forall|i: int| 0 <= i < entries@.len() ==> (#[trigger] checkpoint_error(*size, entries@[i].0, entries@[i].1)) is None,
        r matches Ok(m) ==> m@ == entries_map(entries@),
        r matches Err(e) ==> exists|i: int|
            0 <= i < entries@.len() && checkpoint_error(*size, entries@[i].0, entries@[i].1) == Some(e)
                && forall|j: int| 0 <= j < i ==> (#[trigger] checkpoint_error(*size, entries@[j].0, entries@[j].1)) is None,
{
    let mut m: HashMap<i32, Coord> = HashMap::new();
    let mut i: usize = 0;
    while i < entries.len()
        invariant
            size.x > 0,
            size.y > 0,
            0 <= i <= entries@.len(),
            m@ == entries_map(entries@.subrange(0, i as int)),
            forall|j: int| 0 <= j < i ==> (#[trigger] checkpoint_error(*size, entries@[j].0, entries@[j].1)) is None,
        decreases entries@.len() - i,
    {
        let (n, c) = entries[i];
        match check_checkpoint(size, n, &c) {
            Err(e) => {
                return Err(e);
            },
            Ok(()) => {},
        }
        m.insert(n, c);
        proof {
            let s = entries@.subrange(0, i as int + 1);
            assert(s.drop_last() =~= entries@.subrange(0, i as int));
        }
        i = i + 1;
    }
    assert(entries@.subrange(0, i as int) =~= entries@);
    Ok(m)
}

} // verus!
