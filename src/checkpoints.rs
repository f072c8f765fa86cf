use vstd::prelude::*;
use std::collections::HashMap;
use crate::coord::Coord;

verus! {

broadcast use vstd::std_specs::hash::group_hash_axioms;

/// Landing on `c` with move number `n` breaks the checkpoint table: the table
/// names a square for that move and `c` is another one.
pub open spec fn violates(checkpoints: Map<i32, Coord>, n: int, c: Coord) -> bool {
    i32::MIN <= n <= i32::MAX && checkpoints.contains_key(n as i32) && checkpoints[n as i32] != c
}

/// The built-in checkpoint table, tuned for a 6x6 board entered at its corner.
pub open spec fn default_checkpoints_spec() -> Map<i32, Coord> {
    map![
        2i32 => Coord { x: 1, y: 2 },
        11i32 => Coord { x: 0, y: 4 },
        15i32 => Coord { x: 5, y: 1 },
        19i32 => Coord { x: 1, y: 3 },
        28i32 => Coord { x: 5, y: 0 },
    ]
}

/// Builds the built-in checkpoint table.
pub fn default_checkpoints() -> (r: HashMap<i32, Coord>)
    ensures
        r@ == default_checkpoints_spec(),
{
    let mut checkpoints: HashMap<i32, Coord> = HashMap::new();
    checkpoints.insert(2, Coord { x: 1, y: 2 });
    checkpoints.insert(11, Coord { x: 0, y: 4 });
    checkpoints.insert(15, Coord { x: 5, y: 1 });
    checkpoints.insert(19, Coord { x: 1, y: 3 });
    checkpoints.insert(28, Coord { x: 5, y: 0 });
    assert(checkpoints@ =~= default_checkpoints_spec());
    checkpoints
}

/// Tells whether `pos`, taken as the next square of `path`, breaks a
/// checkpoint. Its move number is the length of `path`: the start square is
/// move 0.
pub fn fails_checkpoint(pos: &Coord, path: &Vec<Coord>, checkpoints: &HashMap<i32, Coord>) -> (r:
    bool)
    ensures
        r == violates(checkpoints@, path@.len() as int, *pos),
{
    if path.len() > i32::MAX as usize {
        return false;
    }
    let move_num: i32 = path.len() as i32;
    match checkpoints.get(&move_num) {
        Some(checkpoint) => pos.x != checkpoint.x || pos.y != checkpoint.y,
        None => false,
    }
}

} // verus!
