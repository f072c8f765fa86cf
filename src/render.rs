use vstd::prelude::*;
use crate::coord::Coord;

verus! {

/// `v` is the move number shown for square `c`: its position in `path`,
/// counted from 1, or 0 where `path` does not visit it.
pub open spec fn shows_move(path: Seq<Coord>, c: Coord, v: int) -> bool {
    (v == 0 && !path.contains(c)) || (1 <= v <= path.len() && path[v - 1] == c)
}

/// The move number shown for square `c` on the board of `path`.
pub fn move_number(path: &Vec<Coord>, c: &Coord) -> (r: i32)
    requires
        path@.len() < i32::MAX,
    ensures
        shows_move(path@, *c, r as int),
{
    let mut i: usize = 0;
    while i < path.len()
        invariant
            path@.len() < i32::MAX,
            0 <= i <= path@.len(),
            forall|j: int| 0 <= j < i ==> path@[j] != *c,
        decreases path@.len() - i,
    {
        if path[i] == *c {
            return (i + 1) as i32;
        }
        i = i + 1;
    }
    0
}

/// The board of `path` as `size.y` rows of `size.x` move numbers: row `y`,
/// column `x` shows the move number of square `(x, y)`.
pub fn board_numbers(size: &Coord, path: &Vec<Coord>) -> (r: Vec<Vec<i32>>)
    requires
        size.x >= 0,
        size.y >= 0,
        path@.len() < i32::MAX,
    ensures
        r@.len() == size.y,
        forall|y: int| 0 <= y < size.y ==> (#[trigger] r@[y])@.len() == size.x,
        forall|y: int, x: int|
            0 <= y < size.y && 0 <= x < size.x ==> shows_move(
                path@,
                Coord { x: x as i32, y: y as i32 },
                (#[trigger] r@[y]@[x]) as int,
            ),
{
    let mut board: Vec<Vec<i32>> = Vec::new();
    let mut y: i32 = 0;
    while y < size.y
        invariant
            0 <= y <= size.y,
            size.x >= 0,
            path@.len() < i32::MAX,
            board@.len() == y,
            forall|j: int| 0 <= j < y ==> (#[trigger] board@[j])@.len() == size.x,
            forall|j: int, x: int|
                0 <= j < y && 0 <= x < size.x ==> shows_move(
                    path@,
                    Coord { x: x as i32, y: j as i32 },
                    (#[trigger] board@[j]@[x]) as int,
                ),
        decreases size.y - y,
    {
        let mut row: Vec<i32> = Vec::new();
        let mut x: i32 = 0;
        while x < size.x
            invariant
                0 <= x <= size.x,
                0 <= y < size.y,
                path@.len() < i32::MAX,
                row@.len() == x,
                forall|i: int|
                    0 <= i < x ==> shows_move(
                        path@,
                        Coord { x: i as i32, y: y },
                        (#[trigger] row@[i]) as int,
                    ),
            decreases size.x - x,
        {
            let v = move_number(path, &Coord { x, y });
            row.push(v);
            x = x + 1;
        }
        board.push(row);
        y = y + 1;
    }
    board
}

} // verus!
