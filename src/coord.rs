use vstd::prelude::*;

verus! {

/// A square of the board, or an offset between two squares.
///
/// Ordered lexicographically: first by `x`, then by `y`.
#[derive(Clone, Copy, Debug, PartialEq, Eq, Structural, PartialOrd, Ord, Hash)]
pub struct Coord {
    pub x: i32,
    pub y: i32,
}

impl Coord {
    pub fn new(x: i32, y: i32) -> (r: Coord)
        ensures
            r.x == x,
            r.y == y,
    {
        Coord { x, y }
    }
}

/// The eight knight moves, in the order in which the search tries them.
pub open spec fn knight_moves_spec() -> Seq<Coord> {
    seq![
        Coord { x: 2, y: 1 },
        Coord { x: 2, y: -1i32 },
        Coord { x: -2i32, y: 1 },
        Coord { x: -2i32, y: -1i32 },
        Coord { x: 1, y: -2i32 },
        Coord { x: 1, y: 2 },
        Coord { x: -1i32, y: 2 },
        Coord { x: -1i32, y: -2i32 },
    ]
}

/// Builds the table of knight moves.
pub fn knight_moves() -> (r: [Coord; 8])
    ensures
        r@ == knight_moves_spec(),
{
    let r = [
        Coord { x: 2, y: 1 },
        Coord { x: 2, y: -1i32 },
        Coord { x: -2i32, y: 1 },
        Coord { x: -2i32, y: -1i32 },
        Coord { x: 1, y: -2i32 },
        Coord { x: 1, y: 2 },
        Coord { x: -1i32, y: 2 },
        Coord { x: -1i32, y: -2i32 },
    ];
    assert(r@ =~= knight_moves_spec());
    r
}

/// `b` is `a` moved by one of the offsets of `moves`.
pub open spec fn is_step(moves: Seq<Coord>, a: Coord, b: Coord) -> bool {
    exists|k: int|
        0 <= k < moves.len() && b.x == a.x + (#[trigger] moves[k]).x && b.y == a.y + moves[k].y
}

/// `b` is `a` moved by one of the knight moves.
pub open spec fn is_knight_step(a: Coord, b: Coord) -> bool {
    is_step(knight_moves_spec(), a, b)
}

/// The square is on a board of `size.x` columns and `size.y` rows.
pub open spec fn in_bounds(size: Coord, x: int, y: int) -> bool {
    0 <= x < size.x && 0 <= y < size.y
}

/// The number of squares of a board.
pub open spec fn area(size: Coord) -> int {
    size.x * size.y
}

} // verus!
