use vstd::prelude::*;
use crate::coord::{Coord, area, in_bounds, is_knight_step, knight_moves_spec};
use crate::checkpoints::violates;
use crate::tour::tours;
use crate::soundness::{
    path_ok, lemma_tours_sound, lemma_full_path_covers, lemma_tours_drop_checkpoints,
    lemma_tours_add_checkpoints,
};

verus! {

/// Every tour found from `start` on the board, with the knight moves.
pub open spec fn tours_of(size: Coord, start: Coord, checkpoints: Map<i32, Coord>) -> Seq<Seq<Coord>> {
    tours(size, knight_moves_spec(), checkpoints, seq![start])
}

/// The sequence `t` lands on the square that `checkpoints` names for each
/// move number it reaches, the start square not counted.
pub open spec fn keeps_checkpoints(checkpoints: Map<i32, Coord>, t: Seq<Coord>) -> bool {
    forall|n: int| 1 <= n < t.len() ==> !violates(checkpoints, n, #[trigger] t[n])
}

/// Some walk of exactly `n` knight moves, on an unbounded plane, leads from
/// `from` to `to`.
pub open spec fn reachable_in(from: Coord, to: Coord, n: int) -> bool {
    exists|w: Seq<Coord>|
        #![trigger w.len(), w[0]]
        w.len() == n + 1 && w[0] == from && w[n] == to && forall|i: int|
            1 <= i <= n ==> is_knight_step(w[i - 1], #[trigger] w[i])
}

proof fn lemma_start_ok(size: Coord, start: Coord)
    requires
        size.x > 0,
        size.y > 0,
        in_bounds(size, start.x as int, start.y as int),
    ensures
        path_ok(size, seq![start]),
{
    let (w, h) = (size.x as int, size.y as int);
    assert(w * h >= 1) by (nonlinear_arith)
        requires w > 0, h > 0;
}

/// On a board of a single square, the start square alone is the only tour.
pub proof fn lemma_single_square_board(size: Coord, start: Coord, checkpoints: Map<i32, Coord>)
    requires
        size.x > 0,
        size.y > 0,
        area(size) <= 1,
        in_bounds(size, start.x as int, start.y as int),
    ensures
        tours_of(size, start, checkpoints) == seq![seq![start]],
{
}

/// Each tour found fills the board: it has one entry per square, holds every
/// square of the board exactly once and starts at the start square.
pub proof fn lemma_tour_covers_board(size: Coord, start: Coord, checkpoints: Map<i32, Coord>, t: Seq<Coord>)
    requires
        size.x > 0,
        size.y > 0,
        in_bounds(size, start.x as int, start.y as int),
        tours_of(size, start, checkpoints).contains(t),
    ensures
        t.len() == area(size),
        t[0] == start,
        t.no_duplicates(),
        forall|i: int| 0 <= i < t.len() ==> in_bounds(size, (#[trigger] t[i]).x as int, t[i].y as int),
        forall|c: Coord| in_bounds(size, c.x as int, c.y as int) ==> #[trigger] t.contains(c),
{
    lemma_start_ok(size, start);
    lemma_tours_sound(size, knight_moves_spec(), checkpoints, seq![start], t);
    assert(t[0] == t.subrange(0, 1)[0]);
    assert forall|c: Coord| in_bounds(size, c.x as int, c.y as int) implies #[trigger] t.contains(c) by {
        lemma_full_path_covers(size, t, c);
    }
}

/// In each tour found, each square after the first is one knight move away
/// from the one before it.
pub proof fn lemma_tour_moves_by_knight(size: Coord, start: Coord, checkpoints: Map<i32, Coord>, t: Seq<Coord>)
    requires
        size.x > 0,
        size.y > 0,
        in_bounds(size, start.x as int, start.y as int),
        tours_of(size, start, checkpoints).contains(t),
    ensures
        forall|i: int| 1 <= i < t.len() ==> is_knight_step(t[i - 1], #[trigger] t[i]),
{
    lemma_start_ok(size, start);
    lemma_tours_sound(size, knight_moves_spec(), checkpoints, seq![start], t);
}

/// In each tour found, the square at each move number that the table names
/// is the square it names.
pub proof fn lemma_tour_keeps_checkpoints(size: Coord, start: Coord, checkpoints: Map<i32, Coord>, t: Seq<Coord>)
    requires
        size.x > 0,
        size.y > 0,
        in_bounds(size, start.x as int, start.y as int),
        tours_of(size, start, checkpoints).contains(t),
    ensures
        keeps_checkpoints(checkpoints, t),
        forall|n: i32| 1 <= n < t.len() && #[trigger] checkpoints.contains_key(n) ==> t[n as int] == checkpoints[n],
{
    lemma_start_ok(size, start);
    lemma_tours_sound(size, knight_moves_spec(), checkpoints, seq![start], t);
    assert forall|n: i32| 1 <= n < t.len() && #[trigger] checkpoints.contains_key(n) implies t[n as int] == checkpoints[n] by {
        assert(!violates(checkpoints, n as int, t[n as int]));
    }
}

/// A checkpoint table only prunes: the tours found under it are exactly the
/// tours found without one that keep to it.
pub proof fn lemma_checkpoints_filter_tours(size: Coord, start: Coord, checkpoints: Map<i32, Coord>, t: Seq<Coord>)
    requires
        size.x > 0,
        size.y > 0,
        in_bounds(size, start.x as int, start.y as int),
    ensures
        tours_of(size, start, checkpoints).contains(t) <==> (tours_of(size, start, Map::empty()).contains(t)
            && keeps_checkpoints(checkpoints, t)),
{
    if tours_of(size, start, checkpoints).contains(t) {
        lemma_tour_keeps_checkpoints(size, start, checkpoints, t);
        lemma_tours_drop_checkpoints(size, knight_moves_spec(), checkpoints, seq![start], t);
    }
    if tours_of(size, start, Map::empty()).contains(t) && keeps_checkpoints(checkpoints, t) {
        lemma_start_ok(size, start);
        lemma_tours_add_checkpoints(size, knight_moves_spec(), checkpoints, seq![start], t);
    }
}

/// An empty checkpoint table rejects no square at any move number.
pub proof fn lemma_empty_table_rejects_nothing(n: int, c: Coord)
    ensures
        !violates(Map::<i32, Coord>::empty(), n, c),
{
}

/// A checkpoint whose square no walk of that many knight moves reaches from
/// the start leaves no tour.
pub proof fn lemma_unreachable_checkpoint(size: Coord, start: Coord, checkpoints: Map<i32, Coord>, n: i32)
    requires
        size.x > 0,
        size.y > 0,
        in_bounds(size, start.x as int, start.y as int),
        checkpoints.contains_key(n),
        1 <= n < area(size),
        !reachable_in(start, checkpoints[n], n as int),
    ensures
        tours_of(size, start, checkpoints).len() == 0,
{
    let found = tours_of(size, start, checkpoints);
    if found.len() > 0 {
        let t = found[0];
        assert(found.contains(t));
        lemma_tour_covers_board(size, start, checkpoints, t);
        lemma_tour_moves_by_knight(size, start, checkpoints, t);
        lemma_tour_keeps_checkpoints(size, start, checkpoints, t);
        let w = t.subrange(0, n + 1);
        assert(w.len() == n + 1);
        assert(w[0] == start);
        assert(w[n as int] == checkpoints[n]);
        assert forall|i: int| 1 <= i <= n implies is_knight_step(w[i - 1], #[trigger] w[i]) by {
            assert(w[i - 1] == t[i - 1] && w[i] == t[i]);
        }
        assert(reachable_in(start, checkpoints[n], n as int));
    }
}

/// A start square off the board leaves no tour, whatever the board and the
/// checkpoints.
pub proof fn lemma_off_board_start(size: Coord, start: Coord, checkpoints: Map<i32, Coord>)
    requires
        !in_bounds(size, start.x as int, start.y as int),
    ensures
        tours_of(size, start, checkpoints).len() == 0,
{
}

/// The search is determined by its configuration: the same board, offsets,
/// checkpoint table and starting path give the same tours in the same order.
/// The contracts of `find_path` and `search` speak of the table only through
/// its contents, so neither the order in which it was filled nor the order
/// in which a hash map walks it can change what they report.
pub proof fn lemma_search_deterministic(
    size: Coord,
    moves: Seq<Coord>,
    a: Map<i32, Coord>,
    b: Map<i32, Coord>,
    p: Seq<Coord>,
    q: Seq<Coord>,
)
    requires
        a == b,
        p == q,
    ensures
        tours(size, moves, a, p) == tours(size, moves, b, q),
{
}

} // verus!
