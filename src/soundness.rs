use vstd::prelude::*;
use vstd::set_lib::{lemma_int_range, lemma_subset_equality, set_int_range};
use crate::coord::{Coord, area, in_bounds, is_step};
use crate::checkpoints::violates;
use crate::tour::{admissible, is_board_tour, target, tours, tours_from};

verus! {

/// A path as the search holds it: it starts somewhere, fits on the board,
/// visits no square twice and stays on the board.
pub open spec fn path_ok(size: Coord, p: Seq<Coord>) -> bool {
    &&& 1 <= p.len() <= area(size)
    &&& p.no_duplicates()
    &&& forall|i: int| 0 <= i < p.len() ==> in_bounds(size, (#[trigger] p[i]).x as int, p[i].y as int)
}

pub proof fn lemma_contains_concat(a: Seq<Seq<Coord>>, b: Seq<Seq<Coord>>, t: Seq<Coord>)
    requires
        (a + b).contains(t),
    ensures
        a.contains(t) || b.contains(t),
{
    let i = choose|i: int| 0 <= i < (a + b).len() && (a + b)[i] == t;
    if i < a.len() {
        assert(a[i] == t);
    } else {
        assert(b[i - a.len()] == t);
    }
}

pub proof fn lemma_concat_contains(a: Seq<Seq<Coord>>, b: Seq<Seq<Coord>>, t: Seq<Coord>)
    requires
        a.contains(t) || b.contains(t),
    ensures
        (a + b).contains(t),
{
    if a.contains(t) {
        let i = choose|i: int| 0 <= i < a.len() && a[i] == t;
        assert((a + b)[i] == t);
    } else {
        let i = choose|i: int| 0 <= i < b.len() && b[i] == t;
        assert((a + b)[a.len() + i] == t);
    }
}

/// Extending a path that the search holds by an admissible offset gives one
/// that it holds too.
pub proof fn lemma_push_ok(size: Coord, moves: Seq<Coord>, checkpoints: Map<i32, Coord>, p: Seq<Coord>, k: int)
    requires
        path_ok(size, p),
        p.len() < area(size),
        0 <= k < moves.len(),
        admissible(size, checkpoints, p, moves[k]),
    ensures
        path_ok(size, p.push(target(p.last(), moves[k]))),
        is_step(moves, p.last(), target(p.last(), moves[k])),
{
    let c = target(p.last(), moves[k]);
    let q = p.push(c);
    assert(c.x == p.last().x + moves[k].x && c.y == p.last().y + moves[k].y);
    assert forall|i: int| 0 <= i < q.len() implies in_bounds(size, (#[trigger] q[i]).x as int, q[i].y as int) by {
        if i < p.len() {
            assert(q[i] == p[i]);
        }
    }
    assert forall|i: int, j: int| 0 <= i < q.len() && 0 <= j < q.len() && i != j implies q[i] != q[j] by {
        if i < p.len() && j < p.len() {
            assert(q[i] == p[i] && q[j] == p[j]);
        } else if i == p.len() {
            assert(q[j] == p[j]);
        } else {
            assert(q[i] == p[i]);
        }
    }
}

/// Each tour that the search reports from `p` extends `p`, fills the board,
/// is itself a path that the search holds, and past `p` moves by `moves` and
/// keeps to the checkpoints.
pub proof fn lemma_tours_sound(size: Coord, moves: Seq<Coord>, checkpoints: Map<i32, Coord>, p: Seq<Coord>, t: Seq<Coord>)
    requires
        path_ok(size, p),
        tours(size, moves, checkpoints, p).contains(t),
    ensures
        path_ok(size, t),
        t.len() == area(size),
        t.subrange(0, p.len() as int) == p,
        forall|i: int| p.len() <= i < t.len() ==> is_step(moves, t[i - 1], #[trigger] t[i]),
        forall|n: int| p.len() <= n < t.len() ==> !violates(checkpoints, n, #[trigger] t[n]),
    decreases area(size) - p.len(), moves.len() + 1,
{
    if p.len() >= area(size) {
        assert(tours(size, moves, checkpoints, p) == seq![p]);
        assert(t == seq![p][0]);
        assert(t.subrange(0, p.len() as int) =~= p);
    } else {
        lemma_tours_from_sound(size, moves, checkpoints, p, 0, t);
    }
}

proof fn lemma_tours_from_sound(size: Coord, moves: Seq<Coord>, checkpoints: Map<i32, Coord>, p: Seq<Coord>, k: int, t: Seq<Coord>)
    requires
        path_ok(size, p),
        p.len() < area(size),
        tours_from(size, moves, checkpoints, p, k).contains(t),
    ensures
        path_ok(size, t),
        t.len() == area(size),
        t.subrange(0, p.len() as int) == p,
        forall|i: int| p.len() <= i < t.len() ==> is_step(moves, t[i - 1], #[trigger] t[i]),
        forall|n: int| p.len() <= n < t.len() ==> !violates(checkpoints, n, #[trigger] t[n]),
    decreases area(size) - p.len(), moves.len() - k,
{
    if k < 0 || k >= moves.len() {
        assert(tours_from(size, moves, checkpoints, p, k) == Seq::<Seq<Coord>>::empty());
    } else {
        let d = moves[k];
        let c = target(p.last(), d);
        let here = if admissible(size, checkpoints, p, d) {
            tours(size, moves, checkpoints, p.push(c))
        } else {
            Seq::empty()
        };
        let rest = tours_from(size, moves, checkpoints, p, k + 1);
        assert(tours_from(size, moves, checkpoints, p, k) == here + rest);
        lemma_contains_concat(here, rest, t);
        if here.contains(t) {
            lemma_push_ok(size, moves, checkpoints, p, k);
            lemma_tours_sound(size, moves, checkpoints, p.push(c), t);
            assert(t.subrange(0, p.len() as int) =~= t.subrange(0, p.len() + 1int).subrange(0, p.len() as int));
            assert(p.push(c).subrange(0, p.len() as int) =~= p);
            assert(t[p.len() as int] == t.subrange(0, p.len() + 1int)[p.len() as int]);
            assert(t[p.len() - 1] == t.subrange(0, p.len() + 1int)[p.len() - 1]);
            assert(t[p.len() as int] == c && t[p.len() - 1] == p.last());
        } else {
            lemma_tours_from_sound(size, moves, checkpoints, p, k + 1, t);
        }
    }
}

/// A tour found under a checkpoint table is found without one too.
pub proof fn lemma_tours_drop_checkpoints(size: Coord, moves: Seq<Coord>, checkpoints: Map<i32, Coord>, p: Seq<Coord>, t: Seq<Coord>)
    requires
        tours(size, moves, checkpoints, p).contains(t),
    ensures
        tours(size, moves, Map::empty(), p).contains(t),
    decreases area(size) - p.len(), moves.len() + 1,
{
    if p.len() < area(size) && in_bounds(size, p[0].x as int, p[0].y as int) {
        lemma_tours_from_drop_checkpoints(size, moves, checkpoints, p, 0, t);
    }
}

proof fn lemma_tours_from_drop_checkpoints(size: Coord, moves: Seq<Coord>, checkpoints: Map<i32, Coord>, p: Seq<Coord>, k: int, t: Seq<Coord>)
    requires
        p.len() < area(size),
        tours_from(size, moves, checkpoints, p, k).contains(t),
    ensures
        tours_from(size, moves, Map::empty(), p, k).contains(t),
    decreases area(size) - p.len(), moves.len() - k,
{
    if k < 0 || k >= moves.len() {
        assert(tours_from(size, moves, checkpoints, p, k) == Seq::<Seq<Coord>>::empty());
    } else {
        let d = moves[k];
        let c = target(p.last(), d);
        let e = Map::<i32, Coord>::empty();
        let here = if admissible(size, checkpoints, p, d) { tours(size, moves, checkpoints, p.push(c)) } else { Seq::empty() };
        let here0 = if admissible(size, e, p, d) { tours(size, moves, e, p.push(c)) } else { Seq::empty() };
        let rest = tours_from(size, moves, checkpoints, p, k + 1);
        let rest0 = tours_from(size, moves, e, p, k + 1);
        assert(tours_from(size, moves, checkpoints, p, k) == here + rest);
        assert(tours_from(size, moves, e, p, k) == here0 + rest0);
        lemma_contains_concat(here, rest, t);
        if here.contains(t) {
            lemma_tours_drop_checkpoints(size, moves, checkpoints, p.push(c), t);
            lemma_concat_contains(here0, rest0, t);
        } else {
            lemma_tours_from_drop_checkpoints(size, moves, checkpoints, p, k + 1, t);
            lemma_concat_contains(here0, rest0, t);
        }
    }
}

/// A tour found without a checkpoint table that keeps the table from the end
/// of `p` on is found under the table too.
pub proof fn lemma_tours_add_checkpoints(size: Coord, moves: Seq<Coord>, checkpoints: Map<i32, Coord>, p: Seq<Coord>, t: Seq<Coord>)
    requires
        path_ok(size, p),
        tours(size, moves, Map::empty(), p).contains(t),
        forall|n: int| p.len() <= n < t.len() ==> !violates(checkpoints, n, #[trigger] t[n]),
    ensures
        tours(size, moves, checkpoints, p).contains(t),
    decreases area(size) - p.len(), moves.len() + 1,
{
    if p.len() < area(size) {
        lemma_tours_from_add_checkpoints(size, moves, checkpoints, p, 0, t);
    }
}

proof fn lemma_tours_from_add_checkpoints(size: Coord, moves: Seq<Coord>, checkpoints: Map<i32, Coord>, p: Seq<Coord>, k: int, t: Seq<Coord>)
    requires
        path_ok(size, p),
        p.len() < area(size),
        tours_from(size, moves, Map::empty(), p, k).contains(t),
        forall|n: int| p.len() <= n < t.len() ==> !violates(checkpoints, n, #[trigger] t[n]),
    ensures
        tours_from(size, moves, checkpoints, p, k).contains(t),
    decreases area(size) - p.len(), moves.len() - k,
{
    let e = Map::<i32, Coord>::empty();
    if k < 0 || k >= moves.len() {
        assert(tours_from(size, moves, e, p, k) == Seq::<Seq<Coord>>::empty());
    } else {
        let d = moves[k];
        let c = target(p.last(), d);
        let here = if admissible(size, checkpoints, p, d) { tours(size, moves, checkpoints, p.push(c)) } else { Seq::empty() };
        let here0 = if admissible(size, e, p, d) { tours(size, moves, e, p.push(c)) } else { Seq::empty() };
        let rest = tours_from(size, moves, checkpoints, p, k + 1);
        let rest0 = tours_from(size, moves, e, p, k + 1);
        assert(tours_from(size, moves, checkpoints, p, k) == here + rest);
        assert(tours_from(size, moves, e, p, k) == here0 + rest0);
        lemma_contains_concat(here0, rest0, t);
        if here0.contains(t) {
            lemma_push_ok(size, moves, e, p, k);
            lemma_tours_sound(size, moves, e, p.push(c), t);
            assert(t.subrange(0, p.len() + 1int)[p.len() as int] == p.push(c)[p.len() as int]);
            assert(t[p.len() as int] == t.subrange(0, p.len() + 1int)[p.len() as int]);
            assert(t[p.len() as int] == c);
            assert(admissible(size, checkpoints, p, d));
            lemma_tours_add_checkpoints(size, moves, checkpoints, p.push(c), t);
            lemma_concat_contains(here, rest, t);
        } else {
            lemma_tours_from_add_checkpoints(size, moves, checkpoints, p, k + 1, t);
            lemma_concat_contains(here, rest, t);
        }
    }
}

/// The row-major number of a square.
pub open spec fn square_index(size: Coord, c: Coord) -> int {
    c.y * size.x + c.x
}

proof fn lemma_square_index(size: Coord, a: Coord, b: Coord)
    requires
        in_bounds(size, a.x as int, a.y as int),
        in_bounds(size, b.x as int, b.y as int),
    ensures
        0 <= square_index(size, a) < area(size),
        square_index(size, a) == square_index(size, b) ==> a == b,
{
    let (w, h) = (size.x as int, size.y as int);
    let (ax, ay, bx, by) = (a.x as int, a.y as int, b.x as int, b.y as int);
    assert(0 <= ay * w + ax < w * h) by (nonlinear_arith)
        requires 0 <= ax < w, 0 <= ay < h;
    if ay * w + ax == by * w + bx {
        assert(ay == by) by (nonlinear_arith)
            requires ay * w + ax == by * w + bx, 0 <= ax < w, 0 <= bx < w;
    }
}

/// A duplicate-free sequence of squares of the board as long as the board
/// holds every square of it.
pub proof fn lemma_full_path_covers(size: Coord, s: Seq<Coord>, c: Coord)
    requires
        size.x > 0,
        size.y > 0,
        s.len() == area(size),
        s.no_duplicates(),
        forall|i: int| 0 <= i < s.len() ==> in_bounds(size, (#[trigger] s[i]).x as int, s[i].y as int),
        in_bounds(size, c.x as int, c.y as int),
    ensures
        s.contains(c),
{
    let f = |q: Coord| square_index(size, q);
    let m = s.map_values(f);
    assert forall|i: int, j: int| 0 <= i < m.len() && 0 <= j < m.len() && i != j implies m[i] != m[j] by {
        lemma_square_index(size, s[i], s[j]);
    }
    let range = set_int_range(0, area(size));
    assert forall|v: int| m.to_set().contains(v) implies range.contains(v) by {
        let i = choose|i: int| 0 <= i < m.len() && m[i] == v;
        lemma_square_index(size, s[i], s[i]);
    }
    m.unique_seq_to_set();
    lemma_int_range(0, area(size));
    lemma_subset_equality(m.to_set(), range);
    lemma_square_index(size, c, c);
    assert(range.contains(f(c)));
    assert(m.to_set().contains(f(c)));
    let i = choose|i: int| 0 <= i < m.len() && m[i] == f(c);
    lemma_square_index(size, s[i], c);
    assert(s[i] == c);
}

/// Each tour reported from a duplicate-free path whose squares after the
/// first are on the board is a permutation of the board.
pub proof fn lemma_tours_fill_board(size: Coord, moves: Seq<Coord>, checkpoints: Map<i32, Coord>, p: Seq<Coord>)
    requires
        size.x > 0,
        size.y > 0,
        1 <= p.len() <= area(size),
        p.no_duplicates(),
        forall|i: int| 1 <= i < p.len() ==> in_bounds(size, (#[trigger] p[i]).x as int, p[i].y as int),
    ensures
        forall|j: int| 0 <= j < tours(size, moves, checkpoints, p).len() ==> is_board_tour(size, #[trigger] tours(size, moves, checkpoints, p)[j]),
{
    let found = tours(size, moves, checkpoints, p);
    if in_bounds(size, p[0].x as int, p[0].y as int) {
        assert(path_ok(size, p));
        assert forall|j: int| 0 <= j < found.len() implies is_board_tour(size, #[trigger] found[j]) by {
            let t = found[j];
            assert(found.contains(t));
            lemma_tours_sound(size, moves, checkpoints, p, t);
            assert forall|c: Coord| t.contains(c) <==> in_bounds(size, c.x as int, c.y as int) by {
                if in_bounds(size, c.x as int, c.y as int) {
                    lemma_full_path_covers(size, t, c);
                }
                if t.contains(c) {
                    let i = choose|i: int| 0 <= i < t.len() && t[i] == c;
                    assert(in_bounds(size, t[i].x as int, t[i].y as int));
                }
            }
        }
    } else {
        assert(found == Seq::<Seq<Coord>>::empty());
    }
}

} // verus!
