use vstd::prelude::*;
use std::collections::HashMap;
use crate::coord::{Coord, area, in_bounds, knight_moves, knight_moves_spec};
use crate::checkpoints::{violates, fails_checkpoint};
use crate::unique_vec::UniqueVec;
use crate::soundness::lemma_tours_fill_board;

verus! {

/// The column reached from `p` by the offset `d`.
pub open spec fn target_x(p: Coord, d: Coord) -> int {
    p.x + d.x
}

/// The row reached from `p` by the offset `d`.
pub open spec fn target_y(p: Coord, d: Coord) -> int {
    p.y + d.y
}

/// The square reached from `p` by the offset `d`; exact whenever it is on a board.
pub open spec fn target(p: Coord, d: Coord) -> Coord {
    Coord { x: target_x(p, d) as i32, y: target_y(p, d) as i32 }
}

/// The search may extend `path` by the offset `d` from its last square: the
/// target is on the board, not yet visited, and breaks no checkpoint.
pub open spec fn admissible(size: Coord, checkpoints: Map<i32, Coord>, path: Seq<Coord>, d: Coord) -> bool {
    &&& in_bounds(size, target_x(path.last(), d), target_y(path.last(), d))
    &&& !path.contains(target(path.last(), d))
    &&& !violates(checkpoints, path.len() as int, target(path.last(), d))
}

/// Every complete tour that extends `path`, in the order in which the search
/// reports them. A path whose first square is off the board extends to none.
pub open spec fn tours(size: Coord, moves: Seq<Coord>, checkpoints: Map<i32, Coord>, path: Seq<Coord>) -> Seq<Seq<Coord>>
    decreases area(size) - path.len(), moves.len() + 1,
{
    if !in_bounds(size, path[0].x as int, path[0].y as int) {
        Seq::empty()
    } else if path.len() >= area(size) {
        seq![path]
    } else {
        tours_from(size, moves, checkpoints, path, 0)
    }
}

/// The tours that extend `path` by one of `moves[k..]` and then by any moves.
pub open spec fn tours_from(size: Coord, moves: Seq<Coord>, checkpoints: Map<i32, Coord>, path: Seq<Coord>, k: int) -> Seq<Seq<Coord>>
    decreases area(size) - path.len(), moves.len() - k,
{
    if k < 0 || k >= moves.len() || path.len() >= area(size) {
        Seq::empty()
    } else {
        let d = moves[k];
        let here = if admissible(size, checkpoints, path, d) {
            tours(size, moves, checkpoints, path.push(target(path.last(), d)))
        } else {
            Seq::empty()
        };
        here + tours_from(size, moves, checkpoints, path, k + 1)
    }
}

/// `t` visits every square of the board exactly once and nothing else.
pub open spec fn is_board_tour(size: Coord, t: Seq<Coord>) -> bool {
    &&& t.len() == area(size)
    &&& t.no_duplicates()
    &&& forall|c: Coord| #[trigger] t.contains(c) <==> in_bounds(size, c.x as int, c.y as int)
}

/// The contents of each path of a list.
pub open spec fn views(paths: Seq<Vec<Coord>>) -> Seq<Seq<Coord>> {
    paths.map_values(|p: Vec<Coord>| p@)
}

/// Tells whether `pos` is on the board and not yet on `path`.
pub fn is_reachable(pos: &Coord, size: &Coord, path: &Vec<Coord>) -> (r: bool)
    ensures
        r == (in_bounds(*size, pos.x as int, pos.y as int) && !path@.contains(*pos)),
{
    if pos.x < 0 || pos.y < 0 || pos.x >= size.x || pos.y >= size.y {
        return false;
    }
    let mut i: usize = 0;
    while i < path.len()
        invariant
            0 <= i <= path@.len(),
            forall|j: int| 0 <= j < i ==> path@[j] != *pos,
        decreases path@.len() - i,
    {
        if path[i] == *pos {
            return false;
        }
        i = i + 1;
    }
    true
}

/// An independent copy of a path.
fn snapshot(path: &Vec<Coord>) -> (r: Vec<Coord>)
    ensures
        r@ == path@,
{
    let mut r: Vec<Coord> = Vec::new();
    let mut i: usize = 0;
    while i < path.len()
        invariant
            0 <= i <= path@.len(),
            r@ == path@.subrange(0, i as int),
        decreases path@.len() - i,
    {
        r.push(path[i]);
        i = i + 1;
    }
    assert(r@ =~= path@);
    r
}

/// Appends to `paths` every complete tour that extends `path`, whose last
/// square is `pos`, trying the offsets of `delta` in order. `path` is left as
/// it was. Each tour appended holds every square of the board exactly once;
/// a path whose first square is off the board gets none.
pub fn find_path(
    delta: &[Coord],
    size: &Coord,
    pos: &Coord,
    path: &mut Vec<Coord>,
    paths: &mut Vec<Vec<Coord>>,
    checkpoints: &HashMap<i32, Coord>,
)
    requires
        size.x > 0,
        size.y > 0,
        old(path)@.len() >= 1,
        old(path)@.len() <= area(*size),
        *pos == old(path)@.last(),
        old(path)@.no_duplicates(),
        forall|i: int| 1 <= i < old(path)@.len() ==> in_bounds(*size, (#[trigger] old(path)@[i]).x as int, old(path)@[i].y as int),
    ensures
        final(path)@ == old(path)@,
        views(final(paths)@) == views(old(paths)@) + tours(*size, delta@, checkpoints@, old(path)@),
        forall|i: int| old(paths)@.len() <= i < final(paths)@.len() ==> is_board_tour(*size, (#[trigger] final(paths)@[i])@),
{
    let ghost before = paths@;
    let ghost found = tours(*size, delta@, checkpoints@, path@);
    proof {
        lemma_tours_fill_board(*size, delta@, checkpoints@, path@);
    }
    explore(delta, size, pos, path, paths, checkpoints);
    assert forall|i: int| before.len() <= i < paths@.len() implies is_board_tour(*size, (#[trigger] paths@[i])@) by {
        assert(views(paths@).len() == paths@.len());
        assert(views(before).len() == before.len());
        assert(views(paths@)[i] == paths@[i]@);
        assert(views(paths@)[i] == found[i - before.len()]);
    }
}

/// The recursion behind `find_path`.
#[verifier::loop_isolation(false)]
fn explore(
    delta: &[Coord],
    size: &Coord,
    pos: &Coord,
    path: &mut Vec<Coord>,
    paths: &mut Vec<Vec<Coord>>,
    checkpoints: &HashMap<i32, Coord>,
)
    requires
        size.x > 0,
        size.y > 0,
        old(path)@.len() >= 1,
        old(path)@.len() <= area(*size),
        *pos == old(path)@.last(),
    ensures
        final(path)@ == old(path)@,
        views(final(paths)@) == views(old(paths)@) + tours(*size, delta@, checkpoints@, old(path)@),
    decreases area(*size) - path@.len(),
{
    let ghost path0 = path@;
    let first = path[0];
    if first.x < 0 || first.y < 0 || first.x >= size.x || first.y >= size.y {
        assert(views(paths@) + Seq::<Seq<Coord>>::empty() =~= views(paths@));
        return;
    }
    let ghost paths0 = views(paths@);
    proof {
        let (w, h) = (size.x as int, size.y as int);
        assert(0 < w * h <= 0x7fff_ffff * 0x7fff_ffff) by (nonlinear_arith)
            requires 0 < w <= 0x7fff_ffff, 0 < h <= 0x7fff_ffff;
    }
    let squares: i64 = (size.x as i64) * (size.y as i64);
    if path.len() as u128 >= squares as u128 {
        let copy = snapshot(path);
        paths.push(copy);
        proof {
            assert(views(paths@) =~= paths0.push(copy@));
            assert(tours(*size, delta@, checkpoints@, path0) == seq![path0]);
            assert(paths0.push(copy@) =~= paths0 + seq![path0]);
        }
        return;
    }
    assert(tours(*size, delta@, checkpoints@, path0) == tours_from(*size, delta@, checkpoints@, path0, 0));
    let mut k: usize = 0;
    while k < delta.len()
        invariant
            path@ == path0,
            0 <= k <= delta@.len(),
            size.x > 0,
            size.y > 0,
            path0.len() >= 1,
            path0.len() < area(*size),
            *pos == path0.last(),
            paths0 + tours_from(*size, delta@, checkpoints@, path0, 0)
                == views(paths@) + tours_from(*size, delta@, checkpoints@, path0, k as int),
        decreases delta@.len() - k,
    {
        let d = delta[k];
        let nx: i64 = pos.x as i64 + d.x as i64;
        let ny: i64 = pos.y as i64 + d.y as i64;
        let ghost before = views(paths@);
        let ghost rest = tours_from(*size, delta@, checkpoints@, path0, k as int + 1);
        assert(tours_from(*size, delta@, checkpoints@, path0, k as int) == (if admissible(*size, checkpoints@, path0, d) {
            tours(*size, delta@, checkpoints@, path0.push(target(path0.last(), d)))
        } else {
            Seq::empty()
        }) + rest);
        if nx < 0 || ny < 0 || nx >= size.x as i64 || ny >= size.y as i64 {
            assert(!admissible(*size, checkpoints@, path0, d));
            assert(tours_from(*size, delta@, checkpoints@, path0, k as int) =~= rest);
            k = k + 1;
            continue;
        }
        let new_pos = Coord { x: nx as i32, y: ny as i32 };
        assert(new_pos == target(path0.last(), d));
        if !is_reachable(&new_pos, size, path) {
            assert(tours_from(*size, delta@, checkpoints@, path0, k as int) =~= rest);
            k = k + 1;
            continue;
        }
        if fails_checkpoint(&new_pos, path, checkpoints) {
            assert(tours_from(*size, delta@, checkpoints@, path0, k as int) =~= rest);
            k = k + 1;
            continue;
        }
        assert(admissible(*size, checkpoints@, path0, d));
        path.upush(new_pos);
        assert(path@ == path0.push(new_pos));
        explore(delta, size, &new_pos, path, paths, checkpoints);
        let ghost found = tours(*size, delta@, checkpoints@, path0.push(new_pos));
        path.pop();
        assert(path@ =~= path0);
        assert(views(paths@) == before + found);
        assert(before + found + rest =~= before + (found + rest));
        k = k + 1;
    }
    assert(tours_from(*size, delta@, checkpoints@, path0, k as int) =~= Seq::empty());
    assert(views(paths@) + Seq::<Seq<Coord>>::empty() =~= views(paths@));
}

/// Every complete knight's tour of a board of `size.x` columns and `size.y`
/// rows that enters at `start` and keeps to `checkpoints`, in the order in
/// which the search finds them. Each holds every square of the board exactly
/// once; a start square off the board gives none.
pub fn search(size: &Coord, start: &Coord, checkpoints: &HashMap<i32, Coord>) -> (r: Vec<Vec<Coord>>)
    requires
        size.x > 0,
        size.y > 0,
    ensures
        views(r@) == tours(*size, knight_moves_spec(), checkpoints@, seq![*start]),
        forall|i: int| 0 <= i < r@.len() ==> is_board_tour(*size, (#[trigger] r@[i])@),
        !in_bounds(*size, start.x as int, start.y as int) ==> r@.len() == 0,
{
    proof {
        let (w, h) = (size.x as int, size.y as int);
        assert(w * h >= 1) by (nonlinear_arith)
            requires w > 0, h > 0;
    }
    let delta = knight_moves();
    let mut paths: Vec<Vec<Coord>> = Vec::new();
    let mut path: Vec<Coord> = Vec::new();
    path.upush(*start);
    assert(path@ =~= seq![*start]);
    find_path(delta.as_slice(), size, start, &mut path, &mut paths, checkpoints);
    assert(views(Seq::<Vec<Coord>>::empty()) =~= Seq::empty());
    assert(Seq::<Seq<Coord>>::empty() + tours(*size, knight_moves_spec(), checkpoints@, seq![*start])
        =~= tours(*size, knight_moves_spec(), checkpoints@, seq![*start]));
    assert(views(paths@).len() == paths@.len());
    paths
}

} // verus!
