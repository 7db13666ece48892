use vstd::prelude::*;
use crate::grid::{
    Grid, News, MAP_GRIDS_WIDTH, MAP_GRIDS_HEIGHT, in_map, spec_step, adjacent, manhattan,
    spec_back_side, lemma_step_back,
};
use crate::map::{MapInfo, side_spaces, cell_space};
use crate::search_measure::{
    queue_measure, path_weight, lemma_measure_push, lemma_measure_update, lemma_measure_front,
    lemma_distinct_grids_bound, lemma_weight_step, lemma_pow5_pos, map_grid_count,
};

verus! {

/// No grid of the maze that is not a wall is a dead end: each has at least two
/// neighbours that are not walls.
#[verifier::opaque]
pub open spec fn no_dead_ends(c: Seq<Seq<crate::map::MapObj>>) -> bool {
    forall|g: Grid| cell_space(c, g) ==> #[trigger] side_spaces(c, g).len() >= 2
}

/// A walk over the maze: every grid is not a wall, each grid is next to the one before,
/// and no grid comes twice.
pub open spec fn is_walk(c: Seq<Seq<crate::map::MapObj>>, p: Seq<Grid>) -> bool {
    &&& forall|i: int| 0 <= i < p.len() ==> cell_space(c, #[trigger] p[i])
    &&& forall|i: int| 0 <= i < p.len() - 1 ==> #[trigger] adjacent(p[i], p[i + 1])
    &&& p.no_duplicates()
}

/// A walk that starts by stepping from `previous` to `target`.
pub open spec fn is_walk_from(
    c: Seq<Seq<crate::map::MapObj>>,
    p: Seq<Grid>,
    previous: Grid,
    target: Grid,
) -> bool {
    &&& p.len() >= 2
    &&& p[0] == previous
    &&& p[1] == target
    &&& is_walk(c, p)
}

/// A walk from `previous` through `target` that ends on a chaser.
pub open spec fn is_risk_path(
    c: Seq<Seq<crate::map::MapObj>>,
    p: Seq<Grid>,
    previous: Grid,
    target: Grid,
    chasers: Seq<Grid>,
) -> bool {
    &&& is_walk_from(c, p, previous, target)
    &&& chasers.contains(p.last())
}

/// A grid with at least three neighbours that are not walls.
pub open spec fn is_crossing(c: Seq<Seq<crate::map::MapObj>>, g: Grid) -> bool {
    side_spaces(c, g).len() >= 3
}

/// No crossing lies on the walk (from its third grid on) before its middle, so the
/// player could not turn away before meeting the chaser.
pub open spec fn no_early_crossing(c: Seq<Seq<crate::map::MapObj>>, p: Seq<Grid>) -> bool {
    forall|i: int| 2 <= i < p.len() && #[trigger] is_crossing(c, p[i]) ==> 2 * i >= p.len() - 1
}

/// The index of the first crossing of `p` at index `from` or later, if any.
pub open spec fn first_crossing(c: Seq<Seq<crate::map::MapObj>>, p: Seq<Grid>, from: int) -> Option<int>
    decreases p.len() - from,
{
    if from >= p.len() {
        None
    } else if is_crossing(c, p[from]) {
        Some(from)
    } else {
        first_crossing(c, p, from + 1)
    }
}

pub proof fn lemma_first_crossing(c: Seq<Seq<crate::map::MapObj>>, p: Seq<Grid>, from: int)
    requires
        0 <= from,
    ensures
        first_crossing(c, p, from) matches Some(i) ==> from <= i < p.len() && is_crossing(c, p[i])
            && forall|j: int| from <= j < i ==> !#[trigger] is_crossing(c, p[j]),
        first_crossing(c, p, from) is None ==> forall|j: int| from <= j < p.len() ==> !#[trigger] is_crossing(c, p[j]),
    decreases p.len() - from,
{
    if from < p.len() && !is_crossing(c, p[from]) {
        lemma_first_crossing(c, p, from + 1);
    }
}

/// The smaller of the map's width plus height and the distances from `t` to each chaser.
pub open spec fn spec_heuristic(t: Grid, chasers: Seq<Grid>) -> int
    decreases chasers.len(),
{
    if chasers.len() == 0 {
        (MAP_GRIDS_WIDTH + MAP_GRIDS_HEIGHT) as int
    } else {
        let rest = spec_heuristic(t, chasers.drop_last());
        let d = manhattan(t, chasers.last());
        if d < rest { d } else { rest }
    }
}

/// Whether the vector holds `g`.
fn grids_contain(v: &Vec<Grid>, g: Grid) -> (r: bool)
    ensures
        r == v@.contains(g),
{
    let mut i: usize = 0;
    while i < v.len()
        invariant
            0 <= i <= v@.len(),
            forall|k: int| 0 <= k < i ==> v@[k] != g,
        decreases v@.len() - i,
    {
        if v[i] == g {
            return true;
        }
        i = i + 1;
    }
    false
}

/// The distance from `target` to the nearest chaser, roughly: horizontal plus vertical
/// distance, and never more than the map's width plus height.
fn heuristic(target: Grid, chasers: &Vec<Grid>) -> (r: i32)
    requires
        in_map(target),
        forall|i: int| 0 <= i < chasers@.len() ==> in_map(#[trigger] chasers@[i]),
    ensures
        r == spec_heuristic(target, chasers@),
{
    let mut shortest: i32 = MAP_GRIDS_WIDTH + MAP_GRIDS_HEIGHT;
    let mut i: usize = 0;
    while i < chasers.len()
        invariant
            0 <= i <= chasers@.len(),
            in_map(target),
            forall|k: int| 0 <= k < chasers@.len() ==> in_map(#[trigger] chasers@[k]),
            shortest == spec_heuristic(target, chasers@.subrange(0, i as int)),
            0 <= shortest <= MAP_GRIDS_WIDTH + MAP_GRIDS_HEIGHT,
        decreases chasers@.len() - i,
    {
        let c = chasers[i];
        let dx: i32 = if target.x >= c.x { target.x - c.x } else { c.x - target.x };
        let dy: i32 = if target.y >= c.y { target.y - c.y } else { c.y - target.y };
        let w_and_h = dx + dy;
        proof {
            let s = chasers@.subrange(0, i + 1);
            assert(s.drop_last() =~= chasers@.subrange(0, i as int));
            assert(s.last() == c);
        }
        if w_and_h < shortest {
            shortest = w_and_h;
        }
        i = i + 1;
    }
    assert(chasers@.subrange(0, chasers@.len() as int) =~= chasers@);
    shortest
}

/// The sides that do not step back onto `previous`, in their order.
fn sides_without_back(target: Grid, previous: Grid, sides: &Vec<News>) -> (r: Vec<News>)
    requires
        in_map(target),
    ensures
        r@ == sides@.filter(|s: News| spec_step(target, s) != previous),
{
    let ghost pred = |s: News| spec_step(target, s) != previous;
    let mut r: Vec<News> = Vec::new();
    let mut i: usize = 0;
    while i < sides.len()
        invariant
            0 <= i <= sides@.len(),
            in_map(target),
            pred == (|s: News| spec_step(target, s) != previous),
            r@ == sides@.subrange(0, i as int).filter(pred),
        decreases sides@.len() - i,
    {
        proof {
            reveal_with_fuel(Seq::<_>::filter, 1);
            assert(sides@.subrange(0, i + 1).drop_last() =~= sides@.subrange(0, i as int));
        }
        if target.step(sides[i]) != previous {
            r.push(sides[i]);
        }
        i = i + 1;
    }
    assert(sides@.subrange(0, sides@.len() as int) =~= sides@);
    r
}

/// The sides reordered so that the ones leading closer to a chaser come first; sides
/// that are as close keep their order.
fn sort_by_heuristic(target: Grid, sides: &Vec<News>, chasers: &Vec<Grid>) -> (r: Vec<News>)
    requires
        in_map(target),
        forall|i: int| 0 <= i < sides@.len() ==> in_map(spec_step(target, #[trigger] sides@[i])),
        forall|i: int| 0 <= i < chasers@.len() ==> in_map(#[trigger] chasers@[i]),
    ensures
        r@.len() == sides@.len(),
        forall|i: int| 0 <= i < r@.len() ==> sides@.contains(#[trigger] r@[i]),
        forall|s: News| sides@.contains(s) ==> #[trigger] r@.contains(s),
        forall|i: int, j: int| 0 <= i < j < r@.len()
            ==> spec_heuristic(spec_step(target, #[trigger] r@[i]), chasers@)
                <= spec_heuristic(spec_step(target, #[trigger] r@[j]), chasers@),
{
    let ghost key = |s: News| spec_heuristic(spec_step(target, s), chasers@);
    let mut r: Vec<News> = Vec::new();
    let mut keys: Vec<i32> = Vec::new();
    let mut i: usize = 0;
    while i < sides.len()
        invariant
            0 <= i <= sides@.len(),
            in_map(target),
            forall|k: int| 0 <= k < sides@.len() ==> in_map(spec_step(target, #[trigger] sides@[k])),
            forall|k: int| 0 <= k < chasers@.len() ==> in_map(#[trigger] chasers@[k]),
            key == (|s: News| spec_heuristic(spec_step(target, s), chasers@)),
            r@.len() == i,
            keys@.len() == i,
            forall|k: int| 0 <= k < i ==> sides@.subrange(0, i as int).contains(#[trigger] r@[k]),
            forall|t: News| sides@.subrange(0, i as int).contains(t) ==> #[trigger] r@.contains(t),
            forall|k: int| 0 <= k < i ==> #[trigger] keys@[k] == key(r@[k]),
            forall|a: int, b: int| 0 <= a < b < i ==> #[trigger] keys@[a] <= #[trigger] keys@[b],
        decreases sides@.len() - i,
    {
        let s = sides[i];
        let k = heuristic(target.step(s), chasers);
        // stable: insert after every side whose key is not larger
        let mut pos: usize = 0;
        while pos < r.len() && keys[pos] <= k
            invariant
                0 <= pos <= r@.len(),
                r@.len() == keys@.len(),
                forall|a: int| 0 <= a < pos ==> #[trigger] keys@[a] <= k,
            decreases r@.len() - pos,
        {
            pos = pos + 1;
        }
        let ghost old_r = r@;
        let ghost old_keys = keys@;
        r.insert(pos, s);
        keys.insert(pos, k);
        proof {
            assert forall|a: int, b: int| 0 <= a < b < i + 1 implies #[trigger] keys@[a] <= #[trigger] keys@[b] by {
                if b < pos {
                } else if b == pos {
                    assert(keys@[a] == old_keys[a]);
                } else if a == pos {
                    assert(keys@[b] == old_keys[b - 1]);
                    if pos < old_keys.len() {
                        assert(!(old_keys[pos as int] <= k));
                        assert(old_keys[pos as int] <= old_keys[b - 1] || b - 1 == pos);
                    }
                } else if a < pos {
                    assert(keys@[b] == old_keys[b - 1]);
                } else {
                    assert(keys@[a] == old_keys[a - 1]);
                    assert(keys@[b] == old_keys[b - 1]);
                }
            }
            assert forall|x: int| 0 <= x < i + 1 implies sides@.subrange(0, i + 1).contains(#[trigger] r@[x]) by {
                if x == pos {
                    assert(sides@.subrange(0, i + 1)[i as int] == s);
                } else if x < pos {
                    assert(old_r.contains(r@[x]));
                    let w = choose|w: int| 0 <= w < i && sides@.subrange(0, i as int)[w] == r@[x];
                    assert(sides@.subrange(0, i + 1)[w] == r@[x]);
                } else {
                    assert(r@[x] == old_r[x - 1]);
                    let w = choose|w: int| 0 <= w < i && sides@.subrange(0, i as int)[w] == r@[x];
                    assert(sides@.subrange(0, i + 1)[w] == r@[x]);
                }
            }
            assert forall|t: News| sides@.subrange(0, i + 1).contains(t) implies #[trigger] r@.contains(t) by {
                assert(sides@.subrange(0, i + 1) =~= sides@.subrange(0, i as int).push(s));
                vstd::seq_lib::lemma_seq_contains_after_push(sides@.subrange(0, i as int), s, t);
                if t == s {
                    assert(r@[pos as int] == t);
                } else {
                    assert(old_r.contains(t));
                    let k = choose|k: int| 0 <= k < old_r.len() && old_r[k] == t;
                    if k < pos {
                        assert(r@[k] == t);
                    } else {
                        assert(r@[k + 1] == t);
                    }
                }
            }
            assert forall|x: int| 0 <= x < i + 1 implies #[trigger] keys@[x] == key(r@[x]) by {
                if x < pos {
                } else if x == pos {
                } else {
                    assert(keys@[x] == old_keys[x - 1]);
                    assert(r@[x] == old_r[x - 1]);
                }
            }
        }
        i = i + 1;
    }
    assert(sides@.subrange(0, sides@.len() as int) =~= sides@);
    assert(forall|t: News| sides@.contains(t) ==> #[trigger] r@.contains(t));
    assert forall|a: int, b: int| 0 <= a < b < r@.len()
        implies spec_heuristic(spec_step(target, #[trigger] r@[a]), chasers@)
            <= spec_heuristic(spec_step(target, #[trigger] r@[b]), chasers@) by {
        assert(keys@[a] == key(r@[a]));
        assert(keys@[b] == key(r@[b]));
        assert(keys@[a] <= keys@[b]);
    }
    r
}

/// The paths of a queue as sequences.
pub open spec fn paths_view(ps: Seq<Vec<Grid>>) -> Seq<Seq<Grid>> {
    ps.map_values(|v: Vec<Grid>| v@)
}

/// Every path of the queue from `head` on is a walk from `previous` through `target`.
#[verifier::opaque]
pub open spec fn queue_ok(
    c: Seq<Seq<crate::map::MapObj>>,
    ps: Seq<Seq<Grid>>,
    head: int,
    previous: Grid,
    target: Grid,
) -> bool {
    forall|j: int| head <= j < ps.len() ==> is_walk_from(c, #[trigger] ps[j], previous, target)
}

pub proof fn lemma_side_spaces(c: Seq<Seq<crate::map::MapObj>>, g: Grid)
    ensures
        side_spaces(c, g).len() <= 4,
        side_spaces(c, g).no_duplicates(),
        forall|i: int| 0 <= i < side_spaces(c, g).len()
            ==> cell_space(c, spec_step(g, #[trigger] side_spaces(c, g)[i])),
        forall|d: News| cell_space(c, spec_step(g, d)) ==> #[trigger] side_spaces(c, g).contains(d),
{
    let s = side_spaces(c, g);
    let n = cell_space(c, spec_step(g, News::North));
    let e = cell_space(c, spec_step(g, News::East));
    let w = cell_space(c, spec_step(g, News::West));
    let so = cell_space(c, spec_step(g, News::South));
    assert forall|d: News| cell_space(c, spec_step(g, d)) implies #[trigger] s.contains(d) by {
        let k: int = (if n { 1int } else { 0int });
        let k2: int = k + (if e { 1int } else { 0int });
        let k3: int = k2 + (if w { 1int } else { 0int });
        match d {
            News::North => { assert(s[0] == d); }
            News::East => { assert(s[k] == d); }
            News::West => { assert(s[k2] == d); }
            News::South => { assert(s[k3] == d); }
        }
    }
}

/// A copy of a path.
fn copy_path(v: &Vec<Grid>) -> (r: Vec<Grid>)
    ensures
        r@ == v@,
{
    let mut r: Vec<Grid> = Vec::new();
    let mut i: usize = 0;
    while i < v.len()
        invariant
            0 <= i <= v@.len(),
            r@ == v@.subrange(0, i as int),
        decreases v@.len() - i,
    {
        r.push(v[i]);
        i = i + 1;
    }
    assert(v@.subrange(0, v@.len() as int) =~= v@);
    r
}

/// Adding one grid, not yet on a walk, that is next to its last grid and not a wall
/// keeps it a walk.
proof fn lemma_walk_extend(
    c: Seq<Seq<crate::map::MapObj>>,
    p: Seq<Grid>,
    d: News,
    previous: Grid,
    target: Grid,
)
    requires
        is_walk_from(c, p, previous, target),
        cell_space(c, spec_step(p.last(), d)),
        !p.contains(spec_step(p.last(), d)),
    ensures
        is_walk_from(c, p.push(spec_step(p.last(), d)), previous, target),
{
    let q = p.push(spec_step(p.last(), d));
    assert forall|i: int| 0 <= i < q.len() - 1 implies #[trigger] adjacent(q[i], q[i + 1]) by {
        if i == p.len() - 1 {
            assert(spec_step(q[i], d) == q[i + 1]);
        } else {
            assert(adjacent(p[i], p[i + 1]));
        }
    }
    assert forall|i: int, j: int| 0 <= i < q.len() && 0 <= j < q.len() && i != j implies q[i] != q[j] by {
        if i == p.len() as int {
            assert(q[j] == p[j]);
            if q[i] == q[j] {
                assert(p.contains(q[i]));
            }
        } else if j == p.len() as int {
            assert(q[i] == p[i]);
            if q[i] == q[j] {
                assert(p.contains(q[j]));
            }
        } else {
            assert(q[i] == p[i] && q[j] == p[j]);
        }
    }
}

/// Some path of the queue from index `from` on is `p`.
pub open spec fn queued_from(ps: Seq<Seq<Grid>>, from: int, p: Seq<Grid>) -> bool {
    exists|j: int| from <= j < ps.len() && #[trigger] ps[j] == p
}

/// `q` is `cur` extended by one of the sides after the first.
pub open spec fn is_branch_of(q: Seq<Grid>, cur: Seq<Grid>, target: Grid, sides: Seq<News>) -> bool {
    exists|k: int| 1 <= k < sides.len() && q == cur.push(spec_step(target, #[trigger] sides[k]))
}

/// Queues a copy of the current path extended by each side after the first that leads
/// to a grid not yet on it.
fn push_branches(
    paths: &mut Vec<Vec<Grid>>,
    head: usize,
    target: Grid,
    sides: &Vec<News>,
    Ghost(c): Ghost<Seq<Seq<crate::map::MapObj>>>,
    Ghost(previous0): Ghost<Grid>,
    Ghost(target0): Ghost<Grid>,
)
    requires
        head < old(paths)@.len(),
        queue_ok(c, paths_view(old(paths)@), head as int, previous0, target0),
        paths_view(old(paths)@)[head as int].last() == target,
        1 <= sides@.len() <= 4,
        forall|i: int| 0 <= i < sides@.len() ==> cell_space(c, spec_step(target, #[trigger] sides@[i])),
    ensures
        final(paths)@.len() >= old(paths)@.len(),
        forall|j: int| 0 <= j < old(paths)@.len() ==> #[trigger] paths_view(final(paths)@)[j] == paths_view(old(paths)@)[j],
        queue_ok(c, paths_view(final(paths)@), head as int, previous0, target0),
        5 * queue_measure(paths_view(final(paths)@).subrange(head as int, final(paths)@.len() as int))
            <= 5 * queue_measure(paths_view(old(paths)@).subrange(head as int, old(paths)@.len() as int))
                + 3 * path_weight(paths_view(old(paths)@)[head as int]),
        forall|k: int| 1 <= k < sides@.len()
            && !paths_view(old(paths)@)[head as int].contains(spec_step(target, #[trigger] sides@[k]))
            ==> queued_from(paths_view(final(paths)@), old(paths)@.len() as int,
                paths_view(old(paths)@)[head as int].push(spec_step(target, sides@[k]))),
        forall|j: int| old(paths)@.len() <= j < final(paths)@.len() ==> is_branch_of(
            #[trigger] paths_view(final(paths)@)[j], paths_view(old(paths)@)[head as int], target, sides@),
{
    let ghost start = paths_view(paths@);
    let ghost old_len = paths@.len();
    let ghost cur = start[head as int];
    let ghost m0 = queue_measure(start.subrange(head as int, old_len as int));
    proof {
        reveal(queue_ok);
        assert(is_walk_from(c, cur, previous0, target0));
    }
    let ghost w = path_weight(cur);
    let ghost mut bound: int = 0;
    let mut k: usize = 1;
    while k < sides.len()
        invariant
            1 <= k <= sides@.len() <= 4,
            head < old_len <= paths@.len(),
            forall|i: int| 0 <= i < sides@.len() ==> cell_space(c, spec_step(target, #[trigger] sides@[i])),
            forall|j: int| 0 <= j < old_len ==> #[trigger] paths_view(paths@)[j] == start[j],
            queue_ok(c, paths_view(paths@), head as int, previous0, target0),
            is_walk_from(c, cur, previous0, target0),
            cur.last() == target,
            cur == start[head as int],
            w == path_weight(cur),
            k == 1 ==> bound == 0,
            k == 2 ==> bound <= w,
            k == 3 ==> bound <= 2 * w,
            k == 4 ==> bound <= 3 * w,
            0 <= bound,
            5 * queue_measure(paths_view(paths@).subrange(head as int, paths@.len() as int)) <= 5 * m0 + bound,
            forall|kk: int| 1 <= kk < k && !cur.contains(spec_step(target, #[trigger] sides@[kk]))
                ==> queued_from(paths_view(paths@), old_len as int, cur.push(spec_step(target, sides@[kk]))),
            forall|j: int| old_len <= j < paths@.len() ==> is_branch_of(
                #[trigger] paths_view(paths@)[j], cur, target, sides@),
        decreases sides@.len() - k,
    {
        proof {
            assert(paths_view(paths@)[head as int] == cur);
            assert(in_map(target));
        }
        let byway = target.step(sides[k]);
        if !grids_contain(&paths[head], byway) {
            let mut np = copy_path(&paths[head]);
            np.push(byway);
            let ghost before = paths_view(paths@);
            proof {
                reveal(queue_ok);
                lemma_walk_extend(c, cur, sides@[k as int], previous0, target0);
                lemma_distinct_grids_bound(np@);
                lemma_weight_step(cur, np@);
            }
            paths.push(np);
            proof {
                let after = paths_view(paths@);
                assert(after =~= before.push(np@));
                assert(after.subrange(head as int, after.len() as int)
                    =~= before.subrange(head as int, before.len() as int).push(np@));
                lemma_measure_push(before.subrange(head as int, before.len() as int), np@);
                assert forall|j: int| head <= j < after.len() implies is_walk_from(c, #[trigger] after[j], previous0, target0) by {
                    if j < before.len() {
                        assert(after[j] == before[j]);
                    }
                }
                reveal(queue_ok);
                bound = bound + w;
                assert(after[after.len() - 1] == cur.push(spec_step(target, sides@[k as int])));
                assert forall|kk: int| 1 <= kk < k + 1 && !cur.contains(spec_step(target, #[trigger] sides@[kk]))
                    implies queued_from(after, old_len as int, cur.push(spec_step(target, sides@[kk]))) by {
                    if kk < k {
                        assert(queued_from(before, old_len as int, cur.push(spec_step(target, sides@[kk]))));
                        let j0 = choose|j: int| old_len <= j < before.len()
                            && #[trigger] before[j] == cur.push(spec_step(target, sides@[kk]));
                        assert(after[j0] == before[j0]);
                    } else {
                        assert(after[after.len() - 1] == cur.push(spec_step(target, sides@[kk])));
                    }
                }
                assert forall|j: int| old_len <= j < after.len() implies is_branch_of(
                    #[trigger] after[j], cur, target, sides@) by {
                    if j < before.len() {
                        assert(after[j] == before[j]);
                        assert(is_branch_of(before[j], cur, target, sides@));
                    } else {
                        assert(after[j] == cur.push(spec_step(target, sides@[k as int])));
                    }
                }
            }
        }
        k = k + 1;
    }
}

/// The index of the first crossing on the path from its third grid on.
fn find_crossing(path: &Vec<Grid>, map: &MapInfo) -> (r: Option<usize>)
    requires
        map.wf(),
        forall|i: int| 0 <= i < path@.len() ==> in_map(#[trigger] path@[i]),
    ensures
        match r {
            Some(i) => first_crossing(map.cells(), path@, 2) == Some(i as int),
            None => first_crossing(map.cells(), path@, 2) is None,
        },
{
    let ghost c = map.cells();
    let mut i: usize = 2;
    while i < path.len()
        invariant
            2 <= i,
            i <= path@.len() || path@.len() < 2,
            map.wf(),
            c == map.cells(),
            forall|k: int| 0 <= k < path@.len() ==> in_map(#[trigger] path@[k]),
            first_crossing(c, path@, 2) == first_crossing(c, path@, i as int),
        decreases path@.len() - i,
    {
        let count_byways = map.get_side_spaces_list(path[i]).len();
        if count_byways >= 3 {
            return Some(i);
        }
        i = i + 1;
    }
    None
}

/// The sides from `target` other than the way back to `previous`, those closer to a
/// chaser first.
fn forward_sides(target: Grid, previous: Grid, chasers: &Vec<Grid>, map: &MapInfo) -> (sides: Vec<News>)
    requires
        map.wf(),
        no_dead_ends(map.cells()),
        map.space_at(target),
        map.space_at(previous),
        adjacent(previous, target),
        forall|i: int| 0 <= i < chasers@.len() ==> in_map(#[trigger] chasers@[i]),
    ensures
        1 <= sides@.len() <= 4,
        forall|i: int| 0 <= i < sides@.len() ==> cell_space(map.cells(), spec_step(target, #[trigger] sides@[i])),
        forall|d: News| cell_space(map.cells(), spec_step(target, d)) && spec_step(target, d) != previous
            ==> #[trigger] sides@.contains(d),
{
    let ghost c = map.cells();
    let sides_all = map.get_side_spaces_list(target);
    let sides_fwd = sides_without_back(target, previous, &sides_all);
    proof {
        lemma_side_spaces(c, target);
        let pred = |s: News| spec_step(target, s) != previous;
        let d = choose|d: News| #[trigger] spec_step(previous, d) == target;
        lemma_step_back(previous, d);
        reveal(no_dead_ends);
        assert(side_spaces(c, target).len() >= 2);
        let i0: int = if pred(sides_all@[0]) { 0 } else { 1 };
        assert(pred(sides_all@[i0])) by {
            if !pred(sides_all@[0]) {
                assert(sides_all@[0] != sides_all@[1]);
                if !pred(sides_all@[1]) {
                    assert(spec_step(target, sides_all@[0]) == spec_step(target, sides_all@[1]));
                }
            }
        }
        sides_all@.lemma_filter_contains(pred, i0);
        sides_all@.lemma_filter_len(pred);
        assert forall|i: int| 0 <= i < sides_fwd@.len()
            implies cell_space(c, spec_step(target, #[trigger] sides_fwd@[i])) by {
            assert(sides_fwd@.contains(sides_fwd@[i]));
            sides_all@.lemma_filter_contains_rev(pred, sides_fwd@[i]);
        }
    }
    let sides = sort_by_heuristic(target, &sides_fwd, chasers);
    proof {
        let pred = |s: News| spec_step(target, s) != previous;
        assert forall|d: News| cell_space(c, spec_step(target, d)) && spec_step(target, d) != previous
            implies #[trigger] sides@.contains(d) by {
            assert(sides_all@.contains(d));
            let k = choose|k: int| 0 <= k < sides_all@.len() && sides_all@[k] == d;
            sides_all@.lemma_filter_contains(pred, k);
            assert(sides_fwd@.contains(d));
        }
    }
    proof {
        assert forall|i: int| 0 <= i < sides@.len()
            implies cell_space(c, spec_step(target, #[trigger] sides@[i])) by {
            assert(sides_fwd@.contains(sides@[i]));
        }
    }
    sides
}

/// No chaser stands on the walk between its first and its last grid.
pub open spec fn inner_free(p: Seq<Grid>, chasers: Seq<Grid>) -> bool {
    forall|i: int| 1 <= i < p.len() - 1 ==> !chasers.contains(#[trigger] p[i])
}

/// A walk from `previous` through `target` that ends on a chaser and meets none before.
pub open spec fn is_chaser_walk(
    c: Seq<Seq<crate::map::MapObj>>,
    w: Seq<Grid>,
    previous: Grid,
    target: Grid,
    chasers: Seq<Grid>,
) -> bool {
    &&& is_risk_path(c, w, previous, target, chasers)
    &&& inner_free(w, chasers)
}

/// `p` is the beginning of `w`.
pub open spec fn is_prefix_of(p: Seq<Grid>, w: Seq<Grid>) -> bool {
    p.len() <= w.len() && w.subrange(0, p.len() as int) == p
}

/// Every walk to a chaser is at least as long as the shortest found so far, or starts with
/// a path of the queue from `head` on that is still to be followed.
#[verifier::opaque]
pub open spec fn search_covers(
    c: Seq<Seq<crate::map::MapObj>>,
    ps: Seq<Seq<Grid>>,
    head: int,
    risk: Option<usize>,
    previous: Grid,
    target: Grid,
    chasers: Seq<Grid>,
) -> bool {
    forall|w: Seq<Grid>| #[trigger] is_chaser_walk(c, w, previous, target, chasers) ==> (
        (risk matches Some(n) && w.len() >= n)
        || exists|j: int| head <= j < ps.len() && is_prefix_of(#[trigger] ps[j], w))
}

/// No path of the queue from `head` on meets a chaser before its last grid.
#[verifier::opaque]
pub open spec fn queue_inner_free(ps: Seq<Seq<Grid>>, head: int, chasers: Seq<Grid>) -> bool {
    forall|j: int| head <= j < ps.len() ==> inner_free(#[trigger] ps[j], chasers)
}

/// A path that ends on a chaser is the whole of any walk to a chaser that starts with it.
proof fn lemma_prefix_on_chaser(p: Seq<Grid>, w: Seq<Grid>, chasers: Seq<Grid>)
    requires
        p.len() >= 2,
        is_prefix_of(p, w),
        inner_free(w, chasers),
        chasers.contains(p.last()),
    ensures
        w.len() == p.len(),
{
    if w.len() > p.len() {
        let i = p.len() - 1;
        assert(w[i] == p[i]);
        assert(!chasers.contains(w[i]));
    }
}

/// Once the path at `head` meets a chaser and the shortest length is updated with it,
/// the paths after `head` cover the rest.
proof fn lemma_covers_found(
    c: Seq<Seq<crate::map::MapObj>>,
    ps: Seq<Seq<Grid>>,
    head: int,
    risk: Option<usize>,
    risk2: Option<usize>,
    previous: Grid,
    target: Grid,
    chasers: Seq<Grid>,
)
    requires
        search_covers(c, ps, head, risk, previous, target, chasers),
        0 <= head < ps.len(),
        ps[head].len() >= 2,
        chasers.contains(ps[head].last()),
        risk2 matches Some(m) && m <= ps[head].len(),
        risk matches Some(n) ==> risk2 matches Some(m) && m <= n,
    ensures
        search_covers(c, ps, head + 1, risk2, previous, target, chasers),
{
    reveal(search_covers);
    assert forall|w: Seq<Grid>| #[trigger] is_chaser_walk(c, w, previous, target, chasers) implies (
        (risk2 matches Some(n) && w.len() >= n)
        || exists|j: int| head + 1 <= j < ps.len() && is_prefix_of(#[trigger] ps[j], w)) by {
        if !(risk matches Some(n) && w.len() >= n) {
            let j = choose|j: int| head <= j < ps.len() && is_prefix_of(#[trigger] ps[j], w);
            if j == head {
                lemma_prefix_on_chaser(ps[head], w, chasers);
            }
        }
    }
}

/// A path at least as long as the shortest found covers nothing more.
proof fn lemma_covers_pruned(
    c: Seq<Seq<crate::map::MapObj>>,
    ps: Seq<Seq<Grid>>,
    head: int,
    risk: Option<usize>,
    previous: Grid,
    target: Grid,
    chasers: Seq<Grid>,
)
    requires
        search_covers(c, ps, head, risk, previous, target, chasers),
        0 <= head < ps.len(),
        risk matches Some(n) && ps[head].len() >= n,
    ensures
        search_covers(c, ps, head + 1, risk, previous, target, chasers),
{
    reveal(search_covers);
    assert forall|w: Seq<Grid>| #[trigger] is_chaser_walk(c, w, previous, target, chasers) implies (
        (risk matches Some(n) && w.len() >= n)
        || exists|j: int| head + 1 <= j < ps.len() && is_prefix_of(#[trigger] ps[j], w)) by {
        if !(risk matches Some(n) && w.len() >= n) {
            let j = choose|j: int| head <= j < ps.len() && is_prefix_of(#[trigger] ps[j], w);
        }
    }
}

/// A walk to a chaser that starts with `cur`, which does not end on a chaser, goes on to
/// the grid one step from the last grid of `cur` toward one of `sides`, and that grid is
/// not on `cur`.
proof fn lemma_walk_goes_on(
    c: Seq<Seq<crate::map::MapObj>>,
    cur: Seq<Grid>,
    w: Seq<Grid>,
    sides: Seq<News>,
    previous: Grid,
    target: Grid,
    chasers: Seq<Grid>,
) -> (k: int)
    requires
        cur.len() >= 2,
        is_prefix_of(cur, w),
        is_chaser_walk(c, w, previous, target, chasers),
        !chasers.contains(cur.last()),
        forall|d: News| cell_space(c, spec_step(cur.last(), d)) && spec_step(cur.last(), d) != cur[cur.len() - 2]
            ==> #[trigger] sides.contains(d),
    ensures
        0 <= k < sides.len(),
        w.len() > cur.len(),
        w[cur.len() as int] == spec_step(cur.last(), sides[k]),
        !cur.contains(spec_step(cur.last(), sides[k])),
        is_prefix_of(cur.push(spec_step(cur.last(), sides[k])), w),
{
    if w.len() == cur.len() {
        assert(w =~= cur);
    }
    let i = cur.len() - 1;
    let x = w[i + 1];
    assert(w[i] == cur[i]);
    assert(adjacent(w[i], w[i + 1]));
    let d = choose|d: News| #[trigger] spec_step(cur.last(), d) == x;
    assert(cell_space(c, w[i + 1]));
    assert(w[i - 1] == cur[i - 1]);
    assert(x != cur[cur.len() - 2]);
    assert(sides.contains(d));
    let k = choose|k: int| 0 <= k < sides.len() && sides[k] == d;
    assert(!cur.contains(x)) by {
        if cur.contains(x) {
            let m = choose|m: int| 0 <= m < cur.len() && cur[m] == x;
            assert(w[m] == cur[m]);
        }
    }
    assert(w.subrange(0, cur.len() + 1int) =~= cur.push(x)) by {
        assert forall|m: int| 0 <= m < cur.len() implies w.subrange(0, cur.len() + 1int)[m] == cur.push(x)[m] by {
            assert(w.subrange(0, cur.len() as int)[m] == cur[m]);
        }
    }
    k
}

/// After the byways of the path at `head` are queued, the walks it covered are covered by
/// the path one step longer (when that step does not run into the path itself) and the
/// queued byways.
proof fn lemma_covers_branched(
    c: Seq<Seq<crate::map::MapObj>>,
    ps: Seq<Seq<Grid>>,
    ps1: Seq<Seq<Grid>>,
    head: int,
    risk: Option<usize>,
    sides: Seq<News>,
    previous: Grid,
    target: Grid,
    chasers: Seq<Grid>,
)
    requires
        search_covers(c, ps, head, risk, previous, target, chasers),
        0 <= head < ps.len(),
        ps[head].len() >= 2,
        !chasers.contains(ps[head].last()),
        sides.len() >= 1,
        forall|d: News| cell_space(c, spec_step(ps[head].last(), d))
            && spec_step(ps[head].last(), d) != ps[head][ps[head].len() - 2]
            ==> #[trigger] sides.contains(d),
        ps1.len() >= ps.len(),
        forall|j: int| 0 <= j < ps.len() ==> #[trigger] ps1[j] == ps[j],
        forall|k: int| 1 <= k < sides.len() && !ps[head].contains(spec_step(ps[head].last(), #[trigger] sides[k]))
            ==> queued_from(ps1, ps.len() as int, ps[head].push(spec_step(ps[head].last(), sides[k]))),
    ensures
        ps[head].contains(spec_step(ps[head].last(), sides[0]))
            ==> search_covers(c, ps1, head + 1, risk, previous, target, chasers),
        !ps[head].contains(spec_step(ps[head].last(), sides[0])) ==> search_covers(c,
            ps1.update(head, ps[head].push(spec_step(ps[head].last(), sides[0]))), head, risk, previous, target, chasers),
{
    reveal(search_covers);
    let cur = ps[head];
    let x0 = spec_step(cur.last(), sides[0]);
    let ps2 = ps1.update(head, cur.push(x0));
    assert forall|w: Seq<Grid>| #[trigger] is_chaser_walk(c, w, previous, target, chasers) implies (
        cur.contains(x0) ==> (
            (risk matches Some(n) && w.len() >= n)
            || exists|j: int| head + 1 <= j < ps1.len() && is_prefix_of(#[trigger] ps1[j], w)))
        && (!cur.contains(x0) ==> (
            (risk matches Some(n) && w.len() >= n)
            || exists|j: int| head <= j < ps2.len() && is_prefix_of(#[trigger] ps2[j], w))) by {
        if !(risk matches Some(n) && w.len() >= n) {
            let j = choose|j: int| head <= j < ps.len() && is_prefix_of(#[trigger] ps[j], w);
            if j == head {
                let k = lemma_walk_goes_on(c, cur, w, sides, previous, target, chasers);
                if k == 0 {
                    assert(!cur.contains(x0));
                    assert(ps2[head] == cur.push(x0));
                    assert(is_prefix_of(ps2[head], w));
                } else {
                    let xk = spec_step(cur.last(), sides[k]);
                    assert(queued_from(ps1, ps.len() as int, cur.push(xk)));
                    let j1 = choose|j1: int| ps.len() <= j1 < ps1.len() && #[trigger] ps1[j1] == cur.push(xk);
                    assert(is_prefix_of(ps1[j1], w));
                    assert(ps2[j1] == ps1[j1]);
                }
            } else {
                assert(ps1[j] == ps[j]);
                assert(ps2[j] == ps1[j]);
            }
        }
    }
}

/// A path that meets no chaser before its last grid, which is no chaser either, still
/// meets none before its last grid when one more grid is added.
proof fn lemma_inner_free_push(p: Seq<Grid>, x: Grid, chasers: Seq<Grid>)
    requires
        p.len() >= 1,
        inner_free(p, chasers),
        !chasers.contains(p.last()),
    ensures
        inner_free(p.push(x), chasers),
{
    assert forall|i: int| 1 <= i < p.push(x).len() - 1 implies !chasers.contains(#[trigger] p.push(x)[i]) by {
        assert(p.push(x)[i] == p[i]);
    }
}

/// Queued byways of a path that meets no chaser, and the path one step longer, meet no
/// chaser before their last grid.
proof fn lemma_queue_free_branched(
    ps: Seq<Seq<Grid>>,
    ps1: Seq<Seq<Grid>>,
    head: int,
    target: Grid,
    sides: Seq<News>,
    x0: Grid,
    chasers: Seq<Grid>,
)
    requires
        queue_inner_free(ps, head, chasers),
        0 <= head < ps.len(),
        ps[head].len() >= 1,
        !chasers.contains(ps[head].last()),
        ps1.len() >= ps.len(),
        forall|j: int| 0 <= j < ps.len() ==> #[trigger] ps1[j] == ps[j],
        forall|j: int| ps.len() <= j < ps1.len() ==> is_branch_of(#[trigger] ps1[j], ps[head], target, sides),
    ensures
        queue_inner_free(ps1, head + 1, chasers),
        queue_inner_free(ps1.update(head, ps[head].push(x0)), head, chasers),
{
    reveal(queue_inner_free);
    let cur = ps[head];
    assert(inner_free(cur, chasers));
    assert forall|j: int| head + 1 <= j < ps1.len() implies inner_free(#[trigger] ps1[j], chasers) by {
        if j < ps.len() {
            assert(ps1[j] == ps[j]);
        } else {
            assert(is_branch_of(ps1[j], cur, target, sides));
            let k = choose|k: int| 1 <= k < sides.len() && ps1[j] == cur.push(spec_step(target, #[trigger] sides[k]));
            lemma_inner_free_push(cur, spec_step(target, sides[k]), chasers);
        }
    }
    let ps2 = ps1.update(head, cur.push(x0));
    assert forall|j: int| head <= j < ps2.len() implies inner_free(#[trigger] ps2[j], chasers) by {
        if j == head {
            lemma_inner_free_push(cur, x0, chasers);
        } else {
            assert(ps2[j] == ps1[j]);
            assert(inner_free(ps1[j], chasers));
        }
    }
}

/// The shortest walk to a chaser found so far, if any, with the first crossing on it.
#[verifier::opaque]
pub open spec fn best_ok(
    c: Seq<Seq<crate::map::MapObj>>,
    risk: Option<usize>,
    crossing: Option<usize>,
    best: Seq<Grid>,
    previous0: Grid,
    target0: Grid,
    chasers: Seq<Grid>,
) -> bool {
    &&& risk matches Some(n) ==> is_chaser_walk(c, best, previous0, target0, chasers) && best.len() == n
    &&& risk matches Some(n) ==> match crossing {
        Some(i) => first_crossing(c, best, 2) == Some(i as int),
        None => first_crossing(c, best, 2) is None,
    }
    &&& risk is None ==> crossing is None
}

/// Follows the path at `head` of the queue until it meets a chaser, grows as long as the
/// shortest walk found, or runs into itself; queues the byways it passes.
#[verifier::rlimit(80)]
fn walk_head(
    paths: &mut Vec<Vec<Grid>>,
    head: usize,
    target: Grid,
    previous: Grid,
    chasers: &Vec<Grid>,
    map: &MapInfo,
    risk: &mut Option<usize>,
    crossing: &mut Option<usize>,
    Ghost(best): Ghost<Seq<Grid>>,
    Ghost(previous0): Ghost<Grid>,
    Ghost(target0): Ghost<Grid>,
) -> (best_out: Ghost<Seq<Grid>>)
    requires
        map.wf(),
        no_dead_ends(map.cells()),
        chasers@.len() > 0,
        forall|i: int| 0 <= i < chasers@.len() ==> in_map(#[trigger] chasers@[i]),
        head < old(paths)@.len(),
        queue_ok(map.cells(), paths_view(old(paths)@), head as int, previous0, target0),
        target == paths_view(old(paths)@)[head as int].last(),
        previous == paths_view(old(paths)@)[head as int][paths_view(old(paths)@)[head as int].len() - 2],
        best_ok(map.cells(), *old(risk), *old(crossing), best, previous0, target0, chasers@),
        search_covers(map.cells(), paths_view(old(paths)@), head as int, *old(risk), previous0, target0, chasers@),
        queue_inner_free(paths_view(old(paths)@), head as int, chasers@),
    ensures
        search_covers(map.cells(), paths_view(final(paths)@), head + 1, *final(risk), previous0, target0, chasers@),
        queue_inner_free(paths_view(final(paths)@), head + 1, chasers@),
        head < final(paths)@.len(),
        queue_ok(map.cells(), paths_view(final(paths)@), head as int, previous0, target0),
        best_ok(map.cells(), *final(risk), *final(crossing), best_out@, previous0, target0, chasers@),
        queue_measure(paths_view(final(paths)@).subrange(head + 1, final(paths)@.len() as int))
            < queue_measure(paths_view(old(paths)@).subrange(head as int, old(paths)@.len() as int)),
        chasers@.contains(target0) && old(paths)@.len() == 1 && head == 0 && *old(risk) is None
            && paths_view(old(paths)@)[0] == seq![previous0, target0]
            ==> final(paths)@.len() == 1 && *final(risk) == Some(2usize) && *final(crossing) is None,
{
    let ghost c = map.cells();
    let ghost m_start = queue_measure(paths_view(paths@).subrange(head as int, paths@.len() as int));
    let ghost first_case = chasers@.contains(target0) && paths@.len() == 1 && head == 0 && *risk is None
        && paths_view(paths@)[0] == seq![previous0, target0];
    let ghost mut best = best;
    let mut target = target;
    let mut previous = previous;
    loop
        invariant_except_break
            queue_measure(paths_view(paths@).subrange(head as int, paths@.len() as int)) <= m_start,
            first_case ==> paths@.len() == 1 && *risk is None
                && paths_view(paths@)[0] == seq![previous0, target0] && target == target0,
            search_covers(c, paths_view(paths@), head as int, *risk, previous0, target0, chasers@),
            queue_inner_free(paths_view(paths@), head as int, chasers@),
        invariant
            map.wf(),
            c == map.cells(),
            no_dead_ends(c),
            chasers@.len() > 0,
            forall|i: int| 0 <= i < chasers@.len() ==> in_map(#[trigger] chasers@[i]),
            head < paths@.len(),
            queue_ok(c, paths_view(paths@), head as int, previous0, target0),
            target == paths_view(paths@)[head as int].last(),
            previous == paths_view(paths@)[head as int][paths_view(paths@)[head as int].len() - 2],
            best_ok(c, *risk, *crossing, best, previous0, target0, chasers@),
            first_case ==> chasers@.contains(target0),
        ensures
            queue_measure(paths_view(paths@).subrange(head + 1, paths@.len() as int)) < m_start,
            first_case ==> paths@.len() == 1 && *risk == Some(2usize) && *crossing is None,
            search_covers(c, paths_view(paths@), head + 1, *risk, previous0, target0, chasers@),
            queue_inner_free(paths_view(paths@), head + 1, chasers@),
        decreases queue_measure(paths_view(paths@).subrange(head as int, paths@.len() as int)),
    {
        let ghost pv = paths_view(paths@);
        let ghost cur = pv[head as int];
        let ghost risk_before = *risk;
        proof {
            reveal(queue_inner_free);
            assert(inner_free(cur, chasers@));
            reveal(queue_ok);
            assert(is_walk_from(c, cur, previous0, target0));
            lemma_measure_front(pv, head as int);
            lemma_pow5_pos((map_grid_count() - cur.len()) as nat);
            assert(paths@[head as int]@ == cur);
        }
        let path_0_len = paths[head].len();

        // the path ends where it meets a chaser
        if grids_contain(chasers, target) {
            if risk.is_none() || path_0_len < risk.unwrap() {
                *risk = Some(path_0_len);
                proof {
                    assert forall|i: int| 0 <= i < cur.len() implies in_map(#[trigger] cur[i]) by {
                        assert(cell_space(c, cur[i]));
                    }
                }
                *crossing = find_crossing(&paths[head], map);
                proof {
                    reveal(best_ok);
                    reveal(queue_inner_free);
                    best = cur;
                    if first_case {
                        assert(first_crossing(c, best, 2) == first_crossing(c, best, 3)) by {
                            assert(best.len() == 2);
                        }
                    }
                }
            }
            proof {
                assert(paths_view(paths@) == pv);
                lemma_covers_found(c, pv, head as int, risk_before, *risk, previous0, target0, chasers@);
                reveal(queue_inner_free);
            }
            break;
        }

        proof {
            reveal(best_ok);
            assert(!first_case) by {
                if first_case {
                    assert(chasers@.contains(target));
                }
            }
        }
        // a path as long as the shortest one found is not followed further
        if risk.is_some() && path_0_len >= risk.unwrap() {
            proof {
                lemma_covers_pruned(c, pv, head as int, *risk, previous0, target0, chasers@);
                reveal(queue_inner_free);
            }
            break;
        }

        proof {
            assert(cell_space(c, cur[cur.len() - 1]));
            assert(cell_space(c, cur[cur.len() - 2]));
            let i = cur.len() - 2;
            assert(adjacent(cur[i], cur[i + 1]));
        }
        let sides = forward_sides(target, previous, chasers, map);

        // the other sides of a crossing are walked later, each on a copy of the path
        push_branches(paths, head, target, &sides, Ghost(c), Ghost(previous0), Ghost(target0));

        let ghost pv1 = paths_view(paths@);
        proof {
            assert(pv1[head as int] == cur);
            lemma_measure_front(pv1, head as int);
            assert(paths@[head as int]@ == cur);
        }
        proof {
            assert(in_map(target)) by {
                assert(cell_space(c, cur[cur.len() - 1]));
            }
        }
        let byway = target.step(sides[0]);
        proof {
            assert(!chasers@.contains(cur.last()));
            lemma_covers_branched(c, pv, pv1, head as int, *risk, sides@, previous0, target0, chasers@);
            lemma_queue_free_branched(pv, pv1, head as int, target, sides@, byway, chasers@);
        }
        if grids_contain(&paths[head], byway) {
            break;
        }

        // one step forward
        proof {
            lemma_walk_extend(c, cur, sides@[0], previous0, target0);
            lemma_distinct_grids_bound(cur.push(byway));
            lemma_weight_step(cur, cur.push(byway));
            lemma_measure_update(pv1.subrange(head as int, pv1.len() as int), 0, cur.push(byway));
        }
        paths[head].push(byway);
        proof {
            let pv2 = paths_view(paths@);
            assert(pv2 =~= pv1.update(head as int, cur.push(byway)));
            assert(pv2.subrange(head as int, pv2.len() as int)
                =~= pv1.subrange(head as int, pv1.len() as int).update(0, cur.push(byway)));
            reveal(queue_ok);
            assert forall|j: int| head <= j < pv2.len() implies is_walk_from(c, #[trigger] pv2[j], previous0, target0) by {
                if j != head {
                    assert(pv2[j] == pv1[j]);
                }
            }
        }
        previous = target;
        target = byway;
    }
    Ghost(best)
}

/// Some walk to a chaser is `n` grids long, and none is shorter.
pub open spec fn shortest_chaser_walk(
    c: Seq<Seq<crate::map::MapObj>>,
    previous: Grid,
    target: Grid,
    chasers: Seq<Grid>,
    n: int,
) -> bool {
    &&& exists|p: Seq<Grid>| #[trigger] is_chaser_walk(c, p, previous, target, chasers) && p.len() == n
    &&& forall|w: Seq<Grid>| #[trigger] is_chaser_walk(c, w, previous, target, chasers) ==> w.len() >= n
}

/// No walk from `previous` through `target` reaches a chaser.
pub open spec fn no_chaser_walk(
    c: Seq<Seq<crate::map::MapObj>>,
    previous: Grid,
    target: Grid,
    chasers: Seq<Grid>,
) -> bool {
    forall|w: Seq<Grid>| !#[trigger] is_chaser_walk(c, w, previous, target, chasers)
}

/// Walks the byway that starts by stepping from `previous` to `target` and rates the risk
/// of taking it: the length of the shortest walk found to a chaser, counting `previous`
/// and the chaser. When there is no chaser to meet, or the player could turn away at a
/// crossing before the middle of that walk, the byway has no risk (`None`).
pub fn check_byway_risk(target: Grid, previous: Grid, chasers: &Vec<Grid>, map: &MapInfo) -> (r: Option<usize>)
    requires
        map.wf(),
        no_dead_ends(map.cells()),
        map.space_at(previous),
        map.space_at(target),
        adjacent(previous, target),
        forall|i: int| 0 <= i < chasers@.len() ==> in_map(#[trigger] chasers@[i]),
    ensures
        chasers@.len() == 0 ==> r is None,
        chasers@.len() > 0 && chasers@.contains(target) ==> r == Some(2usize),
        r matches Some(n) ==> exists|p: Seq<Grid>|
            #[trigger] is_risk_path(map.cells(), p, previous, target, chasers@) && p.len() == n
                && no_early_crossing(map.cells(), p),
        r matches Some(n) ==> shortest_chaser_walk(map.cells(), previous, target, chasers@, n as int),
        chasers@.len() > 0 && r is None ==> no_chaser_walk(map.cells(), previous, target, chasers@)
            || exists|p: Seq<Grid>| #[trigger] is_chaser_walk(map.cells(), p, previous, target, chasers@)
                && !no_early_crossing(map.cells(), p)
                && shortest_chaser_walk(map.cells(), previous, target, chasers@, p.len() as int),
{
    if chasers.len() == 0 {
        return None;
    }
    let ghost c = map.cells();
    let ghost previous0 = previous;
    let ghost target0 = target;
    let mut target = target;
    let mut previous = previous;

    let mut first: Vec<Grid> = Vec::new();
    first.push(previous);
    first.push(target);
    let mut paths: Vec<Vec<Grid>> = Vec::new();
    paths.push(first);
    let mut head: usize = 0;
    let mut risk: Option<usize> = None;
    let mut crossing: Option<usize> = None;
    let ghost mut best: Seq<Grid> = Seq::empty();

    proof {
        let p0 = paths_view(paths@)[0];
        assert(p0 =~= seq![previous0, target0]);
        assert(is_walk_from(c, p0, previous0, target0)) by {
            assert forall|i: int| 0 <= i < p0.len() - 1 implies #[trigger] adjacent(p0[i], p0[i + 1]) by {
                assert(i == 0);
            }
        }
        reveal(queue_ok);
        reveal(best_ok);
        assert(best_ok(c, risk, crossing, best, previous0, target0, chasers@));
        reveal(search_covers);
        assert forall|w: Seq<Grid>| #[trigger] is_chaser_walk(c, w, previous0, target0, chasers@) implies (
            (risk matches Some(n) && w.len() >= n)
            || exists|j: int| 0 <= j < paths_view(paths@).len() && is_prefix_of(#[trigger] paths_view(paths@)[j], w)) by {
            assert(w.subrange(0, 2) =~= p0);
            assert(is_prefix_of(paths_view(paths@)[0], w));
        }
        reveal(queue_inner_free);
    }

    loop
        invariant_except_break
            head < paths@.len(),
            queue_ok(c, paths_view(paths@), head as int, previous0, target0),
            target == paths_view(paths@)[head as int].last(),
            previous == paths_view(paths@)[head as int][paths_view(paths@)[head as int].len() - 2],
            chasers@.contains(target0) ==> head == 0 && paths@.len() == 1 && risk is None
                && paths_view(paths@)[0] == seq![previous0, target0],
            search_covers(c, paths_view(paths@), head as int, risk, previous0, target0, chasers@),
            queue_inner_free(paths_view(paths@), head as int, chasers@),
        invariant
            map.wf(),
            c == map.cells(),
            no_dead_ends(c),
            chasers@.len() > 0,
            forall|i: int| 0 <= i < chasers@.len() ==> in_map(#[trigger] chasers@[i]),
            best_ok(c, risk, crossing, best, previous0, target0, chasers@),
        ensures
            best_ok(c, risk, crossing, best, previous0, target0, chasers@),
            chasers@.contains(target0) ==> risk == Some(2usize) && crossing is None,
            search_covers(c, paths_view(paths@), paths@.len() as int, risk, previous0, target0, chasers@),
        decreases queue_measure(paths_view(paths@).subrange(head as int, paths@.len() as int)),
    {
        let b = walk_head(&mut paths, head, target, previous, chasers, map, &mut risk, &mut crossing,
            Ghost(best), Ghost(previous0), Ghost(target0));
        proof {
            best = b@;
        }

        // the current path is done
        let n = paths.len();
        head = head + 1;
        if head == n {
            break;
        }

        // the next path in the queue goes on from its last grid
        proof {
            reveal(queue_ok);
            assert(is_walk_from(c, paths_view(paths@)[head as int], previous0, target0));
            assert(paths@[head as int]@ == paths_view(paths@)[head as int]);
        }
        let last = paths[head].len() - 1;
        target = paths[head][last];
        previous = paths[head][last - 1];
    }

    proof {
        reveal(best_ok);
        reveal(search_covers);
        if risk is Some {
            lemma_first_crossing(c, best, 2);
            assert forall|i: int| 0 <= i < best.len() implies in_map(#[trigger] best[i]) by {
                assert(cell_space(c, best[i]));
            }
            lemma_distinct_grids_bound(best);
        }
        let pv = paths_view(paths@);
        assert forall|w: Seq<Grid>| #[trigger] is_chaser_walk(c, w, previous0, target0, chasers@)
            implies (risk matches Some(n) && w.len() >= n) by {
            if !(risk matches Some(n) && w.len() >= n) {
                assert(exists|j: int| pv.len() <= j < pv.len() && is_prefix_of(#[trigger] pv[j], w));
            }
        }
        if risk is Some {
            assert(is_chaser_walk(c, best, previous0, target0, chasers@));
            assert(shortest_chaser_walk(c, previous0, target0, chasers@, best.len() as int));
        } else {
            assert(no_chaser_walk(c, previous0, target0, chasers@));
        }
    }
    if crossing.is_none() || crossing.unwrap() * 2 >= risk.unwrap() - 1 {
        proof {
            if risk is Some {
                assert(no_early_crossing(c, best));
            }
        }
        risk
    } else {
        proof {
            let i = crossing.unwrap() as int;
            assert(is_crossing(c, best[i]));
            assert(!no_early_crossing(c, best));
            assert(is_chaser_walk(c, best, previous0, target0, chasers@));
        }
        None
    }
}

} // verus!
