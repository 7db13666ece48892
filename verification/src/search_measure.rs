use vstd::prelude::*;
use vstd::set_lib::{set_int_range, lemma_int_range, lemma_len_subset};
use crate::grid::{Grid, in_map, MAP_GRIDS_WIDTH, MAP_GRIDS_HEIGHT};

verus! {

/// The number of grids on the map.
pub open spec fn map_grid_count() -> nat {
    (MAP_GRIDS_WIDTH * MAP_GRIDS_HEIGHT) as nat
}

/// Five to the power `n`.
pub open spec fn pow5(n: nat) -> nat
    decreases n,
{
    if n == 0 {
        1
    } else {
        5 * pow5((n - 1) as nat)
    }
}

/// How much work a path of the given length may still cause: the shorter the path,
/// the more it may still branch before it holds every grid of the map.
pub open spec fn path_weight(p: Seq<Grid>) -> nat {
    pow5((map_grid_count() - p.len()) as nat)
}

/// The work that a queue of paths may still cause.
pub open spec fn queue_measure(ps: Seq<Seq<Grid>>) -> nat
    decreases ps.len(),
{
    if ps.len() == 0 {
        0
    } else {
        path_weight(ps[0]) + queue_measure(ps.drop_first())
    }
}

pub proof fn lemma_pow5_pos(n: nat)
    ensures
        pow5(n) >= 1,
    decreases n,
{
    if n > 0 {
        lemma_pow5_pos((n - 1) as nat);
    }
}

/// Lengthening a path by one grid divides its weight by five.
pub proof fn lemma_weight_step(p: Seq<Grid>, q: Seq<Grid>)
    requires
        q.len() == p.len() + 1,
        q.len() <= map_grid_count(),
    ensures
        path_weight(p) == 5 * path_weight(q),
{
    assert((map_grid_count() - p.len()) as nat == ((map_grid_count() - q.len()) as nat + 1) as nat);
}

pub proof fn lemma_measure_push(ps: Seq<Seq<Grid>>, p: Seq<Grid>)
    ensures
        queue_measure(ps.push(p)) == queue_measure(ps) + path_weight(p),
    decreases ps.len(),
{
    if ps.len() == 0 {
        assert(ps.push(p).drop_first() =~= Seq::<Seq<Grid>>::empty());
        assert(queue_measure(Seq::<Seq<Grid>>::empty()) == 0);
    } else {
        assert(ps.push(p).drop_first() =~= ps.drop_first().push(p));
        lemma_measure_push(ps.drop_first(), p);
    }
}

pub proof fn lemma_measure_update(ps: Seq<Seq<Grid>>, i: int, p: Seq<Grid>)
    requires
        0 <= i < ps.len(),
    ensures
        queue_measure(ps.update(i, p)) + path_weight(ps[i]) == queue_measure(ps) + path_weight(p),
    decreases ps.len(),
{
    if i == 0 {
        assert(ps.update(i, p).drop_first() =~= ps.drop_first());
    } else {
        assert(ps.update(i, p).drop_first() =~= ps.drop_first().update(i - 1, p));
        lemma_measure_update(ps.drop_first(), i - 1, p);
    }
}

/// Dropping the first path of a queue takes away its weight.
pub proof fn lemma_measure_front(ps: Seq<Seq<Grid>>, h: int)
    requires
        0 <= h < ps.len(),
    ensures
        queue_measure(ps.subrange(h, ps.len() as int))
            == path_weight(ps[h]) + queue_measure(ps.subrange(h + 1, ps.len() as int)),
{
    assert(ps.subrange(h, ps.len() as int).drop_first() =~= ps.subrange(h + 1, ps.len() as int));
}

/// The position of a grid when the map's grids are numbered column by column.
pub open spec fn grid_index(g: Grid) -> int {
    g.x * MAP_GRIDS_HEIGHT + g.y
}

/// A path of distinct grids on the map is no longer than the number of grids on the map.
pub proof fn lemma_distinct_grids_bound(p: Seq<Grid>)
    requires
        p.no_duplicates(),
        forall|i: int| 0 <= i < p.len() ==> in_map(#[trigger] p[i]),
    ensures
        p.len() <= map_grid_count(),
{
    let idx = p.map_values(|g: Grid| grid_index(g));
    assert forall|i: int, j: int| 0 <= i < idx.len() && 0 <= j < idx.len() && i != j implies idx[i] != idx[j] by {
        assert(in_map(p[i]) && in_map(p[j]));
        assert(p[i] != p[j]);
        if p[i].x == p[j].x {
            assert(p[i].y != p[j].y);
        } else if p[i].x < p[j].x {
            assert(grid_index(p[i]) < grid_index(p[j]));
        } else {
            assert(grid_index(p[i]) > grid_index(p[j]));
        }
    }
    assert(idx.no_duplicates());
    idx.unique_seq_to_set();
    lemma_int_range(0, map_grid_count() as int);
    assert forall|v: int| idx.to_set().contains(v) implies set_int_range(0, map_grid_count() as int).contains(v) by {
        let i = choose|i: int| 0 <= i < idx.len() && idx[i] == v;
        assert(in_map(p[i]));
    }
    lemma_len_subset(idx.to_set(), set_int_range(0, map_grid_count() as int));
}

} // verus!
