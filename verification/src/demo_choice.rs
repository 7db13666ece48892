use vstd::prelude::*;
use crate::grid::{Grid, News, spec_back_side, spec_step, in_map, adjacent};
use crate::map::{MapInfo, MapObj, cell, dot_entity, side_spaces};
use crate::player::Player;
use crate::chasers::Chaser;
use crate::demo_params::DemoMapParams;
use crate::auto_drive::{
    no_dead_ends, check_byway_risk, is_risk_path, no_early_crossing, is_chaser_walk, shortest_chaser_walk,
    no_chaser_walk,
};
use crate::search_measure::{lemma_distinct_grids_bound, map_grid_count};
use crate::random::random_below;

verus! {

/// The way the player must not take when `chaser` is about to enter the grid the player
/// enters: the player's own way when both go the same way (it would run into the chaser
/// from behind), else the way that meets the chaser head on.
pub open spec fn spec_bad_move(player: Player, chaser: Chaser) -> News {
    if chaser.direction == player.direction {
        player.direction
    } else {
        spec_back_side(chaser.direction)
    }
}

/// Whether some chaser about to enter the player's next grid makes `s` a bad way.
pub open spec fn is_bad_side(player: Player, chasers: Seq<Chaser>, s: News) -> bool {
    exists|i: int|
        0 <= i < chasers.len() && (#[trigger] chasers[i]).next_grid == player.next_grid
            && spec_bad_move(player, chasers[i]) == s
}

/// The ways of `sides` that no chaser makes bad, in their order.
pub open spec fn safe_sides(player: Player, chasers: Seq<Chaser>, sides: Seq<News>) -> Seq<News> {
    sides.filter(|s: News| !is_bad_side(player, chasers, s))
}

/// The next grids of the chasers that are not about to enter the player's next grid, in
/// the chasers' order.
pub open spec fn far_grids(player: Player, chasers: Seq<Chaser>) -> Seq<Grid>
    decreases chasers.len(),
{
    if chasers.len() == 0 {
        Seq::empty()
    } else {
        let rest = far_grids(player, chasers.drop_last());
        if chasers.last().next_grid != player.next_grid {
            rest.push(chasers.last().next_grid)
        } else {
            rest
        }
    }
}

/// The way to avoid because of `chaser`.
fn bad_move(player: &Player, chaser: &Chaser) -> (r: News)
    ensures
        r == spec_bad_move(*player, *chaser),
{
    if chaser.direction == player.direction {
        player.direction
    } else {
        chaser.direction.back_side()
    }
}

/// Whether some chaser makes `s` a bad way.
fn is_bad(player: &Player, chasers: &Vec<Chaser>, s: News) -> (r: bool)
    ensures
        r == is_bad_side(*player, chasers@, s),
{
    let mut i: usize = 0;
    while i < chasers.len()
        invariant
            0 <= i <= chasers@.len(),
            forall|k: int| 0 <= k < i ==> !((#[trigger] chasers@[k]).next_grid == player.next_grid
                && spec_bad_move(*player, chasers@[k]) == s),
        decreases chasers@.len() - i,
    {
        let c = chasers[i];
        if c.next_grid == player.next_grid && bad_move(player, &c) == s {
            return true;
        }
        i = i + 1;
    }
    false
}

/// Splits the chasers: the ways that a chaser about to enter the player's next grid makes
/// bad leave `org_sides`, and the next grids of the other chasers are gathered, both in
/// their order.
pub fn sides_and_far_chasers(player: &Player, chasers: &Vec<Chaser>, org_sides: &[News])
    -> (r: (Vec<News>, Vec<Grid>))
    ensures
        r.0@ == safe_sides(*player, chasers@, org_sides@),
        r.1@ == far_grids(*player, chasers@),
{
    let ghost pred = |s: News| !is_bad_side(*player, chasers@, s);
    let mut sides: Vec<News> = Vec::new();
    let mut i: usize = 0;
    while i < org_sides.len()
        invariant
            0 <= i <= org_sides@.len(),
            pred == (|s: News| !is_bad_side(*player, chasers@, s)),
            sides@ == org_sides@.subrange(0, i as int).filter(pred),
        decreases org_sides@.len() - i,
    {
        proof {
            reveal_with_fuel(Seq::<_>::filter, 1);
            assert(org_sides@.subrange(0, i + 1).drop_last() =~= org_sides@.subrange(0, i as int));
        }
        let s = org_sides[i];
        if !is_bad(player, chasers, s) {
            sides.push(s);
        }
        i = i + 1;
    }
    assert(org_sides@.subrange(0, org_sides@.len() as int) =~= org_sides@);

    let mut far: Vec<Grid> = Vec::new();
    let mut j: usize = 0;
    while j < chasers.len()
        invariant
            0 <= j <= chasers@.len(),
            far@ == far_grids(*player, chasers@.subrange(0, j as int)),
        decreases chasers@.len() - j,
    {
        proof {
            assert(chasers@.subrange(0, j + 1).drop_last() =~= chasers@.subrange(0, j as int));
        }
        if chasers[j].next_grid != player.next_grid {
            far.push(chasers[j].next_grid);
        }
        j = j + 1;
    }
    assert(chasers@.subrange(0, chasers@.len() as int) =~= chasers@);
    (sides, far)
}

/// One when `g` is on the map and holds a dot that has a sprite, else zero.
pub open spec fn dot_count_at(c: Seq<Seq<MapObj>>, g: Grid) -> int {
    if in_map(g) && dot_entity(cell(c, g)) is Some {
        1
    } else {
        0
    }
}

/// The dots one step from `g` toward each of `sides`.
pub open spec fn dots_beside(c: Seq<Seq<MapObj>>, g: Grid, sides: Seq<News>) -> int
    decreases sides.len(),
{
    if sides.len() == 0 {
        0
    } else {
        dots_beside(c, g, sides.drop_last()) + dot_count_at(c, spec_step(g, sides.last()))
    }
}

/// The dots at `g` and on the grids next to it that are not walls: five grids at most, so
/// from zero to five; at most four next to an open grid without a dot, such as the grid the
/// demo player stands on when it rates the ways (see `lemma_count_dots_beside_empty`).
pub open spec fn spec_count_dots_4sides(c: Seq<Seq<MapObj>>, g: Grid) -> int {
    dot_count_at(c, g) + dots_beside(c, g, side_spaces(c, g))
}

proof fn lemma_dots_beside_bound(c: Seq<Seq<MapObj>>, g: Grid, sides: Seq<News>)
    ensures
        0 <= dots_beside(c, g, sides) <= sides.len(),
    decreases sides.len(),
{
    if sides.len() > 0 {
        lemma_dots_beside_bound(c, g, sides.drop_last());
    }
}

/// When one of the grids beside `g` toward `sides` holds no dot, the dots beside are fewer
/// than the sides.
proof fn lemma_dots_beside_with_empty(c: Seq<Seq<MapObj>>, g: Grid, sides: Seq<News>, k: int)
    requires
        0 <= k < sides.len(),
        dot_count_at(c, spec_step(g, sides[k])) == 0,
    ensures
        dots_beside(c, g, sides) <= sides.len() - 1,
    decreases sides.len(),
{
    if k == sides.len() - 1 {
        lemma_dots_beside_bound(c, g, sides.drop_last());
    } else {
        assert(sides.drop_last()[k] == sides[k]);
        lemma_dots_beside_with_empty(c, g, sides.drop_last(), k);
    }
}

/// The dots around a grid next to an open grid that holds no dot are at most four.
pub proof fn lemma_count_dots_beside_empty(c: Seq<Seq<MapObj>>, g: Grid, d: News)
    requires
        in_map(g),
        crate::map::cell_space(c, spec_step(g, d)),
        dot_count_at(c, spec_step(g, d)) == 0,
    ensures
        0 <= spec_count_dots_4sides(c, g) <= 4,
{
    crate::auto_drive::lemma_side_spaces(c, g);
    let s = side_spaces(c, g);
    assert(s.contains(d));
    let k = choose|k: int| 0 <= k < s.len() && s[k] == d;
    lemma_dots_beside_with_empty(c, g, s, k);
    lemma_dots_beside_bound(c, g, s);
}

impl MapInfo {
    /// Counts the dots at `center` and on the grids next to it that are not walls: at most
    /// four when one of those neighbours holds no dot.
    pub fn count_dots_4sides(&self, center: Grid) -> (r: i32)
        requires
            self.wf(),
            in_map(center),
        ensures
            r == spec_count_dots_4sides(self.cells(), center),
            0 <= r <= 5,
            (exists|d: News| crate::map::cell_space(self.cells(), spec_step(center, d))
                && #[trigger] dot_count_at(self.cells(), spec_step(center, d)) == 0) ==> r <= 4,
    {
        proof {
            if exists|d: News| crate::map::cell_space(self.cells(), spec_step(center, d))
                && #[trigger] dot_count_at(self.cells(), spec_step(center, d)) == 0 {
                let d = choose|d: News| crate::map::cell_space(self.cells(), spec_step(center, d))
                    && #[trigger] dot_count_at(self.cells(), spec_step(center, d)) == 0;
                lemma_count_dots_beside_empty(self.cells(), center, d);
            }
        }
        let ghost c = self.cells();
        let mut count: i32 = if self.opt_entity(center).is_some() { 1 } else { 0 };
        let sides = self.get_side_spaces_list(center);
        proof {
            crate::auto_drive::lemma_side_spaces(c, center);
        }
        let mut i: usize = 0;
        while i < sides.len()
            invariant
                0 <= i <= sides@.len(),
                self.wf(),
                c == self.cells(),
                in_map(center),
                sides@ == side_spaces(c, center),
                sides@.len() <= 4,
                count == dot_count_at(c, center) + dots_beside(c, center, sides@.subrange(0, i as int)),
            decreases sides@.len() - i,
        {
            proof {
                assert(sides@.subrange(0, i + 1).drop_last() =~= sides@.subrange(0, i as int));
                lemma_dots_beside_bound(c, center, sides@.subrange(0, i as int));
            }
            if self.opt_entity(center.step(sides[i])).is_some() {
                count = count + 1;
            }
            i = i + 1;
        }
        assert(sides@.subrange(0, sides@.len() as int) =~= sides@);
        proof {
            lemma_dots_beside_bound(c, center, sides@);
        }
        count
    }
}


/// How far the grid one step from `grid` toward the side of `e` lies from the rectangle
/// of the remaining dots.
pub open spec fn side_far(grid: Grid, demo: DemoMapParams, e: (News, i32)) -> int {
    demo.spec_how_far_to_rect(spec_step(grid, e.0))
}

/// The smallest of those distances over `s` (zero when `s` is empty).
pub open spec fn min_far(grid: Grid, demo: DemoMapParams, s: Seq<(News, i32)>) -> int
    decreases s.len(),
{
    if s.len() == 0 {
        0
    } else if s.len() == 1 {
        side_far(grid, demo, s[0])
    } else {
        let rest = min_far(grid, demo, s.drop_last());
        let f = side_far(grid, demo, s.last());
        if f < rest {
            f
        } else {
            rest
        }
    }
}

/// The sides of `s` that lead nearest to the rectangle, in their order.
pub open spec fn nearest_sides(grid: Grid, demo: DemoMapParams, s: Seq<(News, i32)>) -> Seq<(News, i32)> {
    s.filter(|e: (News, i32)| side_far(grid, demo, e) == min_far(grid, demo, s))
}

/// The largest rating over `s` (zero when `s` is empty).
pub open spec fn max_rating(s: Seq<(News, i32)>) -> int
    decreases s.len(),
{
    if s.len() == 0 {
        0
    } else if s.len() == 1 {
        s[0].1 as int
    } else {
        let rest = max_rating(s.drop_last());
        if s.last().1 > rest {
            s.last().1 as int
        } else {
            rest
        }
    }
}

/// The sides of `s` with the largest rating, in their order.
pub open spec fn best_rated(s: Seq<(News, i32)>) -> Seq<(News, i32)> {
    s.filter(|e: (News, i32)| e.1 == max_rating(s))
}

/// The steps one grid from `grid` stay within `i32`, and the rectangle within the map's
/// border.
pub open spec fn far_inputs_ok(grid: Grid, demo: DemoMapParams) -> bool {
    &&& in_map(grid)
    &&& demo.rect_bounded()
}

/// How far the grid one step from `grid` toward `side` lies from the rectangle.
fn far_of_side(grid: Grid, side: News, demo: &DemoMapParams) -> (r: i32)
    requires
        far_inputs_ok(grid, *demo),
    ensures
        r == demo.spec_how_far_to_rect(spec_step(grid, side)),
{
    demo.how_far_to_rect(grid.step(side))
}

/// When the player is outside the rectangle of the remaining dots: the one side that leads
/// nearest to the rectangle, measured from the grid one step toward it, or `None` when
/// several lead as near.
pub fn heuristic_dots_rect(grid: Grid, sides: &Vec<(News, i32)>, demo: &DemoMapParams) -> (r: Option<News>)
    requires
        sides@.len() >= 1,
        far_inputs_ok(grid, *demo),
    ensures
        r == (if nearest_sides(grid, *demo, sides@).len() == 1 {
            Some(nearest_sides(grid, *demo, sides@)[0].0)
        } else {
            None
        }),
{
    let mut min_val: i32 = far_of_side(grid, sides[0].0, demo);
    let mut i: usize = 1;
    proof {
        assert(sides@.subrange(0, 1).len() == 1);
    }
    while i < sides.len()
        invariant
            1 <= i <= sides@.len(),
            far_inputs_ok(grid, *demo),
            min_val == min_far(grid, *demo, sides@.subrange(0, i as int)),
        decreases sides@.len() - i,
    {
        let f = far_of_side(grid, sides[i].0, demo);
        proof {
            assert(sides@.subrange(0, i + 1).drop_last() =~= sides@.subrange(0, i as int));
        }
        if f < min_val {
            min_val = f;
        }
        i = i + 1;
    }
    assert(sides@.subrange(0, sides@.len() as int) =~= sides@);

    let ghost pred = |e: (News, i32)| side_far(grid, *demo, e) == min_far(grid, *demo, sides@);
    let mut nearest: Vec<(News, i32)> = Vec::new();
    let mut j: usize = 0;
    while j < sides.len()
        invariant
            0 <= j <= sides@.len(),
            far_inputs_ok(grid, *demo),
            min_val == min_far(grid, *demo, sides@),
            pred == (|e: (News, i32)| side_far(grid, *demo, e) == min_far(grid, *demo, sides@)),
            nearest@ == sides@.subrange(0, j as int).filter(pred),
        decreases sides@.len() - j,
    {
        proof {
            reveal_with_fuel(Seq::<_>::filter, 1);
            assert(sides@.subrange(0, j + 1).drop_last() =~= sides@.subrange(0, j as int));
        }
        if far_of_side(grid, sides[j].0, demo) == min_val {
            nearest.push(sides[j]);
        }
        j = j + 1;
    }
    assert(sides@.subrange(0, sides@.len() as int) =~= sides@);
    if nearest.len() == 1 {
        Some(nearest[0].0)
    } else {
        None
    }
}

/// What the demo player does at a crossing: take one side, or leave it to chance among
/// several equally good ones.
pub enum WayChoice {
    Side(News),
    AnyOf(Vec<(News, i32)>),
}

/// Chooses among rated sides: the sides with the best rating stay; one of them is taken
/// if it is alone, or, when the player is outside the rectangle of the remaining dots, if
/// it alone leads nearest to the rectangle; else any of them may be taken.
pub fn choose_side(cands: &Vec<(News, i32)>, grid: Grid, demo: &DemoMapParams) -> (r: WayChoice)
    requires
        cands@.len() >= 1,
        far_inputs_ok(grid, *demo),
    ensures
        best_rated(cands@).len() == 1 ==> r == WayChoice::Side(best_rated(cands@)[0].0),
        best_rated(cands@).len() != 1 && !demo.spec_is_inside_rect(grid)
            && nearest_sides(grid, *demo, best_rated(cands@)).len() == 1
            ==> r == WayChoice::Side(nearest_sides(grid, *demo, best_rated(cands@))[0].0),
        best_rated(cands@).len() != 1 && (demo.spec_is_inside_rect(grid)
            || nearest_sides(grid, *demo, best_rated(cands@)).len() != 1)
            ==> (r matches WayChoice::AnyOf(v) && v@ == best_rated(cands@)),
        best_rated(cands@).len() >= 1,
{
    // the largest rating
    let mut max_val: i32 = cands[0].1;
    let mut i: usize = 1;
    while i < cands.len()
        invariant
            1 <= i <= cands@.len(),
            max_val == max_rating(cands@.subrange(0, i as int)),
        decreases cands@.len() - i,
    {
        proof {
            assert(cands@.subrange(0, i + 1).drop_last() =~= cands@.subrange(0, i as int));
        }
        if cands[i].1 > max_val {
            max_val = cands[i].1;
        }
        i = i + 1;
    }
    assert(cands@.subrange(0, cands@.len() as int) =~= cands@);

    // the sides with the largest rating
    let ghost pred = |e: (News, i32)| e.1 == max_rating(cands@);
    let mut best: Vec<(News, i32)> = Vec::new();
    let mut j: usize = 0;
    while j < cands.len()
        invariant
            0 <= j <= cands@.len(),
            max_val == max_rating(cands@),
            pred == (|e: (News, i32)| e.1 == max_rating(cands@)),
            best@ == cands@.subrange(0, j as int).filter(pred),
        decreases cands@.len() - j,
    {
        proof {
            reveal_with_fuel(Seq::<_>::filter, 1);
            assert(cands@.subrange(0, j + 1).drop_last() =~= cands@.subrange(0, j as int));
        }
        if cands[j].1 == max_val {
            best.push(cands[j]);
        }
        j = j + 1;
    }
    assert(cands@.subrange(0, cands@.len() as int) =~= cands@);
    proof {
        lemma_max_rating_found(cands@);
        let k = choose|k: int| 0 <= k < cands@.len() && cands@[k].1 == max_rating(cands@);
        lemma_filter_keeps(cands@, pred, k);
    }

    if best.len() == 1 {
        return WayChoice::Side(best[0].0);
    }
    if !demo.is_inside_rect(grid) {
        if let Some(side) = heuristic_dots_rect(grid, &best, demo) {
            return WayChoice::Side(side);
        }
    }
    WayChoice::AnyOf(best)
}

/// The largest rating is the rating of some side.
proof fn lemma_max_rating_found(s: Seq<(News, i32)>)
    requires
        s.len() >= 1,
    ensures
        exists|k: int| 0 <= k < s.len() && s[k].1 == max_rating(s),
    decreases s.len(),
{
    if s.len() == 1 {
        assert(s[0].1 == max_rating(s));
    } else {
        lemma_max_rating_found(s.drop_last());
        let k = choose|k: int| 0 <= k < s.drop_last().len() && s.drop_last()[k].1 == max_rating(s.drop_last());
        if s.last().1 > max_rating(s.drop_last()) {
            assert(s[s.len() - 1].1 == max_rating(s));
        } else {
            assert(s[k].1 == max_rating(s));
        }
    }
}

/// A filter keeps an element that meets its predicate, so it is not empty.
proof fn lemma_filter_keeps(s: Seq<(News, i32)>, pred: spec_fn((News, i32)) -> bool, k: int)
    requires
        0 <= k < s.len(),
        pred(s[k]),
    ensures
        s.filter(pred).len() >= 1,
{
    s.lemma_filter_contains(pred, k);
    assert(s.filter(pred).contains(s[k]));
}

/// Some walk from `next_grid` into `side` reaches one of `chasers` after `n` grids with no
/// crossing before its middle.
pub open spec fn has_risk_walk(c: Seq<Seq<MapObj>>, next_grid: Grid, side: News, chasers: Seq<Grid>, n: int) -> bool {
    exists|p: Seq<Grid>|
        #[trigger] is_risk_path(c, p, next_grid, spec_step(next_grid, side), chasers) && p.len() == n
            && no_early_crossing(c, p)
}

/// Walking into `side` carries a risk of `n`: the shortest walks from `next_grid` into
/// `side` to a chaser have `n` grids, and one of them has no crossing before its middle.
pub open spec fn side_risk(c: Seq<Seq<MapObj>>, next_grid: Grid, side: News, chasers: Seq<Grid>, n: int) -> bool {
    &&& shortest_chaser_walk(c, next_grid, spec_step(next_grid, side), chasers, n)
    &&& has_risk_walk(c, next_grid, side, chasers, n)
}

/// Walking into `side` carries no risk: no walk from `next_grid` into `side` reaches a
/// chaser, or one of the shortest that do passes a crossing before its middle.
pub open spec fn side_without_risk(c: Seq<Seq<MapObj>>, next_grid: Grid, side: News, chasers: Seq<Grid>) -> bool {
    let t = spec_step(next_grid, side);
    ||| no_chaser_walk(c, next_grid, t, chasers)
    ||| exists|p: Seq<Grid>| #[trigger] is_chaser_walk(c, p, next_grid, t, chasers)
            && !no_early_crossing(c, p) && shortest_chaser_walk(c, next_grid, t, chasers, p.len() as int)
}

/// Whether some entry of `s` is for the way `d`.
pub open spec fn lists_side(s: Seq<(News, i32)>, d: News) -> bool {
    exists|k: int| 0 <= k < s.len() && (#[trigger] s[k]).0 == d
}

/// `risky` and `safe` rate the ways `sides` from `next_grid`: every way is in one of the two
/// lists, the lists together are as long as `sides`, a way of `risky` is rated by the length
/// of its risk (see `side_risk`), and a way of `safe` carries no risk and is rated by the
/// dots around the grid it leads to.
pub open spec fn rated_sides(
    c: Seq<Seq<MapObj>>,
    next_grid: Grid,
    sides: Seq<News>,
    chasers: Seq<Grid>,
    risky: Seq<(News, i32)>,
    safe: Seq<(News, i32)>,
) -> bool {
    &&& risky.len() + safe.len() == sides.len()
    &&& forall|j: int| 0 <= j < sides.len() ==> lists_side(risky, #[trigger] sides[j]) || lists_side(safe, sides[j])
    &&& forall|i: int| 0 <= i < risky.len() ==> sides.contains((#[trigger] risky[i]).0)
        && side_risk(c, next_grid, risky[i].0, chasers, risky[i].1 as int)
    &&& forall|i: int| 0 <= i < safe.len() ==> sides.contains((#[trigger] safe[i]).0)
        && side_without_risk(c, next_grid, safe[i].0, chasers)
        && safe[i].1 == spec_count_dots_4sides(c, spec_step(next_grid, safe[i].0))
}

/// `r` is a way that `choose_side` may give for `cands`: the best-rated way when it is
/// alone; else, outside the rectangle of the remaining dots, the best-rated way that alone
/// leads nearest to it; else any best-rated way.
pub open spec fn chosen_among(cands: Seq<(News, i32)>, grid: Grid, demo: DemoMapParams, r: News) -> bool {
    let best = best_rated(cands);
    if best.len() == 1 {
        r == best[0].0
    } else if !demo.spec_is_inside_rect(grid) && nearest_sides(grid, demo, best).len() == 1 {
        r == nearest_sides(grid, demo, best)[0].0
    } else {
        exists|k: int| 0 <= k < best.len() && (#[trigger] best[k]).0 == r
    }
}

/// Rates each side of a crossing by walking into it (see `rated_sides`): a side where a
/// chaser can meet the player before the player can turn away goes to the first list, rated
/// by the length of the shortest walk to a chaser; the others go to the second, rated by
/// the dots around the grid they lead to. Each list keeps the order of `sides`.
pub fn rate_sides(next_grid: Grid, sides: &Vec<News>, far: &Vec<Grid>, map: &MapInfo)
    -> (r: (Vec<(News, i32)>, Vec<(News, i32)>))
    requires
        map.wf(),
        no_dead_ends(map.cells()),
        map.space_at(next_grid),
        forall|i: int| 0 <= i < sides@.len() ==> map.space_at(spec_step(next_grid, #[trigger] sides@[i])),
        forall|i: int| 0 <= i < far@.len() ==> in_map(#[trigger] far@[i]),
    ensures
        rated_sides(map.cells(), next_grid, sides@, far@, r.0@, r.1@),
        dot_count_at(map.cells(), next_grid) == 0 ==> forall|i: int| 0 <= i < r.1@.len()
            ==> 0 <= (#[trigger] r.1@[i]).1 <= 4,
{
    let ghost c = map.cells();
    let mut risk_rating: Vec<(News, i32)> = Vec::new();
    let mut risk_none: Vec<(News, i32)> = Vec::new();
    let mut i: usize = 0;
    while i < sides.len()
        invariant
            0 <= i <= sides@.len(),
            map.wf(),
            c == map.cells(),
            no_dead_ends(c),
            map.space_at(next_grid),
            forall|k: int| 0 <= k < sides@.len() ==> map.space_at(spec_step(next_grid, #[trigger] sides@[k])),
            forall|k: int| 0 <= k < far@.len() ==> in_map(#[trigger] far@[k]),
            risk_rating@.len() + risk_none@.len() == i,
            forall|j: int| 0 <= j < i ==> lists_side(risk_rating@, #[trigger] sides@[j]) || lists_side(risk_none@, sides@[j]),
            forall|k: int| 0 <= k < risk_rating@.len() ==> sides@.contains((#[trigger] risk_rating@[k]).0)
                && side_risk(c, next_grid, risk_rating@[k].0, far@, risk_rating@[k].1 as int),
            forall|k: int| 0 <= k < risk_none@.len() ==> sides@.contains((#[trigger] risk_none@[k]).0)
                && side_without_risk(c, next_grid, risk_none@[k].0, far@)
                && risk_none@[k].1 == spec_count_dots_4sides(c, spec_step(next_grid, risk_none@[k].0)),
            dot_count_at(c, next_grid) == 0 ==> forall|k: int| 0 <= k < risk_none@.len()
                ==> 0 <= (#[trigger] risk_none@[k]).1 <= 4,
        decreases sides@.len() - i,
    {
        let side = sides[i];
        assert(sides@.contains(side)) by {
            assert(sides@[i as int] == side);
        }
        let byway = next_grid.step(side);
        assert(adjacent(next_grid, byway)) by {
            assert(spec_step(next_grid, side) == byway);
        }
        let ghost rr0 = risk_rating@;
        let ghost rn0 = risk_none@;
        let risk = check_byway_risk(byway, next_grid, far, map);
        match risk {
            Some(n) => {
                let ghost p0 = choose|p: Seq<Grid>|
                    #[trigger] is_risk_path(c, p, next_grid, byway, far@) && p.len() == n
                        && no_early_crossing(c, p);
                proof {
                    assert forall|k: int| 0 <= k < p0.len() implies in_map(#[trigger] p0[k]) by {
                        assert(crate::map::cell_space(c, p0[k]));
                    }
                    lemma_distinct_grids_bound(p0);
                    assert(n <= map_grid_count());
                }
                let rating: i32 = n as i32;
                assert(rating == n);
                risk_rating.push((side, rating));
                assert(has_risk_walk(c, next_grid, side, far@, rating as int)) by {
                    assert(is_risk_path(c, p0, next_grid, spec_step(next_grid, side), far@));
                }
                proof {
                    assert(risk_rating@[rr0.len() as int] == (side, rating));
                    assert forall|j: int| 0 <= j < i + 1 implies lists_side(risk_rating@, #[trigger] sides@[j])
                        || lists_side(risk_none@, sides@[j]) by {
                        if j == i {
                            assert(risk_rating@[rr0.len() as int].0 == sides@[j]);
                        } else if lists_side(rr0, sides@[j]) {
                            let k = choose|k: int| 0 <= k < rr0.len() && (#[trigger] rr0[k]).0 == sides@[j];
                            assert(risk_rating@[k] == rr0[k]);
                        }
                    }
                }
            },
            None => {
                proof {
                    if far@.len() == 0 {
                        assert(no_chaser_walk(c, next_grid, byway, far@));
                    }
                }
                let dots = map.count_dots_4sides(byway);
                proof {
                    if dot_count_at(c, next_grid) == 0 {
                        crate::grid::lemma_step_back(next_grid, side);
                        assert(spec_step(byway, crate::grid::spec_back_side(side)) == next_grid);
                        lemma_count_dots_beside_empty(c, byway, crate::grid::spec_back_side(side));
                    }
                }
                risk_none.push((side, dots));
                proof {
                    assert(risk_none@[rn0.len() as int] == (side, dots));
                    assert forall|j: int| 0 <= j < i + 1 implies lists_side(risk_rating@, #[trigger] sides@[j])
                        || lists_side(risk_none@, sides@[j]) by {
                        if j == i {
                            assert(risk_none@[rn0.len() as int].0 == sides@[j]);
                        } else if lists_side(rn0, sides@[j]) {
                            let k = choose|k: int| 0 <= k < rn0.len() && (#[trigger] rn0[k]).0 == sides@[j];
                            assert(risk_none@[k] == rn0[k]);
                        }
                    }
                }
            },
        }
        i = i + 1;
    }
    (risk_rating, risk_none)
}

/// The way the demo player takes at a crossing. The ways that a chaser about to enter the
/// player's next grid makes bad are left out; when none is left, any way is taken at random,
/// and when one is left, it is taken. Otherwise each way is rated (see `rate_sides`): the
/// ways without risk are preferred, by the dots around them, and when all carry a risk, the
/// ways with the longest walk to a chaser; among the best, `choose_side` decides, and where
/// it leaves the choice open, one is taken at random.
pub fn choice_way(
    player: &Player,
    chasers: &Vec<Chaser>,
    map: &MapInfo,
    demo: &DemoMapParams,
    org_sides: &[News],
) -> (r: News)
    requires
        map.wf(),
        no_dead_ends(map.cells()),
        map.space_at(player.next_grid),
        org_sides@.len() >= 1,
        forall|i: int| 0 <= i < org_sides@.len() ==> map.space_at(spec_step(player.next_grid, #[trigger] org_sides@[i])),
        forall|i: int| 0 <= i < chasers@.len() ==> in_map((#[trigger] chasers@[i]).next_grid),
        demo.rect_bounded(),
    ensures
        org_sides@.contains(r),
        safe_sides(*player, chasers@, org_sides@).len() >= 1 ==> safe_sides(*player, chasers@, org_sides@).contains(r),
        safe_sides(*player, chasers@, org_sides@).len() == 1 ==> r == safe_sides(*player, chasers@, org_sides@)[0],
        safe_sides(*player, chasers@, org_sides@).len() >= 2 ==> exists|risky: Seq<(News, i32)>, safe: Seq<(News, i32)>|
            #[trigger] rated_sides(map.cells(), player.next_grid, safe_sides(*player, chasers@, org_sides@),
                far_grids(*player, chasers@), risky, safe)
            && chosen_among(if safe.len() == 0 { risky } else { safe }, player.next_grid, *demo, r),
{
    let ghost safe = safe_sides(*player, chasers@, org_sides@);
    let (sides, far) = sides_and_far_chasers(player, chasers, org_sides);
    proof {
        broadcast use vstd::seq_lib::group_filter_ensures;
    }

    // every way is bad: leave it to chance
    if sides.len() == 0 {
        let k = random_below(org_sides.len());
        return org_sides[k];
    }

    let ghost pred = |s: News| !is_bad_side(*player, chasers@, s);
    // one way is left
    if sides.len() == 1 {
        assert(sides@.contains(sides@[0]));
        proof {
            org_sides@.lemma_filter_contains_rev(pred, sides@[0]);
        }
        return sides[0];
    }

    proof {
        assert forall|k: int| 0 <= k < sides@.len() implies map.space_at(spec_step(player.next_grid, #[trigger] sides@[k])) by {
            let pred = |s: News| !is_bad_side(*player, chasers@, s);
            assert(org_sides@.filter(pred).contains(sides@[k]));
            org_sides@.lemma_filter_contains_rev(pred, sides@[k]);
            let w = choose|w: int| 0 <= w < org_sides@.len() && org_sides@[w] == sides@[k];
            assert(map.space_at(spec_step(player.next_grid, org_sides@[w])));
        }
        assert forall|k: int| 0 <= k < far@.len() implies in_map(#[trigger] far@[k]) by {
            lemma_far_grids_in_map(*player, chasers@, k);
        }
    }
    let (risk_rating, risk_none) = rate_sides(player.next_grid, &sides, &far, map);
    let ghost risky = risk_rating@;
    let ghost no_risk = risk_none@;
    let cands = if risk_none.len() == 0 { risk_rating } else { risk_none };
    assert(cands@ == if no_risk.len() == 0 { risky } else { no_risk });
    assert(cands@.len() >= 1) by {
        if no_risk.len() == 0 {
            assert(risky.len() == sides@.len());
        }
    }
    assert(forall|k: int| 0 <= k < cands@.len() ==> sides@.contains((#[trigger] cands@[k]).0));

    let r = match choose_side(&cands, player.next_grid, demo) {
        WayChoice::Side(s) => s,
        WayChoice::AnyOf(best) => {
            let k = random_below(best.len());
            assert(best@[k as int] == best_rated(cands@)[k as int]);
            best[k].0
        },
    };
    proof {
        assert(chosen_among(cands@, player.next_grid, *demo, r));
        assert(rated_sides(map.cells(), player.next_grid, safe, far_grids(*player, chasers@), risky, no_risk));
        lemma_chosen_is_candidate(cands@, player.next_grid, *demo, r);
        let w = choose|w: int| 0 <= w < cands@.len() && cands@[w].0 == r;
        assert(sides@.contains(cands@[w].0));
        org_sides@.lemma_filter_contains_rev(pred, r);
    }
    r
}

/// The demo player's way at a crossing, as `choice_way` decides it: the ways that a chaser
/// about to enter the player's next grid makes bad are left out, and among the others the
/// rated choice is made (see `choice_way`).
pub fn which_way_player_goes(
    player: &Player,
    chasers: &Vec<Chaser>,
    map: &MapInfo,
    demo: &DemoMapParams,
    org_sides: &[News],
) -> (r: News)
    requires
        map.wf(),
        no_dead_ends(map.cells()),
        map.space_at(player.next_grid),
        org_sides@.len() >= 1,
        forall|i: int| 0 <= i < org_sides@.len() ==> map.space_at(spec_step(player.next_grid, #[trigger] org_sides@[i])),
        forall|i: int| 0 <= i < chasers@.len() ==> in_map((#[trigger] chasers@[i]).next_grid),
        demo.rect_bounded(),
    ensures
        org_sides@.contains(r),
        safe_sides(*player, chasers@, org_sides@).len() >= 1 ==> safe_sides(*player, chasers@, org_sides@).contains(r),
        safe_sides(*player, chasers@, org_sides@).len() == 1 ==> r == safe_sides(*player, chasers@, org_sides@)[0],
        safe_sides(*player, chasers@, org_sides@).len() >= 2 ==> exists|risky: Seq<(News, i32)>, safe: Seq<(News, i32)>|
            #[trigger] rated_sides(map.cells(), player.next_grid, safe_sides(*player, chasers@, org_sides@),
                far_grids(*player, chasers@), risky, safe)
            && chosen_among(if safe.len() == 0 { risky } else { safe }, player.next_grid, *demo, r),
{
    choice_way(player, chasers, map, demo, org_sides)
}

/// Every grid gathered from the chasers is the next grid of one of them.
proof fn lemma_far_grids_in_map(player: Player, chasers: Seq<Chaser>, k: int)
    requires
        forall|i: int| 0 <= i < chasers.len() ==> in_map((#[trigger] chasers[i]).next_grid),
        0 <= k < far_grids(player, chasers).len(),
    ensures
        in_map(far_grids(player, chasers)[k]),
    decreases chasers.len(),
{
    let rest = far_grids(player, chasers.drop_last());
    if k < rest.len() {
        assert forall|i: int| 0 <= i < chasers.drop_last().len() implies in_map((#[trigger] chasers.drop_last()[i]).next_grid) by {
            assert(chasers.drop_last()[i] == chasers[i]);
        }
        lemma_far_grids_in_map(player, chasers.drop_last(), k);
    } else {
        assert(in_map(chasers[chasers.len() - 1].next_grid));
    }
}

/// Whatever `choose_side` leaves open, the side taken is the side of a candidate.
proof fn lemma_chosen_is_candidate(cands: Seq<(News, i32)>, grid: Grid, demo: DemoMapParams, r: News)
    requires
        best_rated(cands).len() >= 1,
        (exists|k: int| 0 <= k < best_rated(cands).len() && best_rated(cands)[k].0 == r)
            || (exists|k: int| 0 <= k < nearest_sides(grid, demo, best_rated(cands)).len()
                && nearest_sides(grid, demo, best_rated(cands))[k].0 == r),
    ensures
        exists|w: int| 0 <= w < cands.len() && cands[w].0 == r,
{
    let pred = |e: (News, i32)| e.1 == max_rating(cands);
    let best = best_rated(cands);
    let pred2 = |e: (News, i32)| side_far(grid, demo, e) == min_far(grid, demo, best);
    if exists|k: int| 0 <= k < best.len() && best[k].0 == r {
        let k = choose|k: int| 0 <= k < best.len() && best[k].0 == r;
        assert(best.contains(best[k]));
        cands.lemma_filter_contains_rev(pred, best[k]);
    } else {
        let n = nearest_sides(grid, demo, best);
        let k = choose|k: int| 0 <= k < n.len() && n[k].0 == r;
        assert(n.contains(n[k]));
        best.lemma_filter_contains_rev(pred2, n[k]);
        cands.lemma_filter_contains_rev(pred, n[k]);
    }
}

} // verus!
