use vstd::prelude::*;
use crate::grid::{Grid, MAP_GRIDS_WIDTH, MAP_GRIDS_HEIGHT, in_map};
use crate::map::{MapInfo, MapObj, cell, cells_wf, is_dot_obj, dot_entity};
use crate::stage_map::{
    col_dots, row_dots, map_dots, col_spaces, row_spaces, demo_counts_spaces, lemma_col_dots_bound,
    lemma_map_dots_bound,
};
use crate::demo_params::{
    DemoMapParams, first_nonzero, last_nonzero, lemma_first_nonzero_le, lemma_first_nonzero_found,
    lemma_last_nonzero_ge, lemma_last_nonzero_found,
};
use crate::maze::{is_new_maze, new_maze_obj};
use crate::record::Record;
use crate::state::MyState;

verus! {

/// `c2` holds what `c1` holds everywhere but at `g`.
pub open spec fn same_except(c1: Seq<Seq<MapObj>>, c2: Seq<Seq<MapObj>>, g: Grid) -> bool {
    &&& cells_wf(c1)
    &&& cells_wf(c2)
    &&& forall|h: Grid| in_map(h) && h != g ==> #[trigger] cell(c2, h) == cell(c1, h)
}

/// Taking the dot away from `g` leaves one dot fewer in its column, and as many elsewhere.
pub proof fn lemma_col_dots_eaten(c1: Seq<Seq<MapObj>>, c2: Seq<Seq<MapObj>>, g: Grid, x: int, n: int)
    requires
        same_except(c1, c2, g),
        in_map(g),
        is_dot_obj(cell(c1, g)),
        !is_dot_obj(cell(c2, g)),
        0 <= x < MAP_GRIDS_WIDTH,
        0 <= n <= MAP_GRIDS_HEIGHT,
    ensures
        col_dots(c2, x, n) == col_dots(c1, x, n) - if x == g.x && g.y < n { 1int } else { 0int },
    decreases n,
{
    if n > 0 {
        lemma_col_dots_eaten(c1, c2, g, x, n - 1);
        let h = Grid { x: x as i32, y: (n - 1) as i32 };
        assert(in_map(h));
        if h != g {
            assert(cell(c2, h) == cell(c1, h));
        }
    }
}

/// Taking the dot away from `g` leaves one dot fewer in its row, and as many elsewhere.
pub proof fn lemma_row_dots_eaten(c1: Seq<Seq<MapObj>>, c2: Seq<Seq<MapObj>>, g: Grid, y: int, n: int)
    requires
        same_except(c1, c2, g),
        in_map(g),
        is_dot_obj(cell(c1, g)),
        !is_dot_obj(cell(c2, g)),
        0 <= y < MAP_GRIDS_HEIGHT,
        0 <= n <= MAP_GRIDS_WIDTH,
    ensures
        row_dots(c2, y, n) == row_dots(c1, y, n) - if y == g.y && g.x < n { 1int } else { 0int },
    decreases n,
{
    if n > 0 {
        lemma_row_dots_eaten(c1, c2, g, y, n - 1);
        let h = Grid { x: (n - 1) as i32, y: y as i32 };
        assert(in_map(h));
        if h != g {
            assert(cell(c2, h) == cell(c1, h));
        }
    }
}

/// Taking the dot away from `g` leaves one dot fewer on the map.
pub proof fn lemma_map_dots_eaten(c1: Seq<Seq<MapObj>>, c2: Seq<Seq<MapObj>>, g: Grid, n: int)
    requires
        same_except(c1, c2, g),
        in_map(g),
        is_dot_obj(cell(c1, g)),
        !is_dot_obj(cell(c2, g)),
        0 <= n <= MAP_GRIDS_WIDTH,
    ensures
        map_dots(c2, n) == map_dots(c1, n) - if g.x < n { 1int } else { 0int },
    decreases n,
{
    if n > 0 {
        lemma_map_dots_eaten(c1, c2, g, n - 1);
        lemma_col_dots_eaten(c1, c2, g, n - 1, MAP_GRIDS_HEIGHT as int);
    }
}

/// A map with a dot somewhere counts at least one dot.
pub proof fn lemma_map_dots_pos(c: Seq<Seq<MapObj>>, g: Grid)
    requires
        cells_wf(c),
        in_map(g),
        is_dot_obj(cell(c, g)),
    ensures
        map_dots(c, MAP_GRIDS_WIDTH as int) >= 1,
{
    let c2 = c.update(g.x as int, c[g.x as int].update(g.y as int, MapObj::Space));
    assert(same_except(c, c2, g)) by {
        assert forall|h: Grid| in_map(h) && h != g implies #[trigger] cell(c2, h) == cell(c, h) by {
            if h.x != g.x {
            } else {
                assert(h.y != g.y);
            }
        }
        assert forall|x: int| 0 <= x < MAP_GRIDS_WIDTH implies #[trigger] c2[x].len() == MAP_GRIDS_HEIGHT by {
            if x == g.x {
            }
        }
    }
    lemma_map_dots_eaten(c, c2, g, MAP_GRIDS_WIDTH as int);
    lemma_map_dots_bound(c2, MAP_GRIDS_WIDTH as int);
}

/// The record after a dot is eaten: one point more, and, when `count_hi_score` holds, a
/// better score becomes the high score.
pub open spec fn record_after_dot(r: Record, count_hi_score: bool) -> Record {
    Record {
        score: (r.score + 1) as i32,
        hi_score: if count_hi_score && r.score + 1 > r.hi_score { (r.score + 1) as i32 } else { r.hi_score },
        ..r
    }
}

/// The high score never goes down when a dot is eaten, and where it counts it is never
/// below the score afterwards.
pub proof fn lemma_hi_score_keeps_up(r: Record, count_hi_score: bool)
    requires
        r.score < i32::MAX,
    ensures
        record_after_dot(r, count_hi_score).hi_score >= r.hi_score,
        record_after_dot(r, count_hi_score).score == r.score + 1,
        count_hi_score ==> record_after_dot(r, count_hi_score).hi_score >= record_after_dot(r, count_hi_score).score,
{
}

/// When the player stands on a dot that has a sprite, eats it: the dot leaves the map, one
/// dot fewer remains, the score goes up by one, and when `count_hi_score` holds a better
/// score becomes the high score. Gives the sprite of the eaten dot.
pub fn eat_dot(player_grid: Grid, map: &mut MapInfo, record: &mut Record, count_hi_score: bool) -> (r: Option<u64>)
    requires
        old(map).wf(),
        in_map(player_grid),
        old(map).remaining_dots == map_dots(old(map).cells(), MAP_GRIDS_WIDTH as int),
        old(record).score < i32::MAX,
    ensures
        final(map).wf(),
        final(map).demo == old(map).demo,
        final(map).remaining_dots == map_dots(final(map).cells(), MAP_GRIDS_WIDTH as int),
        r == dot_entity(old(map).obj(player_grid)),
        r is None ==> final(map).array@ == old(map).array@ && final(map).remaining_dots == old(map).remaining_dots
            && *final(record) == *old(record),
        r is Some ==> {
            &&& final(map).obj(player_grid) == MapObj::Space
            &&& forall|h: Grid| in_map(h) && h != player_grid ==> #[trigger] final(map).obj(h) == old(map).obj(h)
            &&& final(map).remaining_dots == old(map).remaining_dots - 1
            &&& *final(record) == record_after_dot(*old(record), count_hi_score)
        },
{
    // no dot where the player stands
    let dot = match map.opt_entity(player_grid) {
        Some(e) => e,
        None => {
            return None;
        },
    };
    let ghost c1 = map.cells();
    proof {
        map.lemma_cells();
        lemma_map_dots_pos(c1, player_grid);
    }

    // the dot leaves the map
    map.set(player_grid, MapObj::Space);
    proof {
        let c2 = map.cells();
        map.lemma_cells();
        assert forall|h: Grid| in_map(h) && h != player_grid implies #[trigger] cell(c2, h) == cell(c1, h) by {
            assert(map.obj(h) == cell(c1, h));
        }
        assert(same_except(c1, c2, player_grid));
        lemma_map_dots_eaten(c1, c2, player_grid, MAP_GRIDS_WIDTH as int);
    }

    // the score
    *record.score_mut() += 1;
    map.remaining_dots = map.remaining_dots - 1;

    // a better score is the new high score
    if count_hi_score && record.score() > record.hi_score() {
        let score = record.score();
        *record.hi_score_mut() = score;
    }
    Some(dot)
}

/// What eating a dot leads to: the sprite of the dot to take away, and the state to go to
/// when it was the last dot.
#[derive(Clone, Copy, Debug, PartialEq, Eq, Structural)]
pub struct Scoring {
    pub dot: u64,
    pub next_state: Option<MyState>,
}

/// When the player stands on a dot that has a sprite, eats it (see `eat_dot`; the high
/// score counts outside the demo). When no dot is left, the stage is cleared: the main loop
/// goes on to the stage clear, the demo to its next round.
pub fn scoring_and_stageclear(player_grid: Grid, map: &mut MapInfo, record: &mut Record, state: MyState)
    -> (r: Option<Scoring>)
    requires
        old(map).wf(),
        in_map(player_grid),
        old(map).remaining_dots == map_dots(old(map).cells(), MAP_GRIDS_WIDTH as int),
        old(record).score < i32::MAX,
        dot_entity(old(map).obj(player_grid)) is Some && old(map).remaining_dots == 1
            ==> state == MyState::MainLoop || state == MyState::TitleDemo,
    ensures
        final(map).wf(),
        final(map).demo == old(map).demo,
        final(map).remaining_dots == map_dots(final(map).cells(), MAP_GRIDS_WIDTH as int),
        dot_entity(old(map).obj(player_grid)) is None ==> r is None && final(map).array@ == old(map).array@
            && final(map).remaining_dots == old(map).remaining_dots && *final(record) == *old(record),
        dot_entity(old(map).obj(player_grid)) matches Some(e) ==> {
            &&& r matches Some(s) && s.dot == e
            &&& final(map).obj(player_grid) == MapObj::Space
            &&& forall|h: Grid| in_map(h) && h != player_grid ==> #[trigger] final(map).obj(h) == old(map).obj(h)
            &&& final(map).remaining_dots == old(map).remaining_dots - 1
            &&& final(record).score == old(record).score + 1
            &&& final(record).hi_score == if state != MyState::TitleDemo && old(record).score + 1 > old(record).hi_score {
                old(record).score + 1
            } else {
                old(record).hi_score as int
            }
            &&& final(record).stage == old(record).stage
            &&& final(record).demo_hi_score == old(record).demo_hi_score
            &&& final(record).demo_stage == old(record).demo_stage
            &&& final(map).remaining_dots == 0 ==> final(record).is_clear && r.unwrap().next_state == Some(
                if state == MyState::MainLoop { MyState::StageClear } else { MyState::DemoLoop })
            &&& final(map).remaining_dots > 0 ==> final(record).is_clear == old(record).is_clear
                && r.unwrap().next_state is None
        },
{
    let dot = match eat_dot(player_grid, map, record, !state.is_demoplay()) {
        Some(e) => e,
        None => {
            return None;
        },
    };

    // the stage is cleared once every dot is eaten
    let mut next_state: Option<MyState> = None;
    if map.remaining_dots == 0 {
        next_state = Some(
            match state {
                MyState::MainLoop => MyState::StageClear,
                _ => MyState::DemoLoop,
            },
        );
        *record.is_clear_mut() = true;
    }
    Some(Scoring { dot, next_state })
}

/// The state after the collision check: nothing happens when the stage was just cleared or
/// no chaser met the player; else the main loop goes on to the game over and the demo to
/// its next round.
pub fn detect_collisions(cleared: bool, collided: bool, state: MyState) -> (r: Option<MyState>)
    requires
        !cleared && collided ==> state == MyState::MainLoop || state == MyState::TitleDemo,
    ensures
        r == if cleared || !collided {
            None
        } else if state == MyState::MainLoop {
            Some(MyState::GameOver)
        } else {
            Some(MyState::DemoLoop)
        },
{
    if cleared || !collided {
        return None;
    }
    match state {
        MyState::MainLoop => Some(MyState::GameOver),
        _ => Some(MyState::DemoLoop),
    }
}

/// The demo counts agree with the cells: the count of each column and of each row is the
/// number of dots in it.
pub open spec fn demo_counts_dots(d: DemoMapParams, c: Seq<Seq<MapObj>>) -> bool {
    &&& d.wf()
    &&& forall|x: int| 0 <= x < MAP_GRIDS_WIDTH ==> #[trigger] d.dots_sum_x@[x] == col_dots(c, x, MAP_GRIDS_HEIGHT as int)
    &&& forall|y: int| 0 <= y < MAP_GRIDS_HEIGHT ==> #[trigger] d.dots_sum_y@[y] == row_dots(c, y, MAP_GRIDS_WIDTH as int)
}

/// In cells where every grid is a dot or a wall, a column holds as many dots as spaces.
proof fn lemma_col_spaces_are_dots(c: Seq<Seq<MapObj>>, x: int, n: int)
    requires
        cells_wf(c),
        0 <= x < MAP_GRIDS_WIDTH,
        0 <= n <= MAP_GRIDS_HEIGHT,
        forall|g: Grid| in_map(g) ==> #[trigger] is_dot_obj(cell(c, g)) || cell(c, g) is Wall,
    ensures
        col_spaces(c, x, n) == col_dots(c, x, n),
    decreases n,
{
    if n > 0 {
        lemma_col_spaces_are_dots(c, x, n - 1);
        let g = Grid { x: x as i32, y: (n - 1) as i32 };
        assert(in_map(g));
        assert(is_dot_obj(cell(c, g)) || cell(c, g) is Wall);
    }
}

/// In cells where every grid is a dot or a wall, a row holds as many dots as spaces.
proof fn lemma_row_spaces_are_dots(c: Seq<Seq<MapObj>>, y: int, n: int)
    requires
        cells_wf(c),
        0 <= y < MAP_GRIDS_HEIGHT,
        0 <= n <= MAP_GRIDS_WIDTH,
        forall|g: Grid| in_map(g) ==> #[trigger] is_dot_obj(cell(c, g)) || cell(c, g) is Wall,
    ensures
        row_spaces(c, y, n) == row_dots(c, y, n),
    decreases n,
{
    if n > 0 {
        lemma_row_spaces_are_dots(c, y, n - 1);
        let g = Grid { x: (n - 1) as i32, y: y as i32 };
        assert(in_map(g));
        assert(is_dot_obj(cell(c, g)) || cell(c, g) is Wall);
    }
}

/// The demo parameters of a new maze count its dots: every grid of a new maze that is
/// not a wall holds a dot, so counting the spaces counts the dots.
pub proof fn lemma_new_maze_demo_counts_dots(m: &MapInfo)
    requires
        m.wf(),
        is_new_maze(m),
        demo_counts_spaces(m),
    ensures
        demo_counts_dots(m.demo, m.cells()),
{
    let c = m.cells();
    m.lemma_cells();
    assert forall|g: Grid| in_map(g) implies #[trigger] is_dot_obj(cell(c, g)) || cell(c, g) is Wall by {
        assert(new_maze_obj(g.x as int, g.y as int, m.obj(g)));
    }
    assert forall|x: int| 0 <= x < MAP_GRIDS_WIDTH implies #[trigger] m.demo.dots_sum_x@[x]
        == col_dots(c, x, MAP_GRIDS_HEIGHT as int) by {
        lemma_col_spaces_are_dots(c, x, MAP_GRIDS_HEIGHT as int);
    }
    assert forall|y: int| 0 <= y < MAP_GRIDS_HEIGHT implies #[trigger] m.demo.dots_sum_y@[y]
        == row_dots(c, y, MAP_GRIDS_WIDTH as int) by {
        lemma_row_spaces_are_dots(c, y, MAP_GRIDS_WIDTH as int);
    }
}

/// Eating a dot and taking one off the counts of its column and row keeps the demo counts
/// in agreement with the cells.
pub proof fn lemma_eaten_dot_demo_counts(
    c1: Seq<Seq<MapObj>>,
    c2: Seq<Seq<MapObj>>,
    g: Grid,
    d1: DemoMapParams,
    d2: DemoMapParams,
)
    requires
        demo_counts_dots(d1, c1),
        same_except(c1, c2, g),
        in_map(g),
        is_dot_obj(cell(c1, g)),
        !is_dot_obj(cell(c2, g)),
        d2.dots_sum_x@ == d1.dots_sum_x@.update(g.x as int, (d1.dots_sum_x@[g.x as int] - 1) as i32),
        d2.dots_sum_y@ == d1.dots_sum_y@.update(g.y as int, (d1.dots_sum_y@[g.y as int] - 1) as i32),
    ensures
        demo_counts_dots(d2, c2),
{
    assert forall|x: int| 0 <= x < MAP_GRIDS_WIDTH implies #[trigger] d2.dots_sum_x@[x]
        == col_dots(c2, x, MAP_GRIDS_HEIGHT as int) by {
        lemma_col_dots_eaten(c1, c2, g, x, MAP_GRIDS_HEIGHT as int);
        lemma_col_dots_bound(c1, x, MAP_GRIDS_HEIGHT as int);
    }
    assert forall|y: int| 0 <= y < MAP_GRIDS_HEIGHT implies #[trigger] d2.dots_sum_y@[y]
        == row_dots(c2, y, MAP_GRIDS_WIDTH as int) by {
        lemma_row_dots_eaten(c1, c2, g, y, MAP_GRIDS_WIDTH as int);
        lemma_row_dots_bound(c1, y, MAP_GRIDS_WIDTH as int);
    }
}

/// A column with a dot among its first `n` grids counts at least one dot there.
proof fn lemma_col_dots_pos(c: Seq<Seq<MapObj>>, x: int, y: int, n: int)
    requires
        0 <= y < n,
        is_dot_obj(c[x][y]),
    ensures
        col_dots(c, x, n) >= 1,
    decreases n,
{
    if y < n - 1 {
        lemma_col_dots_pos(c, x, y, n - 1);
    } else {
        lemma_col_dots_bound(c, x, n - 1);
    }
}

/// A row with a dot among its first `n` grids counts at least one dot there.
proof fn lemma_row_dots_pos(c: Seq<Seq<MapObj>>, y: int, x: int, n: int)
    requires
        0 <= x < n,
        is_dot_obj(c[x][y]),
    ensures
        row_dots(c, y, n) >= 1,
    decreases n,
{
    if x < n - 1 {
        lemma_row_dots_pos(c, y, x, n - 1);
    } else {
        lemma_row_dots_bound(c, y, n - 1);
    }
}

/// A row never counts a negative number of dots, nor more than its length.
pub proof fn lemma_row_dots_bound(c: Seq<Seq<MapObj>>, y: int, n: int)
    ensures
        0 <= row_dots(c, y, n) <= if n < 0 { 0 } else { n },
    decreases n,
{
    if n > 0 {
        lemma_row_dots_bound(c, y, n - 1);
    }
}

/// When the demo counts agree with the cells, the rectangle that the demo update computes
/// from them is the smallest that holds every dot: every dot lies inside it, and no column
/// or row outside it holds a dot.
pub proof fn lemma_demo_rect_holds_dots(d: DemoMapParams, c: Seq<Seq<MapObj>>)
    requires
        cells_wf(c),
        demo_counts_dots(d, c),
        d.dots_rect_min.x == first_nonzero(d.dots_sum_x@, 0),
        d.dots_rect_min.y == first_nonzero(d.dots_sum_y@, 0),
        d.dots_rect_max.x == last_nonzero(d.dots_sum_x@, MAP_GRIDS_WIDTH as int),
        d.dots_rect_max.y == last_nonzero(d.dots_sum_y@, MAP_GRIDS_HEIGHT as int),
    ensures
        forall|g: Grid| in_map(g) && is_dot_obj(#[trigger] cell(c, g)) ==> d.spec_is_inside_rect(g),
        forall|x: int| 0 <= x < MAP_GRIDS_WIDTH && (x < d.dots_rect_min.x || d.dots_rect_max.x < x)
            ==> #[trigger] col_dots(c, x, MAP_GRIDS_HEIGHT as int) == 0,
        forall|y: int| 0 <= y < MAP_GRIDS_HEIGHT && (y < d.dots_rect_min.y || d.dots_rect_max.y < y)
            ==> #[trigger] row_dots(c, y, MAP_GRIDS_WIDTH as int) == 0,
{
    let sx = d.dots_sum_x@;
    let sy = d.dots_sum_y@;
    assert forall|g: Grid| in_map(g) && is_dot_obj(#[trigger] cell(c, g)) implies d.spec_is_inside_rect(g) by {
        lemma_col_dots_pos(c, g.x as int, g.y as int, MAP_GRIDS_HEIGHT as int);
        lemma_row_dots_pos(c, g.y as int, g.x as int, MAP_GRIDS_WIDTH as int);
        assert(sx[g.x as int] != 0);
        assert(sy[g.y as int] != 0);
        lemma_first_nonzero_le(sx, 0, g.x as int);
        lemma_first_nonzero_le(sy, 0, g.y as int);
        lemma_last_nonzero_ge(sx, MAP_GRIDS_WIDTH as int, g.x as int);
        lemma_last_nonzero_ge(sy, MAP_GRIDS_HEIGHT as int, g.y as int);
    }
    lemma_first_nonzero_found(sx, 0);
    lemma_first_nonzero_found(sy, 0);
    lemma_last_nonzero_found(sx, MAP_GRIDS_WIDTH as int);
    lemma_last_nonzero_found(sy, MAP_GRIDS_HEIGHT as int);
    assert forall|x: int| 0 <= x < MAP_GRIDS_WIDTH && (x < d.dots_rect_min.x || d.dots_rect_max.x < x)
        implies #[trigger] col_dots(c, x, MAP_GRIDS_HEIGHT as int) == 0 by {
        assert(sx[x] == 0);
    }
    assert forall|y: int| 0 <= y < MAP_GRIDS_HEIGHT && (y < d.dots_rect_min.y || d.dots_rect_max.y < y)
        implies #[trigger] row_dots(c, y, MAP_GRIDS_WIDTH as int) == 0 by {
        assert(sy[y] == 0);
    }
}

} // verus!
