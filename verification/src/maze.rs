use vstd::prelude::*;
use crate::grid::{Grid, News, MAP_GRIDS_WIDTH, MAP_GRIDS_HEIGHT, in_map, spec_step};
use crate::map::{MapInfo, MapObj, cell_space, side_spaces, is_dot_obj};
use crate::auto_drive::no_dead_ends;
use crate::random::random_below;

verus! {

/// Half the map's width, rounded down.
pub open spec fn spec_half_w() -> int {
    MAP_GRIDS_WIDTH / 2
}

/// Half the map's height, rounded down.
pub open spec fn spec_half_h() -> int {
    MAP_GRIDS_HEIGHT / 2
}

/// The shorter of the two halves: the number of rings of walls and passages.
pub open spec fn spec_short_side() -> int {
    if spec_half_w() >= spec_half_h() { spec_half_h() } else { spec_half_w() }
}

/// How deep `(x, y)` lies inside the map: its distance to the nearest edge.
pub open spec fn layer(x: int, y: int) -> int {
    let a = if x < y { x } else { y };
    let b = if MAP_GRIDS_WIDTH - 1 - x < MAP_GRIDS_HEIGHT - 1 - y {
        MAP_GRIDS_WIDTH - 1 - x
    } else {
        MAP_GRIDS_HEIGHT - 1 - y
    };
    if a < b { a } else { b }
}

/// Whether `(x, y)` lies in the box with corners `(x1, y1)` and `(x2, y2)`, in either order.
pub open spec fn in_box(x: int, y: int, x1: int, y1: int, x2: int, y2: int) -> bool {
    &&& (if x1 <= x2 { x1 <= x <= x2 } else { x2 <= x <= x1 })
    &&& (if y1 <= y2 { y1 <= y <= y2 } else { y2 <= y <= y1 })
}

/// Whether a wall is built across the middle of the cross of passages.
pub open spec fn has_center_wall() -> bool {
    spec_short_side() % 2 == 0 && (if spec_half_w() >= spec_half_h() {
        MAP_GRIDS_HEIGHT % 2 != 0
    } else {
        MAP_GRIDS_WIDTH % 2 != 0
    })
}

/// The wall across the middle of the cross of passages.
pub open spec fn in_center_wall(x: int, y: int) -> bool {
    has_center_wall() && if spec_half_w() >= spec_half_h() {
        in_box(x, y, spec_short_side(), spec_short_side(), MAP_GRIDS_WIDTH - 1 - spec_short_side(), spec_short_side())
    } else {
        in_box(x, y, spec_short_side(), spec_short_side(), spec_short_side(), MAP_GRIDS_HEIGHT - 1 - spec_short_side())
    }
}

/// The cross of passages through the middle of the map.
pub open spec fn in_cross(x: int, y: int) -> bool {
    ||| in_box(x, y, 1, spec_half_h(), MAP_GRIDS_WIDTH - 2, MAP_GRIDS_HEIGHT - 1 - spec_half_h())
    ||| in_box(x, y, spec_half_w(), 1, MAP_GRIDS_WIDTH - 1 - spec_half_w(), MAP_GRIDS_HEIGHT - 2)
}

/// The maze before walls are opened at random: rings of walls (even layers) and passages
/// (odd layers), a cross of passages, and a wall across the middle of the cross.
pub open spec fn base_is_wall(x: int, y: int) -> bool {
    if in_center_wall(x, y) {
        true
    } else if in_cross(x, y) {
        false
    } else {
        layer(x, y) % 2 == 0
    }
}

/// Where walls may be opened at random.
pub open spec fn in_random_region(x: int, y: int) -> bool {
    2 <= x < MAP_GRIDS_WIDTH - 2 && 2 <= y < MAP_GRIDS_HEIGHT - 2
}

/// The object of a new maze: a dot on a passage, a wall elsewhere; a wall in the region of
/// random openings may have become a dot.
pub open spec fn new_maze_obj(x: int, y: int, o: MapObj) -> bool {
    if !base_is_wall(x, y) {
        o == MapObj::Dot(None)
    } else if in_random_region(x, y) {
        o == MapObj::Dot(None) || o == MapObj::Wall(None)
    } else {
        o == MapObj::Wall(None)
    }
}

/// How many walls a new maze opens at random at most: one draw for every ten grids.
pub open spec fn max_openings() -> int {
    MAP_GRIDS_WIDTH * MAP_GRIDS_HEIGHT / 10
}

/// Every grid of `m` where the base maze has a wall but `m` has none is among `opened`.
pub open spec fn openings_among(m: &MapInfo, opened: Seq<Grid>) -> bool {
    forall|g: Grid| in_map(g) && base_is_wall(g.x as int, g.y as int) && !(#[trigger] m.obj(g) is Wall)
        ==> opened.contains(g)
}

/// `draws` are the grids drawn at random for openings: each lies in the region of random
/// openings and holds a dot in `m`.
pub open spec fn drawn_openings(m: &MapInfo, draws: Seq<Grid>) -> bool {
    forall|i: int| 0 <= i < draws.len() ==> in_random_region((#[trigger] draws[i]).x as int, draws[i].y as int)
        && m.obj(draws[i]) == MapObj::Dot(None)
}

/// Every grid of the map holds what a new maze may hold there, and `max_openings` grids
/// were drawn in the region of random openings: each holds a dot, and every wall of the base
/// maze that is open is one of them.
pub open spec fn is_new_maze(m: &MapInfo) -> bool {
    &&& forall|g: Grid| in_map(g) ==> new_maze_obj(g.x as int, g.y as int, #[trigger] m.obj(g))
    &&& exists|draws: Seq<Grid>| draws.len() == max_openings() && #[trigger] openings_among(m, draws)
        && drawn_openings(m, draws)
}

/// A new maze of the 40 by 25 map has 100 grids drawn for openings, all in columns 2 to 37
/// and rows 2 to 22, each holding a dot; the walls of the base maze that are open are among
/// them.
pub proof fn lemma_new_maze_openings(m: &MapInfo)
    requires
        is_new_maze(m),
    ensures
        exists|draws: Seq<Grid>| draws.len() == 100
            && (forall|i: int| 0 <= i < draws.len() ==> 2 <= (#[trigger] draws[i]).x < 38 && 2 <= draws[i].y < 23
                && is_dot_obj(m.obj(draws[i])))
            && (forall|g: Grid| in_map(g) && base_is_wall(g.x as int, g.y as int) && !(#[trigger] m.obj(g) is Wall)
                ==> draws.contains(g)),
{
    let draws = choose|draws: Seq<Grid>| draws.len() == max_openings() && #[trigger] openings_among(m, draws)
        && drawn_openings(m, draws);
    assert(forall|i: int| 0 <= i < draws.len() ==> 2 <= (#[trigger] draws[i]).x < 38 && 2 <= draws[i].y < 23
        && is_dot_obj(m.obj(draws[i])));
}

/// Fills the box with corners `(x1, y1)` and `(x2, y2)`, in either order, with `obj`.
fn box_fill(map: &mut MapInfo, obj: MapObj, x1: i32, y1: i32, x2: i32, y2: i32)
    requires
        old(map).wf(),
        0 <= x1 < MAP_GRIDS_WIDTH,
        0 <= x2 < MAP_GRIDS_WIDTH,
        0 <= y1 < MAP_GRIDS_HEIGHT,
        0 <= y2 < MAP_GRIDS_HEIGHT,
    ensures
        final(map).wf(),
        final(map).remaining_dots == old(map).remaining_dots,
        final(map).demo == old(map).demo,
        forall|g: Grid| in_map(g) ==> #[trigger] final(map).obj(g)
            == if in_box(g.x as int, g.y as int, x1 as int, y1 as int, x2 as int, y2 as int) {
                obj
            } else {
                old(map).obj(g)
            },
{
    let (mut x1, mut x2) = if x1 > x2 { (x2, x1) } else { (x1, x2) };
    let (mut y1, mut y2) = if y1 > y2 { (y2, y1) } else { (y1, y2) };
    let ghost bx = |x: int, y: int| x1 <= x <= x2 && y1 <= y <= y2;
    let mut y = y1;
    while y <= y2
        invariant
            0 <= x1 <= x2 < MAP_GRIDS_WIDTH,
            0 <= y1 <= y2 < MAP_GRIDS_HEIGHT,
            y1 <= y <= y2 + 1,
            map.wf(),
            map.remaining_dots == old(map).remaining_dots,
            map.demo == old(map).demo,
            forall|g: Grid| in_map(g) ==> #[trigger] map.obj(g)
                == if x1 <= g.x <= x2 && y1 <= g.y < y { obj } else { old(map).obj(g) },
        decreases y2 + 1 - y,
    {
        let mut x = x1;
        while x <= x2
            invariant
                0 <= x1 <= x2 < MAP_GRIDS_WIDTH,
                0 <= y1 <= y <= y2 < MAP_GRIDS_HEIGHT,
                x1 <= x <= x2 + 1,
                map.wf(),
                map.remaining_dots == old(map).remaining_dots,
                map.demo == old(map).demo,
                forall|g: Grid| in_map(g) ==> #[trigger] map.obj(g)
                    == if (x1 <= g.x <= x2 && y1 <= g.y < y) || (x1 <= g.x < x && g.y == y) {
                        obj
                    } else {
                        old(map).obj(g)
                    },
            decreases x2 + 1 - x,
        {
            map.set(Grid { x, y }, obj);
            x = x + 1;
        }
        y = y + 1;
    }
}

/// Whether `(x, y)` is on the map and a passage of the maze before random openings.
pub open spec fn base_dot_at(x: int, y: int) -> bool {
    0 <= x < MAP_GRIDS_WIDTH && 0 <= y < MAP_GRIDS_HEIGHT && !base_is_wall(x, y)
}

pub open spec fn b2i(b: bool) -> int {
    if b { 1 } else { 0 }
}

/// Every passage of the base maze, and every wall that may be opened at random, has at
/// least two neighbouring passages in the base maze.
pub proof fn lemma_base_dot_neighbors(x: int, y: int)
    requires
        0 <= x < MAP_GRIDS_WIDTH,
        0 <= y < MAP_GRIDS_HEIGHT,
        !base_is_wall(x, y) || in_random_region(x, y),
    ensures
        b2i(base_dot_at(x, y - 1)) + b2i(base_dot_at(x + 1, y)) + b2i(base_dot_at(x - 1, y))
            + b2i(base_dot_at(x, y + 1)) >= 2,
{
}

/// A maze built as a new maze has no dead ends.
pub proof fn lemma_new_maze_no_dead_ends(m: &MapInfo)
    requires
        m.wf(),
        is_new_maze(m),
    ensures
        no_dead_ends(m.cells()),
{
    reveal(no_dead_ends);
    let c = m.cells();
    assert forall|g: Grid| cell_space(c, g) implies #[trigger] side_spaces(c, g).len() >= 2 by {
        assert(new_maze_obj(g.x as int, g.y as int, m.obj(g)));
        lemma_base_dot_neighbors(g.x as int, g.y as int);
        let gn = spec_step(g, News::North);
        let ge = spec_step(g, News::East);
        let gw = spec_step(g, News::West);
        let gs = spec_step(g, News::South);
        if base_dot_at(gn.x as int, gn.y as int) {
            assert(in_map(gn));
            assert(new_maze_obj(gn.x as int, gn.y as int, m.obj(gn)));
        }
        if base_dot_at(ge.x as int, ge.y as int) {
            assert(in_map(ge));
            assert(new_maze_obj(ge.x as int, ge.y as int, m.obj(ge)));
        }
        if base_dot_at(gw.x as int, gw.y as int) {
            assert(in_map(gw));
            assert(new_maze_obj(gw.x as int, gw.y as int, m.obj(gw)));
        }
        if base_dot_at(gs.x as int, gs.y as int) {
            assert(in_map(gs));
            assert(new_maze_obj(gs.x as int, gs.y as int, m.obj(gs)));
        }
    }
}

/// The object of the rings of the maze at a given layer.
pub open spec fn ring_obj(l: int) -> MapObj {
    if l % 2 == 0 { MapObj::Wall(None) } else { MapObj::Dot(None) }
}

/// Builds a new maze: rings of walls and passages, a cross of passages through the middle
/// with a wall across its centre, and walls opened at random inside the outer rings.
/// Every passage holds a dot.
pub(crate) fn make_new_maze(map: &mut MapInfo)
    requires
        old(map).wf(),
    ensures
        final(map).wf(),
        final(map).remaining_dots == old(map).remaining_dots,
        final(map).demo == old(map).demo,
        is_new_maze(final(map)),
{
    let half_w: i32 = MAP_GRIDS_WIDTH / 2;
    let half_h: i32 = MAP_GRIDS_HEIGHT / 2;
    let short_side: i32 = if half_w >= half_h { half_h } else { half_w };
    let dot = MapObj::Dot(None);
    let wall = MapObj::Wall(None);

    // the basic rings
    let mut xy: i32 = 0;
    while xy <= short_side
        invariant
            0 <= xy <= short_side + 1,
            short_side == spec_short_side(),
            dot == MapObj::Dot(None),
            wall == MapObj::Wall(None),
            map.wf(),
            map.remaining_dots == old(map).remaining_dots,
            map.demo == old(map).demo,
            xy >= 1 ==> forall|g: Grid| in_map(g) ==> #[trigger] map.obj(g)
                == if layer(g.x as int, g.y as int) < xy {
                    ring_obj(layer(g.x as int, g.y as int))
                } else {
                    ring_obj(xy - 1)
                },
        decreases short_side + 1 - xy,
    {
        let obj = if xy % 2 == 0 { wall } else { dot };
        box_fill(map, obj, xy, xy, MAP_GRIDS_WIDTH - 1 - xy, MAP_GRIDS_HEIGHT - 1 - xy);
        xy = xy + 1;
    }
    proof {
        assert forall|g: Grid| in_map(g) implies layer(g.x as int, g.y as int) <= spec_short_side() by {}
    }

    // the cross of passages
    box_fill(map, dot, 1, half_h, MAP_GRIDS_WIDTH - 2, MAP_GRIDS_HEIGHT - 1 - half_h);
    box_fill(map, dot, half_w, 1, MAP_GRIDS_WIDTH - 1 - half_w, MAP_GRIDS_HEIGHT - 2);

    // the wall across the centre of the cross
    if short_side % 2 == 0 {
        if half_w >= half_h {
            if MAP_GRIDS_HEIGHT % 2 != 0 {
                box_fill(map, wall, short_side, short_side, MAP_GRIDS_WIDTH - 1 - short_side, short_side);
            }
        } else if MAP_GRIDS_WIDTH % 2 != 0 {
            box_fill(map, wall, short_side, short_side, short_side, MAP_GRIDS_HEIGHT - 1 - short_side);
        }
    }
    let ghost mut opened: Seq<Grid> = Seq::empty();
    proof {
        assert forall|g: Grid| in_map(g) implies new_maze_obj(g.x as int, g.y as int, #[trigger] map.obj(g))
            && (map.obj(g) == if base_is_wall(g.x as int, g.y as int) { MapObj::Wall(None) } else { MapObj::Dot(None) }) by {
            assert(layer(g.x as int, g.y as int) <= spec_short_side());
        }
        assert(openings_among(map, opened));
    }

    // walls opened at random
    let n: i32 = MAP_GRIDS_WIDTH * MAP_GRIDS_HEIGHT / 10;
    let mut i: i32 = 0;
    while i < n
        invariant
            0 <= i <= n,
            n == max_openings(),
            dot == MapObj::Dot(None),
            map.wf(),
            map.remaining_dots == old(map).remaining_dots,
            map.demo == old(map).demo,
            forall|g: Grid| in_map(g) ==> new_maze_obj(g.x as int, g.y as int, #[trigger] map.obj(g)),
            opened.len() == i,
            openings_among(map, opened),
            drawn_openings(map, opened),
        decreases n - i,
    {
        let x: i32 = 2 + random_below((MAP_GRIDS_WIDTH - 4) as usize) as i32;
        let y: i32 = 2 + random_below((MAP_GRIDS_HEIGHT - 4) as usize) as i32;
        let ghost before = *map;
        map.set(Grid { x, y }, dot);
        proof {
            let o2 = opened.push(Grid { x, y });
            assert forall|g: Grid| in_map(g) implies new_maze_obj(g.x as int, g.y as int, #[trigger] map.obj(g)) by {
                if g != (Grid { x, y }) {
                    assert(map.obj(g) == before.obj(g));
                }
            }
            assert forall|g: Grid| in_map(g) && base_is_wall(g.x as int, g.y as int) && !(#[trigger] map.obj(g) is Wall)
                implies o2.contains(g) by {
                if g != (Grid { x, y }) {
                    assert(map.obj(g) == before.obj(g));
                    assert(opened.contains(g));
                    let k = choose|k: int| 0 <= k < opened.len() && opened[k] == g;
                    assert(o2[k] == g);
                } else {
                    assert(o2[o2.len() - 1] == g);
                }
            }
            assert forall|k: int| 0 <= k < o2.len() implies in_random_region((#[trigger] o2[k]).x as int, o2[k].y as int)
                && map.obj(o2[k]) == MapObj::Dot(None) by {
                if k < opened.len() {
                    assert(o2[k] == opened[k]);
                    if opened[k] != (Grid { x, y }) {
                        assert(map.obj(opened[k]) == before.obj(opened[k]));
                    }
                }
            }
            opened = o2;
        }
        i = i + 1;
    }
}

} // verus!
