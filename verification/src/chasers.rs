use vstd::prelude::*;
use crate::grid::{Grid, News, spec_back_side, spec_step, in_map, MAP_GRIDS_WIDTH, MAP_GRIDS_HEIGHT};
use crate::map::{MapInfo, MapObj, side_spaces, cell_space};
use crate::player::{Player, leads_not_to, sides_not_back, lemma_sides_not_back_nonempty};
use crate::auto_drive::no_dead_ends;
use crate::random::random_below;

verus! {

/// The colour of a chaser; each colour chases in its own way.
#[derive(Clone, Copy, Debug, PartialEq, Eq, Structural)]
pub enum AnimeSpriteColorTag {
    Red,
    Blue,
    Green,
    Pink,
}

/// A chaser on the map. While it moves, `grid` is where it comes from and `next_grid`
/// where it goes; while it stands, both are where it stands.
#[derive(Clone, Copy, Debug, PartialEq, Eq, Structural)]
pub struct Chaser {
    pub grid: Grid,
    pub next_grid: Grid,
    pub direction: News,
    pub is_stop: bool,
    pub color: AnimeSpriteColorTag,
}

/// The colours in the order in which the stages hand them out.
pub open spec fn color_of_index(k: int) -> AnimeSpriteColorTag {
    if k == 0 {
        AnimeSpriteColorTag::Red
    } else if k == 1 {
        AnimeSpriteColorTag::Green
    } else if k == 2 {
        AnimeSpriteColorTag::Pink
    } else {
        AnimeSpriteColorTag::Blue
    }
}

/// The four corners inside the outer wall, where the chasers start.
pub open spec fn start_grid(i: int) -> Grid {
    if i == 0 {
        Grid { x: 1, y: 1 }
    } else if i == 1 {
        Grid { x: 1, y: (MAP_GRIDS_HEIGHT - 2) as i32 }
    } else if i == 2 {
        Grid { x: (MAP_GRIDS_WIDTH - 2) as i32, y: 1 }
    } else {
        Grid { x: (MAP_GRIDS_WIDTH - 2) as i32, y: (MAP_GRIDS_HEIGHT - 2) as i32 }
    }
}

/// The colour of the `k`-th of Red, Green, Pink and Blue.
fn color_at(k: i32) -> (r: AnimeSpriteColorTag)
    requires
        0 <= k < 4,
    ensures
        r == color_of_index(k as int),
{
    if k == 0 {
        AnimeSpriteColorTag::Red
    } else if k == 1 {
        AnimeSpriteColorTag::Green
    } else if k == 2 {
        AnimeSpriteColorTag::Pink
    } else {
        AnimeSpriteColorTag::Blue
    }
}

/// The four chasers in the four corners inside the outer wall, facing `direction`; the
/// chaser of corner `i` takes colour `(stage - 1 + i) mod 4` of Red, Green, Pink and Blue.
fn chasers_in_corners(stage: i32, direction: News) -> (r: Vec<Chaser>)
    requires
        1 <= stage,
    ensures
        r@.len() == 4,
        forall|i: int| 0 <= i < 4 ==> (#[trigger] r@[i]) == (Chaser {
            grid: start_grid(i),
            next_grid: start_grid(i),
            direction: direction,
            is_stop: true,
            color: color_of_index((stage - 1 + i) % 4),
        }),
{
    let mut r: Vec<Chaser> = Vec::new();
    let mut i: i32 = 0;
    while i < 4
        invariant
            0 <= i <= 4,
            1 <= stage,
            r@.len() == i,
            forall|k: int| 0 <= k < i ==> (#[trigger] r@[k]) == (Chaser {
                grid: start_grid(k),
                next_grid: start_grid(k),
                direction: direction,
                is_stop: true,
                color: color_of_index((stage - 1 + k) % 4),
            }),
        decreases 4 - i,
    {
        let g = if i == 0 {
            Grid::new(1, 1)
        } else if i == 1 {
            Grid::new(1, MAP_GRIDS_HEIGHT - 2)
        } else if i == 2 {
            Grid::new(MAP_GRIDS_WIDTH - 2, 1)
        } else {
            Grid::new(MAP_GRIDS_WIDTH - 2, MAP_GRIDS_HEIGHT - 2)
        };
        let k: i32 = ((stage - 1) % 4 + i) % 4;
        assert(k == (stage - 1 + i) % 4) by (nonlinear_arith)
            requires
                k == ((stage - 1) % 4 + i) % 4,
                stage >= 1,
                0 <= i,
        ;
        r.push(Chaser { grid: g, next_grid: g, direction: direction, is_stop: true, color: color_at(k) });
        i = i + 1;
    }
    r
}

/// The four chasers of a stage, standing in the four corners inside the outer wall and
/// facing South. The colours turn with the stages: the chaser of corner `i` takes colour
/// `(stage - 1 + i) mod 4` of Red, Green, Pink and Blue.
pub fn spawn_sprite(stage: i32) -> (r: Vec<Chaser>)
    requires
        1 <= stage,
    ensures
        r@.len() == 4,
        forall|i: int| 0 <= i < 4 ==> (#[trigger] r@[i]) == (Chaser {
            grid: start_grid(i),
            next_grid: start_grid(i),
            direction: News::South,
            is_stop: true,
            color: color_of_index((stage - 1 + i) % 4),
        }),
{
    chasers_in_corners(stage, News::South)
}

/// The four chasers at the start of a game, standing in the four corners inside the outer
/// wall and facing up (North): Red, Green, Pink and Blue in the order of the corners.
pub fn spawn_sprite_chasers() -> (r: Vec<Chaser>)
    ensures
        r@.len() == 4,
        forall|i: int| 0 <= i < 4 ==> (#[trigger] r@[i]) == (Chaser {
            grid: start_grid(i),
            next_grid: start_grid(i),
            direction: News::North,
            is_stop: true,
            color: color_of_index(i),
        }),
{
    let r = chasers_in_corners(1, News::North);
    assert forall|i: int| 0 <= i < 4 implies #[trigger] r@[i] == (Chaser {
        grid: start_grid(i),
        next_grid: start_grid(i),
        direction: News::North,
        is_stop: true,
        color: color_of_index(i),
    }) by {
        assert((1 - 1 + i) % 4 == i);
    }
    r
}

/// Whether the player at `p` lies toward `d` from `c`.
pub open spec fn lies_toward(d: News, c: Grid, p: Grid) -> bool {
    match d {
        News::West => p.x < c.x,
        News::East => p.x > c.x,
        News::North => p.y < c.y,
        News::South => p.y > c.y,
    }
}

/// The order in which a chaser of each colour looks at the ways of a crossing.
pub open spec fn color_order(color: AnimeSpriteColorTag) -> Seq<News> {
    match color {
        AnimeSpriteColorTag::Red => seq![News::West, News::East, News::North, News::South],
        AnimeSpriteColorTag::Blue => seq![News::South, News::West, News::East, News::North],
        AnimeSpriteColorTag::Green => seq![News::North, News::South, News::West, News::East],
        AnimeSpriteColorTag::Pink => seq![News::East, News::North, News::South, News::West],
    }
}

/// The first way of `order`, from index `from` on, that is among `sides` and toward the
/// player, if any.
pub open spec fn first_toward(order: Seq<News>, from: int, sides: Seq<News>, c: Grid, p: Grid) -> Option<News>
    decreases order.len() - from,
{
    if from >= order.len() || from < 0 {
        None
    } else if sides.contains(order[from]) && lies_toward(order[from], c, p) {
        Some(order[from])
    } else {
        first_toward(order, from + 1, sides, c, p)
    }
}

/// The way a chaser of colour `color` standing at `c` prefers at a crossing with `sides`
/// when the player is at `p`: the first way, in its colour's order, that is open and leads
/// toward the player.
pub open spec fn preferred_way(color: AnimeSpriteColorTag, sides: Seq<News>, c: Grid, p: Grid) -> Option<News> {
    first_toward(color_order(color), 0, sides, c, p)
}

/// The colours' orders of ways: at a crossing with `sides` open, a chaser at `c` takes the
/// first way toward the player at `p` in the order of its colour: red West, East, North,
/// South; blue South, West, East, North; green North, South, West, East; pink East, North,
/// South, West.
pub proof fn lemma_colour_orders(color: AnimeSpriteColorTag, sides: Seq<News>, c: Grid, p: Grid)
    ensures
        ({
            let w = sides.contains(News::West) && p.x < c.x;
            let e = sides.contains(News::East) && p.x > c.x;
            let n = sides.contains(News::North) && p.y < c.y;
            let s = sides.contains(News::South) && p.y > c.y;
            preferred_way(color, sides, c, p) == match color {
                AnimeSpriteColorTag::Red => if w { Some(News::West) } else if e { Some(News::East) }
                    else if n { Some(News::North) } else if s { Some(News::South) } else { None },
                AnimeSpriteColorTag::Blue => if s { Some(News::South) } else if w { Some(News::West) }
                    else if e { Some(News::East) } else if n { Some(News::North) } else { None },
                AnimeSpriteColorTag::Green => if n { Some(News::North) } else if s { Some(News::South) }
                    else if w { Some(News::West) } else if e { Some(News::East) } else { None },
                AnimeSpriteColorTag::Pink => if e { Some(News::East) } else if n { Some(News::North) }
                    else if s { Some(News::South) } else if w { Some(News::West) } else { None },
            }
        }),
{
    reveal_with_fuel(first_toward, 5);
}

/// A preferred way is one of the open ways.
pub proof fn lemma_first_toward_in_sides(order: Seq<News>, from: int, sides: Seq<News>, c: Grid, p: Grid)
    ensures
        first_toward(order, from, sides, c, p) matches Some(d) ==> sides.contains(d),
    decreases order.len() - from,
{
    if 0 <= from < order.len() && !(sides.contains(order[from]) && lies_toward(order[from], c, p)) {
        lemma_first_toward_in_sides(order, from + 1, sides, c, p);
    }
}

/// Whether `d` occurs among `sides`.
fn sides_contain(sides: &[News], d: News) -> (r: bool)
    ensures
        r == sides@.contains(d),
{
    let mut i: usize = 0;
    while i < sides.len()
        invariant
            0 <= i <= sides@.len(),
            forall|k: int| 0 <= k < i ==> sides@[k] != d,
        decreases sides@.len() - i,
    {
        if sides[i] == d {
            return true;
        }
        i = i + 1;
    }
    false
}

/// Whether the player lies toward `d` from the chaser.
fn toward(d: News, c: Grid, p: Grid) -> (r: bool)
    ensures
        r == lies_toward(d, c, p),
{
    match d {
        News::West => p.x < c.x,
        News::East => p.x > c.x,
        News::North => p.y < c.y,
        News::South => p.y > c.y,
    }
}

/// The way a chaser of colour `color` prefers at a crossing (see `preferred_way`).
pub fn chase_preference(color: AnimeSpriteColorTag, sides: &[News], chaser_grid: Grid, player_grid: Grid)
    -> (r: Option<News>)
    ensures
        r == preferred_way(color, sides@, chaser_grid, player_grid),
{
    let order: [News; 4] = match color {
        AnimeSpriteColorTag::Red => [News::West, News::East, News::North, News::South],
        AnimeSpriteColorTag::Blue => [News::South, News::West, News::East, News::North],
        AnimeSpriteColorTag::Green => [News::North, News::South, News::West, News::East],
        AnimeSpriteColorTag::Pink => [News::East, News::North, News::South, News::West],
    };
    assert(order@ =~= color_order(color));
    let mut i: usize = 0;
    while i < 4
        invariant
            0 <= i <= 4,
            order@ == color_order(color),
            first_toward(order@, 0, sides@, chaser_grid, player_grid)
                == first_toward(order@, i as int, sides@, chaser_grid, player_grid),
        decreases 4 - i,
    {
        let d = order[i];
        if sides_contain(sides, d) && toward(d, chaser_grid, player_grid) {
            return Some(d);
        }
        i = i + 1;
    }
    None
}

/// The way a chaser takes at a crossing: the one its colour prefers (see `preferred_way`),
/// else one of `sides` at random.
fn choice_way_of(color: AnimeSpriteColorTag, chaser: &Chaser, player: &Player, sides: &[News]) -> (r: News)
    requires
        sides@.len() >= 1,
    ensures
        preferred_way(color, sides@, chaser.grid, player.next_grid) matches Some(d) ==> r == d,
        preferred_way(color, sides@, chaser.grid, player.next_grid) is None ==> sides@.contains(r),
{
    match chase_preference(color, sides, chaser.grid, player.next_grid) {
        Some(d) => d,
        None => {
            let k = random_below(sides.len());
            assert(sides@.contains(sides@[k as int]));
            sides[k]
        },
    }
}

/// How the red chaser goes at a crossing: West, East, North or South, the first that is
/// open and toward the player, else any open way at random.
pub fn choice_way_red(chaser: &mut Chaser, player: &Player, sides: &[News]) -> (r: News)
    requires
        sides@.len() >= 1,
    ensures
        *final(chaser) == *old(chaser),
        preferred_way(AnimeSpriteColorTag::Red, sides@, old(chaser).grid, player.next_grid) matches Some(d) ==> r == d,
        preferred_way(AnimeSpriteColorTag::Red, sides@, old(chaser).grid, player.next_grid) is None ==> sides@.contains(r),
{
    choice_way_of(AnimeSpriteColorTag::Red, chaser, player, sides)
}

/// How the blue chaser goes at a crossing: South, West, East or North, the first that is
/// open and toward the player, else any open way at random.
pub fn choice_way_blue(chaser: &mut Chaser, player: &Player, sides: &[News]) -> (r: News)
    requires
        sides@.len() >= 1,
    ensures
        *final(chaser) == *old(chaser),
        preferred_way(AnimeSpriteColorTag::Blue, sides@, old(chaser).grid, player.next_grid) matches Some(d) ==> r == d,
        preferred_way(AnimeSpriteColorTag::Blue, sides@, old(chaser).grid, player.next_grid) is None ==> sides@.contains(r),
{
    choice_way_of(AnimeSpriteColorTag::Blue, chaser, player, sides)
}

/// How the green chaser goes at a crossing: North, South, West or East, the first that is
/// open and toward the player, else any open way at random.
pub fn choice_way_green(chaser: &mut Chaser, player: &Player, sides: &[News]) -> (r: News)
    requires
        sides@.len() >= 1,
    ensures
        *final(chaser) == *old(chaser),
        preferred_way(AnimeSpriteColorTag::Green, sides@, old(chaser).grid, player.next_grid) matches Some(d) ==> r == d,
        preferred_way(AnimeSpriteColorTag::Green, sides@, old(chaser).grid, player.next_grid) is None ==> sides@.contains(r),
{
    choice_way_of(AnimeSpriteColorTag::Green, chaser, player, sides)
}

/// How the pink chaser goes at a crossing: East, North, South or West, the first that is
/// open and toward the player, else any open way at random.
pub fn choice_way_pink(chaser: &mut Chaser, player: &Player, sides: &[News]) -> (r: News)
    requires
        sides@.len() >= 1,
    ensures
        *final(chaser) == *old(chaser),
        preferred_way(AnimeSpriteColorTag::Pink, sides@, old(chaser).grid, player.next_grid) matches Some(d) ==> r == d,
        preferred_way(AnimeSpriteColorTag::Pink, sides@, old(chaser).grid, player.next_grid) is None ==> sides@.contains(r),
{
    choice_way_of(AnimeSpriteColorTag::Pink, chaser, player, sides)
}


/// The way a chaser of colour `color` takes at a crossing.
fn autochase(chaser: &mut Chaser, player: &Player, sides: &[News]) -> (r: News)
    requires
        sides@.len() >= 1,
    ensures
        *final(chaser) == *old(chaser),
        preferred_way(old(chaser).color, sides@, old(chaser).grid, player.next_grid) matches Some(d) ==> r == d,
        preferred_way(old(chaser).color, sides@, old(chaser).grid, player.next_grid) is None ==> sides@.contains(r),
{
    match chaser.color {
        AnimeSpriteColorTag::Red => choice_way_red(chaser, player, sides),
        AnimeSpriteColorTag::Blue => choice_way_blue(chaser, player, sides),
        AnimeSpriteColorTag::Green => choice_way_green(chaser, player, sides),
        AnimeSpriteColorTag::Pink => choice_way_pink(chaser, player, sides),
    }
}

/// A chaser's move when it reaches the grid it was heading for: it never stops again. On a
/// plain road it follows the road; at a crossing it takes the way its colour prefers (see
/// `preferred_way`, judged from the grid it comes from), else one at random; where no way
/// but the one back is open, it turns back. The grid it reached becomes its grid and the
/// grid one step ahead its next grid.
pub fn move_sprite(chaser: &mut Chaser, player: &Player, map: &MapInfo)
    requires
        map.wf(),
        no_dead_ends(map.cells()),
        map.space_at(old(chaser).next_grid),
    ensures
        ({
            let sides = side_spaces(map.cells(), old(chaser).next_grid).filter(
                leads_not_to(old(chaser).next_grid, old(chaser).grid));
            let pref = preferred_way(old(chaser).color, sides, old(chaser).grid, player.next_grid);
            &&& final(chaser).grid == old(chaser).next_grid
            &&& final(chaser).next_grid == spec_step(old(chaser).next_grid, final(chaser).direction)
            &&& !final(chaser).is_stop
            &&& final(chaser).color == old(chaser).color
            &&& map.space_at(final(chaser).next_grid)
            &&& sides.contains(final(chaser).direction)
            &&& sides.len() == 1 ==> final(chaser).direction == sides[0]
            &&& sides.len() > 1 && pref is Some ==> final(chaser).direction == pref->0
        }),
{
    let ghost c = map.cells();
    let next = chaser.next_grid;
    let sides = sides_not_back(map, next, chaser.grid);
    proof {
        lemma_sides_not_back_nonempty(c, next, chaser.grid);
    }
    let ghost from = chaser.grid;
    chaser.is_stop = false;
    let new_side = if sides.len() == 1 {
        sides[0]
    } else if sides.len() > 1 {
        autochase(chaser, player, sides.as_slice())
    } else {
        chaser.direction.back_side()
    };
    proof {
        broadcast use vstd::seq_lib::group_filter_ensures;
        if sides@.len() == 1 {
            assert(sides@.contains(sides@[0]));
        }
        lemma_first_toward_in_sides(color_order(old(chaser).color), 0, sides@, from, player.next_grid);
        crate::auto_drive::lemma_side_spaces(c, next);
        side_spaces(c, next).lemma_filter_contains_rev(leads_not_to(next, from), new_side);
        let k = choose|k: int| 0 <= k < side_spaces(c, next).len() && side_spaces(c, next)[k] == new_side;
    }
    // the chaser steps on from the grid it reached
    chaser.direction = new_side;
    chaser.grid = next;
    chaser.next_grid = next.step(new_side);
}

/// How many chasers of another colour are heading for the same grid as chaser `j`, among
/// the first `n` chasers.
pub open spec fn overlaps(chasers: Seq<Chaser>, j: int, n: int) -> int
    decreases n,
{
    if n <= 0 {
        0
    } else {
        overlaps(chasers, j, n - 1) + if chasers[n - 1].next_grid == chasers[j].next_grid
            && chasers[n - 1].color != chasers[j].color {
            1int
        } else {
            0int
        }
    }
}

/// For each chaser, how many chasers of another colour are heading for the same grid; a
/// chaser speeds up by that many steps.
pub fn speedup_counts(chasers: &Vec<Chaser>) -> (r: Vec<usize>)
    ensures
        r@.len() == chasers@.len(),
        forall|j: int| 0 <= j < chasers@.len() ==> #[trigger] r@[j] == overlaps(chasers@, j, chasers@.len() as int),
{
    let mut r: Vec<usize> = Vec::new();
    let mut j: usize = 0;
    while j < chasers.len()
        invariant
            0 <= j <= chasers@.len(),
            r@.len() == j,
            forall|k: int| 0 <= k < j ==> #[trigger] r@[k] == overlaps(chasers@, k, chasers@.len() as int),
        decreases chasers@.len() - j,
    {
        let mut count: usize = 0;
        let mut i: usize = 0;
        while i < chasers.len()
            invariant
                0 <= i <= chasers@.len(),
                0 <= j < chasers@.len(),
                count == overlaps(chasers@, j as int, i as int),
                count <= i,
            decreases chasers@.len() - i,
        {
            if chasers[i].next_grid == chasers[j].next_grid && chasers[i].color != chasers[j].color {
                count = count + 1;
            }
            i = i + 1;
        }
        r.push(count);
        j = j + 1;
    }
    r
}

} // verus!
