use vstd::prelude::*;
use crate::grid::{Grid, MAP_GRIDS_WIDTH, in_map};
use crate::map::{MapInfo, MapObj, dot_entity, is_dot_obj};
use crate::stage_map::map_dots;
use crate::record::Record;
use crate::state::GameState;
use crate::judge::eat_dot;

verus! {

/// Where a character is now and where it was one frame before, in hundredths of a pixel.
#[derive(Clone, Copy, Debug, PartialEq, Eq, Structural)]
pub struct Track {
    pub new_x: i32,
    pub new_y: i32,
    pub old_x: i32,
    pub old_y: i32,
}

/// Whether `a` lies in the closed range `lo..=hi`.
pub open spec fn within(a: int, lo: int, hi: int) -> bool {
    lo <= a <= hi
}

/// Whether the closed ranges `a1..=a2` and `b1..=b2` share an end point lying in the other.
pub open spec fn ranges_touch(a1: int, a2: int, b1: int, b2: int) -> bool {
    within(b1, a1, a2) || within(b2, a1, a2) || within(a1, b1, b2) || within(a2, b1, b2)
}

/// Two numbers, the smaller first.
pub open spec fn ordered(a: i32, b: i32) -> (i32, i32) {
    if a > b {
        (b, a)
    } else {
        (a, b)
    }
}

/// Checks one chaser against the player: on the same row, the horizontal stretches that
/// both covered in the last frame must touch; on the same column, the vertical ones. The
/// player's stretch is kept ordered for the chasers checked after.
pub open spec fn check_one(p: Track, c: Track) -> (bool, Track) {
    if p.new_y == c.new_y {
        let (pa, pb) = ordered(p.new_x, p.old_x);
        let (ca, cb) = ordered(c.new_x, c.old_x);
        (ranges_touch(pa as int, pb as int, ca as int, cb as int), Track { new_x: pa, new_y: p.new_y, old_x: pb, old_y: p.old_y })
    } else if p.new_x == c.new_x {
        let (pa, pb) = ordered(p.new_y, p.old_y);
        let (ca, cb) = ordered(c.new_y, c.old_y);
        (ranges_touch(pa as int, pb as int, ca as int, cb as int), Track { new_x: p.new_x, new_y: pa, old_x: p.old_x, old_y: pb })
    } else {
        (false, p)
    }
}

/// The first chaser, from index `i` on, that met the player.
pub open spec fn first_collision(p: Track, chasers: Seq<Track>, i: int) -> Option<int>
    decreases chasers.len() - i,
{
    if i >= chasers.len() || i < 0 {
        None
    } else {
        let (hit, p2) = check_one(p, chasers[i]);
        if hit {
            Some(i)
        } else {
            first_collision(p2, chasers, i + 1)
        }
    }
}

/// The lower end of the stretch between `a` and `b`.
pub open spec fn stretch_lo(a: i32, b: i32) -> int {
    if a <= b { a as int } else { b as int }
}

/// The upper end of the stretch between `a` and `b`.
pub open spec fn stretch_hi(a: i32, b: i32) -> int {
    if a <= b { b as int } else { a as int }
}

/// Whether the closed stretches between `a1`, `a2` and between `b1`, `b2` overlap: the
/// higher of their lower ends is not above the lower of their upper ends.
pub open spec fn stretches_overlap(a1: i32, a2: i32, b1: i32, b2: i32) -> bool {
    let lo = if stretch_lo(a1, a2) >= stretch_lo(b1, b2) { stretch_lo(a1, a2) } else { stretch_lo(b1, b2) };
    let hi = if stretch_hi(a1, a2) <= stretch_hi(b1, b2) { stretch_hi(a1, a2) } else { stretch_hi(b1, b2) };
    lo <= hi
}

/// A search from index `i` finds no chaser before `i`.
proof fn lemma_first_collision_from(p: Track, chasers: Seq<Track>, i: int)
    requires
        0 <= i,
    ensures
        first_collision(p, chasers, i) matches Some(j) ==> i <= j < chasers.len(),
    decreases chasers.len() - i,
{
    if i < chasers.len() {
        let (hit, p2) = check_one(p, chasers[i]);
        if !hit {
            lemma_first_collision_from(p2, chasers, i + 1);
        }
    }
}

/// The first chaser of the list meets the player exactly when they are on the same row
/// and the stretches they covered along it overlap, or, not on the same row, on the same
/// column and the stretches they covered along it overlap. A chaser sweeping over a player
/// that stands, or over a slower one, meets it.
pub proof fn lemma_first_chaser_meets(p: Track, chasers: Seq<Track>)
    requires
        chasers.len() >= 1,
    ensures
        (first_collision(p, chasers, 0) == Some(0int)) <==> (
            if p.new_y == chasers[0].new_y {
                stretches_overlap(p.new_x, p.old_x, chasers[0].new_x, chasers[0].old_x)
            } else if p.new_x == chasers[0].new_x {
                stretches_overlap(p.new_y, p.old_y, chasers[0].new_y, chasers[0].old_y)
            } else {
                false
            }),
{
    let (hit, p2) = check_one(p, chasers[0]);
    if !hit {
        lemma_first_collision_from(p2, chasers, 1);
    }
}

/// Whether one chaser meets the player does not depend on which of the two is the player.
pub proof fn lemma_meeting_is_symmetric(p: Track, c: Track)
    ensures
        (first_collision(p, seq![c], 0) == Some(0int)) <==> (first_collision(c, seq![p], 0) == Some(0int)),
{
    lemma_first_chaser_meets(p, seq![c]);
    lemma_first_chaser_meets(c, seq![p]);
}

fn ordered_pair(a: i32, b: i32) -> (r: (i32, i32))
    ensures
        r == ordered(a, b),
{
    if a > b {
        (b, a)
    } else {
        (a, b)
    }
}

fn touch(a1: i32, a2: i32, b1: i32, b2: i32) -> (r: bool)
    ensures
        r == ranges_touch(a1 as int, a2 as int, b1 as int, b2 as int),
{
    (a1 <= b1 && b1 <= a2) || (a1 <= b2 && b2 <= a2) || (b1 <= a1 && a1 <= b2) || (b1 <= a2 && a2 <= b2)
}

/// The first chaser that met the player in the last frame, if any (see `check_one`).
pub fn collided_chaser(player: Track, chasers: &Vec<Track>) -> (r: Option<usize>)
    ensures
        r == (match first_collision(player, chasers@, 0) {
            Some(i) => Some(i as usize),
            None => None,
        }),
{
    let mut p = player;
    let mut i: usize = 0;
    while i < chasers.len()
        invariant
            0 <= i <= chasers@.len(),
            first_collision(player, chasers@, 0) == first_collision(p, chasers@, i as int),
        decreases chasers@.len() - i,
    {
        let c = chasers[i];
        let mut hit = false;
        if p.new_y == c.new_y {
            let (pa, pb) = ordered_pair(p.new_x, p.old_x);
            let (ca, cb) = ordered_pair(c.new_x, c.old_x);
            hit = touch(pa, pb, ca, cb);
            p = Track { new_x: pa, new_y: p.new_y, old_x: pb, old_y: p.old_y };
        } else if p.new_x == c.new_x {
            let (pa, pb) = ordered_pair(p.new_y, p.old_y);
            let (ca, cb) = ordered_pair(c.new_y, c.old_y);
            hit = touch(pa, pb, ca, cb);
            p = Track { new_x: p.new_x, new_y: pa, old_x: p.old_x, old_y: pb };
        }
        if hit {
            return Some(i);
        }
        i = i + 1;
    }
    None
}

/// What the judge of a frame decides.
#[derive(Clone, Copy, Debug, PartialEq, Eq, Structural)]
pub enum Judgement {
    /// Play goes on.
    Continue,
    /// The last dot was eaten; the game goes to the given state.
    Cleared(GameState),
    /// The given chaser met the player; the game goes to the given state.
    Caught(usize, GameState),
}

/// The judge of a frame of the classic game. When the player stands on a dot, it is eaten
/// (the high score counts outside the demo); once the last dot is eaten the stage is
/// cleared and nothing else is judged. Else the first chaser that met the player ends the
/// round. The demo goes on to its next round in both cases, the game to the stage clear or
/// the game over. Gives the sprite of the eaten dot, if any, and the judgement.
pub fn detect_score_and_collision(
    player_grid: Grid,
    map: &mut MapInfo,
    record: &mut Record,
    is_demoplay: bool,
    player: Track,
    chasers: &Vec<Track>,
) -> (r: (Option<u64>, Judgement))
    requires
        old(map).wf(),
        in_map(player_grid),
        old(map).remaining_dots == map_dots(old(map).cells(), MAP_GRIDS_WIDTH as int),
        old(record).score < i32::MAX,
        is_dot_obj(old(map).obj(player_grid)) ==> dot_entity(old(map).obj(player_grid)) is Some,
    ensures
        final(map).wf(),
        final(map).remaining_dots == map_dots(final(map).cells(), MAP_GRIDS_WIDTH as int),
        r.0 == dot_entity(old(map).obj(player_grid)),
        r.0 is None ==> final(map).array@ == old(map).array@ && *final(record) == *old(record),
        r.0 is Some ==> final(map).obj(player_grid) == MapObj::Space
            && final(map).remaining_dots == old(map).remaining_dots - 1
            && final(record).score == old(record).score + 1
            && final(record).hi_score == (if !is_demoplay && old(record).score + 1 > old(record).hi_score {
                old(record).score + 1
            } else {
                old(record).hi_score as int
            }),
        r.0 is Some && final(map).remaining_dots == 0 ==> r.1 == Judgement::Cleared(
            if is_demoplay { GameState::DemoLoop } else { GameState::GameClear }),
        !(r.0 is Some && final(map).remaining_dots == 0) ==> r.1 == (match first_collision(player, chasers@, 0) {
            Some(i) => Judgement::Caught(i as usize, if is_demoplay { GameState::DemoLoop } else { GameState::GameOver }),
            None => Judgement::Continue,
        }),
{
    let dot = eat_dot(player_grid, map, record, !is_demoplay);
    if dot.is_some() && map.remaining_dots == 0 {
        let next = if is_demoplay { GameState::DemoLoop } else { GameState::GameClear };
        return (dot, Judgement::Cleared(next));
    }
    match collided_chaser(player, chasers) {
        Some(i) => {
            let next = if is_demoplay { GameState::DemoLoop } else { GameState::GameOver };
            (dot, Judgement::Caught(i, next))
        },
        None => (dot, Judgement::Continue),
    }
}

} // verus!
