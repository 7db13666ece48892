use vstd::prelude::*;
use crate::grid::{Grid, News, spec_back_side, spec_step, in_map};
use crate::map::{MapInfo, MapObj, side_spaces, cell_space};
use crate::chasers::Chaser;
use crate::demo_params::DemoMapParams;
use crate::demo_choice::{choice_way, safe_sides, rated_sides, chosen_among, far_grids};
use crate::auto_drive::no_dead_ends;
use crate::state::MyState;
use crate::grid::{MAP_GRIDS_WIDTH, MAP_GRIDS_HEIGHT};
use crate::maze::{spec_short_side, is_new_maze, new_maze_obj};
use crate::random::random_below;

verus! {

/// The player's character on the map. While it moves, `grid` is where it comes from and
/// `next_grid` where it goes; while it stands, both are where it stands.
#[derive(Clone, Copy, Debug, PartialEq, Eq, Structural)]
pub struct Player {
    pub grid: Grid,
    pub next_grid: Grid,
    pub direction: News,
    pub is_stop: bool,
}

impl Player {
    /// A player standing at `g`, facing South.
    pub fn new(g: Grid) -> (p: Player)
        ensures
            p == (Player { grid: g, next_grid: g, direction: News::South, is_stop: true }),
    {
        Player { grid: g, next_grid: g, direction: News::South, is_stop: true }
    }
}

impl Default for Player {
    /// A player standing at the origin, facing South.
    fn default() -> (p: Player)
        ensures
            p == (Player { grid: Grid { x: 0, y: 0 }, next_grid: Grid { x: 0, y: 0 }, direction: News::South, is_stop: true }),
    {
        Player::new(Grid::new(0, 0))
    }
}

/// The directions the player asks for, the one to try first first.
pub struct InputDirection(pub Vec<News>);

impl Default for InputDirection {
    /// No direction asked for.
    fn default() -> (r: InputDirection)
        ensures
            r.0@ == Seq::<News>::empty(),
    {
        InputDirection(Vec::new())
    }
}

/// Whether `d` occurs in `s`.
fn news_contain(s: &Vec<News>, d: News) -> (r: bool)
    ensures
        r == s@.contains(d),
{
    let mut i: usize = 0;
    while i < s.len()
        invariant
            0 <= i <= s@.len(),
            forall|k: int| 0 <= k < i ==> s@[k] != d,
        decreases s@.len() - i,
    {
        if s[i] == d {
            return true;
        }
        i = i + 1;
    }
    false
}

/// The directions of `s`, each once, in the order of their first occurrence.
fn distinct_news(s: &Vec<News>) -> (r: Vec<News>)
    ensures
        r@.no_duplicates(),
        forall|d: News| #[trigger] r@.contains(d) <==> s@.contains(d),
{
    let mut r: Vec<News> = Vec::new();
    let mut i: usize = 0;
    while i < s.len()
        invariant
            0 <= i <= s@.len(),
            r@.no_duplicates(),
            forall|d: News| #[trigger] r@.contains(d) <==> s@.subrange(0, i as int).contains(d),
        decreases s@.len() - i,
    {
        let d = s[i];
        proof {
            broadcast use vstd::seq_lib::lemma_seq_contains_after_push;
            assert(s@.subrange(0, i + 1) =~= s@.subrange(0, i as int).push(d));
        }
        if !news_contain(&r, d) {
            let ghost before = r@;
            r.push(d);
            proof {
                broadcast use vstd::seq_lib::lemma_seq_contains_after_push;
                assert(r@ == before.push(d));
            }
        }
        i = i + 1;
    }
    assert(s@.subrange(0, s@.len() as int) =~= s@);
    r
}

/// Whether a direction is neither `a` nor `b`.
pub open spec fn neither(a: News, b: News) -> spec_fn(News) -> bool {
    |d: News| d != a && d != b
}

/// The directions of `s` other than `a` and `b`, in their order.
pub open spec fn others(s: Seq<News>, a: News, b: News) -> Seq<News> {
    s.filter(neither(a, b))
}

/// Puts the pressed directions in the order in which the player's move tries them: with
/// one direction pressed, that one; with more, the way back first, then the turns, then
/// the way ahead. The gamepad's buttons count when there are any, else the keyboard's.
pub fn catch_input_direction(
    player_direction: News,
    gamepad_pressed: &Vec<News>,
    keyboard_pressed: &Vec<News>,
    input_direction: &mut InputDirection,
)
    ensures
        ({
            let pressed = if gamepad_pressed@.len() > 0 { gamepad_pressed@ } else { keyboard_pressed@ };
            let front = player_direction;
            let back = spec_back_side(player_direction);
            let got = final(input_direction).0@;
            &&& got.no_duplicates()
            &&& forall|d: News| #[trigger] got.contains(d) <==> pressed.contains(d)
            &&& got.len() >= 2 && pressed.contains(back) ==> got[0] == back
            &&& got.len() >= 2 && pressed.contains(front) ==> got.last() == front
            &&& got.len() >= 2 ==> others(got, front, back) == got.subrange(
                if pressed.contains(back) { 1int } else { 0int },
                got.len() - if pressed.contains(front) { 1int } else { 0int },
            )
        }),
{
    input_direction.0.clear();
    let pressed = if gamepad_pressed.len() > 0 {
        distinct_news(gamepad_pressed)
    } else {
        distinct_news(keyboard_pressed)
    };
    if pressed.len() <= 1 {
        if pressed.len() == 1 {
            input_direction.0.push(pressed[0]);
        }
        assert(input_direction.0@ =~= pressed@);
        return;
    }

    let front = player_direction;
    let back = player_direction.back_side();
    let has_front = news_contain(&pressed, front);
    let has_back = news_contain(&pressed, back);
    let ghost pred = neither(front, back);

    let mut got: Vec<News> = Vec::new();
    if has_back {
        got.push(back);
    }
    let ghost start = got@;
    proof {
        assert(pressed@.subrange(0, 0) =~= Seq::<News>::empty());
        assert forall|d: News| #[trigger] got@.contains(d) <==> (has_back && d == back) by {
            if got@.contains(d) {
                let k = choose|k: int| 0 <= k < got@.len() && got@[k] == d;
            }
            if has_back && d == back {
                assert(got@[0] == d);
            }
        }
    }
    let mut i: usize = 0;
    while i < pressed.len()
        invariant
            0 <= i <= pressed@.len(),
            pressed@.no_duplicates(),
            front != back,
            has_back == pressed@.contains(back),
            pred == neither(front, back),
            start == (if has_back { seq![back] } else { Seq::<News>::empty() }),
            got@ == start + pressed@.subrange(0, i as int).filter(pred),
            got@.no_duplicates(),
            forall|d: News| #[trigger] got@.contains(d)
                <==> ((has_back && d == back) || (pressed@.subrange(0, i as int).contains(d) && pred(d))),
        decreases pressed@.len() - i,
    {
        let d = pressed[i];
        proof {
            reveal_with_fuel(Seq::<_>::filter, 1);
            broadcast use vstd::seq_lib::lemma_seq_contains_after_push;
            assert(pressed@.subrange(0, i + 1).drop_last() =~= pressed@.subrange(0, i as int));
            assert(pressed@.subrange(0, i + 1) =~= pressed@.subrange(0, i as int).push(d));
            assert(!pressed@.subrange(0, i as int).contains(d)) by {
                if pressed@.subrange(0, i as int).contains(d) {
                    let k = choose|k: int| 0 <= k < i && pressed@.subrange(0, i as int)[k] == d;
                    assert(pressed@[k] == pressed@[i as int]);
                }
            }
        }
        if d != front && d != back {
            let ghost before = got@;
            got.push(d);
            proof {
                broadcast use vstd::seq_lib::lemma_seq_contains_after_push;
                assert(got@ == before.push(d));
                assert(!before.contains(d));
                assert forall|a: int, b: int| 0 <= a < b < got@.len() implies got@[a] != got@[b] by {
                    if b == got@.len() - 1 {
                        assert(before.contains(got@[a]));
                    }
                }
                assert(got@ =~= start + pressed@.subrange(0, i + 1).filter(pred));
            }
        } else {
            proof {
                broadcast use vstd::seq_lib::lemma_seq_contains_after_push;
                assert(got@ =~= start + pressed@.subrange(0, i + 1).filter(pred));
            }
        }
        i = i + 1;
    }
    assert(pressed@.subrange(0, pressed@.len() as int) =~= pressed@);
    let ghost mids = pressed@.filter(pred);
    let ghost before = got@;
    if has_front {
        got.push(front);
        proof {
            broadcast use vstd::seq_lib::lemma_seq_contains_after_push;
            assert(got@ == before.push(front));
            assert(!before.contains(front));
            assert forall|a: int, b: int| 0 <= a < b < got@.len() implies got@[a] != got@[b] by {
                if b == got@.len() - 1 {
                    assert(before.contains(got@[a]));
                }
            }
        }
    }
    proof {
        let tail: Seq<News> = if has_front { seq![front] } else { Seq::<News>::empty() };
        assert(got@ =~= start + mids + tail);
        assert forall|d: News| #[trigger] got@.contains(d) <==> pressed@.contains(d) by {
            broadcast use vstd::seq_lib::lemma_seq_contains_after_push;
        }
        assert(got@.len() >= 2) by {
            assert(pressed@[0] != pressed@[1]);
            assert(pressed@.contains(pressed@[0]));
            assert(pressed@.contains(pressed@[1]));
            assert(got@.contains(pressed@[0]));
            assert(got@.contains(pressed@[1]));
            let k0 = choose|k: int| 0 <= k < got@.len() && got@[k] == pressed@[0];
            let k1 = choose|k: int| 0 <= k < got@.len() && got@[k] == pressed@[1];
            assert(k0 != k1);
        }
        assert forall|k: int| 0 <= k < mids.len() implies #[trigger] mids[k] != front && mids[k] != back by {
            pressed@.lemma_filter_pred(pred, k);
        }
        lemma_filter_of_arranged(start, mids, tail, front, back);
        if has_back {
            assert(got@[0] == back);
        }
    }
    input_direction.0 = got;
}

/// Filtering a sequence of at most one element that fails the predicate leaves nothing.
proof fn lemma_filter_short(s: Seq<News>, pred: spec_fn(News) -> bool)
    requires
        s.len() <= 1,
        s.len() == 1 ==> !pred(s[0]),
    ensures
        s.filter(pred) =~= Seq::<News>::empty(),
{
    reveal_with_fuel(Seq::<_>::filter, 2);
    if s.len() == 1 {
        assert(s.drop_last() =~= Seq::<News>::empty());
    }
}

/// Filtering with a predicate that every element meets keeps every element.
proof fn lemma_filter_all(s: Seq<News>, pred: spec_fn(News) -> bool)
    requires
        forall|k: int| 0 <= k < s.len() ==> pred(#[trigger] s[k]),
    ensures
        s.filter(pred) == s,
    decreases s.len(),
{
    reveal_with_fuel(Seq::<_>::filter, 1);
    if s.len() > 0 {
        lemma_filter_all(s.drop_last(), pred);
        assert(pred(s[s.len() - 1]));
        assert(s.drop_last().push(s.last()) =~= s);
    }
}

/// The way back, the turns and the way ahead put together: leaving out the way ahead and
/// the way back gives the turns.
proof fn lemma_filter_of_arranged(head: Seq<News>, mids: Seq<News>, tail: Seq<News>, front: News, back: News)
    requires
        head == seq![back] || head == Seq::<News>::empty(),
        tail == seq![front] || tail == Seq::<News>::empty(),
        forall|k: int| 0 <= k < mids.len() ==> #[trigger] mids[k] != front && mids[k] != back,
    ensures
        others(head + mids + tail, front, back) == (head + mids + tail).subrange(
            head.len() as int,
            (head + mids + tail).len() - tail.len(),
        ),
{
    let pred = neither(front, back);
    lemma_filter_all(mids, pred);
    assert((head + mids + tail).subrange(head.len() as int, (head + mids + tail).len() - tail.len()) =~= mids);
    Seq::filter_distributes_over_add(head + mids, tail, pred);
    Seq::filter_distributes_over_add(head, mids, pred);
    lemma_filter_short(head, pred);
    lemma_filter_short(tail, pred);
    assert(Seq::<News>::empty() + mids =~= mids);
    assert(mids + Seq::<News>::empty() =~= mids);
}


/// The index of the first direction of `input`, from `from` on, that leads from `g` to a
/// grid that is not a wall, or the length of `input` when there is none.
pub open spec fn first_open(c: Seq<Seq<MapObj>>, g: Grid, input: Seq<News>, from: int) -> int
    decreases input.len() - from,
{
    if from >= input.len() {
        input.len() as int
    } else if cell_space(c, spec_step(g, input[from])) {
        from
    } else {
        first_open(c, g, input, from + 1)
    }
}

/// The way the player takes on the player's input, and whether it stops: the first asked
/// way that is open; when none is, it stops, turned to the first asked way, or as it was
/// when nothing is asked.
pub open spec fn input_way(c: Seq<Seq<MapObj>>, p: Player, input: Seq<News>) -> (News, bool) {
    let k = first_open(c, p.next_grid, input, 0);
    if 0 <= k < input.len() {
        (input[k], false)
    } else if input.len() > 0 {
        (input[0], true)
    } else {
        (p.direction, true)
    }
}

/// Whether the step from `from` toward a direction does not lead to `g`.
pub open spec fn leads_not_to(from: Grid, g: Grid) -> spec_fn(News) -> bool {
    |s: News| spec_step(from, s) != g
}

/// The open ways from the player's next grid other than the one back to where it comes from.
pub open spec fn demo_sides(c: Seq<Seq<MapObj>>, p: Player) -> Seq<News> {
    side_spaces(c, p.next_grid).filter(leads_not_to(p.next_grid, p.grid))
}

/// The open ways from `next` other than the one leading to `grid`, in their order.
pub(crate) fn sides_not_back(map: &MapInfo, next: Grid, grid: Grid) -> (r: Vec<News>)
    requires
        map.wf(),
        in_map(next),
    ensures
        r@ == side_spaces(map.cells(), next).filter(leads_not_to(next, grid)),
{
    let sides = map.get_side_spaces_list(next);
    let ghost pred = leads_not_to(next, grid);
    let mut r: Vec<News> = Vec::new();
    let mut i: usize = 0;
    while i < sides.len()
        invariant
            0 <= i <= sides@.len(),
            in_map(next),
            pred == leads_not_to(next, grid),
            r@ == sides@.subrange(0, i as int).filter(pred),
        decreases sides@.len() - i,
    {
        proof {
            reveal_with_fuel(Seq::<_>::filter, 1);
            assert(sides@.subrange(0, i + 1).drop_last() =~= sides@.subrange(0, i as int));
        }
        if next.step(sides[i]) != grid {
            r.push(sides[i]);
        }
        i = i + 1;
    }
    assert(sides@.subrange(0, sides@.len() as int) =~= sides@);
    r
}

/// With no dead end on the map, some open way from a grid that is not a wall does not lead
/// back to `grid`.
pub proof fn lemma_sides_not_back_nonempty(c: Seq<Seq<MapObj>>, next: Grid, grid: Grid)
    requires
        no_dead_ends(c),
        cell_space(c, next),
    ensures
        side_spaces(c, next).filter(leads_not_to(next, grid)).len() >= 1,
{
    reveal(no_dead_ends);
    let s = side_spaces(c, next);
    crate::auto_drive::lemma_side_spaces(c, next);
    assert(s.len() >= 2);
    let pred = leads_not_to(next, grid);
    // two different ways lead to two different grids, so one of the first two does not lead back
    assert(s[0] != s[1]);
    let k: int = if pred(s[0]) { 0 } else { 1 };
    assert(pred(s[k])) by {
        if !pred(s[0]) {
            assert(spec_step(next, s[0]) == grid);
            assert(spec_step(next, s[1]) != spec_step(next, s[0]));
        }
    }
    s.lemma_filter_contains(pred, k);
    assert(s.filter(pred).contains(s[k]));
}

/// The player's move when it reaches the grid it was heading for. Outside the demo it goes
/// the first way of the input that is open, else it stops (see `input_way`). In the demo it
/// never stops: on a plain road it follows the road; at a crossing `choice_way` decides; and
/// where no way but the one back is open, it turns back. Then it steps on: the grid it
/// reached becomes its grid and, unless it stops, the grid one step ahead its next grid.
pub fn move_sprite(
    player: &mut Player,
    map: &MapInfo,
    input_direction: &InputDirection,
    state: MyState,
    chasers: &Vec<Chaser>,
    demo: &DemoMapParams,
)
    requires
        map.wf(),
        no_dead_ends(map.cells()),
        map.space_at(old(player).next_grid),
        forall|i: int| 0 <= i < chasers@.len() ==> in_map((#[trigger] chasers@[i]).next_grid),
        demo.rect_bounded(),
    ensures
        final(player).grid == old(player).next_grid,
        final(player).next_grid == if final(player).is_stop {
            old(player).next_grid
        } else {
            spec_step(old(player).next_grid, final(player).direction)
        },
        map.space_at(final(player).next_grid),
        state != MyState::TitleDemo ==> (final(player).direction, final(player).is_stop)
            == input_way(map.cells(), *old(player), input_direction.0@),
        state == MyState::TitleDemo ==> ({
            let sides = demo_sides(map.cells(), *old(player));
            let safe = safe_sides(*old(player), chasers@, sides);
            &&& !final(player).is_stop
            &&& sides.contains(final(player).direction)
            &&& sides.len() == 1 ==> final(player).direction == sides[0]
            &&& safe.len() >= 1 ==> safe.contains(final(player).direction)
            &&& safe.len() == 1 ==> final(player).direction == safe[0]
            &&& safe.len() >= 2 ==> exists|risky: Seq<(News, i32)>, safe_rated: Seq<(News, i32)>|
                #[trigger] rated_sides(map.cells(), old(player).next_grid, safe, far_grids(*old(player), chasers@),
                    risky, safe_rated)
                && chosen_among(if safe_rated.len() == 0 { risky } else { safe_rated }, old(player).next_grid,
                    *demo, final(player).direction)
        }),
{
    let ghost c = map.cells();
    let ghost p0 = *player;
    let next = player.next_grid;
    let mut new_side = player.direction;
    let mut is_stop = true;

    if !state.is_demoplay() {
        // the player's input, the way to try first first
        let input = &input_direction.0;
        let mut i: usize = 0;
        while i < input.len()
            invariant_except_break
                is_stop,
                first_open(c, next, input@, 0) == first_open(c, next, input@, i as int),
                new_side == if i == 0 { p0.direction } else { input@[0] },
            invariant
                0 <= i <= input@.len(),
                map.wf(),
                c == map.cells(),
                in_map(next),
            ensures
                is_stop ==> first_open(c, next, input@, 0) == input@.len()
                    && new_side == (if input@.len() == 0 { p0.direction } else { input@[0] }),
                !is_stop ==> 0 <= first_open(c, next, input@, 0) < input@.len()
                    && new_side == input@[first_open(c, next, input@, 0)]
                    && map.space_at(spec_step(next, new_side)),
            decreases input@.len() - i,
        {
            let side = input[i];
            if map.is_space(next.step(side)) {
                new_side = side;
                is_stop = false;
                break;
            }
            if i == 0 {
                new_side = side;
            }
            i = i + 1;
        }
    } else {
        // the demo never stops
        is_stop = false;
        let sides = sides_not_back(map, next, player.grid);
        proof {
            lemma_sides_not_back_nonempty(c, next, p0.grid);
        }
        if sides.len() == 1 {
            new_side = sides[0];
            proof {
                let safe = safe_sides(p0, chasers@, sides@);
                let pred = |s: News| !crate::demo_choice::is_bad_side(p0, chasers@, s);
                if safe.len() >= 1 {
                    assert(safe.contains(safe[0]));
                    sides@.lemma_filter_contains_rev(pred, safe[0]);
                    assert(safe[0] == sides@[0]);
                }
            }
        } else if sides.len() > 1 {
            proof {
                broadcast use vstd::seq_lib::group_filter_ensures;
                crate::auto_drive::lemma_side_spaces(c, next);
                assert forall|i: int| 0 <= i < sides@.len() implies map.space_at(spec_step(next, #[trigger] sides@[i])) by {
                    assert(sides@.contains(sides@[i]));
                    side_spaces(c, next).lemma_filter_contains_rev(leads_not_to(next, p0.grid), sides@[i]);
                    let k = choose|k: int| 0 <= k < side_spaces(c, next).len() && side_spaces(c, next)[k] == sides@[i];
                }
            }
            let slice = sides.as_slice();
            assert(slice@ == sides@);
            new_side = choice_way(player, chasers, map, demo, slice);
            assert(sides@ == demo_sides(c, p0));
            assert(sides@.contains(new_side));
        } else {
            new_side = player.direction.back_side();
        }
        proof {
            if sides@.len() == 1 {
                assert(sides@.contains(sides@[0]));
            }
            broadcast use vstd::seq_lib::group_filter_ensures;
            crate::auto_drive::lemma_side_spaces(c, next);
            side_spaces(c, next).lemma_filter_contains_rev(leads_not_to(next, p0.grid), new_side);
            let k = choose|k: int| 0 <= k < side_spaces(c, next).len() && side_spaces(c, next)[k] == new_side;
        }
    }

    assert(state != MyState::TitleDemo ==> (new_side, is_stop) == input_way(c, p0, input_direction.0@));
    player.direction = new_side;
    player.is_stop = is_stop;
    player.grid = next;
    if !is_stop {
        player.next_grid = next.step(new_side);
    }
}

/// The directions pressed on the cross keys, the one to try first first.
pub struct CrossDirection(pub Vec<News>);

impl CrossDirection {
    /// The directions, the one to try first first.
    pub fn direction(&self) -> (r: &[News])
        ensures
            r@ == self.0@,
    {
        self.0.as_slice()
    }

    /// Forgets every direction.
    pub fn clear(&mut self)
        ensures
            final(self).0@ == Seq::<News>::empty(),
    {
        self.0.clear();
    }

    /// Adds a direction after the others.
    pub fn push(&mut self, dxdy: News)
        ensures
            final(self).0@ == old(self).0@.push(dxdy),
    {
        self.0.push(dxdy);
    }
}

impl Default for CrossDirection {
    /// No direction pressed.
    fn default() -> (r: CrossDirection)
        ensures
            r.0@ == Seq::<News>::empty(),
    {
        CrossDirection(Vec::new())
    }
}

/// The order in which the player's move tries the pressed cross keys. Pressing up and down,
/// or left and right, together cancels both. With one direction left, that one. With two
/// (one up or down, one left or right): a standing player tries the way it faces first, or
/// else the way back, and then the other; a moving player tries the turn first and then the
/// way ahead, or else the way back.
pub open spec fn operation_order(pressed: Seq<News>, p: Player) -> Seq<News> {
    let n = pressed.contains(News::North) && !pressed.contains(News::South);
    let s = pressed.contains(News::South) && !pressed.contains(News::North);
    let e = pressed.contains(News::East) && !pressed.contains(News::West);
    let w = pressed.contains(News::West) && !pressed.contains(News::East);
    let vertical = if n { News::North } else { News::South };
    let horizontal = if e { News::East } else { News::West };
    if !(n || s) && !(e || w) {
        Seq::empty()
    } else if !(e || w) {
        seq![vertical]
    } else if !(n || s) {
        seq![horizontal]
    } else {
        let ahead = p.direction == vertical || p.direction == horizontal;
        let known = if ahead { p.direction } else { spec_back_side(p.direction) };
        let other = if known == vertical { horizontal } else { vertical };
        if p.is_stop {
            seq![known, other]
        } else {
            seq![other, known]
        }
    }
}

/// The player tries only keys that were pressed and not cancelled by the opposite key,
/// each at most once and at most two; a standing player that presses the way it faces
/// tries that way first.
pub proof fn lemma_operation_order_pressed(pressed: Seq<News>, p: Player)
    ensures
        forall|i: int| 0 <= i < operation_order(pressed, p).len() ==> pressed.contains(#[trigger] operation_order(pressed, p)[i])
            && !pressed.contains(spec_back_side(operation_order(pressed, p)[i])),
        operation_order(pressed, p).len() <= 2,
        operation_order(pressed, p).len() == 2 ==> operation_order(pressed, p)[0] != operation_order(pressed, p)[1],
        p.is_stop && pressed.contains(p.direction) && !pressed.contains(spec_back_side(p.direction))
            && operation_order(pressed, p).len() == 2 ==> operation_order(pressed, p)[0] == p.direction,
{
    let o = operation_order(pressed, p);
    assert forall|i: int| 0 <= i < o.len() implies pressed.contains(#[trigger] o[i]) && !pressed.contains(spec_back_side(o[i])) by {
        match p.direction {
            News::North => {},
            News::South => {},
            News::East => {},
            News::West => {},
        }
    }
}

/// Catches the cross keys: the gamepad's when any is pressed, else the keyboard's, in the
/// order of `operation_order`.
pub fn catch_player_operation(
    player: &Player,
    gamepad_pressed: &Vec<News>,
    keyboard_pressed: &Vec<News>,
    cross: &mut CrossDirection,
)
    ensures
        final(cross).0@ == operation_order(
            if gamepad_pressed@.len() > 0 { gamepad_pressed@ } else { keyboard_pressed@ },
            *player,
        ),
{
    cross.clear();
    let pressed = if gamepad_pressed.len() > 0 { gamepad_pressed } else { keyboard_pressed };
    let has_n = news_contain(pressed, News::North);
    let has_s = news_contain(pressed, News::South);
    let has_e = news_contain(pressed, News::East);
    let has_w = news_contain(pressed, News::West);

    // up and down, or left and right, cancel each other
    let n = has_n && !has_s;
    let s = has_s && !has_n;
    let e = has_e && !has_w;
    let w = has_w && !has_e;
    let vertical = if n { News::North } else { News::South };
    let horizontal = if e { News::East } else { News::West };

    if !(n || s) && !(e || w) {
        return;
    }
    if !(e || w) {
        cross.push(vertical);
        return;
    }
    if !(n || s) {
        cross.push(horizontal);
        return;
    }

    // two directions: the way ahead or back, and a turn
    let ahead = player.direction == vertical || player.direction == horizontal;
    let known = if ahead { player.direction } else { player.direction.back_side() };
    let other = if known == vertical { horizontal } else { vertical };
    if player.is_stop {
        cross.push(known);
        cross.push(other);
    } else {
        cross.push(other);
        cross.push(known);
    }
}


/// The box around the middle of the map where the player starts.
pub open spec fn in_start_box(g: Grid) -> bool {
    &&& spec_short_side() - 1 <= g.x <= MAP_GRIDS_WIDTH - spec_short_side()
    &&& spec_short_side() - 1 <= g.y <= MAP_GRIDS_HEIGHT - spec_short_side()
}

/// Some grid of the start box is not a wall.
pub open spec fn start_box_has_space(map: &MapInfo) -> bool {
    exists|g: Grid| in_start_box(g) && #[trigger] map.space_at(g)
}

/// A new maze has a passage in the start box: its corner nearest the map's origin lies on
/// a ring of passages, off the cross and the wall across it.
pub proof fn lemma_new_maze_start_box(map: &MapInfo)
    requires
        map.wf(),
        is_new_maze(map),
    ensures
        start_box_has_space(map),
{
    let g = Grid { x: (spec_short_side() - 1) as i32, y: (spec_short_side() - 1) as i32 };
    assert(in_map(g));
    assert(new_maze_obj(g.x as int, g.y as int, map.obj(g)));
    assert(map.space_at(g));
}

/// Picks where the player starts: a grid of the start box that is not a wall, each such
/// grid as likely as the others.
pub fn init_position_player(map: &MapInfo) -> (r: Grid)
    requires
        map.wf(),
        start_box_has_space(map),
    ensures
        in_start_box(r),
        map.space_at(r),
{
    let half_w: i32 = MAP_GRIDS_WIDTH / 2;
    let half_h: i32 = MAP_GRIDS_HEIGHT / 2;
    let short_side: i32 = if half_w >= half_h { half_h } else { half_w };
    let x1 = short_side - 1;
    let y1 = short_side - 1;
    let x2 = MAP_GRIDS_WIDTH - short_side;
    let y2 = MAP_GRIDS_HEIGHT - short_side;

    // every grid of the box that is not a wall
    let mut spaces: Vec<Grid> = Vec::new();
    let mut x = x1;
    while x <= x2
        invariant
            map.wf(),
            short_side == spec_short_side(),
            x1 == short_side - 1,
            y1 == short_side - 1,
            x2 == MAP_GRIDS_WIDTH - short_side,
            y2 == MAP_GRIDS_HEIGHT - short_side,
            x1 <= x <= x2 + 1,
            forall|k: int| 0 <= k < spaces@.len() ==> in_start_box(#[trigger] spaces@[k]) && map.space_at(spaces@[k]),
            spaces@.len() == 0 ==> forall|g: Grid| in_start_box(g) && g.x < x ==> !#[trigger] map.space_at(g),
        decreases x2 + 1 - x,
    {
        let mut y = y1;
        while y <= y2
            invariant
                map.wf(),
                short_side == spec_short_side(),
                x1 == short_side - 1,
                y1 == short_side - 1,
                x2 == MAP_GRIDS_WIDTH - short_side,
                y2 == MAP_GRIDS_HEIGHT - short_side,
                x1 <= x <= x2,
                y1 <= y <= y2 + 1,
                forall|k: int| 0 <= k < spaces@.len() ==> in_start_box(#[trigger] spaces@[k]) && map.space_at(spaces@[k]),
                spaces@.len() == 0 ==> forall|g: Grid| in_start_box(g) && (g.x < x || (g.x == x && g.y < y))
                    ==> !#[trigger] map.space_at(g),
            decreases y2 + 1 - y,
        {
            let g = Grid { x, y };
            if map.is_space(g) {
                spaces.push(g);
            }
            y = y + 1;
        }
        x = x + 1;
    }
    assert(spaces@.len() > 0);
    let k = random_below(spaces.len());
    spaces[k]
}

/// The player of a new stage: standing on a grid of the start box that is not a wall
/// (see `init_position_player`), facing South.
pub fn spawn_sprite(map: &MapInfo) -> (p: Player)
    requires
        map.wf(),
        start_box_has_space(map),
    ensures
        p.grid == p.next_grid,
        in_start_box(p.grid),
        map.space_at(p.grid),
        p.direction == News::South,
        p.is_stop,
{
    let g = init_position_player(map);
    Player::new(g)
}

/// The player at the start of a game: standing on a grid of the start box that is not a
/// wall (see `init_position_player`), facing up (North).
pub fn spawn_sprite_player(map: &MapInfo) -> (p: Player)
    requires
        map.wf(),
        start_box_has_space(map),
    ensures
        p.grid == p.next_grid,
        in_start_box(p.grid),
        map.space_at(p.grid),
        p.direction == News::North,
        p.is_stop,
{
    let g = init_position_player(map);
    Player { grid: g, next_grid: g, direction: News::North, is_stop: true }
}

/// The turn of the player's sprite, in degrees counterclockwise, when it turns from facing
/// `direction` to facing `input`: a quarter turn left is 90, a quarter turn right -90,
/// anything else a half turn of 180.
pub fn rotate_player_sprite(direction: News, input: News) -> (r: i32)
    ensures
        r == match (direction, input) {
            (News::North, News::West) | (News::South, News::East) | (News::East, News::North)
            | (News::West, News::South) => 90int,
            (News::North, News::East) | (News::South, News::West) | (News::East, News::South)
            | (News::West, News::North) => -90int,
            _ => 180int,
        },
{
    match direction {
        News::North => if input == News::West { 90 } else if input == News::East { -90 } else { 180 },
        News::South => if input == News::East { 90 } else if input == News::West { -90 } else { 180 },
        News::East => if input == News::North { 90 } else if input == News::South { -90 } else { 180 },
        News::West => if input == News::South { 90 } else if input == News::North { -90 } else { 180 },
    }
}

} // verus!
