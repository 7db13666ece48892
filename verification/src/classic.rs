use vstd::prelude::*;
use crate::grid::{Grid, Direction, MAP_GRIDS_WIDTH, MAP_GRIDS_HEIGHT, in_map};
use crate::map::{MapInfo, MapObj, get_map_obj_ulrd, dot_entity};
use crate::record::Record;
use crate::state::GameState;
use crate::judge::{eat_dot, record_after_dot};
use crate::stage_map::map_dots;
use crate::chasers::AnimeSpriteColorTag;
use crate::random::random_below;

verus! {

/// Whether an object lets a character through.
pub open spec fn is_open(o: MapObj) -> bool {
    !(o is Wall)
}

/// The object toward `d` among the objects above, left of, right of and below a grid.
pub open spec fn obj_toward(d: Direction, up: MapObj, left: MapObj, right: MapObj, down: MapObj) -> MapObj {
    match d {
        Direction::Up => up,
        Direction::Left => left,
        Direction::Right => right,
        Direction::Down => down,
    }
}

/// The step in `x` and `y` of one move toward `d`.
pub open spec fn dir_dx(d: Direction) -> int {
    match d {
        Direction::Left => -1,
        Direction::Right => 1,
        _ => 0,
    }
}

pub open spec fn dir_dy(d: Direction) -> int {
    match d {
        Direction::Up => -1,
        Direction::Down => 1,
        _ => 0,
    }
}

/// The grid one move from `xy` toward `d`.
pub open spec fn moved(xy: (usize, usize), d: Direction) -> (usize, usize) {
    ((xy.0 + dir_dx(d)) as usize, (xy.1 + dir_dy(d)) as usize)
}

/// The way a chaser of colour `color` at `c` prefers at a fork when the player is at `p`:
/// the first of its colour's ways that is open and leads toward the player.
pub open spec fn classic_preferred(
    color: AnimeSpriteColorTag,
    c: (usize, usize),
    p: (usize, usize),
    up: MapObj,
    left: MapObj,
    right: MapObj,
    down: MapObj,
) -> Option<Direction> {
    let l = p.0 < c.0 && is_open(left);
    let r = p.0 > c.0 && is_open(right);
    let u = p.1 < c.1 && is_open(up);
    let d = p.1 > c.1 && is_open(down);
    match color {
        AnimeSpriteColorTag::Red => if l { Some(Direction::Left) } else if r { Some(Direction::Right) }
            else if u { Some(Direction::Up) } else if d { Some(Direction::Down) } else { None },
        AnimeSpriteColorTag::Blue => if d { Some(Direction::Down) } else if l { Some(Direction::Left) }
            else if r { Some(Direction::Right) } else if u { Some(Direction::Up) } else { None },
        AnimeSpriteColorTag::Green => if u { Some(Direction::Up) } else if d { Some(Direction::Down) }
            else if l { Some(Direction::Left) } else if r { Some(Direction::Right) } else { None },
        AnimeSpriteColorTag::Pink => if r { Some(Direction::Right) } else if u { Some(Direction::Up) }
            else if d { Some(Direction::Down) } else if l { Some(Direction::Left) } else { None },
    }
}

fn open(o: MapObj) -> (r: bool)
    ensures
        r == is_open(o),
{
    match o {
        MapObj::Wall(_) => false,
        _ => true,
    }
}

/// At a fork, the way a chaser of colour `color` takes: the one its colour prefers (see
/// `classic_preferred`), else an open way at random.
pub fn decide_direction(
    color: AnimeSpriteColorTag,
    chaser_xy: (usize, usize),
    player_xy: (usize, usize),
    up: MapObj,
    left: MapObj,
    right: MapObj,
    down: MapObj,
) -> (r: Direction)
    requires
        is_open(up) || is_open(left) || is_open(right) || is_open(down),
    ensures
        classic_preferred(color, chaser_xy, player_xy, up, left, right, down) matches Some(d) ==> r == d,
        classic_preferred(color, chaser_xy, player_xy, up, left, right, down) is None
            ==> is_open(obj_toward(r, up, left, right, down)),
{
    let (cx, cy) = chaser_xy;
    let (px, py) = player_xy;
    let l = px < cx && open(left);
    let r = px > cx && open(right);
    let u = py < cy && open(up);
    let d = py > cy && open(down);
    match color {
        AnimeSpriteColorTag::Red => {
            if l { return Direction::Left; }
            if r { return Direction::Right; }
            if u { return Direction::Up; }
            if d { return Direction::Down; }
        },
        AnimeSpriteColorTag::Blue => {
            if d { return Direction::Down; }
            if l { return Direction::Left; }
            if r { return Direction::Right; }
            if u { return Direction::Up; }
        },
        AnimeSpriteColorTag::Green => {
            if u { return Direction::Up; }
            if d { return Direction::Down; }
            if l { return Direction::Left; }
            if r { return Direction::Right; }
        },
        AnimeSpriteColorTag::Pink => {
            if r { return Direction::Right; }
            if u { return Direction::Up; }
            if d { return Direction::Down; }
            if l { return Direction::Left; }
        },
    }

    // no way leads toward the player: any open way, each as likely
    let mut ways: Vec<Direction> = Vec::new();
    if open(left) {
        ways.push(Direction::Left);
    }
    if open(right) {
        ways.push(Direction::Right);
    }
    if open(up) {
        ways.push(Direction::Up);
    }
    if open(down) {
        ways.push(Direction::Down);
    }
    assert(forall|k: int| 0 <= k < ways@.len() ==> is_open(obj_toward(#[trigger] ways@[k], up, left, right, down)));
    let k = random_below(ways.len());
    ways[k]
}

/// The objects around a grid as a chaser sees them: the way back counts as a wall while
/// it moves.
pub open spec fn seen_around(
    map: &MapInfo,
    xy: (usize, usize),
    direction: Direction,
    stop: bool,
) -> (MapObj, MapObj, MapObj, MapObj) {
    let up = map.obj(Grid { x: xy.0 as i32, y: (xy.1 - 1) as i32 });
    let left = map.obj(Grid { x: (xy.0 - 1) as i32, y: xy.1 as i32 });
    let right = map.obj(Grid { x: (xy.0 + 1) as i32, y: xy.1 as i32 });
    let down = map.obj(Grid { x: xy.0 as i32, y: (xy.1 + 1) as i32 });
    if stop {
        (up, left, right, down)
    } else {
        match direction {
            Direction::Up => (up, left, right, MapObj::Wall(None)),
            Direction::Left => (up, left, MapObj::Wall(None), down),
            Direction::Right => (up, MapObj::Wall(None), right, down),
            Direction::Down => (MapObj::Wall(None), left, right, down),
        }
    }
}

/// How many of four objects are open.
pub open spec fn open_count(o: (MapObj, MapObj, MapObj, MapObj)) -> int {
    (if is_open(o.0) { 1int } else { 0int }) + (if is_open(o.1) { 1int } else { 0int })
        + (if is_open(o.2) { 1int } else { 0int }) + (if is_open(o.3) { 1int } else { 0int })
}

/// The grids inside the outer wall of the map.
pub open spec fn inside_wall(xy: (usize, usize)) -> bool {
    1 <= xy.0 < MAP_GRIDS_WIDTH - 1 && 1 <= xy.1 < MAP_GRIDS_HEIGHT - 1
}

/// A chaser's move when it reaches its grid: of the open ways around it (the way back
/// counting as a wall while it moves), it takes the only one, or at a fork the one that
/// `decide_direction` gives; with no open way it keeps its direction. It then heads one
/// grid that way and no longer stands (the flag given is the new stop flag).
pub fn move_sprite_chasers(
    location: (usize, usize),
    direction: Direction,
    stop: bool,
    color: AnimeSpriteColorTag,
    player_location: (usize, usize),
    map: &MapInfo,
) -> (r: ((usize, usize), Direction, bool))
    requires
        map.wf(),
        inside_wall(location),
    ensures
        !r.2,
        ({
            let seen = seen_around(map, location, direction, stop);
            &&& open_count(seen) == 0 ==> r.1 == direction
            &&& open_count(seen) == 1 ==> is_open(obj_toward(r.1, seen.0, seen.1, seen.2, seen.3))
            &&& open_count(seen) > 1 ==> (classic_preferred(color, location, player_location, seen.0, seen.1, seen.2, seen.3)
                matches Some(d) ==> r.1 == d)
            &&& open_count(seen) > 1 ==> (classic_preferred(color, location, player_location, seen.0, seen.1, seen.2, seen.3)
                is None ==> is_open(obj_toward(r.1, seen.0, seen.1, seen.2, seen.3)))
            &&& r.0 == moved(location, r.1)
        }),
{
    let (up, left, right, down) = get_map_obj_ulrd(location, map);
    let (mut up, mut left, mut right, mut down) = (up, left, right, down);

    // while moving, the way back counts as a wall
    if !stop {
        match direction {
            Direction::Up => { down = MapObj::Wall(None); },
            Direction::Left => { right = MapObj::Wall(None); },
            Direction::Right => { left = MapObj::Wall(None); },
            Direction::Down => { up = MapObj::Wall(None); },
        }
    }

    // count the open ways; with one, it is the way
    let mut new_direction = direction;
    let mut count: u32 = 0;
    if open(up) {
        count = count + 1;
        new_direction = Direction::Up;
    }
    if open(left) {
        count = count + 1;
        new_direction = Direction::Left;
    }
    if open(right) {
        count = count + 1;
        new_direction = Direction::Right;
    }
    if open(down) {
        count = count + 1;
        new_direction = Direction::Down;
    }
    assert(count > 0 ==> is_open(obj_toward(new_direction, up, left, right, down)));

    // at a fork the colour decides
    if count > 1 {
        new_direction = decide_direction(color, location, player_location, up, left, right, down);
    }

    let (x, y) = location;
    let (nx, ny): (usize, usize) = match new_direction {
        Direction::Up => (x, y - 1),
        Direction::Left => (x - 1, y),
        Direction::Right => (x + 1, y),
        Direction::Down => (x, y + 1),
    };
    ((nx, ny), new_direction, false)
}


/// The open ways among four objects, in the order up, left, right, down.
pub open spec fn open_ways(o: (MapObj, MapObj, MapObj, MapObj)) -> Seq<Direction> {
    (if is_open(o.0) { seq![Direction::Up] } else { Seq::empty() })
    + (if is_open(o.1) { seq![Direction::Left] } else { Seq::empty() })
    + (if is_open(o.2) { seq![Direction::Right] } else { Seq::empty() })
    + (if is_open(o.3) { seq![Direction::Down] } else { Seq::empty() })
}

/// The grid of a map location.
pub open spec fn grid_of(xy: (usize, usize)) -> Grid {
    Grid { x: xy.0 as i32, y: xy.1 as i32 }
}

/// The way the arrow keys `(up, left, right, down)` ask for: the first of left, right, up
/// and down that is pressed, if any.
pub open spec fn key_way(keys: (bool, bool, bool, bool)) -> Option<Direction> {
    if keys.1 {
        Some(Direction::Left)
    } else if keys.2 {
        Some(Direction::Right)
    } else if keys.0 {
        Some(Direction::Up)
    } else if keys.3 {
        Some(Direction::Down)
    } else {
        None
    }
}

/// Four objects around a grid as a moving character sees them: the way back counts as a
/// wall while it moves.
pub open spec fn masked(o: (MapObj, MapObj, MapObj, MapObj), direction: Direction, stop: bool)
    -> (MapObj, MapObj, MapObj, MapObj)
{
    if stop {
        o
    } else {
        match direction {
            Direction::Up => (o.0, o.1, o.2, MapObj::Wall(None)),
            Direction::Left => (o.0, o.1, MapObj::Wall(None), o.3),
            Direction::Right => (o.0, MapObj::Wall(None), o.2, o.3),
            Direction::Down => (MapObj::Wall(None), o.1, o.2, o.3),
        }
    }
}

/// The player's turn and step on the arrow keys, with `around` the objects up, left, right
/// and down (see `move_sprite_player`).
fn key_step(
    location: (usize, usize),
    direction: Direction,
    stop: bool,
    keys: (bool, bool, bool, bool),
    is_demoplay: bool,
    around: (MapObj, MapObj, MapObj, MapObj),
) -> (r: ((usize, usize), Direction, bool))
    requires
        inside_wall(location),
        is_demoplay ==> open_count(masked(around, direction, stop)) >= 1,
    ensures
        ({
            let o = if is_demoplay { masked(around, direction, stop) } else { around };
            &&& !is_demoplay ==> match key_way(keys) {
                Some(d) => r.1 == d && r.2 == !is_open(obj_toward(d, o.0, o.1, o.2, o.3)),
                None => r.1 == direction && r.2,
            }
            &&& is_demoplay ==> !r.2 && open_ways(o).contains(r.1)
            &&& r.0 == if r.2 { location } else { moved(location, r.1) }
        }),
{
    let (mut up, mut left, mut right, mut down) = around;
    let (mut key_up, mut key_left, mut key_right, mut key_down) = (false, false, false, false);

    if !is_demoplay {
        key_up = keys.0;
        key_left = keys.1;
        key_right = keys.2;
        key_down = keys.3;
    } else {
        // while moving, the way back counts as a wall
        if !stop {
            match direction {
                Direction::Up => { down = MapObj::Wall(None); },
                Direction::Left => { right = MapObj::Wall(None); },
                Direction::Right => { left = MapObj::Wall(None); },
                Direction::Down => { up = MapObj::Wall(None); },
            }
        }
        assert((up, left, right, down) == masked(around, direction, stop));
        // a key for one of the open ways, at random
        let mut ways: Vec<Direction> = Vec::new();
        if open(up) {
            ways.push(Direction::Up);
        }
        if open(left) {
            ways.push(Direction::Left);
        }
        if open(right) {
            ways.push(Direction::Right);
        }
        if open(down) {
            ways.push(Direction::Down);
        }
        assert(ways@ =~= open_ways((up, left, right, down)));
        let k = random_below(ways.len());
        assert(open_ways((up, left, right, down)).contains(ways@[k as int]));
        match ways[k] {
            Direction::Up => { key_up = true; },
            Direction::Left => { key_left = true; },
            Direction::Right => { key_right = true; },
            Direction::Down => { key_down = true; },
        }
    }

    // turn to the key and move on unless a wall stands there
    let (x, y) = location;
    if key_left {
        let s = !open(left);
        (if s { location } else { (x - 1, y) }, Direction::Left, s)
    } else if key_right {
        let s = !open(right);
        (if s { location } else { (x + 1, y) }, Direction::Right, s)
    } else if key_up {
        let s = !open(up);
        (if s { location } else { (x, y - 1) }, Direction::Up, s)
    } else if key_down {
        let s = !open(down);
        (if s { location } else { (x, y + 1) }, Direction::Down, s)
    } else {
        (location, direction, true)
    }
}

/// The player's step when it reaches its grid at `location`. First it eats the dot there,
/// if any: the dot leaves the map, one dot fewer remains, the score goes up by one and a
/// better score becomes the high score (in the demo too); when that was the last dot, the
/// stage is over (the demo loops, else the stage is cleared) and the player stays as it
/// was. Otherwise it reads the arrow keys (see `key_way`): the way asked for turns the
/// player, and it moves one grid that way unless a wall stands there; with no key pressed
/// it stops. In the demo a key is made up: one of the open ways at random (the way back
/// counting as a wall while it moves). Gives the new location, direction and stop flag,
/// and the state to go to when the stage is over.
pub fn move_sprite_player(
    location: (usize, usize),
    direction: Direction,
    stop: bool,
    keys: (bool, bool, bool, bool),
    is_demoplay: bool,
    map: &mut MapInfo,
    record: &mut Record,
) -> (r: ((usize, usize), Direction, bool, Option<GameState>))
    requires
        old(map).wf(),
        inside_wall(location),
        is_demoplay ==> open_count(seen_around(&*old(map), location, direction, stop)) >= 1,
        old(map).remaining_dots == map_dots(old(map).cells(), MAP_GRIDS_WIDTH as int),
        old(map).obj(grid_of(location)) != MapObj::Dot(None),
        old(record).score < i32::MAX,
    ensures
        final(map).wf(),
        final(map).demo == old(map).demo,
        final(map).remaining_dots == map_dots(final(map).cells(), MAP_GRIDS_WIDTH as int),
        ({
            let eaten = dot_entity(old(map).obj(grid_of(location))) is Some;
            let cleared = eaten && final(map).remaining_dots == 0;
            let plain = seen_around(&*old(map), location, direction, true);
            let o = if is_demoplay { seen_around(&*old(map), location, direction, stop) } else { plain };
            &&& eaten ==> final(map).obj(grid_of(location)) == MapObj::Space
                && (forall|h: Grid| in_map(h) && h != grid_of(location) ==> #[trigger] final(map).obj(h) == old(map).obj(h))
                && final(map).remaining_dots == old(map).remaining_dots - 1
                && *final(record) == record_after_dot(*old(record), true)
            &&& !eaten ==> final(map).array@ == old(map).array@ && final(map).remaining_dots == old(map).remaining_dots
                && *final(record) == *old(record)
            &&& cleared ==> r == (location, direction, stop,
                Some(if is_demoplay { GameState::DemoLoop } else { GameState::GameClear }))
            &&& !cleared ==> r.3 is None
            &&& !cleared && !is_demoplay ==> match key_way(keys) {
                Some(d) => r.1 == d && r.2 == !is_open(obj_toward(d, o.0, o.1, o.2, o.3)),
                None => r.1 == direction && r.2,
            }
            &&& !cleared && is_demoplay ==> !r.2 && open_ways(o).contains(r.1)
            &&& !cleared ==> r.0 == if r.2 { location } else { moved(location, r.1) }
        }),
{
    let around = get_map_obj_ulrd(location, map);
    proof {
        assert(around == seen_around(&*map, location, direction, true));
        assert(seen_around(&*map, location, direction, stop) == masked(around, direction, stop));
    }

    // the dot under the player
    let (x, y) = location;
    let g = Grid::new(x as i32, y as i32);
    let eaten = eat_dot(g, map, record, true);
    if eaten.is_some() && map.remaining_dots == 0 {
        let next = if is_demoplay { GameState::DemoLoop } else { GameState::GameClear };
        return (location, direction, stop, Some(next));
    }

    let (l, d, s) = key_step(location, direction, stop, keys, is_demoplay, around);
    (l, d, s, None)
}

/// The order in which the player's move tries the cross buttons pressed on the gamepad
/// (see `catch_cross_button_pressed`).
pub open spec fn cross_button_order(pressed: Seq<Direction>, stop: bool, side: Direction) -> Seq<Direction> {
    let rl = if pressed.contains(Direction::Right) { Direction::Right } else { Direction::Left };
    let du = if pressed.contains(Direction::Down) { Direction::Down } else { Direction::Up };
    if pressed.len() == 0 {
        Seq::empty()
    } else if pressed.len() == 1 {
        pressed
    } else if stop {
        match side {
            Direction::Right | Direction::Left => seq![rl, du],
            Direction::Down | Direction::Up => seq![du, rl],
        }
    } else {
        match side {
            Direction::Right => if pressed.contains(Direction::Right) { seq![du, Direction::Right] } else { seq![Direction::Left, du] },
            Direction::Left => if pressed.contains(Direction::Left) { seq![du, Direction::Left] } else { seq![Direction::Right, du] },
            Direction::Down => if pressed.contains(Direction::Down) { seq![rl, Direction::Down] } else { seq![Direction::Up, rl] },
            Direction::Up => if pressed.contains(Direction::Up) { seq![rl, Direction::Up] } else { seq![Direction::Down, rl] },
        }
    }
}

fn dirs_contain(s: &Vec<Direction>, d: Direction) -> (r: bool)
    ensures
        r == s@.contains(d),
{
    let mut i: usize = 0;
    while i < s.len()
        invariant
            0 <= i <= s@.len(),
            forall|k: int| 0 <= k < i ==> s@[k] != d,
        decreases s@.len() - i,
    {
        if s[i] == d {
            return true;
        }
        i = i + 1;
    }
    false
}

/// Reads the gamepad's cross buttons. One button gives its way. With two (the cross lets
/// one left or right and one up or down be pressed): a standing player tries its own axis
/// first; a moving player tries the turn first and then the way it goes, or, when it pressed
/// against its way, the way back first and then the turn.
pub fn catch_cross_button_pressed(player_stop: bool, player_side: Direction, pressed: &Vec<Direction>)
    -> (r: Vec<Direction>)
    ensures
        r@ == cross_button_order(pressed@, player_stop, player_side),
{
    let mut cross: Vec<Direction> = Vec::new();
    if pressed.len() == 0 {
        return cross;
    }
    if pressed.len() == 1 {
        cross.push(pressed[0]);
        assert(cross@ =~= pressed@);
        return cross;
    }
    let rl = if dirs_contain(pressed, Direction::Right) { Direction::Right } else { Direction::Left };
    let du = if dirs_contain(pressed, Direction::Down) { Direction::Down } else { Direction::Up };
    if player_stop {
        match player_side {
            Direction::Right | Direction::Left => {
                cross.push(rl);
                cross.push(du);
            },
            Direction::Down | Direction::Up => {
                cross.push(du);
                cross.push(rl);
            },
        }
    } else {
        match player_side {
            Direction::Right => if dirs_contain(pressed, Direction::Right) {
                cross.push(du);
                cross.push(Direction::Right);
            } else {
                cross.push(Direction::Left);
                cross.push(du);
            },
            Direction::Left => if dirs_contain(pressed, Direction::Left) {
                cross.push(du);
                cross.push(Direction::Left);
            } else {
                cross.push(Direction::Right);
                cross.push(du);
            },
            Direction::Down => if dirs_contain(pressed, Direction::Down) {
                cross.push(rl);
                cross.push(Direction::Down);
            } else {
                cross.push(Direction::Up);
                cross.push(rl);
            },
            Direction::Up => if dirs_contain(pressed, Direction::Up) {
                cross.push(rl);
                cross.push(Direction::Up);
            } else {
                cross.push(Direction::Down);
                cross.push(rl);
            },
        }
    }
    assert(cross@ =~= cross_button_order(pressed@, player_stop, player_side));
    cross
}

/// The turn, in degrees counterclockwise, from facing `old` to facing `new`: a quarter turn
/// left is 90, a quarter turn right -90, anything else a half turn of 180.
pub fn decide_angle(old: Direction, new: Direction) -> (r: i32)
    ensures
        r == match (old, new) {
            (Direction::Up, Direction::Left) | (Direction::Left, Direction::Down)
            | (Direction::Down, Direction::Right) | (Direction::Right, Direction::Up) => 90int,
            (Direction::Up, Direction::Right) | (Direction::Right, Direction::Down)
            | (Direction::Down, Direction::Left) | (Direction::Left, Direction::Up) => -90int,
            _ => 180int,
        },
{
    match old {
        Direction::Up => {
            if new == Direction::Left { return 90; }
            if new == Direction::Right { return -90; }
        },
        Direction::Left => {
            if new == Direction::Down { return 90; }
            if new == Direction::Up { return -90; }
        },
        Direction::Right => {
            if new == Direction::Up { return 90; }
            if new == Direction::Down { return -90; }
        },
        Direction::Down => {
            if new == Direction::Right { return 90; }
            if new == Direction::Left { return -90; }
        },
    }
    180
}


/// Whether some chaser lies to the right of, left of, below or above `p`.
pub open spec fn some_chaser_beyond(p: Grid, chasers: Seq<Grid>, d: Direction) -> bool {
    exists|i: int| 0 <= i < chasers.len() && match d {
        Direction::Right => (#[trigger] chasers[i]).x > p.x,
        Direction::Left => chasers[i].x < p.x,
        Direction::Down => chasers[i].y > p.y,
        Direction::Up => chasers[i].y < p.y,
    }
}

fn chaser_beyond(p: Grid, chasers: &Vec<Grid>, d: Direction) -> (r: bool)
    ensures
        r == some_chaser_beyond(p, chasers@, d),
{
    let mut i: usize = 0;
    while i < chasers.len()
        invariant
            0 <= i <= chasers@.len(),
            forall|k: int| 0 <= k < i ==> !(match d {
                Direction::Right => (#[trigger] chasers@[k]).x > p.x,
                Direction::Left => chasers@[k].x < p.x,
                Direction::Down => chasers@[k].y > p.y,
                Direction::Up => chasers@[k].y < p.y,
            }),
        decreases chasers@.len() - i,
    {
        let c = chasers[i];
        let beyond = match d {
            Direction::Right => c.x > p.x,
            Direction::Left => c.x < p.x,
            Direction::Down => c.y > p.y,
            Direction::Up => c.y < p.y,
        };
        if beyond {
            return true;
        }
        i = i + 1;
    }
    false
}

/// The way the demo player picks between two opposite ways: both open, either at random;
/// one open, that one; none, no choice here.
fn pick_of_pair(sides: &[Direction], a: Direction, b: Direction) -> (r: Option<Direction>)
    ensures
        sides@.contains(a) && sides@.contains(b) ==> (r == Some(a) || r == Some(b)),
        sides@.contains(a) && !sides@.contains(b) ==> r == Some(a),
        !sides@.contains(a) && sides@.contains(b) ==> r == Some(b),
        !sides@.contains(a) && !sides@.contains(b) ==> r is None,
{
    let mut has_a = false;
    let mut has_b = false;
    let mut i: usize = 0;
    while i < sides.len()
        invariant
            0 <= i <= sides@.len(),
            has_a == sides@.subrange(0, i as int).contains(a),
            has_b == sides@.subrange(0, i as int).contains(b),
        decreases sides@.len() - i,
    {
        proof {
            broadcast use vstd::seq_lib::lemma_seq_contains_after_push;
            assert(sides@.subrange(0, i + 1) =~= sides@.subrange(0, i as int).push(sides@[i as int]));
        }
        if sides[i] == a {
            has_a = true;
        }
        if sides[i] == b {
            has_b = true;
        }
        i = i + 1;
    }
    assert(sides@.subrange(0, sides@.len() as int) =~= sides@);
    if has_a {
        if has_b {
            if random_below(2) == 0 { Some(a) } else { Some(b) }
        } else {
            Some(a)
        }
    } else if has_b {
        Some(b)
    } else {
        None
    }
}

/// The simple demo player's way, judged only by where the chasers lie: with no chaser to the right or left, it
/// goes right or left where it can (at random when both are open); else with no chaser
/// below or above, down or up where it can; otherwise, or where neither is open, any
/// of `sides` at random.
pub fn which_way_goes(player_next: Grid, chasers: &Vec<Grid>, sides: &[Direction]) -> (r: Direction)
    requires
        sides@.len() >= 1,
    ensures
        sides@.contains(r),
        ({
            let horizontal = !some_chaser_beyond(player_next, chasers@, Direction::Right)
                && !some_chaser_beyond(player_next, chasers@, Direction::Left);
            let vertical = !some_chaser_beyond(player_next, chasers@, Direction::Down)
                && !some_chaser_beyond(player_next, chasers@, Direction::Up);
            &&& horizontal && (sides@.contains(Direction::Right) || sides@.contains(Direction::Left))
                ==> r == Direction::Right || r == Direction::Left
            &&& horizontal && sides@.contains(Direction::Right) && !sides@.contains(Direction::Left)
                ==> r == Direction::Right
            &&& horizontal && !sides@.contains(Direction::Right) && sides@.contains(Direction::Left)
                ==> r == Direction::Left
            &&& !horizontal && vertical && (sides@.contains(Direction::Down) || sides@.contains(Direction::Up))
                ==> r == Direction::Down || r == Direction::Up
            &&& !horizontal && vertical && sides@.contains(Direction::Down) && !sides@.contains(Direction::Up)
                ==> r == Direction::Down
            &&& !horizontal && vertical && !sides@.contains(Direction::Down) && sides@.contains(Direction::Up)
                ==> r == Direction::Up
        }),
{
    let right = chaser_beyond(player_next, chasers, Direction::Right);
    let left = chaser_beyond(player_next, chasers, Direction::Left);
    let down = chaser_beyond(player_next, chasers, Direction::Down);
    let up = chaser_beyond(player_next, chasers, Direction::Up);
    if !right && !left {
        if let Some(d) = pick_of_pair(sides, Direction::Right, Direction::Left) {
            return d;
        }
    } else if !down && !up {
        if let Some(d) = pick_of_pair(sides, Direction::Down, Direction::Up) {
            return d;
        }
    }
    let k = random_below(sides.len());
    assert(sides@.contains(sides@[k as int]));
    sides[k]
}

} // verus!
