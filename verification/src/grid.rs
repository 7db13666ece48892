use vstd::prelude::*;

verus! {

/// Width of the game map, in grids.
pub const MAP_GRIDS_WIDTH: i32 = 40;

/// Height of the game map, in grids.
pub const MAP_GRIDS_HEIGHT: i32 = 25;

/// The four compass directions a character can face on the map.
/// North is toward smaller `y`, East toward larger `x`.
#[derive(Clone, Copy, Debug, PartialEq, Eq, Structural)]
pub enum News {
    North,
    East,
    West,
    South,
}

/// The opposite of a direction.
pub open spec fn spec_back_side(d: News) -> News {
    match d {
        News::North => News::South,
        News::South => News::North,
        News::East => News::West,
        News::West => News::East,
    }
}

/// The step in `x` that one move toward `d` makes.
pub open spec fn news_dx(d: News) -> int {
    match d {
        News::East => 1,
        News::West => -1,
        _ => 0,
    }
}

/// The step in `y` that one move toward `d` makes.
pub open spec fn news_dy(d: News) -> int {
    match d {
        News::North => -1,
        News::South => 1,
        _ => 0,
    }
}

impl News {
    /// The opposite direction.
    pub fn back_side(self) -> (r: News)
        ensures
            r == spec_back_side(self),
    {
        match self {
            News::North => News::South,
            News::South => News::North,
            News::East => News::West,
            News::West => News::East,
        }
    }
}

/// A position on the map, counted in grids.
#[derive(Clone, Copy, Debug, PartialEq, Eq, Structural)]
pub struct Grid {
    pub x: i32,
    pub y: i32,
}

/// The grid one step away from `g` toward `d`.
pub open spec fn spec_step(g: Grid, d: News) -> Grid {
    Grid { x: (g.x + news_dx(d)) as i32, y: (g.y + news_dy(d)) as i32 }
}

/// Whether a position lies on the map.
pub open spec fn in_map(g: Grid) -> bool {
    0 <= g.x < MAP_GRIDS_WIDTH && 0 <= g.y < MAP_GRIDS_HEIGHT
}

/// Whether two positions are next to each other (one step apart in one of the four directions).
pub open spec fn adjacent(a: Grid, b: Grid) -> bool {
    exists|d: News| #[trigger] spec_step(a, d) == b
}

/// The sum of the horizontal and vertical distances between two positions.
pub open spec fn manhattan(a: Grid, b: Grid) -> int {
    (if a.x >= b.x { a.x - b.x } else { b.x - a.x }) + (if a.y >= b.y { a.y - b.y } else { b.y - a.y })
}

impl Grid {
    pub fn new(x: i32, y: i32) -> (g: Grid)
        ensures
            g.x == x && g.y == y,
    {
        Grid { x, y }
    }

    /// The grid one step away toward `d`.
    pub fn step(self, d: News) -> (r: Grid)
        requires
            i32::MIN < self.x < i32::MAX,
            i32::MIN < self.y < i32::MAX,
        ensures
            r == spec_step(self, d),
    {
        match d {
            News::North => Grid { x: self.x, y: self.y - 1 },
            News::South => Grid { x: self.x, y: self.y + 1 },
            News::East => Grid { x: self.x + 1, y: self.y },
            News::West => Grid { x: self.x - 1, y: self.y },
        }
    }
}

/// Stepping toward a direction and then back returns to the start.
pub proof fn lemma_step_back(g: Grid, d: News)
    requires
        i32::MIN < g.x < i32::MAX,
        i32::MIN < g.y < i32::MAX,
    ensures
        spec_step(spec_step(g, d), spec_back_side(d)) == g,
{
}

/// The four directions of the classic game, where `Up` is toward smaller `y`.
#[derive(Clone, Copy, Debug, PartialEq, Eq, Structural)]
pub enum Direction {
    Up,
    Left,
    Right,
    Down,
}

/// One grid upward, as a `(dx, dy)` pair.
pub const UP: (i32, i32) = (0, -1);

/// One grid leftward, as a `(dx, dy)` pair.
pub const LEFT: (i32, i32) = (-1, 0);

/// One grid rightward, as a `(dx, dy)` pair.
pub const RIGHT: (i32, i32) = (1, 0);

/// One grid downward, as a `(dx, dy)` pair.
pub const DOWN: (i32, i32) = (0, 1);

} // verus!
