use vstd::prelude::*;
use crate::grid::{Grid, MAP_GRIDS_WIDTH, MAP_GRIDS_HEIGHT, in_map};

verus! {

/// What the demo player knows of the remaining dots: how many are left in each column
/// and each row, and the smallest rectangle that holds them all.
pub struct DemoMapParams {
    pub dots_rect_min: Grid,
    pub dots_rect_max: Grid,
    pub dots_sum_x: Vec<i32>,
    pub dots_sum_y: Vec<i32>,
}

/// The first index `>= from` whose value is not zero, or `s.len()` when there is none.
pub open spec fn first_nonzero(s: Seq<i32>, from: int) -> int
    decreases s.len() - from,
{
    if from >= s.len() {
        s.len() as int
    } else if s[from] != 0 {
        from
    } else {
        first_nonzero(s, from + 1)
    }
}

/// The last index `< upto` whose value is not zero, or `-1` when there is none.
pub open spec fn last_nonzero(s: Seq<i32>, upto: int) -> int
    decreases upto,
{
    if upto <= 0 {
        -1
    } else if s[upto - 1] != 0 {
        upto - 1
    } else {
        last_nonzero(s, upto - 1)
    }
}

/// How far `v` lies outside the closed range `lo..=hi`.
pub open spec fn dist_to_range(v: int, lo: int, hi: int) -> int {
    if v < lo {
        lo - v
    } else if v > hi {
        v - hi
    } else {
        0
    }
}

impl DemoMapParams {
    /// The sums have one entry per column and per row of the map.
    pub open spec fn wf(&self) -> bool {
        &&& self.dots_sum_x@.len() == MAP_GRIDS_WIDTH
        &&& self.dots_sum_y@.len() == MAP_GRIDS_HEIGHT
    }

    /// The corners of the rectangle lie on the map or one grid beyond its edge.
    pub open spec fn rect_bounded(&self) -> bool {
        &&& -1 <= self.dots_rect_min.x <= MAP_GRIDS_WIDTH
        &&& -1 <= self.dots_rect_min.y <= MAP_GRIDS_HEIGHT
        &&& -1 <= self.dots_rect_max.x <= MAP_GRIDS_WIDTH
        &&& -1 <= self.dots_rect_max.y <= MAP_GRIDS_HEIGHT
    }

    /// Whether `g` lies in the rectangle, edges included.
    pub open spec fn spec_is_inside_rect(&self, g: Grid) -> bool {
        &&& self.dots_rect_min.x <= g.x <= self.dots_rect_max.x
        &&& self.dots_rect_min.y <= g.y <= self.dots_rect_max.y
    }

    /// The sum of the horizontal and vertical distances from `g` to the rectangle.
    pub open spec fn spec_how_far_to_rect(&self, g: Grid) -> int {
        dist_to_range(g.x as int, self.dots_rect_min.x as int, self.dots_rect_max.x as int)
            + dist_to_range(g.y as int, self.dots_rect_min.y as int, self.dots_rect_max.y as int)
    }

    /// Parameters with zero sums and an empty rectangle at the origin.
    pub fn new() -> (r: DemoMapParams)
        ensures
            r.wf(),
            forall|i: int| 0 <= i < MAP_GRIDS_WIDTH ==> r.dots_sum_x@[i] == 0,
            forall|i: int| 0 <= i < MAP_GRIDS_HEIGHT ==> r.dots_sum_y@[i] == 0,
            r.dots_rect_min == (Grid { x: 0, y: 0 }),
            r.dots_rect_max == (Grid { x: 0, y: 0 }),
    {
        let mut xs: Vec<i32> = Vec::new();
        let mut i: i32 = 0;
        while i < MAP_GRIDS_WIDTH
            invariant
                0 <= i <= MAP_GRIDS_WIDTH,
                xs@.len() == i,
                forall|k: int| 0 <= k < i ==> xs@[k] == 0,
            decreases MAP_GRIDS_WIDTH - i,
        {
            xs.push(0);
            i = i + 1;
        }
        let mut ys: Vec<i32> = Vec::new();
        let mut j: i32 = 0;
        while j < MAP_GRIDS_HEIGHT
            invariant
                0 <= j <= MAP_GRIDS_HEIGHT,
                ys@.len() == j,
                forall|k: int| 0 <= k < j ==> ys@[k] == 0,
            decreases MAP_GRIDS_HEIGHT - j,
        {
            ys.push(0);
            j = j + 1;
        }
        DemoMapParams {
            dots_rect_min: Grid { x: 0, y: 0 },
            dots_rect_max: Grid { x: 0, y: 0 },
            dots_sum_x: xs,
            dots_sum_y: ys,
        }
    }

    /// The number of remaining dots counted in column `x`.
    pub fn dots_sum_x(&self, x: i32) -> (r: i32)
        requires
            self.wf(),
            0 <= x < MAP_GRIDS_WIDTH,
        ensures
            r == self.dots_sum_x@[x as int],
    {
        self.dots_sum_x[x as usize]
    }

    /// A handle on the count of column `x`; what is written through it becomes that count.
    pub fn dots_sum_x_mut(&mut self, x: i32) -> (r: &mut i32)
        requires
            old(self).wf(),
            0 <= x < MAP_GRIDS_WIDTH,
        ensures
            *r == old(self).dots_sum_x@[x as int],
            final(self).dots_sum_x@ == old(self).dots_sum_x@.update(x as int, *final(r)),
            final(self).dots_sum_y@ == old(self).dots_sum_y@,
            final(self).dots_rect_min == old(self).dots_rect_min,
            final(self).dots_rect_max == old(self).dots_rect_max,
    {
        &mut self.dots_sum_x[x as usize]
    }

    /// The number of remaining dots counted in row `y`.
    pub fn dots_sum_y(&self, y: i32) -> (r: i32)
        requires
            self.wf(),
            0 <= y < MAP_GRIDS_HEIGHT,
        ensures
            r == self.dots_sum_y@[y as int],
    {
        self.dots_sum_y[y as usize]
    }

    /// A handle on the count of row `y`; what is written through it becomes that count.
    pub fn dots_sum_y_mut(&mut self, y: i32) -> (r: &mut i32)
        requires
            old(self).wf(),
            0 <= y < MAP_GRIDS_HEIGHT,
        ensures
            *r == old(self).dots_sum_y@[y as int],
            final(self).dots_sum_y@ == old(self).dots_sum_y@.update(y as int, *final(r)),
            final(self).dots_sum_x@ == old(self).dots_sum_x@,
            final(self).dots_rect_min == old(self).dots_rect_min,
            final(self).dots_rect_max == old(self).dots_rect_max,
    {
        &mut self.dots_sum_y[y as usize]
    }

    /// The upper left corner of the rectangle that holds the remaining dots.
    pub fn dots_rect_min(&self) -> (r: Grid)
        ensures
            r == self.dots_rect_min,
    {
        self.dots_rect_min
    }

    /// A handle on the upper left corner of the rectangle.
    pub fn dots_rect_min_mut(&mut self) -> (r: &mut Grid)
        ensures
            *r == old(self).dots_rect_min,
            final(self).dots_rect_min == *final(r),
            final(self).dots_rect_max == old(self).dots_rect_max,
            final(self).dots_sum_x@ == old(self).dots_sum_x@,
            final(self).dots_sum_y@ == old(self).dots_sum_y@,
    {
        &mut self.dots_rect_min
    }

    /// The lower right corner of the rectangle that holds the remaining dots.
    pub fn dots_rect_max(&self) -> (r: Grid)
        ensures
            r == self.dots_rect_max,
    {
        self.dots_rect_max
    }

    /// A handle on the lower right corner of the rectangle.
    pub fn dots_rect_max_mut(&mut self) -> (r: &mut Grid)
        ensures
            *r == old(self).dots_rect_max,
            final(self).dots_rect_max == *final(r),
            final(self).dots_rect_min == old(self).dots_rect_min,
            final(self).dots_sum_x@ == old(self).dots_sum_x@,
            final(self).dots_sum_y@ == old(self).dots_sum_y@,
    {
        &mut self.dots_rect_max
    }

    /// Whether `grid` lies inside the rectangle of the remaining dots, edges included.
    pub fn is_inside_rect(&self, grid: Grid) -> (r: bool)
        ensures
            r == self.spec_is_inside_rect(grid),
    {
        let min = self.dots_rect_min();
        let max = self.dots_rect_max();
        min.x <= grid.x && grid.x <= max.x && min.y <= grid.y && grid.y <= max.y
    }

    /// The horizontal plus vertical distance from `grid` to the rectangle of the remaining dots
    /// (zero inside it).
    pub fn how_far_to_rect(&self, grid: Grid) -> (r: i32)
        requires
            i32::MIN <= self.spec_how_far_to_rect(grid) <= i32::MAX,
            i32::MIN <= self.dots_rect_min.x - grid.x <= i32::MAX,
            i32::MIN <= self.dots_rect_min.y - grid.y <= i32::MAX,
            i32::MIN <= grid.x - self.dots_rect_max.x <= i32::MAX,
            i32::MIN <= grid.y - self.dots_rect_max.y <= i32::MAX,
        ensures
            r == self.spec_how_far_to_rect(grid),
    {
        let min = self.dots_rect_min();
        let max = self.dots_rect_max();
        let dx: i32 = if grid.x < min.x {
            min.x - grid.x
        } else if grid.x > max.x {
            grid.x - max.x
        } else {
            0
        };
        let dy: i32 = if grid.y < min.y {
            min.y - grid.y
        } else if grid.y > max.y {
            grid.y - max.y
        } else {
            0
        };
        dx + dy
    }
}


/// A non-zero entry at `x` lies at or after the first non-zero entry from `from`.
pub proof fn lemma_first_nonzero_le(s: Seq<i32>, from: int, x: int)
    requires
        0 <= from <= x < s.len(),
        s[x] != 0,
    ensures
        from <= first_nonzero(s, from) <= x,
    decreases x - from,
{
    if s[from] == 0 {
        lemma_first_nonzero_le(s, from + 1, x);
    }
}

/// The first non-zero entry from `from`, when there is one, is non-zero.
pub proof fn lemma_first_nonzero_found(s: Seq<i32>, from: int)
    requires
        0 <= from,
    ensures
        from <= first_nonzero(s, from) || from > s.len(),
        first_nonzero(s, from) <= s.len() || from > s.len(),
        first_nonzero(s, from) < s.len() ==> s[first_nonzero(s, from)] != 0,
        forall|k: int| from <= k < first_nonzero(s, from) && k < s.len() ==> s[k] == 0,
    decreases s.len() - from,
{
    if from < s.len() && s[from] == 0 {
        lemma_first_nonzero_found(s, from + 1);
    }
}

/// A non-zero entry at `x` lies at or before the last non-zero entry below `upto`.
pub proof fn lemma_last_nonzero_ge(s: Seq<i32>, upto: int, x: int)
    requires
        0 <= x < upto <= s.len(),
        s[x] != 0,
    ensures
        x <= last_nonzero(s, upto) < upto,
    decreases upto,
{
    if s[upto - 1] == 0 {
        lemma_last_nonzero_ge(s, upto - 1, x);
    }
}

/// The last non-zero entry below `upto`, when there is one, is non-zero.
pub proof fn lemma_last_nonzero_found(s: Seq<i32>, upto: int)
    requires
        upto <= s.len(),
    ensures
        -1 <= last_nonzero(s, upto) < upto || upto <= 0,
        last_nonzero(s, upto) >= 0 ==> s[last_nonzero(s, upto)] != 0,
        forall|k: int| last_nonzero(s, upto) < k < upto && 0 <= k ==> s[k] == 0,
    decreases upto,
{
    if upto > 0 && s[upto - 1] == 0 {
        lemma_last_nonzero_found(s, upto - 1);
    }
}

/// After the player ate the dot at `player_grid`: counts one dot fewer in its column and
/// in its row, then shrinks the rectangle of the remaining dots to the first and last
/// column and row whose count is not zero. With no dot left, the corners pass each other:
/// the upper left one goes to the width and height of the map, the lower right one to -1.
pub fn update_data_for_demo(player_grid: Grid, demo: &mut DemoMapParams)
    requires
        old(demo).wf(),
        in_map(player_grid),
        old(demo).dots_sum_x@[player_grid.x as int] > i32::MIN,
        old(demo).dots_sum_y@[player_grid.y as int] > i32::MIN,
    ensures
        final(demo).wf(),
        final(demo).dots_sum_x@ == old(demo).dots_sum_x@.update(
            player_grid.x as int,
            (old(demo).dots_sum_x@[player_grid.x as int] - 1) as i32,
        ),
        final(demo).dots_sum_y@ == old(demo).dots_sum_y@.update(
            player_grid.y as int,
            (old(demo).dots_sum_y@[player_grid.y as int] - 1) as i32,
        ),
        final(demo).dots_rect_min.x == first_nonzero(final(demo).dots_sum_x@, 0),
        final(demo).dots_rect_min.y == first_nonzero(final(demo).dots_sum_y@, 0),
        final(demo).dots_rect_max.x == last_nonzero(final(demo).dots_sum_x@, MAP_GRIDS_WIDTH as int),
        final(demo).dots_rect_max.y == last_nonzero(final(demo).dots_sum_y@, MAP_GRIDS_HEIGHT as int),
        final(demo).rect_bounded(),
{
    // one dot fewer in the player's column and row
    *demo.dots_sum_x_mut(player_grid.x) -= 1;
    *demo.dots_sum_y_mut(player_grid.y) -= 1;

    // the upper left corner: the first column and row that still count a dot
    let mut x: i32 = 0;
    while x < MAP_GRIDS_WIDTH
        invariant
            demo.wf(),
            0 <= x <= MAP_GRIDS_WIDTH,
            first_nonzero(demo.dots_sum_x@, 0) == first_nonzero(demo.dots_sum_x@, x as int),
        ensures
            demo.wf(),
            x == first_nonzero(demo.dots_sum_x@, 0),
        decreases MAP_GRIDS_WIDTH - x,
    {
        if demo.dots_sum_x(x) != 0 {
            break;
        }
        x = x + 1;
    }
    let mut y: i32 = 0;
    while y < MAP_GRIDS_HEIGHT
        invariant
            demo.wf(),
            0 <= y <= MAP_GRIDS_HEIGHT,
            first_nonzero(demo.dots_sum_y@, 0) == first_nonzero(demo.dots_sum_y@, y as int),
        ensures
            demo.wf(),
            y == first_nonzero(demo.dots_sum_y@, 0),
        decreases MAP_GRIDS_HEIGHT - y,
    {
        if demo.dots_sum_y(y) != 0 {
            break;
        }
        y = y + 1;
    }
    *demo.dots_rect_min_mut() = Grid::new(x, y);

    // the lower right corner: the last column and row that still count a dot
    let mut x: i32 = MAP_GRIDS_WIDTH - 1;
    while x >= 0
        invariant
            demo.wf(),
            -1 <= x < MAP_GRIDS_WIDTH,
            last_nonzero(demo.dots_sum_x@, MAP_GRIDS_WIDTH as int) == last_nonzero(demo.dots_sum_x@, x + 1),
        ensures
            demo.wf(),
            x == last_nonzero(demo.dots_sum_x@, MAP_GRIDS_WIDTH as int),
        decreases x + 1,
    {
        if demo.dots_sum_x(x) != 0 {
            break;
        }
        x = x - 1;
    }
    let mut y: i32 = MAP_GRIDS_HEIGHT - 1;
    while y >= 0
        invariant
            demo.wf(),
            -1 <= y < MAP_GRIDS_HEIGHT,
            last_nonzero(demo.dots_sum_y@, MAP_GRIDS_HEIGHT as int) == last_nonzero(demo.dots_sum_y@, y + 1),
        ensures
            demo.wf(),
            y == last_nonzero(demo.dots_sum_y@, MAP_GRIDS_HEIGHT as int),
        decreases y + 1,
    {
        if demo.dots_sum_y(y) != 0 {
            break;
        }
        y = y - 1;
    }
    *demo.dots_rect_max_mut() = Grid::new(x, y);
    proof {
        lemma_first_nonzero_found(demo.dots_sum_x@, 0);
        lemma_first_nonzero_found(demo.dots_sum_y@, 0);
        lemma_last_nonzero_found(demo.dots_sum_x@, MAP_GRIDS_WIDTH as int);
        lemma_last_nonzero_found(demo.dots_sum_y@, MAP_GRIDS_HEIGHT as int);
    }
}

} // verus!
