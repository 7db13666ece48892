use vstd::prelude::*;
use crate::grid::{Grid, MAP_GRIDS_WIDTH, MAP_GRIDS_HEIGHT, in_map};
use crate::map::{MapInfo, MapObj, cell_space, is_dot_obj, cells_wf};
use crate::maze::{is_new_maze, make_new_maze, lemma_new_maze_no_dead_ends};
use crate::auto_drive::no_dead_ends;
use crate::record::Record;
use crate::demo_params::DemoMapParams;

verus! {

/// How many of the grids `(x, 0) .. (x, n)` are not walls.
pub open spec fn col_spaces(c: Seq<Seq<MapObj>>, x: int, n: int) -> int
    decreases n,
{
    if n <= 0 {
        0
    } else {
        col_spaces(c, x, n - 1) + if cell_space(c, Grid { x: x as i32, y: (n - 1) as i32 }) { 1int } else { 0int }
    }
}

/// How many of the grids `(0, y) .. (n, y)` are not walls.
pub open spec fn row_spaces(c: Seq<Seq<MapObj>>, y: int, n: int) -> int
    decreases n,
{
    if n <= 0 {
        0
    } else {
        row_spaces(c, y, n - 1) + if cell_space(c, Grid { x: (n - 1) as i32, y: y as i32 }) { 1int } else { 0int }
    }
}

/// How many of the grids `(x, 0) .. (x, n)` hold a dot.
pub open spec fn col_dots(c: Seq<Seq<MapObj>>, x: int, n: int) -> int
    decreases n,
{
    if n <= 0 {
        0
    } else {
        col_dots(c, x, n - 1) + if is_dot_obj(c[x][n - 1]) { 1int } else { 0int }
    }
}

/// How many of the grids `(0, y) .. (n, y)` hold a dot.
pub open spec fn row_dots(c: Seq<Seq<MapObj>>, y: int, n: int) -> int
    decreases n,
{
    if n <= 0 {
        0
    } else {
        row_dots(c, y, n - 1) + if is_dot_obj(c[n - 1][y]) { 1int } else { 0int }
    }
}

/// How many dots the columns `0 .. n` hold.
pub open spec fn map_dots(c: Seq<Seq<MapObj>>, n: int) -> int
    decreases n,
{
    if n <= 0 {
        0
    } else {
        map_dots(c, n - 1) + col_dots(c, n - 1, MAP_GRIDS_HEIGHT as int)
    }
}

pub proof fn lemma_col_dots_bound(c: Seq<Seq<MapObj>>, x: int, n: int)
    ensures
        0 <= col_dots(c, x, n) <= if n < 0 { 0 } else { n },
    decreases n,
{
    if n > 0 {
        lemma_col_dots_bound(c, x, n - 1);
    }
}

pub proof fn lemma_map_dots_bound(c: Seq<Seq<MapObj>>, n: int)
    ensures
        0 <= map_dots(c, n) <= if n < 0 { 0 } else { n * MAP_GRIDS_HEIGHT },
    decreases n,
{
    if n > 0 {
        lemma_map_dots_bound(c, n - 1);
        lemma_col_dots_bound(c, n - 1, MAP_GRIDS_HEIGHT as int);
    }
}

/// The demo parameters count, for each column and row, the grids that are not walls, and
/// the rectangle spans the map inside its outer wall.
pub open spec fn demo_counts_spaces(m: &MapInfo) -> bool {
    &&& forall|x: int| 0 <= x < MAP_GRIDS_WIDTH
        ==> #[trigger] m.demo.dots_sum_x@[x] == col_spaces(m.cells(), x, MAP_GRIDS_HEIGHT as int)
    &&& forall|y: int| 0 <= y < MAP_GRIDS_HEIGHT
        ==> #[trigger] m.demo.dots_sum_y@[y] == row_spaces(m.cells(), y, MAP_GRIDS_WIDTH as int)
    &&& m.demo.dots_rect_min == (Grid { x: 1, y: 1 })
    &&& m.demo.dots_rect_max == (Grid { x: (MAP_GRIDS_WIDTH - 2) as i32, y: (MAP_GRIDS_HEIGHT - 2) as i32 })
}

/// The demo parameters count, for each column and row of the cells, the grids that are not
/// walls, and the rectangle spans the map inside its outer wall.
pub open spec fn demo_counts_spaces_of(d: DemoMapParams, c: Seq<Seq<MapObj>>) -> bool {
    &&& d.wf()
    &&& forall|x: int| 0 <= x < MAP_GRIDS_WIDTH
        ==> #[trigger] d.dots_sum_x@[x] == col_spaces(c, x, MAP_GRIDS_HEIGHT as int)
    &&& forall|y: int| 0 <= y < MAP_GRIDS_HEIGHT
        ==> #[trigger] d.dots_sum_y@[y] == row_spaces(c, y, MAP_GRIDS_WIDTH as int)
    &&& d.dots_rect_min == (Grid { x: 1, y: 1 })
    &&& d.dots_rect_max == (Grid { x: (MAP_GRIDS_WIDTH - 2) as i32, y: (MAP_GRIDS_HEIGHT - 2) as i32 })
}

/// Prepares the demo parameters of a new maze: counts the grids that are not walls in
/// every row and column (each of them holds a dot in a new maze), and sets the rectangle
/// of the dots to the map inside its outer wall.
pub fn make_data_for_demo(map: &MapInfo, demo: &mut DemoMapParams)
    requires
        map.wf(),
        old(demo).wf(),
    ensures
        demo_counts_spaces_of(*final(demo), map.cells()),
{
    let ghost c = map.cells();
    // the rows
    let mut y: i32 = 0;
    while y < MAP_GRIDS_HEIGHT
        invariant
            0 <= y <= MAP_GRIDS_HEIGHT,
            map.wf(),
            demo.wf(),
            c == map.cells(),
            forall|k: int| 0 <= k < y ==> #[trigger] demo.dots_sum_y@[k] == row_spaces(c, k, MAP_GRIDS_WIDTH as int),
        decreases MAP_GRIDS_HEIGHT - y,
    {
        let mut count: i32 = 0;
        let mut x: i32 = 0;
        while x < MAP_GRIDS_WIDTH
            invariant
                0 <= x <= MAP_GRIDS_WIDTH,
                0 <= y < MAP_GRIDS_HEIGHT,
                map.wf(),
                c == map.cells(),
                count == row_spaces(c, y as int, x as int),
                0 <= count <= x,
            decreases MAP_GRIDS_WIDTH - x,
        {
            if map.is_space(Grid { x, y }) {
                count = count + 1;
            }
            x = x + 1;
        }
        *demo.dots_sum_y_mut(y) = count;
        y = y + 1;
    }
    // the columns
    let mut x: i32 = 0;
    while x < MAP_GRIDS_WIDTH
        invariant
            0 <= x <= MAP_GRIDS_WIDTH,
            map.wf(),
            demo.wf(),
            c == map.cells(),
            forall|k: int| 0 <= k < MAP_GRIDS_HEIGHT ==> #[trigger] demo.dots_sum_y@[k] == row_spaces(c, k, MAP_GRIDS_WIDTH as int),
            forall|k: int| 0 <= k < x ==> #[trigger] demo.dots_sum_x@[k] == col_spaces(c, k, MAP_GRIDS_HEIGHT as int),
        decreases MAP_GRIDS_WIDTH - x,
    {
        let mut count: i32 = 0;
        let mut y: i32 = 0;
        while y < MAP_GRIDS_HEIGHT
            invariant
                0 <= y <= MAP_GRIDS_HEIGHT,
                0 <= x < MAP_GRIDS_WIDTH,
                map.wf(),
                c == map.cells(),
                count == col_spaces(c, x as int, y as int),
                0 <= count <= y,
            decreases MAP_GRIDS_HEIGHT - y,
        {
            if map.is_space(Grid { x, y }) {
                count = count + 1;
            }
            y = y + 1;
        }
        *demo.dots_sum_x_mut(x) = count;
        x = x + 1;
    }

    // the dots lie inside the outer wall
    *demo.dots_rect_min_mut() = Grid::new(1, 1);
    *demo.dots_rect_max_mut() = Grid::new(MAP_GRIDS_WIDTH - 2, MAP_GRIDS_HEIGHT - 2);
}

impl MapInfo {
    /// Prepares the map's own demo parameters (see `make_data_for_demo`).
    pub fn init_demo_params(&mut self)
        requires
            old(self).wf(),
        ensures
            final(self).wf(),
            final(self).array@ == old(self).array@,
            final(self).remaining_dots == old(self).remaining_dots,
            demo_counts_spaces(final(self)),
    {
        let mut demo = DemoMapParams::new();
        make_data_for_demo(self, &mut demo);
        self.demo = demo;
    }

    /// The number of dots on the map.
    pub fn count_dots(&self) -> (r: usize)
        requires
            self.wf(),
        ensures
            r == map_dots(self.cells(), MAP_GRIDS_WIDTH as int),
    {
        let ghost c = self.cells();
        let mut count: usize = 0;
        let mut x: i32 = 0;
        while x < MAP_GRIDS_WIDTH
            invariant
                0 <= x <= MAP_GRIDS_WIDTH,
                self.wf(),
                c == self.cells(),
                count == map_dots(c, x as int),
            decreases MAP_GRIDS_WIDTH - x,
        {
            let mut y: i32 = 0;
            let mut col: usize = 0;
            while y < MAP_GRIDS_HEIGHT
                invariant
                    0 <= y <= MAP_GRIDS_HEIGHT,
                    0 <= x < MAP_GRIDS_WIDTH,
                    self.wf(),
                    c == self.cells(),
                    col == col_dots(c, x as int, y as int),
                    col <= y,
                decreases MAP_GRIDS_HEIGHT - y,
            {
                proof {
                    self.lemma_cells();
                }
                if let MapObj::Dot(_) = self.get(Grid { x, y }) {
                    col = col + 1;
                }
                y = y + 1;
            }
            proof {
                lemma_map_dots_bound(c, x as int);
            }
            count = count + col;
            x = x + 1;
        }
        count
    }
}

/// Makes the maze of a new stage: builds a new maze, counts the stage up by one and
/// prepares the demo parameters.
pub fn make_new_data(map: &mut MapInfo, record: &mut Record)
    requires
        old(map).wf(),
        old(record).stage < i32::MAX,
    ensures
        final(map).wf(),
        is_new_maze(final(map)),
        no_dead_ends(final(map).cells()),
        demo_counts_spaces(final(map)),
        final(map).remaining_dots == old(map).remaining_dots,
        *final(record) == (Record { stage: (old(record).stage + 1) as i32, ..*old(record) }),
{
    make_new_maze(map);
    let ghost built = *map;
    record.stage = record.stage + 1;
    map.init_demo_params();
    proof {
        assert(map.cells() == built.cells());
        assert forall|g: Grid| in_map(g) implies crate::maze::new_maze_obj(g.x as int, g.y as int, #[trigger] map.obj(g)) by {
            assert(crate::maze::new_maze_obj(g.x as int, g.y as int, built.obj(g)));
        }
        let w = choose|w: Seq<Grid>| w.len() == crate::maze::max_openings() && #[trigger] crate::maze::openings_among(&built, w)
            && crate::maze::drawn_openings(&built, w);
        assert forall|g: Grid| in_map(g) implies #[trigger] map.obj(g) == built.obj(g) by {}
        assert(crate::maze::openings_among(map, w));
        assert(crate::maze::drawn_openings(map, w));
        lemma_new_maze_no_dead_ends(map);
    }
}

/// Builds a new maze and counts its dots. Showing the walls and the dots is left to the
/// caller, which may then record the id of each sprite in the map.
pub fn spawn_sprite_new_map(map: &mut MapInfo)
    requires
        old(map).wf(),
    ensures
        final(map).wf(),
        is_new_maze(final(map)),
        no_dead_ends(final(map).cells()),
        final(map).remaining_dots == map_dots(final(map).cells(), MAP_GRIDS_WIDTH as int),
        final(map).demo == old(map).demo,
{
    make_new_maze(map);
    proof {
        lemma_new_maze_no_dead_ends(map);
    }
    let ghost built = *map;
    let count = map.count_dots();
    map.remaining_dots = count;
    proof {
        assert(map.cells() == built.cells());
        assert forall|g: Grid| in_map(g) implies crate::maze::new_maze_obj(g.x as int, g.y as int, #[trigger] map.obj(g)) by {
            assert(crate::maze::new_maze_obj(g.x as int, g.y as int, built.obj(g)));
        }
        let w = choose|w: Seq<Grid>| w.len() == crate::maze::max_openings() && #[trigger] crate::maze::openings_among(&built, w)
            && crate::maze::drawn_openings(&built, w);
        assert forall|g: Grid| in_map(g) implies #[trigger] map.obj(g) == built.obj(g) by {}
        assert(crate::maze::openings_among(map, w));
        assert(crate::maze::drawn_openings(map, w));
    }
}


/// The sprite that shows an object, if it is a wall or a dot that has one.
pub open spec fn obj_sprite(o: MapObj) -> Seq<u64> {
    match o {
        MapObj::Wall(Some(e)) => seq![e],
        MapObj::Dot(Some(e)) => seq![e],
        _ => Seq::empty(),
    }
}

/// The sprites of the first `n` objects of a column, in their order.
pub open spec fn col_sprites(col: Seq<MapObj>, n: int) -> Seq<u64>
    decreases n,
{
    if n <= 0 {
        Seq::empty()
    } else {
        col_sprites(col, n - 1) + obj_sprite(col[n - 1])
    }
}

/// The sprites of the first `n` columns, column by column.
pub open spec fn map_sprites(c: Seq<Seq<MapObj>>, n: int) -> Seq<u64>
    decreases n,
{
    if n <= 0 {
        Seq::empty()
    } else {
        map_sprites(c, n - 1) + col_sprites(c[n - 1], MAP_GRIDS_HEIGHT as int)
    }
}

/// The sprites of the walls and the dots of the map, column by column, for the caller to
/// take off the screen.
pub fn despawn_sprite_map(map: &MapInfo) -> (r: Vec<u64>)
    requires
        map.wf(),
    ensures
        r@ == map_sprites(map.cells(), MAP_GRIDS_WIDTH as int),
{
    let ghost c = map.cells();
    proof {
        map.lemma_cells();
    }
    let mut r: Vec<u64> = Vec::new();
    let mut x: usize = 0;
    while x < map.array.len()
        invariant
            0 <= x <= MAP_GRIDS_WIDTH,
            map.wf(),
            c == map.cells(),
            cells_wf(c),
            r@ == map_sprites(c, x as int),
        decreases MAP_GRIDS_WIDTH - x,
    {
        let col = &map.array[x];
        assert(col@ == c[x as int]);
        let mut y: usize = 0;
        let ghost start = r@;
        while y < col.len()
            invariant
                0 <= x < MAP_GRIDS_WIDTH,
                0 <= y <= MAP_GRIDS_HEIGHT,
                col@.len() == MAP_GRIDS_HEIGHT,
                col@ == c[x as int],
                r@ == start + col_sprites(col@, y as int),
            decreases MAP_GRIDS_HEIGHT - y,
        {
            let ghost before = r@;
            match col[y] {
                MapObj::Wall(Some(e)) => {
                    r.push(e);
                },
                MapObj::Dot(Some(e)) => {
                    r.push(e);
                },
                _ => {},
            }
            assert(r@ =~= start + col_sprites(col@, y + 1));
            y = y + 1;
        }
        assert(r@ =~= map_sprites(c, x + 1));
        x = x + 1;
    }
    r
}


/// Whether an object is a wall or a dot, which a sprite shows.
pub open spec fn is_object(o: MapObj) -> bool {
    o is Wall || o is Dot
}

/// How many of the first `n` objects of a column are walls or dots.
pub open spec fn col_objects(col: Seq<MapObj>, n: int) -> int
    decreases n,
{
    if n <= 0 {
        0
    } else {
        col_objects(col, n - 1) + if is_object(col[n - 1]) { 1int } else { 0int }
    }
}

/// How many walls and dots the columns `0 .. n` hold.
pub open spec fn map_objects(c: Seq<Seq<MapObj>>, n: int) -> int
    decreases n,
{
    if n <= 0 {
        0
    } else {
        map_objects(c, n - 1) + col_objects(c[n - 1], MAP_GRIDS_HEIGHT as int)
    }
}

/// The place of `(x, y)` among the walls and dots of the map, column by column.
pub open spec fn scan_index(c: Seq<Seq<MapObj>>, x: int, y: int) -> int {
    map_objects(c, x) + col_objects(c[x], y)
}

/// The object `o` carrying the sprite id `e`, if it is a wall or a dot.
pub open spec fn with_id(o: MapObj, e: u64) -> MapObj {
    match o {
        MapObj::Wall(_) => MapObj::Wall(Some(e)),
        MapObj::Dot(_) => MapObj::Dot(Some(e)),
        MapObj::Space => MapObj::Space,
    }
}

proof fn lemma_col_objects_mono(col: Seq<MapObj>, a: int, b: int)
    requires
        a <= b,
    ensures
        col_objects(col, a) <= col_objects(col, b),
    decreases b - a,
{
    if a < b {
        lemma_col_objects_mono(col, a, b - 1);
    }
}

proof fn lemma_col_objects_nonneg(col: Seq<MapObj>, n: int)
    ensures
        0 <= col_objects(col, n),
    decreases n,
{
    if n > 0 {
        lemma_col_objects_nonneg(col, n - 1);
    }
}

proof fn lemma_map_objects_mono(c: Seq<Seq<MapObj>>, a: int, b: int)
    requires
        a <= b,
    ensures
        map_objects(c, a) <= map_objects(c, b),
    decreases b - a,
{
    if a < b {
        lemma_map_objects_mono(c, a, b - 1);
        lemma_col_objects_nonneg(c[b - 1], MAP_GRIDS_HEIGHT as int);
    }
}

proof fn lemma_col_dots_same(c1: Seq<Seq<MapObj>>, c2: Seq<Seq<MapObj>>, x: int, n: int)
    requires
        forall|y: int| 0 <= y < n ==> is_dot_obj(#[trigger] c1[x][y]) == is_dot_obj(c2[x][y]),
    ensures
        col_dots(c1, x, n) == col_dots(c2, x, n),
    decreases n,
{
    if n > 0 {
        lemma_col_dots_same(c1, c2, x, n - 1);
    }
}

proof fn lemma_map_dots_same(c1: Seq<Seq<MapObj>>, c2: Seq<Seq<MapObj>>, n: int)
    requires
        forall|x: int, y: int| 0 <= x < n && 0 <= y < MAP_GRIDS_HEIGHT
            ==> is_dot_obj(#[trigger] c1[x][y]) == is_dot_obj(c2[x][y]),
    ensures
        map_dots(c1, n) == map_dots(c2, n),
    decreases n,
{
    if n > 0 {
        lemma_map_dots_same(c1, c2, n - 1);
        lemma_col_dots_same(c1, c2, n - 1, MAP_GRIDS_HEIGHT as int);
    }
}

/// How many walls and dots the map holds: one sprite for each.
pub fn count_objects(map: &MapInfo) -> (r: usize)
    requires
        map.wf(),
    ensures
        r == map_objects(map.cells(), MAP_GRIDS_WIDTH as int),
{
    let ghost c = map.cells();
    proof {
        map.lemma_cells();
    }
    let mut count: usize = 0;
    let mut x: usize = 0;
    while x < map.array.len()
        invariant
            0 <= x <= MAP_GRIDS_WIDTH,
            map.wf(),
            c == map.cells(),
            cells_wf(c),
            count == map_objects(c, x as int),
            count <= x * MAP_GRIDS_HEIGHT,
        decreases MAP_GRIDS_WIDTH - x,
    {
        let col = &map.array[x];
        assert(col@ == c[x as int]);
        let mut y: usize = 0;
        while y < col.len()
            invariant
                0 <= x < MAP_GRIDS_WIDTH,
                0 <= y <= MAP_GRIDS_HEIGHT,
                col@.len() == MAP_GRIDS_HEIGHT,
                col@ == c[x as int],
                count == map_objects(c, x as int) + col_objects(col@, y as int),
                count <= x * MAP_GRIDS_HEIGHT + y,
            decreases MAP_GRIDS_HEIGHT - y,
        {
            match col[y] {
                MapObj::Space => {},
                _ => {
                    count = count + 1;
                },
            }
            y = y + 1;
        }
        assert(count <= (x + 1) * MAP_GRIDS_HEIGHT) by (nonlinear_arith)
            requires count <= x * MAP_GRIDS_HEIGHT + MAP_GRIDS_HEIGHT;
        x = x + 1;
    }
    count
}

/// Records the ids of the sprites that show the walls and the dots: scanning the map column
/// by column, the `k`-th wall or dot takes `ids[k]`. Spaces stay as they are, and so do the
/// number of dots and the demo parameters.
pub fn record_sprite_ids(map: &mut MapInfo, ids: &Vec<u64>)
    requires
        old(map).wf(),
        ids@.len() == map_objects(old(map).cells(), MAP_GRIDS_WIDTH as int),
    ensures
        final(map).wf(),
        final(map).remaining_dots == old(map).remaining_dots,
        final(map).demo == old(map).demo,
        forall|g: Grid| in_map(g) ==> #[trigger] final(map).obj(g)
            == with_id(old(map).obj(g), ids@[scan_index(old(map).cells(), g.x as int, g.y as int)]),
        map_dots(final(map).cells(), MAP_GRIDS_WIDTH as int) == map_dots(old(map).cells(), MAP_GRIDS_WIDTH as int),
{
    let ghost c0 = map.cells();
    proof {
        map.lemma_cells();
    }
    let mut new_array: Vec<Vec<MapObj>> = Vec::new();
    let mut k: usize = 0;
    let mut x: usize = 0;
    while x < map.array.len()
        invariant
            0 <= x <= MAP_GRIDS_WIDTH,
            map.wf(),
            c0 == map.cells(),
            cells_wf(c0),
            ids@.len() == map_objects(c0, MAP_GRIDS_WIDTH as int),
            k == map_objects(c0, x as int),
            new_array@.len() == x,
            forall|i: int| 0 <= i < x ==> (#[trigger] new_array@[i])@.len() == MAP_GRIDS_HEIGHT,
            forall|i: int, j: int| 0 <= i < x && 0 <= j < MAP_GRIDS_HEIGHT ==> #[trigger] new_array@[i]@[j]
                == with_id(c0[i][j], ids@[scan_index(c0, i, j)]),
        decreases MAP_GRIDS_WIDTH - x,
    {
        proof {
            lemma_map_objects_mono(c0, x + 1, MAP_GRIDS_WIDTH as int);
        }
        let col = &map.array[x];
        assert(col@ == c0[x as int]);
        let mut new_col: Vec<MapObj> = Vec::new();
        let mut y: usize = 0;
        while y < col.len()
            invariant
                0 <= x < MAP_GRIDS_WIDTH,
                0 <= y <= MAP_GRIDS_HEIGHT,
                col@.len() == MAP_GRIDS_HEIGHT,
                col@ == c0[x as int],
                ids@.len() == map_objects(c0, MAP_GRIDS_WIDTH as int),
                map_objects(c0, x + 1) <= map_objects(c0, MAP_GRIDS_WIDTH as int),
                k == map_objects(c0, x as int) + col_objects(col@, y as int),
                new_col@.len() == y,
                forall|j: int| 0 <= j < y ==> #[trigger] new_col@[j]
                    == with_id(c0[x as int][j], ids@[scan_index(c0, x as int, j)]),
            decreases MAP_GRIDS_HEIGHT - y,
        {
            proof {
                lemma_col_objects_mono(col@, y + 1, MAP_GRIDS_HEIGHT as int);
                assert(map_objects(c0, x + 1) == map_objects(c0, x as int) + col_objects(c0[x as int], MAP_GRIDS_HEIGHT as int));
                assert(col_objects(col@, y + 1) == col_objects(col@, y as int) + if is_object(col@[y as int]) { 1int } else { 0int });
            }
            let o = col[y];
            assert(is_object(o) ==> k + 1 <= map_objects(c0, x + 1));
            assert(is_object(o) ==> k < ids.len());
            match o {
                MapObj::Wall(_) => {
                    new_col.push(MapObj::Wall(Some(ids[k])));
                    k = k + 1;
                },
                MapObj::Dot(_) => {
                    new_col.push(MapObj::Dot(Some(ids[k])));
                    k = k + 1;
                },
                MapObj::Space => {
                    new_col.push(MapObj::Space);
                },
            }
            y = y + 1;
        }
        new_array.push(new_col);
        x = x + 1;
    }
    map.array = new_array;
    proof {
        map.lemma_cells();
        let c1 = map.cells();
        assert forall|i: int, j: int| 0 <= i < MAP_GRIDS_WIDTH && 0 <= j < MAP_GRIDS_HEIGHT
            implies is_dot_obj(#[trigger] c1[i][j]) == is_dot_obj(c0[i][j]) by {
            assert(c1[i][j] == new_array@[i]@[j]);
        }
        lemma_map_dots_same(c1, c0, MAP_GRIDS_WIDTH as int);
    }
}

/// Every dot of a new maze lies inside its outer wall: the outer ring is a wall that
/// neither the cross of passages nor the random openings reach.
pub proof fn lemma_new_maze_dots_inside(m: &MapInfo)
    requires
        m.wf(),
        is_new_maze(m),
    ensures
        forall|g: Grid| in_map(g) && is_dot_obj(#[trigger] m.obj(g))
            ==> 1 <= g.x <= MAP_GRIDS_WIDTH - 2 && 1 <= g.y <= MAP_GRIDS_HEIGHT - 2,
{
    assert forall|g: Grid| in_map(g) && is_dot_obj(#[trigger] m.obj(g))
        implies 1 <= g.x <= MAP_GRIDS_WIDTH - 2 && 1 <= g.y <= MAP_GRIDS_HEIGHT - 2 by {
        assert(crate::maze::new_maze_obj(g.x as int, g.y as int, m.obj(g)));
    }
}

} // verus!
