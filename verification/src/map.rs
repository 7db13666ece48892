use vstd::prelude::*;
use crate::grid::{
    Grid, News, MAP_GRIDS_WIDTH, MAP_GRIDS_HEIGHT, in_map, spec_step, UP, LEFT, RIGHT, DOWN,
};
use crate::demo_params::DemoMapParams;

verus! {

/// What occupies one grid of the map. A dot and a wall may carry the id of the sprite
/// that shows it.
#[derive(Clone, Copy, Debug, PartialEq, Eq, Structural)]
pub enum MapObj {
    Space,
    Dot(Option<u64>),
    Wall(Option<u64>),
}

/// The maze: `array[x][y]` is the object at column `x`, row `y`.
pub struct MapInfo {
    pub array: Vec<Vec<MapObj>>,
    pub remaining_dots: usize,
    pub demo: DemoMapParams,
}

/// Whether an object is a wall.
pub open spec fn is_wall_obj(o: MapObj) -> bool {
    o is Wall
}

/// Whether an object is a dot.
pub open spec fn is_dot_obj(o: MapObj) -> bool {
    o is Dot
}

/// The sprite id that an object carries, if it is a dot.
pub open spec fn dot_entity(o: MapObj) -> Option<u64> {
    match o {
        MapObj::Dot(e) => e,
        _ => None,
    }
}

/// The object at `g` of the cells `c`.
pub open spec fn cell(c: Seq<Seq<MapObj>>, g: Grid) -> MapObj {
    c[g.x as int][g.y as int]
}

/// Whether `g` is on the map and not a wall.
pub open spec fn cell_space(c: Seq<Seq<MapObj>>, g: Grid) -> bool {
    in_map(g) && !is_wall_obj(cell(c, g))
}

/// The directions from `g` that lead to a grid that is not a wall, in the order
/// North, East, West, South.
pub open spec fn side_spaces(c: Seq<Seq<MapObj>>, g: Grid) -> Seq<News> {
    (if cell_space(c, spec_step(g, News::North)) { seq![News::North] } else { seq![] })
    + (if cell_space(c, spec_step(g, News::East)) { seq![News::East] } else { seq![] })
    + (if cell_space(c, spec_step(g, News::West)) { seq![News::West] } else { seq![] })
    + (if cell_space(c, spec_step(g, News::South)) { seq![News::South] } else { seq![] })
}

/// Cells with one column per map column and one row per map row.
pub open spec fn cells_wf(c: Seq<Seq<MapObj>>) -> bool {
    &&& c.len() == MAP_GRIDS_WIDTH
    &&& forall|x: int| 0 <= x < MAP_GRIDS_WIDTH ==> #[trigger] c[x].len() == MAP_GRIDS_HEIGHT
}

impl Default for MapInfo {
    /// An empty map: every grid is a space and no dot is counted.
    fn default() -> (m: MapInfo)
        ensures
            m.wf(),
            m.remaining_dots == 0,
            forall|g: Grid| in_map(g) ==> #[trigger] m.obj(g) == MapObj::Space,
    {
        MapInfo::new()
    }
}

impl MapInfo {
    /// The map's cells as sequences.
    pub open spec fn cells(&self) -> Seq<Seq<MapObj>> {
        self.array@.map_values(|col: Vec<MapObj>| col@)
    }

    /// The map has one column per map column and one row per map row, and its demo
    /// parameters are sized alike.
    pub open spec fn wf(&self) -> bool {
        &&& self.array@.len() == MAP_GRIDS_WIDTH
        &&& forall|x: int| 0 <= x < MAP_GRIDS_WIDTH ==> #[trigger] self.array@[x]@.len() == MAP_GRIDS_HEIGHT
        &&& self.demo.wf()
    }

    pub open spec fn obj(&self, g: Grid) -> MapObj {
        cell(self.cells(), g)
    }

    pub open spec fn space_at(&self, g: Grid) -> bool {
        cell_space(self.cells(), g)
    }

    pub proof fn lemma_cells(&self)
        requires
            self.wf(),
        ensures
            cells_wf(self.cells()),
            forall|x: int, y: int|
                0 <= x < MAP_GRIDS_WIDTH && 0 <= y < MAP_GRIDS_HEIGHT
                    ==> #[trigger] self.cells()[x][y] == self.array@[x]@[y],
    {
    }

    /// An empty map: every grid is a space and no dot is counted.
    pub fn new() -> (m: MapInfo)
        ensures
            m.wf(),
            m.remaining_dots == 0,
            forall|g: Grid| in_map(g) ==> #[trigger] m.obj(g) == MapObj::Space,
    {
        let mut array: Vec<Vec<MapObj>> = Vec::new();
        let mut x: i32 = 0;
        while x < MAP_GRIDS_WIDTH
            invariant
                0 <= x <= MAP_GRIDS_WIDTH,
                array@.len() == x,
                forall|i: int| 0 <= i < x ==> #[trigger] array@[i]@.len() == MAP_GRIDS_HEIGHT,
                forall|i: int, j: int|
                    0 <= i < x && 0 <= j < MAP_GRIDS_HEIGHT ==> #[trigger] array@[i]@[j] == MapObj::Space,
            decreases MAP_GRIDS_WIDTH - x,
        {
            let mut col: Vec<MapObj> = Vec::new();
            let mut y: i32 = 0;
            while y < MAP_GRIDS_HEIGHT
                invariant
                    0 <= y <= MAP_GRIDS_HEIGHT,
                    col@.len() == y,
                    forall|j: int| 0 <= j < y ==> #[trigger] col@[j] == MapObj::Space,
                decreases MAP_GRIDS_HEIGHT - y,
            {
                col.push(MapObj::Space);
                y = y + 1;
            }
            array.push(col);
            x = x + 1;
        }
        let m = MapInfo { array, remaining_dots: 0, demo: DemoMapParams::new() };
        proof {
            m.lemma_cells();
        }
        m
    }

    /// The object at `g`.
    pub fn get(&self, g: Grid) -> (r: MapObj)
        requires
            self.wf(),
            in_map(g),
        ensures
            r == self.obj(g),
    {
        proof {
            self.lemma_cells();
        }
        self.array[g.x as usize][g.y as usize]
    }

    /// Whether `g` is on the map and not a wall.
    pub fn is_space(&self, g: Grid) -> (r: bool)
        requires
            self.wf(),
        ensures
            r == self.space_at(g),
    {
        if 0 <= g.x && g.x < MAP_GRIDS_WIDTH && 0 <= g.y && g.y < MAP_GRIDS_HEIGHT {
            match self.get(g) {
                MapObj::Wall(_) => false,
                _ => true,
            }
        } else {
            false
        }
    }

    /// Whether `g` is a wall of the map.
    pub fn is_wall(&self, g: Grid) -> (r: bool)
        requires
            self.wf(),
            in_map(g),
        ensures
            r == is_wall_obj(self.obj(g)),
    {
        match self.get(g) {
            MapObj::Wall(_) => true,
            _ => false,
        }
    }

    /// The sprite id of the dot at `g`, if there is a dot that has one.
    pub fn opt_entity(&self, g: Grid) -> (r: Option<u64>)
        requires
            self.wf(),
        ensures
            r == (if in_map(g) { dot_entity(self.obj(g)) } else { None }),
    {
        if 0 <= g.x && g.x < MAP_GRIDS_WIDTH && 0 <= g.y && g.y < MAP_GRIDS_HEIGHT {
            match self.get(g) {
                MapObj::Dot(e) => e,
                _ => None,
            }
        } else {
            None
        }
    }

    /// Puts `o` at `g`.
    pub fn set(&mut self, g: Grid, o: MapObj)
        requires
            old(self).wf(),
            in_map(g),
        ensures
            final(self).wf(),
            final(self).remaining_dots == old(self).remaining_dots,
            final(self).demo == old(self).demo,
            final(self).obj(g) == o,
            forall|h: Grid| in_map(h) && h != g ==> #[trigger] final(self).obj(h) == old(self).obj(h),
    {
        let ghost old_cells = self.cells();
        proof {
            self.lemma_cells();
        }
        self.array[g.x as usize].set(g.y as usize, o);
        proof {
            self.lemma_cells();
            assert forall|h: Grid| in_map(h) && h != g implies #[trigger] self.obj(h) == cell(old_cells, h) by {
                if h.x != g.x {
                    assert(self.array@[h.x as int] == old(self).array@[h.x as int]);
                }
            }
        }
    }

    /// The directions from `center` that lead to a grid that is not a wall, in the order
    /// North, East, West, South.
    pub fn get_side_spaces_list(&self, center: Grid) -> (r: Vec<News>)
        requires
            self.wf(),
            in_map(center),
        ensures
            r@ == side_spaces(self.cells(), center),
    {
        let mut r: Vec<News> = Vec::new();
        if self.is_space(center.step(News::North)) {
            r.push(News::North);
        }
        if self.is_space(center.step(News::East)) {
            r.push(News::East);
        }
        if self.is_space(center.step(News::West)) {
            r.push(News::West);
        }
        if self.is_space(center.step(News::South)) {
            r.push(News::South);
        }
        assert(r@ =~= side_spaces(self.cells(), center));
        r
    }
}

/// The objects above, left of, right of and below `(x, y)`, in that order.
pub fn get_map_obj_ulrd(xy: (usize, usize), map: &MapInfo) -> (r: (MapObj, MapObj, MapObj, MapObj))
    requires
        map.wf(),
        1 <= xy.0 < MAP_GRIDS_WIDTH - 1,
        1 <= xy.1 < MAP_GRIDS_HEIGHT - 1,
    ensures
        r.0 == map.obj(Grid { x: xy.0 as i32, y: (xy.1 - 1) as i32 }),
        r.1 == map.obj(Grid { x: (xy.0 - 1) as i32, y: xy.1 as i32 }),
        r.2 == map.obj(Grid { x: (xy.0 + 1) as i32, y: xy.1 as i32 }),
        r.3 == map.obj(Grid { x: xy.0 as i32, y: (xy.1 + 1) as i32 }),
{
    let (x, y) = xy;
    let x: i32 = x as i32;
    let y: i32 = y as i32;
    let up = map.get(Grid { x: x + UP.0, y: y + UP.1 });
    let left = map.get(Grid { x: x + LEFT.0, y: y + LEFT.1 });
    let right = map.get(Grid { x: x + RIGHT.0, y: y + RIGHT.1 });
    let down = map.get(Grid { x: x + DOWN.0, y: y + DOWN.1 });
    (up, left, right, down)
}

} // verus!
