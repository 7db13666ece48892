use tigtag::grid::{Grid, News, MAP_GRIDS_WIDTH, MAP_GRIDS_HEIGHT};
use tigtag::map::{MapInfo, MapObj, get_map_obj_ulrd};
use tigtag::record::Record;
use tigtag::stage_map::{make_new_data, spawn_sprite_new_map, make_data_for_demo, despawn_sprite_map, count_objects, record_sprite_ids};
use tigtag::demo_params::DemoMapParams;

fn is_wall(o: MapObj) -> bool {
    matches!(o, MapObj::Wall(_))
}

fn new_maze() -> MapInfo {
    let mut map = MapInfo::new();
    let mut record = Record::new();
    make_new_data(&mut map, &mut record);
    map
}

#[test]
fn new_map_is_all_space() {
    let map = MapInfo::new();
    assert_eq!(map.array.len(), MAP_GRIDS_WIDTH as usize);
    for x in 0..MAP_GRIDS_WIDTH {
        for y in 0..MAP_GRIDS_HEIGHT {
            assert_eq!(map.get(Grid::new(x, y)), MapObj::Space);
        }
    }
    assert_eq!(map.remaining_dots, 0);
}

#[test]
fn make_new_data_counts_the_stage_up() {
    let mut map = MapInfo::new();
    let mut record = Record::new();
    make_new_data(&mut map, &mut record);
    assert_eq!(record.stage, 2);
    make_new_data(&mut map, &mut record);
    assert_eq!(record.stage, 3);
}

#[test]
fn new_maze_has_an_outer_wall() {
    let map = new_maze();
    for x in 0..MAP_GRIDS_WIDTH {
        assert!(is_wall(map.get(Grid::new(x, 0))));
        assert!(is_wall(map.get(Grid::new(x, MAP_GRIDS_HEIGHT - 1))));
    }
    for y in 0..MAP_GRIDS_HEIGHT {
        assert!(is_wall(map.get(Grid::new(0, y))));
        assert!(is_wall(map.get(Grid::new(MAP_GRIDS_WIDTH - 1, y))));
    }
}

#[test]
fn new_maze_has_the_cross_of_passages() {
    let map = new_maze();
    // the cross of passages holds dots
    assert_eq!(map.get(Grid::new(1, 12)), MapObj::Dot(None));
    assert_eq!(map.get(Grid::new(11, 12)), MapObj::Dot(None));
    assert_eq!(map.get(Grid::new(19, 1)), MapObj::Dot(None));
    assert_eq!(map.get(Grid::new(20, 23)), MapObj::Dot(None));
    // the first ring of passages
    assert_eq!(map.get(Grid::new(1, 1)), MapObj::Dot(None));
    assert_eq!(map.get(Grid::new(38, 23)), MapObj::Dot(None));
}

#[test]
fn new_maze_has_no_dead_end() {
    for _ in 0..5 {
        let map = new_maze();
        for x in 0..MAP_GRIDS_WIDTH {
            for y in 0..MAP_GRIDS_HEIGHT {
                let g = Grid::new(x, y);
                if map.is_space(g) {
                    assert!(map.get_side_spaces_list(g).len() >= 2, "dead end at {:?}", g);
                }
            }
        }
    }
}

#[test]
fn new_maze_holds_only_dots_and_walls() {
    let map = new_maze();
    for x in 0..MAP_GRIDS_WIDTH {
        for y in 0..MAP_GRIDS_HEIGHT {
            let o = map.get(Grid::new(x, y));
            assert!(o == MapObj::Dot(None) || o == MapObj::Wall(None));
        }
    }
}

#[test]
fn new_maze_demo_counts_match_the_spaces() {
    let map = new_maze();
    for x in 0..MAP_GRIDS_WIDTH {
        let n = (0..MAP_GRIDS_HEIGHT).filter(|&y| map.is_space(Grid::new(x, y))).count() as i32;
        assert_eq!(map.demo.dots_sum_x(x), n);
    }
    for y in 0..MAP_GRIDS_HEIGHT {
        let n = (0..MAP_GRIDS_WIDTH).filter(|&x| map.is_space(Grid::new(x, y))).count() as i32;
        assert_eq!(map.demo.dots_sum_y(y), n);
    }
    assert_eq!(map.demo.dots_rect_min(), Grid::new(1, 1));
    assert_eq!(map.demo.dots_rect_max(), Grid::new(MAP_GRIDS_WIDTH - 2, MAP_GRIDS_HEIGHT - 2));
}

#[test]
fn make_data_for_demo_counts_spaces_of_a_hand_made_map() {
    let mut map = MapInfo::new();
    map.set(Grid::new(3, 4), MapObj::Wall(None));
    map.set(Grid::new(3, 5), MapObj::Wall(None));
    let mut demo = DemoMapParams::new();
    make_data_for_demo(&map, &mut demo);
    assert_eq!(demo.dots_sum_x(3), MAP_GRIDS_HEIGHT - 2);
    assert_eq!(demo.dots_sum_x(4), MAP_GRIDS_HEIGHT);
    assert_eq!(demo.dots_sum_y(4), MAP_GRIDS_WIDTH - 1);
    assert_eq!(demo.dots_sum_y(0), MAP_GRIDS_WIDTH);
    assert_eq!(demo.dots_rect_min(), Grid::new(1, 1));
    assert_eq!(demo.dots_rect_max(), Grid::new(38, 23));
}

#[test]
fn spawn_sprite_new_map_counts_the_dots() {
    let mut map = MapInfo::new();
    spawn_sprite_new_map(&mut map);
    let mut n = 0usize;
    for x in 0..MAP_GRIDS_WIDTH {
        for y in 0..MAP_GRIDS_HEIGHT {
            if let MapObj::Dot(_) = map.get(Grid::new(x, y)) {
                n += 1;
            }
        }
    }
    assert_eq!(map.remaining_dots, n);
    assert_eq!(map.count_dots(), n);
    assert!(n > 0);
}

#[test]
fn get_map_obj_ulrd_reads_the_four_neighbours() {
    let mut map = MapInfo::new();
    map.set(Grid::new(5, 4), MapObj::Wall(Some(1)));
    map.set(Grid::new(4, 5), MapObj::Dot(Some(2)));
    map.set(Grid::new(6, 5), MapObj::Dot(None));
    let (up, left, right, down) = get_map_obj_ulrd((5, 5), &map);
    assert_eq!(up, MapObj::Wall(Some(1)));
    assert_eq!(left, MapObj::Dot(Some(2)));
    assert_eq!(right, MapObj::Dot(None));
    assert_eq!(down, MapObj::Space);
}

#[test]
fn side_spaces_come_north_east_west_south() {
    let mut map = MapInfo::new();
    map.set(Grid::new(5, 4), MapObj::Wall(None));
    assert_eq!(map.get_side_spaces_list(Grid::new(5, 5)), vec![News::East, News::West, News::South]);
    // the corner of the map has two open sides
    assert_eq!(map.get_side_spaces_list(Grid::new(0, 0)), vec![News::East, News::South]);
}

#[test]
fn despawn_sprite_map_lists_the_sprites_column_by_column() {
    let mut map = MapInfo::new();
    map.set(Grid::new(2, 7), MapObj::Dot(Some(20)));
    map.set(Grid::new(2, 3), MapObj::Wall(Some(10)));
    map.set(Grid::new(0, 9), MapObj::Dot(Some(5)));
    map.set(Grid::new(1, 1), MapObj::Dot(None));
    assert_eq!(despawn_sprite_map(&map), vec![5, 10, 20]);
}

#[test]
fn opt_entity_sees_only_dots_with_a_sprite() {
    let mut map = MapInfo::new();
    map.set(Grid::new(2, 2), MapObj::Dot(Some(3)));
    map.set(Grid::new(2, 3), MapObj::Dot(None));
    map.set(Grid::new(2, 4), MapObj::Wall(Some(4)));
    assert_eq!(map.opt_entity(Grid::new(2, 2)), Some(3));
    assert_eq!(map.opt_entity(Grid::new(2, 3)), None);
    assert_eq!(map.opt_entity(Grid::new(2, 4)), None);
    assert_eq!(map.opt_entity(Grid::new(-1, 4)), None);
    assert!(!map.is_space(Grid::new(2, 4)));
    assert!(!map.is_space(Grid::new(40, 4)));
    assert!(map.is_wall(Grid::new(2, 4)));
}

#[test]
fn new_maze_dots_lie_inside_the_outer_wall() {
    let map = new_maze();
    for x in 0..MAP_GRIDS_WIDTH {
        for y in 0..MAP_GRIDS_HEIGHT {
            if let MapObj::Dot(_) = map.get(Grid::new(x, y)) {
                assert!(1 <= x && x <= MAP_GRIDS_WIDTH - 2 && 1 <= y && y <= MAP_GRIDS_HEIGHT - 2);
            }
        }
    }
}

#[test]
fn record_sprite_ids_numbers_walls_and_dots_column_by_column() {
    let mut map = MapInfo::new();
    map.set(Grid::new(0, 3), MapObj::Wall(None));
    map.set(Grid::new(0, 7), MapObj::Dot(None));
    map.set(Grid::new(2, 1), MapObj::Dot(None));
    map.remaining_dots = 2;
    assert_eq!(count_objects(&map), 3);
    record_sprite_ids(&mut map, &vec![10, 20, 30]);
    assert_eq!(map.get(Grid::new(0, 3)), MapObj::Wall(Some(10)));
    assert_eq!(map.get(Grid::new(0, 7)), MapObj::Dot(Some(20)));
    assert_eq!(map.get(Grid::new(2, 1)), MapObj::Dot(Some(30)));
    assert_eq!(map.get(Grid::new(1, 1)), MapObj::Space);
    assert_eq!(map.remaining_dots, 2);
}

#[test]
fn record_sprite_ids_on_a_new_maze_gives_every_object_an_id() {
    let mut map = MapInfo::new();
    spawn_sprite_new_map(&mut map);
    let n = count_objects(&map);
    let ids: Vec<u64> = (100..100 + n as u64).collect();
    record_sprite_ids(&mut map, &ids);
    let mut seen = Vec::new();
    for x in 0..40 {
        for y in 0..25 {
            match map.get(Grid::new(x, y)) {
                MapObj::Wall(Some(e)) | MapObj::Dot(Some(e)) => seen.push(e),
                MapObj::Space => {}
                other => panic!("no id at ({}, {}): {:?}", x, y, other),
            }
        }
    }
    assert_eq!(seen, ids);
    assert_eq!(map.count_dots(), map.remaining_dots);
}
