use tigtag::grid::{Grid, News};
use tigtag::map::{MapInfo, MapObj};
use tigtag::record::Record;
use tigtag::stage_map::make_new_data;
use tigtag::demo_params::{DemoMapParams, update_data_for_demo};
use tigtag::auto_drive::check_byway_risk;
use tigtag::demo_choice::{
    sides_and_far_chasers, heuristic_dots_rect, choose_side, rate_sides, choice_way, WayChoice,
    which_way_player_goes,
};
use tigtag::player::Player;
use tigtag::chasers::{Chaser, AnimeSpriteColorTag};

fn demo_with_rect(min: Grid, max: Grid) -> DemoMapParams {
    let mut demo = DemoMapParams::new();
    *demo.dots_rect_min_mut() = min;
    *demo.dots_rect_max_mut() = max;
    demo
}

fn chaser(next: Grid, direction: News) -> Chaser {
    Chaser { grid: next, next_grid: next, direction, is_stop: false, color: AnimeSpriteColorTag::Red }
}

#[test]
fn is_inside_rect_includes_the_edges() {
    let demo = demo_with_rect(Grid::new(2, 3), Grid::new(10, 8));
    assert!(demo.is_inside_rect(Grid::new(2, 3)));
    assert!(demo.is_inside_rect(Grid::new(10, 8)));
    assert!(demo.is_inside_rect(Grid::new(5, 5)));
    assert!(!demo.is_inside_rect(Grid::new(1, 5)));
    assert!(!demo.is_inside_rect(Grid::new(5, 9)));
}

#[test]
fn how_far_to_rect_adds_both_distances() {
    let demo = demo_with_rect(Grid::new(2, 3), Grid::new(10, 8));
    assert_eq!(demo.how_far_to_rect(Grid::new(5, 5)), 0);
    assert_eq!(demo.how_far_to_rect(Grid::new(0, 5)), 2);
    assert_eq!(demo.how_far_to_rect(Grid::new(13, 1)), 5);
    assert_eq!(demo.how_far_to_rect(Grid::new(12, 12)), 6);
}

#[test]
fn dots_sum_handles_write_through() {
    let mut demo = DemoMapParams::new();
    *demo.dots_sum_x_mut(7) = 3;
    *demo.dots_sum_y_mut(2) = 4;
    assert_eq!(demo.dots_sum_x(7), 3);
    assert_eq!(demo.dots_sum_x(6), 0);
    assert_eq!(demo.dots_sum_y(2), 4);
    *demo.dots_rect_min_mut() = Grid::new(4, 5);
    assert_eq!(demo.dots_rect_min(), Grid::new(4, 5));
    *demo.dots_rect_max_mut() = Grid::new(6, 7);
    assert_eq!(demo.dots_rect_max(), Grid::new(6, 7));
}

#[test]
fn update_data_for_demo_shrinks_the_rectangle() {
    let mut demo = DemoMapParams::new();
    *demo.dots_sum_x_mut(3) = 1;
    *demo.dots_sum_x_mut(7) = 2;
    *demo.dots_sum_y_mut(4) = 1;
    *demo.dots_sum_y_mut(9) = 2;
    update_data_for_demo(Grid::new(3, 4), &mut demo);
    assert_eq!(demo.dots_sum_x(3), 0);
    assert_eq!(demo.dots_sum_y(4), 0);
    assert_eq!(demo.dots_rect_min(), Grid::new(7, 9));
    assert_eq!(demo.dots_rect_max(), Grid::new(7, 9));
}

#[test]
fn update_data_for_demo_with_no_dot_left_crosses_the_corners() {
    let mut demo = DemoMapParams::new();
    *demo.dots_sum_x_mut(5) = 1;
    *demo.dots_sum_y_mut(6) = 1;
    update_data_for_demo(Grid::new(5, 6), &mut demo);
    assert_eq!(demo.dots_rect_min(), Grid::new(40, 25));
    assert_eq!(demo.dots_rect_max(), Grid::new(-1, -1));
}

#[test]
fn demo_counts_follow_the_dots_eaten() {
    // eat every dot of a column of a new maze and watch the counts and the rectangle
    let mut map = MapInfo::new();
    let mut record = Record::new();
    make_new_data(&mut map, &mut record);
    let mut demo = DemoMapParams::new();
    tigtag::stage_map::make_data_for_demo(&map, &mut demo);
    for y in 0..25 {
        let g = Grid::new(1, y);
        if map.is_space(g) {
            map.set(g, MapObj::Space);
            update_data_for_demo(g, &mut demo);
        }
    }
    assert_eq!(demo.dots_sum_x(1), 0);
    assert_eq!(demo.dots_rect_min().x, 2);
    for y in 0..25 {
        let n = (0..40).filter(|&x| matches!(map.get(Grid::new(x, y)), MapObj::Dot(_))).count() as i32;
        assert_eq!(demo.dots_sum_y(y), n);
    }
}

#[test]
fn check_byway_risk_without_chasers_is_none() {
    let mut map = MapInfo::new();
    let mut record = Record::new();
    make_new_data(&mut map, &mut record);
    let chasers: Vec<Grid> = Vec::new();
    assert_eq!(check_byway_risk(Grid::new(2, 1), Grid::new(1, 1), &chasers, &map), None);
}

#[test]
fn check_byway_risk_with_a_chaser_at_the_entrance_is_two() {
    let mut map = MapInfo::new();
    let mut record = Record::new();
    make_new_data(&mut map, &mut record);
    let chasers = vec![Grid::new(2, 1)];
    assert_eq!(check_byway_risk(Grid::new(2, 1), Grid::new(1, 1), &chasers, &map), Some(2));
}

/// A closed map with two square loops side by side, sharing the road x = 4:
/// rows y = 1 and y = 3 from x = 1 to x = 7, and columns x = 1, 4, 7 between them.
/// No road ends in a dead end; (4, 1) and (4, 3) are the crossings.
fn two_loops() -> MapInfo {
    let mut map = MapInfo::new();
    for x in 0..40 {
        for y in 0..25 {
            map.set(Grid::new(x, y), MapObj::Wall(None));
        }
    }
    for x in 1..8 {
        map.set(Grid::new(x, 1), MapObj::Space);
        map.set(Grid::new(x, 3), MapObj::Space);
    }
    for x in [1, 4, 7] {
        map.set(Grid::new(x, 2), MapObj::Space);
    }
    map
}

#[test]
fn check_byway_risk_takes_the_shortest_walk() {
    let map = two_loops();
    // from (1, 1) east: the short walk (1,1) (2,1) (3,1) (4,1) (5,1) (6,1) has six grids;
    // the long one turns at (4, 1) and goes round the right loop; the crossing (4, 1)
    // is not before the middle of the short walk
    let chasers = vec![Grid::new(6, 1)];
    assert_eq!(check_byway_risk(Grid::new(2, 1), Grid::new(1, 1), &chasers, &map), Some(6));
}

#[test]
fn check_byway_risk_with_an_early_crossing_is_none() {
    let map = two_loops();
    // both walks to (7, 3) have nine grids and pass the crossing (4, 1) at index 3,
    // before the middle: the player could still turn away
    let chasers = vec![Grid::new(7, 3)];
    assert_eq!(check_byway_risk(Grid::new(2, 1), Grid::new(1, 1), &chasers, &map), None);
}

#[test]
fn check_byway_risk_on_a_loop_without_crossing() {
    // one square loop: rows y = 1 and y = 3, columns x = 1 and x = 4
    let mut map = MapInfo::new();
    for x in 0..40 {
        for y in 0..25 {
            map.set(Grid::new(x, y), MapObj::Wall(None));
        }
    }
    for x in 1..5 {
        map.set(Grid::new(x, 1), MapObj::Space);
        map.set(Grid::new(x, 3), MapObj::Space);
    }
    map.set(Grid::new(1, 2), MapObj::Space);
    map.set(Grid::new(4, 2), MapObj::Space);
    let chasers = vec![Grid::new(4, 3)];
    // (1,1) (2,1) (3,1) (4,1) (4,2) (4,3): six grids, no crossing anywhere
    assert_eq!(check_byway_risk(Grid::new(2, 1), Grid::new(1, 1), &chasers, &map), Some(6));
}

#[test]
fn sides_and_far_chasers_drops_the_bad_moves() {
    let player = Player { grid: Grid::new(5, 6), next_grid: Grid::new(5, 5), direction: News::North, is_stop: false };
    // a chaser entering the same grid going the same way: going on North would run into it
    // a chaser entering the same grid heading West: going East would meet it head on
    // a chaser far away
    let chasers = vec![
        chaser(Grid::new(5, 5), News::North),
        chaser(Grid::new(5, 5), News::West),
        chaser(Grid::new(9, 9), News::South),
    ];
    let (sides, far) = sides_and_far_chasers(&player, &chasers, &[News::North, News::East, News::West]);
    assert_eq!(sides, vec![News::West]);
    assert_eq!(far, vec![Grid::new(9, 9)]);
}

#[test]
fn count_dots_4sides_counts_dots_with_sprites_around() {
    let mut map = MapInfo::new();
    map.set(Grid::new(5, 5), MapObj::Dot(Some(1)));
    map.set(Grid::new(5, 4), MapObj::Dot(Some(2)));
    map.set(Grid::new(6, 5), MapObj::Dot(None));
    map.set(Grid::new(4, 5), MapObj::Wall(Some(3)));
    map.set(Grid::new(5, 6), MapObj::Dot(Some(4)));
    assert_eq!(map.count_dots_4sides(Grid::new(5, 5)), 3);
    assert_eq!(map.count_dots_4sides(Grid::new(10, 10)), 0);
}

#[test]
fn heuristic_dots_rect_prefers_the_single_nearest_side() {
    let demo = demo_with_rect(Grid::new(10, 10), Grid::new(20, 20));
    let sides = vec![(News::East, 0), (News::West, 0)];
    assert_eq!(heuristic_dots_rect(Grid::new(5, 15), &sides, &demo), Some(News::East));
    let sides = vec![(News::North, 0), (News::South, 0)];
    assert_eq!(heuristic_dots_rect(Grid::new(5, 15), &sides, &demo), None);
}

#[test]
fn choose_side_takes_the_single_best_rating() {
    let demo = demo_with_rect(Grid::new(0, 0), Grid::new(39, 24));
    let cands = vec![(News::North, 1), (News::East, 3), (News::West, 2)];
    match choose_side(&cands, Grid::new(5, 5), &demo) {
        WayChoice::Side(s) => assert_eq!(s, News::East),
        WayChoice::AnyOf(_) => panic!("expected one side"),
    }
}

#[test]
fn choose_side_leaves_ties_inside_the_rectangle_to_chance() {
    let demo = demo_with_rect(Grid::new(0, 0), Grid::new(39, 24));
    let cands = vec![(News::North, 1), (News::East, 3), (News::West, 3)];
    match choose_side(&cands, Grid::new(5, 5), &demo) {
        WayChoice::Side(_) => panic!("expected a choice left open"),
        WayChoice::AnyOf(best) => assert_eq!(best, vec![(News::East, 3), (News::West, 3)]),
    }
}

#[test]
fn choose_side_outside_the_rectangle_heads_for_it() {
    let demo = demo_with_rect(Grid::new(10, 10), Grid::new(20, 20));
    let cands = vec![(News::East, 3), (News::West, 3)];
    match choose_side(&cands, Grid::new(5, 15), &demo) {
        WayChoice::Side(s) => assert_eq!(s, News::East),
        WayChoice::AnyOf(_) => panic!("expected East"),
    }
}

#[test]
fn rate_sides_without_chasers_counts_dots() {
    let mut map = MapInfo::new();
    map.set(Grid::new(5, 3), MapObj::Dot(Some(1)));
    map.set(Grid::new(6, 4), MapObj::Dot(Some(2)));
    let far: Vec<Grid> = Vec::new();
    let (risky, safe) = rate_sides(Grid::new(5, 5), &vec![News::North, News::East], &far, &map);
    assert!(risky.is_empty());
    // north of (5,5) is (5,4): its own grid has no dot, (5,3) and (6,4) next to it have one each
    assert_eq!(safe, vec![(News::North, 2), (News::East, 1)]);
}

#[test]
fn choice_way_keeps_the_only_safe_side() {
    let map = MapInfo::new();
    let demo = DemoMapParams::new();
    let player = Player { grid: Grid::new(5, 6), next_grid: Grid::new(5, 5), direction: News::North, is_stop: false };
    let chasers = vec![chaser(Grid::new(5, 5), News::North), chaser(Grid::new(5, 5), News::West)];
    let r = choice_way(&player, &chasers, &map, &demo, &[News::North, News::East, News::West]);
    assert_eq!(r, News::West);
}

#[test]
fn choice_way_prefers_the_side_with_more_dots() {
    let mut map = MapInfo::new();
    map.set(Grid::new(6, 5), MapObj::Dot(Some(1)));
    map.set(Grid::new(7, 5), MapObj::Dot(Some(2)));
    let demo = demo_with_rect(Grid::new(0, 0), Grid::new(39, 24));
    let player = Player { grid: Grid::new(5, 6), next_grid: Grid::new(5, 5), direction: News::North, is_stop: false };
    let chasers: Vec<Chaser> = Vec::new();
    for _ in 0..10 {
        let r = choice_way(&player, &chasers, &map, &demo, &[News::North, News::East, News::West]);
        assert_eq!(r, News::East);
    }
}

#[test]
fn choice_way_with_every_side_bad_takes_any() {
    let map = MapInfo::new();
    let demo = DemoMapParams::new();
    let player = Player { grid: Grid::new(5, 6), next_grid: Grid::new(5, 5), direction: News::North, is_stop: false };
    let chasers = vec![chaser(Grid::new(5, 5), News::North)];
    for _ in 0..10 {
        let r = choice_way(&player, &chasers, &map, &demo, &[News::North]);
        assert_eq!(r, News::North);
    }
}

#[test]
fn which_way_player_goes_avoids_running_into_a_chaser() {
    // a chaser going East like the player enters the player's next grid: going East would
    // run into it from behind, so the player takes North
    let map = MapInfo::new();
    let demo = DemoMapParams::new();
    let player = Player { grid: Grid::new(4, 5), next_grid: Grid::new(5, 5), direction: News::East, is_stop: false };
    let chasers = vec![Chaser { grid: Grid::new(4, 5), next_grid: Grid::new(5, 5), direction: News::East, is_stop: false, color: AnimeSpriteColorTag::Red }];
    assert_eq!(which_way_player_goes(&player, &chasers, &map, &demo, &[News::East, News::North]), News::North);
}

#[test]
fn count_dots_4sides_is_five_at_most_and_four_beside_an_empty_grid() {
    let mut map = MapInfo::new();
    let center = Grid::new(5, 5);
    let around = [Grid::new(5, 5), Grid::new(5, 4), Grid::new(6, 5), Grid::new(4, 5), Grid::new(5, 6)];
    for (i, g) in around.iter().enumerate() {
        map.set(*g, MapObj::Dot(Some(i as u64 + 1)));
    }
    assert_eq!(map.count_dots_4sides(center), 5);
    // the grid West of the centre is emptied, as the grid the player stands on is
    map.set(Grid::new(4, 5), MapObj::Space);
    assert_eq!(map.count_dots_4sides(center), 4);
}
