use tigtag::grid::{Grid, News, Direction};
use tigtag::map::{MapInfo, MapObj};
use tigtag::player::Player;
use tigtag::chasers::{
    Chaser, AnimeSpriteColorTag, spawn_sprite_chasers, spawn_sprite, chase_preference, choice_way_red, choice_way_blue,
    choice_way_green, choice_way_pink, move_sprite, speedup_counts,
};
use tigtag::classic::{
    decide_direction, move_sprite_chasers, move_sprite_player, catch_cross_button_pressed, decide_angle,
    which_way_goes,
};
use tigtag::player::rotate_player_sprite;
use tigtag::record::Record;
use tigtag::state::GameState;

fn red_at(grid: Grid, next: Grid, direction: News) -> Chaser {
    Chaser { grid, next_grid: next, direction, is_stop: false, color: AnimeSpriteColorTag::Red }
}

fn player_next(g: Grid) -> Player {
    Player { grid: g, next_grid: g, direction: News::North, is_stop: true }
}

#[test]
fn spawn_sprite_turns_the_colours_with_the_stage() {
    let c1 = spawn_sprite(1);
    let colours: Vec<AnimeSpriteColorTag> = c1.iter().map(|c| c.color).collect();
    assert_eq!(colours, vec![AnimeSpriteColorTag::Red, AnimeSpriteColorTag::Green, AnimeSpriteColorTag::Pink, AnimeSpriteColorTag::Blue]);
    let c2 = spawn_sprite(2);
    let colours: Vec<AnimeSpriteColorTag> = c2.iter().map(|c| c.color).collect();
    assert_eq!(colours, vec![AnimeSpriteColorTag::Green, AnimeSpriteColorTag::Pink, AnimeSpriteColorTag::Blue, AnimeSpriteColorTag::Red]);
    let c5 = spawn_sprite(5);
    assert_eq!(c5[0].color, AnimeSpriteColorTag::Red);
    let grids: Vec<Grid> = c1.iter().map(|c| c.grid).collect();
    assert_eq!(grids, vec![Grid::new(1, 1), Grid::new(1, 23), Grid::new(38, 1), Grid::new(38, 23)]);
    for c in c1.iter() {
        assert_eq!(c.grid, c.next_grid);
        assert!(c.is_stop);
        assert_eq!(c.direction, News::South);
    }
}

#[test]
fn spawn_sprite_chasers_face_up() {
    let c = spawn_sprite_chasers();
    let colours: Vec<AnimeSpriteColorTag> = c.iter().map(|c| c.color).collect();
    assert_eq!(colours, vec![AnimeSpriteColorTag::Red, AnimeSpriteColorTag::Green, AnimeSpriteColorTag::Pink, AnimeSpriteColorTag::Blue]);
    for k in c.iter() {
        assert_eq!(k.grid, k.next_grid);
        assert!(k.is_stop);
        assert_eq!(k.direction, News::North);
    }
}

#[test]
fn chase_preference_follows_the_colour_order() {
    let sides = [News::North, News::East, News::West];
    let chaser = Grid::new(10, 10);
    // the player to the north-west
    let player = Grid::new(5, 3);
    assert_eq!(chase_preference(AnimeSpriteColorTag::Red, &sides, chaser, player), Some(News::West));
    assert_eq!(chase_preference(AnimeSpriteColorTag::Green, &sides, chaser, player), Some(News::North));
    assert_eq!(chase_preference(AnimeSpriteColorTag::Pink, &sides, chaser, player), Some(News::North));
    assert_eq!(chase_preference(AnimeSpriteColorTag::Blue, &sides, chaser, player), Some(News::West));
    // the player to the south-east, where only East is open toward it
    let player = Grid::new(15, 15);
    assert_eq!(chase_preference(AnimeSpriteColorTag::Blue, &sides, chaser, player), Some(News::East));
    // the player straight south, with no way south open
    let player = Grid::new(10, 15);
    assert_eq!(chase_preference(AnimeSpriteColorTag::Red, &sides, chaser, player), None);
}

#[test]
fn choice_way_of_each_colour() {
    let mut chaser = red_at(Grid::new(10, 10), Grid::new(10, 10), News::North);
    let before = chaser;
    let player = player_next(Grid::new(5, 3));
    let sides = [News::North, News::East, News::West];
    assert_eq!(choice_way_red(&mut chaser, &player, &sides), News::West);
    assert_eq!(choice_way_blue(&mut chaser, &player, &sides), News::West);
    assert_eq!(choice_way_green(&mut chaser, &player, &sides), News::North);
    assert_eq!(choice_way_pink(&mut chaser, &player, &sides), News::North);
    assert_eq!(chaser, before);
    // nothing toward the player: one of the sides at random
    let player = player_next(Grid::new(10, 15));
    for _ in 0..10 {
        let r = choice_way_red(&mut chaser, &player, &sides);
        assert!(sides.contains(&r));
    }
}

#[test]
fn chaser_move_sprite_takes_the_preferred_way() {
    let map = MapInfo::new();
    let player = player_next(Grid::new(2, 5));
    let mut chaser = red_at(Grid::new(5, 6), Grid::new(5, 5), News::North);
    move_sprite(&mut chaser, &player, &map);
    assert_eq!(chaser, red_at(Grid::new(5, 5), Grid::new(4, 5), News::West));
}

#[test]
fn chaser_move_sprite_follows_the_road() {
    let mut map = MapInfo::new();
    for y in 0..25 {
        map.set(Grid::new(4, y), MapObj::Wall(None));
        map.set(Grid::new(6, y), MapObj::Wall(None));
    }
    let player = player_next(Grid::new(20, 20));
    let mut chaser = red_at(Grid::new(5, 6), Grid::new(5, 5), News::North);
    move_sprite(&mut chaser, &player, &map);
    assert_eq!(chaser, red_at(Grid::new(5, 5), Grid::new(5, 4), News::North));
}

#[test]
fn speedup_counts_chasers_of_other_colours_on_the_same_grid() {
    let g = Grid::new(3, 3);
    let chasers = vec![
        Chaser { grid: g, next_grid: g, direction: News::North, is_stop: false, color: AnimeSpriteColorTag::Red },
        Chaser { grid: g, next_grid: g, direction: News::North, is_stop: false, color: AnimeSpriteColorTag::Blue },
        Chaser { grid: g, next_grid: g, direction: News::North, is_stop: false, color: AnimeSpriteColorTag::Blue },
        Chaser { grid: g, next_grid: Grid::new(9, 9), direction: News::North, is_stop: false, color: AnimeSpriteColorTag::Pink },
    ];
    assert_eq!(speedup_counts(&chasers), vec![2, 1, 1, 0]);
}

#[test]
fn decide_direction_by_colour() {
    let s = MapObj::Space;
    let w = MapObj::Wall(None);
    // the player to the left: red goes left
    assert_eq!(decide_direction(AnimeSpriteColorTag::Red, (10, 10), (5, 10), s, s, w, s), Direction::Left);
    // the player below: green tries up, then down
    assert_eq!(decide_direction(AnimeSpriteColorTag::Green, (10, 10), (10, 15), s, s, s, s), Direction::Down);
    // the player up and right: pink tries right first
    assert_eq!(decide_direction(AnimeSpriteColorTag::Pink, (10, 10), (15, 5), s, s, s, s), Direction::Right);
    // the player down and left: blue tries down first
    assert_eq!(decide_direction(AnimeSpriteColorTag::Blue, (10, 10), (5, 15), s, s, s, s), Direction::Down);
    // the way toward the player is walled: any open way
    for _ in 0..10 {
        let d = decide_direction(AnimeSpriteColorTag::Red, (10, 10), (5, 10), w, w, s, w);
        assert_eq!(d, Direction::Right);
    }
}

#[test]
fn move_sprite_chasers_at_a_fork() {
    let map = MapInfo::new();
    // moving up, the way back down counts as a wall; red heads for the player above
    let (loc, dir, stop) = move_sprite_chasers((5, 5), Direction::Up, false, AnimeSpriteColorTag::Red, (5, 2), &map);
    assert_eq!((loc, dir, stop), ((5, 4), Direction::Up, false));
}

#[test]
fn move_sprite_chasers_on_a_road() {
    let mut map = MapInfo::new();
    for y in 0..25 {
        map.set(Grid::new(4, y), MapObj::Wall(None));
        map.set(Grid::new(6, y), MapObj::Wall(None));
    }
    let (loc, dir, stop) = move_sprite_chasers((5, 5), Direction::Down, false, AnimeSpriteColorTag::Blue, (20, 2), &map);
    assert_eq!((loc, dir, stop), ((5, 6), Direction::Down, false));
}

#[test]
fn move_sprite_player_on_the_keys() {
    let mut map = MapInfo::new();
    let mut record = Record::new();
    map.set(Grid::new(4, 5), MapObj::Wall(None));
    // left is walled: the player turns left and stops
    assert_eq!(move_sprite_player((5, 5), Direction::Up, false, (false, true, false, false), false, &mut map, &mut record),
        ((5, 5), Direction::Left, true, None));
    // left goes first when several keys are held, then right, up and down
    assert_eq!(move_sprite_player((5, 5), Direction::Up, false, (true, true, true, false), false, &mut map, &mut record),
        ((5, 5), Direction::Left, true, None));
    assert_eq!(move_sprite_player((5, 5), Direction::Up, false, (true, false, true, true), false, &mut map, &mut record),
        ((6, 5), Direction::Right, false, None));
    assert_eq!(move_sprite_player((5, 5), Direction::Up, false, (true, false, false, true), false, &mut map, &mut record),
        ((5, 4), Direction::Up, false, None));
    // no key: the player stops
    assert_eq!(move_sprite_player((5, 5), Direction::Right, false, (false, false, false, false), false, &mut map, &mut record),
        ((5, 5), Direction::Right, true, None));
    assert_eq!(record.score, 0);
}

#[test]
fn move_sprite_player_eats_the_dot_and_clears() {
    let mut map = MapInfo::new();
    map.set(Grid::new(5, 5), MapObj::Dot(Some(1)));
    map.set(Grid::new(6, 5), MapObj::Dot(Some(2)));
    map.remaining_dots = 2;
    let mut record = Record { score: 3, hi_score: 3, stage: 1, is_clear: false, demo_hi_score: 0, demo_stage: 0 };
    // the first dot: eaten, and the player goes on
    assert_eq!(move_sprite_player((5, 5), Direction::Up, false, (false, false, true, false), true, &mut map, &mut record).3, None);
    assert!(matches!(map.get(Grid::new(5, 5)), MapObj::Space));
    assert_eq!((map.remaining_dots, record.score, record.hi_score), (1, 4, 4));
    // the last dot: the stage is over and the player stays
    assert_eq!(move_sprite_player((6, 5), Direction::Right, false, (false, false, true, false), false, &mut map, &mut record),
        ((6, 5), Direction::Right, false, Some(GameState::GameClear)));
    assert_eq!((map.remaining_dots, record.score, record.hi_score), (0, 5, 5));
    // in the demo the last dot loops the demo
    map.set(Grid::new(7, 5), MapObj::Dot(Some(3)));
    map.remaining_dots = 1;
    assert_eq!(move_sprite_player((7, 5), Direction::Right, false, (false, false, false, false), true, &mut map, &mut record),
        ((7, 5), Direction::Right, false, Some(GameState::DemoLoop)));
}

#[test]
fn move_sprite_player_in_the_demo_takes_an_open_way() {
    let mut map = MapInfo::new();
    let mut record = Record::new();
    for y in 0..25 {
        map.set(Grid::new(4, y), MapObj::Wall(None));
        map.set(Grid::new(6, y), MapObj::Wall(None));
    }
    for _ in 0..10 {
        let r = move_sprite_player((5, 5), Direction::Up, false, (false, false, false, false), true, &mut map, &mut record);
        assert_eq!(r, ((5, 4), Direction::Up, false, None));
    }
}

#[test]
fn catch_cross_button_pressed_orders_the_buttons() {
    assert!(catch_cross_button_pressed(true, Direction::Up, &vec![]).is_empty());
    assert_eq!(catch_cross_button_pressed(true, Direction::Up, &vec![Direction::Left]), vec![Direction::Left]);
    assert_eq!(catch_cross_button_pressed(true, Direction::Up, &vec![Direction::Right, Direction::Up]),
        vec![Direction::Up, Direction::Right]);
    assert_eq!(catch_cross_button_pressed(true, Direction::Left, &vec![Direction::Right, Direction::Up]),
        vec![Direction::Right, Direction::Up]);
    assert_eq!(catch_cross_button_pressed(false, Direction::Right, &vec![Direction::Right, Direction::Down]),
        vec![Direction::Down, Direction::Right]);
    assert_eq!(catch_cross_button_pressed(false, Direction::Right, &vec![Direction::Left, Direction::Down]),
        vec![Direction::Left, Direction::Down]);
    assert_eq!(catch_cross_button_pressed(false, Direction::Up, &vec![Direction::Down, Direction::Left]),
        vec![Direction::Down, Direction::Left]);
}

#[test]
fn decide_angle_of_each_turn() {
    assert_eq!(decide_angle(Direction::Up, Direction::Left), 90);
    assert_eq!(decide_angle(Direction::Up, Direction::Right), -90);
    assert_eq!(decide_angle(Direction::Left, Direction::Down), 90);
    assert_eq!(decide_angle(Direction::Right, Direction::Down), -90);
    assert_eq!(decide_angle(Direction::Down, Direction::Right), 90);
    assert_eq!(decide_angle(Direction::Up, Direction::Down), 180);
    assert_eq!(decide_angle(Direction::Left, Direction::Right), 180);
}

#[test]
fn rotate_player_sprite_turns() {
    assert_eq!(rotate_player_sprite(News::North, News::West), 90);
    assert_eq!(rotate_player_sprite(News::North, News::East), -90);
    assert_eq!(rotate_player_sprite(News::West, News::South), 90);
    assert_eq!(rotate_player_sprite(News::East, News::West), 180);
}

#[test]
fn which_way_player_goes_of_the_early_demo() {
    let p = Grid::new(10, 10);
    // every chaser straight above or below: right or left
    let chasers = vec![Grid::new(10, 2), Grid::new(10, 20)];
    assert_eq!(which_way_goes(p, &chasers, &[Direction::Up, Direction::Right]), Direction::Right);
    assert_eq!(which_way_goes(p, &chasers, &[Direction::Left, Direction::Down]), Direction::Left);
    for _ in 0..10 {
        let d = which_way_goes(p, &chasers, &[Direction::Left, Direction::Right, Direction::Up]);
        assert!(d == Direction::Left || d == Direction::Right);
    }
    // every chaser straight left or right: down or up
    let chasers = vec![Grid::new(2, 10)];
    assert_eq!(which_way_goes(p, &chasers, &[Direction::Up, Direction::Right]), Direction::Up);
    // otherwise any side
    let chasers = vec![Grid::new(2, 2)];
    for _ in 0..10 {
        let d = which_way_goes(p, &chasers, &[Direction::Up, Direction::Right]);
        assert!(d == Direction::Up || d == Direction::Right);
    }
}
