use tigtag::grid::{Grid, News};
use tigtag::map::{MapInfo, MapObj};
use tigtag::record::Record;
use tigtag::stage_map::make_new_data;
use tigtag::demo_params::DemoMapParams;
use tigtag::player::{
    Player, InputDirection, CrossDirection, catch_input_direction, catch_player_operation, move_sprite,
    init_position_player, spawn_sprite_player, spawn_sprite,
};
use tigtag::chasers::Chaser;
use tigtag::state::MyState;

fn player_at(grid: Grid, next: Grid, direction: News, is_stop: bool) -> Player {
    Player { grid, next_grid: next, direction, is_stop }
}

#[test]
fn catch_input_direction_puts_back_first_and_ahead_last() {
    let mut input = InputDirection(Vec::new());
    let none: Vec<News> = Vec::new();
    catch_input_direction(News::North, &none, &vec![News::East, News::South, News::North, News::West], &mut input);
    assert_eq!(input.0, vec![News::South, News::East, News::West, News::North]);
}

#[test]
fn catch_input_direction_with_one_key() {
    let mut input = InputDirection(vec![News::West]);
    let none: Vec<News> = Vec::new();
    catch_input_direction(News::North, &none, &vec![News::East], &mut input);
    assert_eq!(input.0, vec![News::East]);
    catch_input_direction(News::North, &none, &none, &mut input);
    assert!(input.0.is_empty());
}

#[test]
fn catch_input_direction_prefers_the_gamepad() {
    let mut input = InputDirection(Vec::new());
    catch_input_direction(News::East, &vec![News::North, News::East], &vec![News::West], &mut input);
    assert_eq!(input.0, vec![News::North, News::East]);
}

#[test]
fn catch_input_direction_ignores_repeats() {
    let mut input = InputDirection(Vec::new());
    let none: Vec<News> = Vec::new();
    catch_input_direction(News::South, &none, &vec![News::North, News::North, News::West], &mut input);
    assert_eq!(input.0, vec![News::North, News::West]);
}

#[test]
fn cross_direction_keeps_its_directions() {
    let mut cross = CrossDirection(Vec::new());
    cross.push(News::East);
    cross.push(News::North);
    assert_eq!(cross.direction(), &[News::East, News::North]);
    cross.clear();
    assert!(cross.direction().is_empty());
}

#[test]
fn catch_player_operation_cancels_opposites() {
    let player = player_at(Grid::new(1, 1), Grid::new(1, 1), News::North, true);
    let mut cross = CrossDirection(Vec::new());
    let none: Vec<News> = Vec::new();
    catch_player_operation(&player, &none, &vec![News::North, News::South, News::East], &mut cross);
    assert_eq!(cross.0, vec![News::East]);
    catch_player_operation(&player, &none, &vec![News::West, News::East], &mut cross);
    assert!(cross.0.is_empty());
}

#[test]
fn catch_player_operation_orders_two_keys() {
    let none: Vec<News> = Vec::new();
    let keys = vec![News::North, News::East];
    let mut cross = CrossDirection(Vec::new());
    // standing, facing North: ahead first
    catch_player_operation(&player_at(Grid::new(1, 1), Grid::new(1, 1), News::North, true), &none, &keys, &mut cross);
    assert_eq!(cross.0, vec![News::North, News::East]);
    // moving, facing North: the turn first
    catch_player_operation(&player_at(Grid::new(1, 1), Grid::new(1, 1), News::North, false), &none, &keys, &mut cross);
    assert_eq!(cross.0, vec![News::East, News::North]);
    // standing, facing West: the way back first
    catch_player_operation(&player_at(Grid::new(1, 1), Grid::new(1, 1), News::West, true), &none, &keys, &mut cross);
    assert_eq!(cross.0, vec![News::East, News::North]);
    // moving, facing West: the turn, then the way back
    catch_player_operation(&player_at(Grid::new(1, 1), Grid::new(1, 1), News::West, false), &none, &keys, &mut cross);
    assert_eq!(cross.0, vec![News::North, News::East]);
}

#[test]
fn move_sprite_follows_the_first_open_input() {
    let mut map = MapInfo::new();
    map.set(Grid::new(5, 4), MapObj::Wall(None));
    let demo = DemoMapParams::new();
    let chasers: Vec<Chaser> = Vec::new();
    let mut player = player_at(Grid::new(5, 6), Grid::new(5, 5), News::North, false);
    let input = InputDirection(vec![News::North, News::East]);
    move_sprite(&mut player, &map, &input, MyState::MainLoop, &chasers, &demo);
    assert_eq!(player, player_at(Grid::new(5, 5), Grid::new(6, 5), News::East, false));
}

#[test]
fn move_sprite_stops_at_a_wall() {
    let mut map = MapInfo::new();
    map.set(Grid::new(5, 4), MapObj::Wall(None));
    let demo = DemoMapParams::new();
    let chasers: Vec<Chaser> = Vec::new();
    let mut player = player_at(Grid::new(6, 5), Grid::new(5, 5), News::West, false);
    move_sprite(&mut player, &map, &InputDirection(vec![News::North]), MyState::MainLoop, &chasers, &demo);
    assert_eq!(player, player_at(Grid::new(5, 5), Grid::new(5, 5), News::North, true));
    // with no input the player stops, facing as before
    move_sprite(&mut player, &map, &InputDirection(Vec::new()), MyState::MainLoop, &chasers, &demo);
    assert_eq!(player, player_at(Grid::new(5, 5), Grid::new(5, 5), News::North, true));
}

#[test]
fn move_sprite_in_the_demo_follows_the_road() {
    // a road from West to East along row 5
    let mut map = MapInfo::new();
    for x in 0..40 {
        map.set(Grid::new(x, 4), MapObj::Wall(None));
        map.set(Grid::new(x, 6), MapObj::Wall(None));
    }
    let demo = DemoMapParams::new();
    let chasers: Vec<Chaser> = Vec::new();
    let mut player = player_at(Grid::new(4, 5), Grid::new(5, 5), News::East, false);
    move_sprite(&mut player, &map, &InputDirection(Vec::new()), MyState::TitleDemo, &chasers, &demo);
    assert_eq!(player, player_at(Grid::new(5, 5), Grid::new(6, 5), News::East, false));
}

#[test]
fn move_sprite_in_the_demo_never_turns_back_at_a_crossing() {
    let map = MapInfo::new();
    let demo = DemoMapParams::new();
    let chasers: Vec<Chaser> = Vec::new();
    for _ in 0..20 {
        let mut player = player_at(Grid::new(5, 6), Grid::new(5, 5), News::North, false);
        move_sprite(&mut player, &map, &InputDirection(Vec::new()), MyState::TitleDemo, &chasers, &demo);
        assert!(!player.is_stop);
        assert_ne!(player.direction, News::South);
        assert_eq!(player.grid, Grid::new(5, 5));
    }
}

#[test]
fn init_position_player_starts_in_the_middle_on_a_passage() {
    let mut map = MapInfo::new();
    let mut record = Record::new();
    make_new_data(&mut map, &mut record);
    for _ in 0..20 {
        let g = init_position_player(&map);
        assert!(11 <= g.x && g.x <= 28 && 11 <= g.y && g.y <= 13);
        assert!(map.is_space(g));
    }
    let p = spawn_sprite_player(&map);
    assert_eq!(p.grid, p.next_grid);
    assert_eq!(p.direction, News::North);
    assert!(p.is_stop);
    assert!(map.is_space(p.grid));
    let p = spawn_sprite(&map);
    assert_eq!(p.direction, News::South);
    assert!(p.is_stop);
    assert!(map.is_space(p.grid));
}

#[test]
fn player_new_stands_facing_south() {
    let p = Player::new(Grid::new(3, 4));
    assert_eq!(p, player_at(Grid::new(3, 4), Grid::new(3, 4), News::South, true));
}

#[test]
fn player_and_input_defaults() {
    let p = Player::default();
    assert_eq!(p.grid, Grid::new(0, 0));
    assert_eq!(p.next_grid, Grid::new(0, 0));
    assert_eq!(p.direction, News::South);
    assert!(p.is_stop);
    assert!(CrossDirection::default().direction().is_empty());
    assert!(InputDirection::default().0.is_empty());
}
