use tigtag::grid::Grid;
use tigtag::map::{MapInfo, MapObj};
use tigtag::record::{
    Record, increment_record, clear_record, initialize_record_except_hi_score, init_record_except_hiscore,
    init_demoplay_record, update_demo_record,
};
use tigtag::judge::{scoring_and_stageclear, eat_dot, detect_collisions};
use tigtag::collision::{Track, Judgement, collided_chaser, detect_score_and_collision};
use tigtag::state::{MyState, GameState};
use tigtag::header::{decimal, update_score, update_hi_score, update_stage, demo_record_text};

fn two_dot_map() -> MapInfo {
    let mut map = MapInfo::new();
    map.set(Grid::new(3, 3), MapObj::Dot(Some(7)));
    map.set(Grid::new(4, 3), MapObj::Dot(Some(8)));
    map.remaining_dots = 2;
    map
}

fn track(new_x: i32, new_y: i32, old_x: i32, old_y: i32) -> Track {
    Track { new_x, new_y, old_x, old_y }
}

#[test]
fn scoring_eats_the_dots_and_clears_the_stage() {
    let mut map = two_dot_map();
    let mut record = Record::new();
    record.hi_score = 0;
    let r = scoring_and_stageclear(Grid::new(3, 3), &mut map, &mut record, MyState::MainLoop).unwrap();
    assert_eq!(r.dot, 7);
    assert_eq!(r.next_state, None);
    assert_eq!(map.get(Grid::new(3, 3)), MapObj::Space);
    assert_eq!(map.remaining_dots, 1);
    assert_eq!(record.score, 1);
    assert_eq!(record.hi_score, 1);
    assert!(!record.is_clear);
    let r = scoring_and_stageclear(Grid::new(4, 3), &mut map, &mut record, MyState::MainLoop).unwrap();
    assert_eq!(r.dot, 8);
    assert_eq!(r.next_state, Some(MyState::StageClear));
    assert_eq!(map.remaining_dots, 0);
    assert_eq!(record.score, 2);
    assert!(record.is_clear);
}

#[test]
fn scoring_without_a_dot_changes_nothing() {
    let mut map = two_dot_map();
    let mut record = Record::new();
    assert!(scoring_and_stageclear(Grid::new(5, 5), &mut map, &mut record, MyState::MainLoop).is_none());
    assert_eq!(map.remaining_dots, 2);
    assert_eq!(record, Record::new());
}

#[test]
fn scoring_in_the_demo_keeps_the_high_score() {
    let mut map = two_dot_map();
    let mut record = Record::new();
    scoring_and_stageclear(Grid::new(3, 3), &mut map, &mut record, MyState::TitleDemo);
    let r = scoring_and_stageclear(Grid::new(4, 3), &mut map, &mut record, MyState::TitleDemo).unwrap();
    assert_eq!(record.score, 2);
    assert_eq!(record.hi_score, 0);
    assert_eq!(r.next_state, Some(MyState::DemoLoop));
}

#[test]
fn eat_dot_ignores_a_dot_without_a_sprite() {
    let mut map = MapInfo::new();
    map.set(Grid::new(3, 3), MapObj::Dot(None));
    map.remaining_dots = 1;
    let mut record = Record::new();
    assert_eq!(eat_dot(Grid::new(3, 3), &mut map, &mut record, true), None);
    assert_eq!(map.get(Grid::new(3, 3)), MapObj::Dot(None));
    assert_eq!(record.score, 0);
}

#[test]
fn detect_collisions_decides_the_next_state() {
    assert_eq!(detect_collisions(false, true, MyState::MainLoop), Some(MyState::GameOver));
    assert_eq!(detect_collisions(false, true, MyState::TitleDemo), Some(MyState::DemoLoop));
    assert_eq!(detect_collisions(true, true, MyState::MainLoop), None);
    assert_eq!(detect_collisions(false, false, MyState::MainLoop), None);
}

#[test]
fn collided_chaser_on_the_same_row() {
    let player = track(100, 0, 0, 0);
    let chasers = vec![track(500, 300, 400, 300), track(50, 0, 150, 0)];
    assert_eq!(collided_chaser(player, &chasers), Some(1));
    let chasers = vec![track(200, 0, 300, 0)];
    assert_eq!(collided_chaser(player, &chasers), None);
}

#[test]
fn collided_chaser_on_the_same_column() {
    let player = track(7, 40, 7, 10);
    let chasers = vec![track(7, 45, 7, 35)];
    assert_eq!(collided_chaser(player, &chasers), Some(0));
    let chasers = vec![track(8, 45, 8, 35)];
    assert_eq!(collided_chaser(player, &chasers), None);
}

#[test]
fn detect_score_and_collision_clears_before_judging_collisions() {
    let mut map = MapInfo::new();
    map.set(Grid::new(3, 3), MapObj::Dot(Some(9)));
    map.remaining_dots = 1;
    let mut record = Record::new();
    let player = track(0, 0, 0, 0);
    let chasers = vec![track(0, 0, 0, 0)];
    let (dot, j) = detect_score_and_collision(Grid::new(3, 3), &mut map, &mut record, false, player, &chasers);
    assert_eq!(dot, Some(9));
    assert_eq!(j, Judgement::Cleared(GameState::GameClear));
    assert_eq!(record.score, 1);
    assert_eq!(record.hi_score, 1);
}

#[test]
fn detect_score_and_collision_catches_the_player() {
    let mut map = MapInfo::new();
    let mut record = Record::new();
    let player = track(0, 0, 0, 0);
    let chasers = vec![track(5, 5, 5, 5), track(0, 0, 0, 0)];
    let (dot, j) = detect_score_and_collision(Grid::new(3, 3), &mut map, &mut record, true, player, &chasers);
    assert_eq!(dot, None);
    assert_eq!(j, Judgement::Caught(1, GameState::DemoLoop));
    let chasers = vec![track(5, 5, 5, 5)];
    let (_, j) = detect_score_and_collision(Grid::new(3, 3), &mut map, &mut record, false, player, &chasers);
    assert_eq!(j, Judgement::Continue);
}

#[test]
fn records_through_a_game() {
    let mut record = Record::new();
    assert_eq!(record, Record { score: 0, hi_score: 0, stage: 1, is_clear: false, demo_hi_score: 0, demo_stage: 0 });
    record.score = 12;
    increment_record(&mut record);
    assert_eq!(record.stage, 2);
    clear_record(&mut record);
    assert_eq!((record.score, record.stage), (0, 1));
}

#[test]
fn initialize_record_except_hi_score_after_a_clear_and_after_a_loss() {
    let mut record = Record { score: 30, hi_score: 50, stage: 3, is_clear: true, demo_hi_score: 0, demo_stage: 0 };
    initialize_record_except_hi_score(&mut record);
    assert_eq!(record, Record { score: 30, hi_score: 50, stage: 3, is_clear: false, demo_hi_score: 0, demo_stage: 0 });
    initialize_record_except_hi_score(&mut record);
    assert_eq!(record, Record { score: 0, hi_score: 50, stage: 0, is_clear: false, demo_hi_score: 0, demo_stage: 0 });
    let mut record = Record { score: 30, hi_score: 50, stage: 3, is_clear: false, demo_hi_score: 0, demo_stage: 0 };
    init_record_except_hiscore(&mut record);
    assert_eq!((record.score, record.stage, record.hi_score), (0, 0, 50));
}

#[test]
fn demo_records() {
    let mut record = Record { score: 30, hi_score: 50, stage: 3, is_clear: true, demo_hi_score: 10, demo_stage: 1 };
    init_demoplay_record(&mut record);
    assert_eq!((record.score, record.stage, record.is_clear), (30, 3, false));
    assert_eq!(update_demo_record(&mut record), "03-00030");
    assert_eq!((record.demo_stage, record.demo_hi_score), (3, 30));
    record.score = 5;
    record.stage = 4;
    assert_eq!(update_demo_record(&mut record), "03-00030");
    init_demoplay_record(&mut record);
    assert_eq!((record.score, record.stage), (0, 0));
}

#[test]
fn record_handles_write_through() {
    let mut record = Record::new();
    *record.score_mut() = 4;
    *record.hi_score_mut() = 9;
    *record.stage_mut() = 2;
    *record.is_clear_mut() = true;
    *record.demo_hi_score_mut() = 3;
    *record.demo_stage_mut() = 6;
    assert_eq!((record.score(), record.hi_score(), record.stage()), (4, 9, 2));
    assert!(record.is_clear());
    assert_eq!((record.demo_hi_score(), record.demo_stage()), (3, 6));
}

#[test]
fn record_default_starts_at_stage_one() {
    let r = Record::default();
    assert_eq!(r.score, 0);
    assert_eq!(r.hi_score, 0);
    assert_eq!(r.stage, 1);
    assert!(!r.is_clear);
}

#[test]
fn map_default_is_all_space() {
    let map = MapInfo::default();
    assert_eq!(map.remaining_dots, 0);
    assert!(matches!(map.get(Grid::new(0, 0)), MapObj::Space));
    assert!(matches!(map.get(Grid::new(39, 24)), MapObj::Space));
}

#[test]
fn header_numbers_are_zero_padded() {
    let record = Record { score: 420, hi_score: 123456, stage: 7, is_clear: false, demo_hi_score: 0, demo_stage: 0 };
    assert_eq!(update_score(&record), "00420");
    assert_eq!(update_hi_score(&record), "123456");
    assert_eq!(update_stage(&record), "07");
    assert_eq!(decimal(0, 5), "00000");
    assert_eq!(decimal(-12, 5), "-0012");
    assert_eq!(decimal(i32::MIN, 5), "-2147483648");
    assert_eq!(decimal(i32::MAX, 0), "2147483647");
    assert_eq!(demo_record_text(12, 9), "12-00009");
    for n in [0, 1, 9, 10, 99, 100, 12345, 99999, 100000, -1, -99999, i32::MIN, i32::MAX] {
        assert_eq!(decimal(n, 5), format!("{:05}", n));
        assert_eq!(decimal(n, 2), format!("{:02}", n));
    }
}
