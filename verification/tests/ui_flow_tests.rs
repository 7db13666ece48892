use tigtag::countdown::{
    CountdownStep, MessageStart, MessageClear, MessageOver, CountDownTimer, CountDown, StageStartCD,
    StageClearCD, reset_gamestart_counter, change_state_gameplay_with_cd, reset_gameclear_counter,
    change_state_gamestart_with_cd, reset_gameover_counter, change_state_demostart_with_cd, init_countdown,
    counting_down, show_countdown, init_count, count_down, CountdownFrame, countdown_gamestart,
    countdown_gameclear, countdown_gameover, set_countdown_params, countdown_message,
};
use tigtag::pause::{
    PauseToggle, PauseMenu, PauseMenuItem, MenuInput, MenuAction, pause, show_and_hide_pause_menu,
    select_and_apply,
};
use tigtag::flow::{
    GamepadPress, hit_any_key, change_state_gamestart_by_key, into_next_state_with_key, animating_sprites,
    sprite_sheet_offset, change_state_clear_or_over,
};
use tigtag::grid::News;
use tigtag::center::{Start, Clear, Over, Title};
use tigtag::state::{MyState, GameState};

#[test]
fn gamestart_countdown_runs_four_seconds() {
    let mut c = MessageStart { count: 0 };
    reset_gamestart_counter(&mut c);
    assert_eq!(change_state_gameplay_with_cd(&mut c, false), CountdownStep::Show(3));
    assert_eq!(change_state_gameplay_with_cd(&mut c, true), CountdownStep::Show(2));
    assert_eq!(change_state_gameplay_with_cd(&mut c, true), CountdownStep::Show(1));
    assert_eq!(change_state_gameplay_with_cd(&mut c, true), CountdownStep::Show(0));
    assert_eq!(change_state_gameplay_with_cd(&mut c, true), CountdownStep::Next(GameState::GamePlay));
}

#[test]
fn gameclear_countdown_stops_at_four() {
    let mut c = MessageClear { count: 0 };
    reset_gameclear_counter(&mut c);
    assert_eq!(c.count, 6);
    assert_eq!(change_state_gamestart_with_cd(&mut c, false), CountdownStep::Show(5));
    assert_eq!(change_state_gamestart_with_cd(&mut c, true), CountdownStep::Show(4));
    assert_eq!(change_state_gamestart_with_cd(&mut c, true), CountdownStep::Next(GameState::GameStart));
}

#[test]
fn gameover_countdown_leads_to_the_demo() {
    let mut c = MessageOver { count: 0 };
    reset_gameover_counter(&mut c);
    assert_eq!(c.count, 11);
    let mut shown = Vec::new();
    loop {
        match change_state_demostart_with_cd(&mut c, true) {
            CountdownStep::Show(n) => shown.push(n),
            CountdownStep::Next(s) => {
                assert_eq!(s, GameState::DemoStart);
                break;
            },
        }
    }
    assert_eq!(shown, vec![9, 8, 7, 6, 5, 4, 3, 2, 1, 0]);
}

#[test]
fn counting_down_and_show_countdown_agree() {
    let mut a = CountDownTimer { counter: 0 };
    let mut b = CountDownTimer { counter: 0 };
    init_countdown(3, &mut a);
    init_countdown(3, &mut b);
    for tick in [false, true, true, false, true] {
        assert_eq!(counting_down(&mut a, tick, MyState::MainLoop), show_countdown(&mut b, tick, MyState::MainLoop));
    }
    let mut c = CountDownTimer { counter: 0 };
    init_countdown(2, &mut c);
    assert_eq!(counting_down(&mut c, false, MyState::MainLoop), CountdownStep::Show(1));
    assert_eq!(counting_down(&mut c, true, MyState::MainLoop), CountdownStep::Show(0));
    assert_eq!(counting_down(&mut c, true, MyState::MainLoop), CountdownStep::Next(MyState::MainLoop));
}

#[test]
fn stage_start_countdown_says_go() {
    let mut cd = StageStartCD { count_down: 0, next_state: MyState::Pause };
    init_count(&mut cd);
    assert_eq!(cd, StageStartCD::new());
    let mut shown = Vec::new();
    loop {
        match count_down(&mut cd, true) {
            CountdownStep::Show(n) => shown.push(cd.gen_message(n)),
            CountdownStep::Next(s) => {
                assert_eq!(s, MyState::MainLoop);
                break;
            },
        }
    }
    assert_eq!(shown, vec!["4", "3", "2", "1", "Go!!"]);
}

#[test]
fn stage_clear_countdown_shows_six_more() {
    let mut cd = StageClearCD::new();
    assert_eq!(count_down(&mut cd, false), CountdownStep::Show(4));
    assert_eq!(cd.gen_message(4), "10");
    assert_eq!(cd.gen_message(-1), "5");
    *cd.count_down() = -1;
    assert_eq!(count_down(&mut cd, false), CountdownStep::Next(MyState::StageStart));
    assert_eq!(cd.next_state(), MyState::StageStart);
    cd.initialize();
    assert_eq!(cd, StageClearCD::new());
}

#[test]
fn pause_twice_returns_to_the_game() {
    let mut state = MyState::MainLoop;
    let mut saved = MyState::InitApp;
    assert_eq!(pause(true, None, &mut state, &mut saved), Some(PauseToggle::Show));
    assert_eq!(state, MyState::Pause);
    assert_eq!(saved, MyState::MainLoop);
    assert_eq!(pause(false, Some(true), &mut state, &mut saved), Some(PauseToggle::Hide));
    assert_eq!(state, MyState::MainLoop);
    assert_eq!(pause(false, None, &mut state, &mut saved), None);
    assert_eq!(pause(false, Some(false), &mut state, &mut saved), None);
    assert_eq!(state, MyState::MainLoop);
}

#[test]
fn pause_menu_opens_on_its_first_item() {
    let mut state = MyState::TitleDemo;
    let mut menu = PauseMenu { selected_item: PauseMenuItem::Exit, back_to: MyState::InitApp };
    assert_eq!(show_and_hide_pause_menu(true, None, &mut state, &mut menu), Some(PauseToggle::Show));
    assert_eq!(menu, PauseMenu { selected_item: PauseMenuItem::Pause, back_to: MyState::TitleDemo });
    assert_eq!(state, MyState::Pause);
    assert_eq!(show_and_hide_pause_menu(true, None, &mut state, &mut menu), Some(PauseToggle::Hide));
    assert_eq!(state, MyState::TitleDemo);
}

#[test]
fn select_and_apply_moves_and_applies() {
    let none = MenuInput { up: false, down: false, apply: false };
    let down = MenuInput { up: false, down: true, apply: false };
    let apply = MenuInput { up: false, down: false, apply: true };
    let mut state = MyState::Pause;
    let mut menu = PauseMenu { selected_item: PauseMenuItem::Pause, back_to: MyState::MainLoop };
    assert_eq!(select_and_apply(down, None, false, &mut menu, &mut state), MenuAction::Nothing);
    assert_eq!(menu.selected_item, PauseMenuItem::Exit);
    assert_eq!(select_and_apply(apply, None, false, &mut menu, &mut state), MenuAction::Exit);
    // in a browser the menu cannot move to Exit
    let mut menu = PauseMenu { selected_item: PauseMenuItem::Pause, back_to: MyState::MainLoop };
    assert_eq!(select_and_apply(down, None, true, &mut menu, &mut state), MenuAction::Nothing);
    assert_eq!(menu.selected_item, PauseMenuItem::Pause);
    // the gamepad counts when the keyboard does nothing
    assert_eq!(select_and_apply(none, Some(apply), false, &mut menu, &mut state), MenuAction::Resume);
    assert_eq!(state, MyState::MainLoop);
}

#[test]
fn hit_any_key_cases() {
    let pad = Some(GamepadPress { ignored_button_pressed: false, buttons_just_pressed: 1 });
    assert_eq!(hit_any_key(false, 1, None, MyState::InitGame), Some(MyState::InitGame));
    assert_eq!(hit_any_key(true, 1, pad, MyState::InitGame), None);
    assert_eq!(hit_any_key(false, 0, None, MyState::InitGame), None);
    assert_eq!(hit_any_key(false, 0, pad, MyState::InitGame), Some(MyState::InitGame));
    let ignored = Some(GamepadPress { ignored_button_pressed: true, buttons_just_pressed: 1 });
    assert_eq!(hit_any_key(false, 0, ignored, MyState::InitGame), None);
}

#[test]
fn keys_move_the_game_on() {
    assert_eq!(change_state_gamestart_by_key(true), Some(GameState::GameStart));
    assert_eq!(change_state_gamestart_by_key(false), None);
    assert_eq!(into_next_state_with_key(true, GameState::DemoStart), Some(GameState::DemoStart));
    assert_eq!(into_next_state_with_key(false, GameState::DemoStart), None);
}

#[test]
fn animation_cycles_through_its_frames() {
    let offset = sprite_sheet_offset(News::West);
    assert_eq!(offset, 8);
    assert_eq!(sprite_sheet_offset(News::South), 12);
    assert_eq!(animating_sprites(8, offset, 4, true), 9);
    assert_eq!(animating_sprites(11, offset, 4, true), 8);
    assert_eq!(animating_sprites(11, offset, 4, false), 11);
}

#[test]
fn countdown_gamestart_starts_itself_and_ends() {
    let mut count = 0;
    assert_eq!(countdown_gamestart(&mut count, true), CountdownFrame::Begin(3));
    assert_eq!(countdown_gamestart(&mut count, false), CountdownFrame::Idle);
    assert_eq!(countdown_gamestart(&mut count, true), CountdownFrame::Show(2));
    assert_eq!(countdown_gamestart(&mut count, true), CountdownFrame::Show(1));
    assert_eq!(countdown_gamestart(&mut count, true), CountdownFrame::Show(0));
    assert_eq!(countdown_gamestart(&mut count, true), CountdownFrame::Next(GameState::GamePlay));
    assert_eq!(count, 0);
    assert_eq!(countdown_gamestart(&mut count, false), CountdownFrame::Begin(3));
}

#[test]
fn countdown_gameclear_ends_at_four() {
    let mut count = 4;
    assert_eq!(countdown_gameclear(&mut count, false), CountdownFrame::Begin(5));
    assert_eq!(countdown_gameclear(&mut count, true), CountdownFrame::Show(4));
    assert_eq!(countdown_gameclear(&mut count, true), CountdownFrame::Next(GameState::GameStart));
    assert_eq!(count, 4);
}

#[test]
fn countdown_gameover_runs_ten_seconds() {
    let mut count = 0;
    assert_eq!(countdown_gameover(&mut count, true), CountdownFrame::Begin(10));
    for n in (0..10).rev() {
        assert_eq!(countdown_gameover(&mut count, true), CountdownFrame::Show(n));
    }
    assert_eq!(countdown_gameover(&mut count, true), CountdownFrame::Next(GameState::DemoPlay));
}

#[test]
fn countdown_message_counts_from_the_initial_value() {
    let mut ctdw = CountDownTimer { counter: 0 };
    set_countdown_params(2, &mut ctdw);
    assert_eq!(ctdw.counter, 3);
    assert_eq!(countdown_message(&mut ctdw, false, MyState::TitleDemo), CountdownStep::Show(2));
    assert_eq!(countdown_message(&mut ctdw, true, MyState::TitleDemo), CountdownStep::Show(1));
    assert_eq!(countdown_message(&mut ctdw, true, MyState::TitleDemo), CountdownStep::Show(0));
    assert_eq!(countdown_message(&mut ctdw, true, MyState::TitleDemo), CountdownStep::Next(MyState::TitleDemo));
}

#[test]
fn the_first_event_wins() {
    assert_eq!(change_state_clear_or_over(&vec![GameState::GameClear, GameState::GameOver]), Some(GameState::GameClear));
    assert_eq!(change_state_clear_or_over(&vec![]), None);
}

#[test]
fn countdown_defaults() {
    let s = StageStartCD::default();
    assert_eq!(s.count_down, 5);
    assert_eq!(s.next_state, MyState::MainLoop);
    let c = StageClearCD::default();
    assert_eq!(c.count_down, 4);
    assert_eq!(c.next_state, MyState::StageStart);
    assert_eq!(CountDownTimer::default().counter, 0);
}

#[test]
fn only_the_chosen_menu_item_is_highlighted() {
    let items = [PauseMenuItem::Pause, PauseMenuItem::Exit];
    let menu = PauseMenu { selected_item: PauseMenuItem::Exit, back_to: MyState::MainLoop };
    assert_eq!(menu.highlight_selected_item(&items), vec![false, true]);
    let menu = PauseMenu { selected_item: PauseMenuItem::Pause, back_to: MyState::MainLoop };
    assert_eq!(menu.highlight_selected_item(&items), vec![true, false]);
}

#[test]
fn center_messages_count_down() {
    let start = Start::default();
    assert_eq!(start.initial_count(), 6);
    assert_eq!(start.next_state(), MyState::MainLoop);
    assert_eq!(start.to_string(0), "Go!!");
    assert_eq!(start.to_string(3), "3");
    let clear = Clear::default();
    assert_eq!(clear.initial_count(), 5);
    assert_eq!(clear.next_state(), MyState::StageStart);
    assert_eq!(clear.to_string(0), "6");
    assert_eq!(clear.to_string(4), "10");
    let over = Over::default();
    assert_eq!(over.initial_count(), 11);
    assert_eq!(over.next_state(), MyState::TitleDemo);
    assert_eq!(over.shortcut(), MyState::StageStart);
    assert_eq!(over.to_string(10), "10");
    assert_eq!(Title::default().next_state(), MyState::StageStart);
}
