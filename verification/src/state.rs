use vstd::prelude::*;

verus! {

/// The states of the game.
#[derive(Clone, Copy, Debug, PartialEq, Eq, Structural)]
pub enum MyState {
    LoadAssets,
    InitApp,
    InitGame,
    TitleDemo,
    DemoLoop,
    StageStart,
    MainLoop,
    StageClear,
    GameOver,
    Pause,
}

impl MyState {
    pub fn is_pause(&self) -> (r: bool)
        ensures
            r == (*self == MyState::Pause),
    {
        match self {
            MyState::Pause => true,
            _ => false,
        }
    }

    pub fn is_demoplay(&self) -> (r: bool)
        ensures
            r == (*self == MyState::TitleDemo),
    {
        match self {
            MyState::TitleDemo => true,
            _ => false,
        }
    }
}

/// The states of the classic game flow.
#[derive(Clone, Copy, Debug, PartialEq, Eq, Structural)]
pub enum GameState {
    Initialize,
    DemoStart,
    DemoPlay,
    DemoLoop,
    GameStart,
    GamePlay,
    GameClear,
    GameOver,
}

} // verus!
