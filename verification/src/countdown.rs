use vstd::prelude::*;
use vstd::string::to_string_from_display_ensures;
use crate::state::{MyState, GameState};

verus! {

/// What a countdown does in a frame: show a number, or move the game on to a state.
#[derive(Clone, Copy, Debug, PartialEq, Eq, Structural)]
pub enum CountdownStep<N, S> {
    Show(N),
    Next(S),
}

/// The number of texts of the stage start countdown: "Go!", then "Ready..." with 1, 2 and 3.
pub const COUNTDOWN_TEXT_LEN: usize = 4;

/// From how far the stage clear counts down.
pub const GAMECLEAR_COUNTDOWN: usize = 5;

/// From how far the game over counts down.
pub const GAMEOVER_COUNTDOWN: usize = 10;

/// The countdown before a game starts.
#[derive(Clone, Copy, Debug, PartialEq, Eq, Structural)]
pub struct MessageStart {
    pub count: usize,
}

/// The countdown after a stage is cleared.
#[derive(Clone, Copy, Debug, PartialEq, Eq, Structural)]
pub struct MessageClear {
    pub count: usize,
}

/// The countdown after the game is over.
#[derive(Clone, Copy, Debug, PartialEq, Eq, Structural)]
pub struct MessageOver {
    pub count: usize,
}

/// The count after a frame: one less when a second passed.
pub open spec fn ticked(count: usize, one_second: bool) -> int {
    if one_second {
        count - 1
    } else {
        count as int
    }
}

/// Starts the countdown before a game: one count per text.
pub fn reset_gamestart_counter(counter: &mut MessageStart)
    ensures
        final(counter).count == COUNTDOWN_TEXT_LEN,
{
    counter.count = COUNTDOWN_TEXT_LEN;
}

/// A frame of the countdown before a game: when it reaches zero the game starts, else the
/// text at index count - 1 shows ("Go!" at zero, then "Ready..." with 1, 2 and 3).
pub fn change_state_gameplay_with_cd(counter: &mut MessageStart, one_second: bool)
    -> (r: CountdownStep<usize, GameState>)
    requires
        ticked(old(counter).count, one_second) >= 0,
    ensures
        final(counter).count == ticked(old(counter).count, one_second),
        r == if final(counter).count == 0 {
            CountdownStep::Next(GameState::GamePlay)
        } else {
            CountdownStep::Show((final(counter).count - 1) as usize)
        },
{
    if one_second {
        counter.count = counter.count - 1;
    }
    if counter.count == 0 {
        return CountdownStep::Next(GameState::GamePlay);
    }
    CountdownStep::Show(counter.count - 1)
}

/// Starts the countdown after a stage clear.
pub fn reset_gameclear_counter(counter: &mut MessageClear)
    ensures
        final(counter).count == GAMECLEAR_COUNTDOWN + 1,
{
    counter.count = GAMECLEAR_COUNTDOWN + 1;
}

/// A frame of the countdown after a stage clear: when it is down to four the next stage
/// starts, else it shows count - 1.
pub fn change_state_gamestart_with_cd(counter: &mut MessageClear, one_second: bool)
    -> (r: CountdownStep<usize, GameState>)
    requires
        ticked(old(counter).count, one_second) >= 1,
    ensures
        final(counter).count == ticked(old(counter).count, one_second),
        r == if final(counter).count == 4 {
            CountdownStep::Next(GameState::GameStart)
        } else {
            CountdownStep::Show((final(counter).count - 1) as usize)
        },
{
    if one_second {
        counter.count = counter.count - 1;
    }
    if counter.count == 4 {
        return CountdownStep::Next(GameState::GameStart);
    }
    CountdownStep::Show(counter.count - 1)
}

/// Starts the countdown after the game is over.
pub fn reset_gameover_counter(counter: &mut MessageOver)
    ensures
        final(counter).count == GAMEOVER_COUNTDOWN + 1,
{
    counter.count = GAMEOVER_COUNTDOWN + 1;
}

/// A frame of the countdown after the game is over: when it reaches zero the demo starts,
/// else it shows count - 1.
pub fn change_state_demostart_with_cd(counter: &mut MessageOver, one_second: bool)
    -> (r: CountdownStep<usize, GameState>)
    requires
        ticked(old(counter).count, one_second) >= 0,
    ensures
        final(counter).count == ticked(old(counter).count, one_second),
        r == if final(counter).count == 0 {
            CountdownStep::Next(GameState::DemoStart)
        } else {
            CountdownStep::Show((final(counter).count - 1) as usize)
        },
{
    if one_second {
        counter.count = counter.count - 1;
    }
    if counter.count == 0 {
        return CountdownStep::Next(GameState::DemoStart);
    }
    CountdownStep::Show(counter.count - 1)
}

/// The counter of a countdown shown in the middle of the screen.
#[derive(Clone, Copy, Debug, PartialEq, Eq, Structural)]
pub struct CountDownTimer {
    pub counter: i32,
}

impl Default for CountDownTimer {
    /// A counter at zero.
    fn default() -> (r: CountDownTimer)
        ensures
            r.counter == 0,
    {
        CountDownTimer { counter: 0 }
    }
}

/// Starts a countdown from `initial_count`.
pub fn init_countdown(initial_count: i32, countdown: &mut CountDownTimer)
    ensures
        final(countdown).counter == initial_count,
{
    countdown.counter = initial_count;
}

/// A frame of a countdown: one less when a second passed; while it is above zero, counter
/// - 1 shows, else the game moves on to `next_state`.
pub fn counting_down(countdown: &mut CountDownTimer, one_second: bool, next_state: MyState)
    -> (r: CountdownStep<i32, MyState>)
    requires
        one_second ==> old(countdown).counter > i32::MIN,
    ensures
        final(countdown).counter == if one_second { old(countdown).counter - 1 } else { old(countdown).counter as int },
        r == if final(countdown).counter > 0 {
            CountdownStep::Show((final(countdown).counter - 1) as i32)
        } else {
            CountdownStep::Next(next_state)
        },
{
    if one_second {
        countdown.counter = countdown.counter - 1;
    }
    if countdown.counter > 0 {
        CountdownStep::Show(countdown.counter - 1)
    } else {
        CountdownStep::Next(next_state)
    }
}

/// The same frame of a countdown as `counting_down`.
pub fn show_countdown(countdown: &mut CountDownTimer, one_second: bool, next_state: MyState)
    -> (r: CountdownStep<i32, MyState>)
    requires
        one_second ==> old(countdown).counter > i32::MIN,
    ensures
        final(countdown).counter == if one_second { old(countdown).counter - 1 } else { old(countdown).counter as int },
        r == if final(countdown).counter > 0 {
            CountdownStep::Show((final(countdown).counter - 1) as i32)
        } else {
            CountdownStep::Next(next_state)
        },
{
    if one_second {
        countdown.counter = countdown.counter - 1;
    }
    if countdown.counter <= 0 {
        return CountdownStep::Next(next_state);
    }
    CountdownStep::Show(countdown.counter - 1)
}

/// A countdown that a text of the screen carries: it counts down to below zero and then
/// moves the game on to its next state.
pub trait CountDown {
    /// The current count.
    spec fn count_spec(&self) -> i32;

    /// The state the game moves on to.
    spec fn next_state_spec(&self) -> MyState;

    /// Whether the countdown stands at its start.
    spec fn is_initial(&self) -> bool;

    /// Whether `s` is the text shown for the count `n`.
    spec fn is_message(&self, n: i32, s: String) -> bool;

    /// Whether the text for the count `n` can be made.
    spec fn can_show(&self, n: i32) -> bool;

    /// A handle on the count; what is written through it becomes the count.
    fn count_down(&mut self) -> (r: &mut i32)
        ensures
            *r == old(self).count_spec(),
            final(self).count_spec() == *final(r),
            final(self).next_state_spec() == old(self).next_state_spec(),
    ;

    /// The state the game moves on to.
    fn next_state(&self) -> (r: MyState)
        ensures
            r == self.next_state_spec(),
    ;

    /// The text shown for the count `n`.
    fn gen_message(&self, n: i32) -> (r: String)
        requires
            self.can_show(n),
        ensures
            self.is_message(n, r),
    ;

    /// Puts the countdown back to its start.
    fn initialize(&mut self)
        ensures
            final(self).is_initial(),
    ;
}

/// The countdown before a stage: from 5 down, "Go!!" at zero, then the main loop.
#[derive(Clone, Copy, Debug, PartialEq, Eq, Structural)]
pub struct StageStartCD {
    pub count_down: i32,
    pub next_state: MyState,
}

impl StageStartCD {
    /// A countdown at its start.
    pub fn new() -> (r: StageStartCD)
        ensures
            r == (StageStartCD { count_down: 5, next_state: MyState::MainLoop }),
    {
        StageStartCD { count_down: 5, next_state: MyState::MainLoop }
    }
}

impl Default for StageStartCD {
    /// A countdown at its start.
    fn default() -> (r: StageStartCD)
        ensures
            r == (StageStartCD { count_down: 5, next_state: MyState::MainLoop }),
    {
        StageStartCD::new()
    }
}

impl CountDown for StageStartCD {
    open spec fn count_spec(&self) -> i32 {
        self.count_down
    }

    open spec fn next_state_spec(&self) -> MyState {
        self.next_state
    }

    open spec fn is_initial(&self) -> bool {
        *self == (StageStartCD { count_down: 5, next_state: MyState::MainLoop })
    }

    open spec fn is_message(&self, n: i32, s: String) -> bool {
        if n == 0 {
            s@ == "Go!!"@
        } else {
            to_string_from_display_ensures::<i32>(&n, s)
        }
    }

    open spec fn can_show(&self, n: i32) -> bool {
        true
    }

    fn count_down(&mut self) -> (r: &mut i32) {
        &mut self.count_down
    }

    fn next_state(&self) -> (r: MyState) {
        self.next_state
    }

    fn gen_message(&self, n: i32) -> (r: String) {
        if n == 0 {
            let s = "Go!!".to_string();
            proof {
                vstd::string::to_string_from_display_ensures_for_str("Go!!", s);
            }
            s
        } else {
            n.to_string()
        }
    }

    fn initialize(&mut self) {
        *self = StageStartCD::new();
    }
}

/// The countdown after a stage clear: from 4 down to below zero, showing the count plus
/// six, then the next stage starts.
#[derive(Clone, Copy, Debug, PartialEq, Eq, Structural)]
pub struct StageClearCD {
    pub count_down: i32,
    pub next_state: MyState,
}

impl StageClearCD {
    /// A countdown at its start.
    pub fn new() -> (r: StageClearCD)
        ensures
            r == (StageClearCD { count_down: 4, next_state: MyState::StageStart }),
    {
        StageClearCD { count_down: 4, next_state: MyState::StageStart }
    }
}

impl Default for StageClearCD {
    /// A countdown at its start.
    fn default() -> (r: StageClearCD)
        ensures
            r == (StageClearCD { count_down: 4, next_state: MyState::StageStart }),
    {
        StageClearCD::new()
    }
}

impl CountDown for StageClearCD {
    open spec fn count_spec(&self) -> i32 {
        self.count_down
    }

    open spec fn next_state_spec(&self) -> MyState {
        self.next_state
    }

    open spec fn is_initial(&self) -> bool {
        *self == (StageClearCD { count_down: 4, next_state: MyState::StageStart })
    }

    open spec fn is_message(&self, n: i32, s: String) -> bool {
        to_string_from_display_ensures::<i32>(&((n + 6) as i32), s)
    }

    open spec fn can_show(&self, n: i32) -> bool {
        n <= i32::MAX - 6
    }

    fn count_down(&mut self) -> (r: &mut i32) {
        &mut self.count_down
    }

    fn next_state(&self) -> (r: MyState) {
        self.next_state
    }

    fn gen_message(&self, n: i32) -> (r: String) {
        (n + 6).to_string()
    }

    fn initialize(&mut self) {
        *self = StageClearCD::new();
    }
}

/// Puts a countdown back to its start.
pub fn init_count<T: CountDown>(ui: &mut T)
    ensures
        final(ui).is_initial(),
{
    ui.initialize();
}

/// A frame of a countdown: one less when a second passed; while it is zero or more, the
/// count shows, else the game moves on to the countdown's next state.
pub fn count_down<T: CountDown>(ui: &mut T, one_second: bool) -> (r: CountdownStep<i32, MyState>)
    requires
        one_second ==> old(ui).count_spec() > i32::MIN,
    ensures
        final(ui).count_spec() == if one_second { old(ui).count_spec() - 1 } else { old(ui).count_spec() as int },
        final(ui).next_state_spec() == old(ui).next_state_spec(),
        r == if final(ui).count_spec() >= 0 {
            CountdownStep::Show(final(ui).count_spec())
        } else {
            CountdownStep::Next(old(ui).next_state_spec())
        },
{
    if one_second {
        let c = ui.count_down();
        *c = *c - 1;
    }
    let count = *ui.count_down();
    if count >= 0 {
        CountdownStep::Show(count)
    } else {
        CountdownStep::Next(ui.next_state())
    }
}


/// A countdown that starts itself: what it does in a frame.
#[derive(Clone, Copy, Debug, PartialEq, Eq, Structural)]
pub enum CountdownFrame {
    /// The countdown starts over and shows the number given.
    Begin(i32),
    /// A second passed; the number given shows.
    Show(i32),
    /// Nothing changes in this frame.
    Idle,
    /// The countdown is over; the game goes to the state given.
    Next(GameState),
}

/// A frame of a countdown that starts itself: at or below `floor` it starts over from
/// `start`, showing `start - 1`; else each second counts one down and shows the count less
/// one, until the count is back at `floor`, when the game moves on to `next`.
pub open spec fn local_countdown(count: i32, one_second: bool, floor: i32, start: i32, next: GameState)
    -> (i32, CountdownFrame)
{
    if count <= floor {
        (start, CountdownFrame::Begin((start - 1) as i32))
    } else if !one_second {
        (count, CountdownFrame::Idle)
    } else if count - 1 > floor {
        ((count - 1) as i32, CountdownFrame::Show((count - 2) as i32))
    } else {
        ((count - 1) as i32, CountdownFrame::Next(next))
    }
}

fn local_countdown_frame(count: &mut i32, one_second: bool, floor: i32, start: i32, next: GameState)
    -> (r: CountdownFrame)
    requires
        floor < start,
    ensures
        (*final(count), r) == local_countdown(*old(count), one_second, floor, start, next),
{
    if *count <= floor {
        *count = start;
        return CountdownFrame::Begin(start - 1);
    }
    if !one_second {
        return CountdownFrame::Idle;
    }
    *count = *count - 1;
    if *count > floor {
        CountdownFrame::Show(*count - 1)
    } else {
        CountdownFrame::Next(next)
    }
}

/// The countdown before a game: from 4, showing the text at index count - 1 ("Go!" at
/// zero, then "Ready..." with 1, 2 and 3); at zero the game plays.
pub fn countdown_gamestart(count: &mut i32, one_second: bool) -> (r: CountdownFrame)
    ensures
        (*final(count), r) == local_countdown(*old(count), one_second, 0, 4, GameState::GamePlay),
{
    local_countdown_frame(count, one_second, 0, 4, GameState::GamePlay)
}

/// The countdown after a stage clear: from 6, showing count - 1; down at four the next
/// stage starts.
pub fn countdown_gameclear(count: &mut i32, one_second: bool) -> (r: CountdownFrame)
    ensures
        (*final(count), r) == local_countdown(*old(count), one_second, 4, 6, GameState::GameStart),
{
    local_countdown_frame(count, one_second, 4, 6, GameState::GameStart)
}

/// The countdown after a game over: from 11, showing count - 1; at zero the demo plays.
pub fn countdown_gameover(count: &mut i32, one_second: bool) -> (r: CountdownFrame)
    ensures
        (*final(count), r) == local_countdown(*old(count), one_second, 0, 11, GameState::DemoPlay),
{
    local_countdown_frame(count, one_second, 0, 11, GameState::DemoPlay)
}

/// A countdown that starts itself ends: started over, it reaches its next state after
/// exactly `start - floor` seconds, and shows a number in each second before.
pub proof fn lemma_local_countdown_ends(floor: i32, start: i32, next: GameState, k: int)
    requires
        floor < start,
        1 <= k <= start - floor,
    ensures
        ({
            let before = (start - (k - 1)) as i32;
            let after = local_countdown(before, true, floor, start, next);
            &&& after.0 == start - k
            &&& k < start - floor ==> after.1 == CountdownFrame::Show((start - k - 1) as i32)
            &&& k == start - floor ==> after.1 == CountdownFrame::Next(next)
        }),
{
}

/// Sets a countdown to one more than the value a text counts down from.
pub fn set_countdown_params(initial_value: i32, ctdw: &mut CountDownTimer)
    requires
        initial_value < i32::MAX,
    ensures
        final(ctdw).counter == initial_value + 1,
{
    ctdw.counter = initial_value + 1;
}

/// A frame of a text's countdown: the same as `show_countdown`.
pub fn countdown_message(ctdw: &mut CountDownTimer, one_second: bool, next_state: MyState)
    -> (r: CountdownStep<i32, MyState>)
    requires
        one_second ==> old(ctdw).counter > i32::MIN,
    ensures
        final(ctdw).counter == if one_second { old(ctdw).counter - 1 } else { old(ctdw).counter as int },
        r == if final(ctdw).counter > 0 {
            CountdownStep::Show((final(ctdw).counter - 1) as i32)
        } else {
            CountdownStep::Next(next_state)
        },
{
    if one_second {
        ctdw.counter = ctdw.counter - 1;
    }
    if ctdw.counter <= 0 {
        return CountdownStep::Next(next_state);
    }
    CountdownStep::Show(ctdw.counter - 1)
}

} // verus!
