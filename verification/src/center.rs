use vstd::prelude::*;
use crate::state::MyState;
use crate::header::{decimal, decimal_text};

verus! {

/// The text "Go!!".
pub open spec fn go_text() -> Seq<char> {
    seq!['G', 'o', '!', '!']
}

/// The message before a stage: counts down from 5, "Go!!" at zero, then the main loop.
#[derive(Clone, Copy, Debug, PartialEq, Eq, Structural)]
pub struct Start {
    pub count: i32,
    pub next_state: MyState,
}

impl Default for Start {
    fn default() -> (r: Start)
        ensures
            r == (Start { count: 5, next_state: MyState::MainLoop }),
    {
        Start { count: 5, next_state: MyState::MainLoop }
    }
}

impl Start {
    /// The counter starts one above the count.
    pub fn initial_count(&self) -> (r: i32)
        requires
            self.count < i32::MAX,
        ensures
            r == self.count + 1,
    {
        self.count + 1
    }

    pub fn next_state(&self) -> (r: MyState)
        ensures
            r == self.next_state,
    {
        self.next_state
    }

    /// "Go!!" at zero, else the number.
    pub fn to_string(&self, n: i32) -> (r: String)
        ensures
            r@ == if n == 0 { go_text() } else { decimal_text(n as int, 0) },
    {
        if n == 0 {
            proof { reveal_strlit("Go!!"); }
            String::from_str("Go!!")
        } else {
            decimal(n, 0)
        }
    }
}

/// The message after a stage clear: counts down from 4, showing the count plus six, then
/// the next stage starts.
#[derive(Clone, Copy, Debug, PartialEq, Eq, Structural)]
pub struct Clear {
    pub count: i32,
    pub next_state: MyState,
}

impl Default for Clear {
    fn default() -> (r: Clear)
        ensures
            r == (Clear { count: 4, next_state: MyState::StageStart }),
    {
        Clear { count: 4, next_state: MyState::StageStart }
    }
}

impl Clear {
    /// The counter starts one above the count.
    pub fn initial_count(&self) -> (r: i32)
        requires
            self.count < i32::MAX,
        ensures
            r == self.count + 1,
    {
        self.count + 1
    }

    pub fn next_state(&self) -> (r: MyState)
        ensures
            r == self.next_state,
    {
        self.next_state
    }

    /// The number plus six.
    pub fn to_string(&self, n: i32) -> (r: String)
        requires
            n + 6 <= i32::MAX,
        ensures
            r@ == decimal_text(n + 6, 0),
    {
        decimal(n + 6, 0)
    }
}

/// The message after a game over: counts down from 10, then the title demo; a key goes
/// straight to a new game.
#[derive(Clone, Copy, Debug, PartialEq, Eq, Structural)]
pub struct Over {
    pub count: i32,
    pub next_state: MyState,
    pub shortcut: MyState,
}

impl Default for Over {
    fn default() -> (r: Over)
        ensures
            r == (Over { count: 10, next_state: MyState::TitleDemo, shortcut: MyState::StageStart }),
    {
        Over { count: 10, next_state: MyState::TitleDemo, shortcut: MyState::StageStart }
    }
}

impl Over {
    /// The counter starts one above the count.
    pub fn initial_count(&self) -> (r: i32)
        requires
            self.count < i32::MAX,
        ensures
            r == self.count + 1,
    {
        self.count + 1
    }

    pub fn next_state(&self) -> (r: MyState)
        ensures
            r == self.next_state,
    {
        self.next_state
    }

    /// The state a key leads to.
    pub fn shortcut(&self) -> (r: MyState)
        ensures
            r == self.shortcut,
    {
        self.shortcut
    }

    /// The number.
    pub fn to_string(&self, n: i32) -> (r: String)
        ensures
            r@ == decimal_text(n as int, 0),
    {
        decimal(n, 0)
    }
}

/// The title: a key starts a game.
#[derive(Clone, Copy, Debug, PartialEq, Eq, Structural)]
pub struct Title {
    pub next_state: MyState,
}

impl Default for Title {
    fn default() -> (r: Title)
        ensures
            r == (Title { next_state: MyState::StageStart }),
    {
        Title { next_state: MyState::StageStart }
    }
}

impl Title {
    /// The state a key leads to.
    pub fn next_state(&self) -> (r: MyState)
        ensures
            r == self.next_state,
    {
        self.next_state
    }
}

} // verus!
