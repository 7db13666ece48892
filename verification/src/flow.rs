use vstd::prelude::*;
use crate::state::{MyState, GameState};

verus! {

/// What was read of the gamepad for "hit any key": whether a button that does not count is
/// held, and how many buttons were just pressed.
#[derive(Clone, Copy, Debug, PartialEq, Eq, Structural)]
pub struct GamepadPress {
    pub ignored_button_pressed: bool,
    pub buttons_just_pressed: usize,
}

/// "Hit any key": a key that does not count held down cancels; else any key just pressed,
/// or, with none, any button just pressed on a connected gamepad with none of the buttons
/// that do not count held, moves the game on to `next`.
pub fn hit_any_key(
    ignored_key_pressed: bool,
    keys_just_pressed: usize,
    gamepad: Option<GamepadPress>,
    next: MyState,
) -> (r: Option<MyState>)
    ensures
        r == if ignored_key_pressed {
            None
        } else if keys_just_pressed > 0 {
            Some(next)
        } else {
            match gamepad {
                Some(g) => if !g.ignored_button_pressed && g.buttons_just_pressed > 0 { Some(next) } else { None },
                None => None,
            }
        },
{
    if ignored_key_pressed {
        return None;
    }
    let mut is_pressed = keys_just_pressed;
    if is_pressed == 0 {
        let g = match gamepad {
            Some(g) => g,
            None => {
                return None;
            },
        };
        if g.ignored_button_pressed {
            return None;
        }
        is_pressed = g.buttons_just_pressed;
    }
    if is_pressed > 0 {
        Some(next)
    } else {
        None
    }
}

/// The space key starts a game.
pub fn change_state_gamestart_by_key(space_just_pressed: bool) -> (r: Option<GameState>)
    ensures
        r == if space_just_pressed { Some(GameState::GameStart) } else { None },
{
    if space_just_pressed {
        Some(GameState::GameStart)
    } else {
        None
    }
}

/// The key that a text asks for moves the game on to the text's next state.
pub fn into_next_state_with_key(key_just_pressed: bool, next: GameState) -> (r: Option<GameState>)
    ensures
        r == if key_just_pressed { Some(next) } else { None },
{
    if key_just_pressed {
        Some(next)
    } else {
        None
    }
}

/// The first frame of a character's animation when it faces each way, in a sprite sheet
/// of four frames per way.
pub open spec fn spec_sprite_sheet_offset(d: crate::grid::News) -> usize {
    match d {
        crate::grid::News::North => 0,
        crate::grid::News::East => 4,
        crate::grid::News::West => 8,
        crate::grid::News::South => 12,
    }
}

/// The first frame of a character's animation when it faces `d`.
pub fn sprite_sheet_offset(d: crate::grid::News) -> (r: usize)
    ensures
        r == spec_sprite_sheet_offset(d),
{
    match d {
        crate::grid::News::North => 0,
        crate::grid::News::East => 4,
        crate::grid::News::West => 8,
        crate::grid::News::South => 12,
    }
}

/// The frame after a tick of an animation's timer: the next frame, or back to the first
/// frame of the animation after its last; without a tick, the same frame.
pub open spec fn next_frame(index: int, offset: int, frame: int, just_finished: bool) -> int {
    if !just_finished {
        index
    } else if index + 1 >= offset + frame {
        offset
    } else {
        index + 1
    }
}

/// The frame of an animation after its timer ticked (see `next_frame`). A frame within the
/// animation's frames stays within them.
pub fn animating_sprites(index: usize, offset: usize, frame: usize, just_finished: bool) -> (r: usize)
    requires
        index < usize::MAX,
    ensures
        r == next_frame(index as int, offset as int, frame as int, just_finished),
        frame >= 1 && offset <= index < offset + frame ==> offset <= r < offset + frame,
        frame >= 1 && offset <= index < offset + frame && just_finished
            ==> r == if index + 1 == offset + frame { offset as int } else { index + 1 },
{
    proof {
        if frame >= 1 && offset <= index < offset + frame {
            lemma_animation_stays_in_frames(index as int, offset as int, frame as int, just_finished);
        }
    }
    if !just_finished {
        return index;
    }
    let next = index + 1;
    if next as u128 >= offset as u128 + frame as u128 {
        offset
    } else {
        next
    }
}

/// An animation that starts within its frames stays within them, tick after tick.
pub proof fn lemma_animation_stays_in_frames(index: int, offset: int, frame: int, just_finished: bool)
    requires
        frame >= 1,
        offset <= index < offset + frame,
    ensures
        offset <= next_frame(index, offset, frame, just_finished) < offset + frame,
{
}


/// The state that the first of the events asks for, if any; the later ones are dropped.
pub fn change_state_clear_or_over(events: &Vec<GameState>) -> (r: Option<GameState>)
    ensures
        r == if events@.len() > 0 { Some(events@[0]) } else { None },
{
    if events.len() > 0 {
        Some(events[0])
    } else {
        None
    }
}

} // verus!
