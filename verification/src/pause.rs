use vstd::prelude::*;
use crate::state::MyState;

verus! {

/// What the pause key does to the pause message.
#[derive(Clone, Copy, Debug, PartialEq, Eq, Structural)]
pub enum PauseToggle {
    Show,
    Hide,
}

/// Whether the pause key or button was just pressed: the key, else the gamepad's button
/// when a gamepad is connected.
pub open spec fn pause_pressed(key: bool, button: Option<bool>) -> bool {
    key || button == Some(true)
}

/// What the pause key does: from any state the game pauses, remembering the state it
/// paused in; from the pause it goes back to that state. Gives the new state, the state
/// remembered, and what happens to the pause message.
pub open spec fn toggled(pressed: bool, state: MyState, saved_in: MyState) -> (MyState, MyState, Option<PauseToggle>) {
    if !pressed {
        (state, saved_in, None)
    } else if state == MyState::Pause {
        (saved_in, saved_in, Some(PauseToggle::Hide))
    } else {
        (MyState::Pause, state, Some(PauseToggle::Show))
    }
}

/// The pause key toggles the pause (see `toggled`), without entering or leaving either
/// state anew.
pub fn pause(key_just_pressed: bool, button_just_pressed: Option<bool>, state: &mut MyState, saved_in: &mut MyState)
    -> (r: Option<PauseToggle>)
    ensures
        (*final(state), *final(saved_in), r) == toggled(
            pause_pressed(key_just_pressed, button_just_pressed), *old(state), *old(saved_in)),
{
    let mut is_pressed = key_just_pressed;
    if !is_pressed {
        match button_just_pressed {
            Some(b) => {
                is_pressed = b;
            },
            None => {
                return None;
            },
        }
    }
    if !is_pressed {
        return None;
    }
    if state.is_pause() {
        *state = *saved_in;
        Some(PauseToggle::Hide)
    } else {
        *saved_in = *state;
        *state = MyState::Pause;
        Some(PauseToggle::Show)
    }
}

/// Pressing the pause key twice brings the game back to the state it was in, with the
/// pause message shown and then hidden again.
pub proof fn lemma_pause_twice_restores(state: MyState, saved_in: MyState)
    requires
        state != MyState::Pause,
    ensures
        ({
            let first = toggled(true, state, saved_in);
            let second = toggled(true, first.0, first.1);
            &&& first.0 == MyState::Pause
            &&& first.2 == Some(PauseToggle::Show)
            &&& second.0 == state
            &&& second.2 == Some(PauseToggle::Hide)
        }),
{
}

/// The items of the pause menu.
#[derive(Clone, Copy, Debug, PartialEq, Eq, Structural)]
pub enum PauseMenuItem {
    Pause,
    Exit,
}

/// The pause menu: the item chosen, and the state the game paused in.
#[derive(Clone, Copy, Debug, PartialEq, Eq, Structural)]
pub struct PauseMenu {
    pub selected_item: PauseMenuItem,
    pub back_to: MyState,
}

impl PauseMenu {
    /// Which of the menu's items are shown highlighted (in the colour of the chosen item,
    /// and swelling and shrinking): the chosen one; every other item is shown plain.
    pub fn highlight_selected_item(&self, items: &[PauseMenuItem]) -> (r: Vec<bool>)
        ensures
            r@.len() == items@.len(),
            forall|i: int| 0 <= i < items@.len() ==> #[trigger] r@[i] == (items@[i] == self.selected_item),
    {
        let mut r: Vec<bool> = Vec::new();
        let mut i: usize = 0;
        while i < items.len()
            invariant
                0 <= i <= items@.len(),
                r@.len() == i,
                forall|k: int| 0 <= k < i ==> #[trigger] r@[k] == (items@[k] == self.selected_item),
            decreases items@.len() - i,
        {
            r.push(items[i] == self.selected_item);
            i = i + 1;
        }
        r
    }
}

/// Shows or hides the pause menu on the pause key (see `toggled`); shown afresh, the menu
/// has its first item chosen.
pub fn show_and_hide_pause_menu(
    key_just_pressed: bool,
    button_just_pressed: Option<bool>,
    state: &mut MyState,
    menu: &mut PauseMenu,
) -> (r: Option<PauseToggle>)
    ensures
        ({
            let t = toggled(pause_pressed(key_just_pressed, button_just_pressed), *old(state), old(menu).back_to);
            &&& *final(state) == t.0
            &&& final(menu).back_to == t.1
            &&& r == t.2
            &&& final(menu).selected_item == if r == Some(PauseToggle::Show) {
                PauseMenuItem::Pause
            } else {
                old(menu).selected_item
            }
        }),
{
    let mut back_to = menu.back_to;
    let r = pause(key_just_pressed, button_just_pressed, state, &mut back_to);
    if r == Some(PauseToggle::Show) {
        menu.selected_item = PauseMenuItem::Pause;
    }
    menu.back_to = back_to;
    r
}

/// The keys and buttons read for the pause menu: up, down, and the key that applies the
/// chosen item (pressed with none of the keys that cancel it).
#[derive(Clone, Copy, Debug, PartialEq, Eq, Structural)]
pub struct MenuInput {
    pub up: bool,
    pub down: bool,
    pub apply: bool,
}

/// What applying a pause menu item does.
#[derive(Clone, Copy, Debug, PartialEq, Eq, Structural)]
pub enum MenuAction {
    Nothing,
    Resume,
    Exit,
}

/// The item chosen after reading `input`: up chooses Pause from Exit, down chooses Exit from
/// Pause (not in a browser, where the game cannot be left).
pub open spec fn moved_item(old: PauseMenuItem, input: MenuInput, is_wasm: bool) -> PauseMenuItem {
    if input.up && old == PauseMenuItem::Exit {
        PauseMenuItem::Pause
    } else if input.down && old == PauseMenuItem::Pause && !is_wasm {
        PauseMenuItem::Exit
    } else {
        old
    }
}

/// Up chooses Pause when Exit is chosen, and nothing else leaves Exit; down chooses Exit
/// when Pause is chosen, except in a browser, and nothing else leaves Pause.
pub proof fn lemma_menu_up_and_down(input: MenuInput, is_wasm: bool)
    ensures
        input.up ==> moved_item(PauseMenuItem::Exit, input, is_wasm) == PauseMenuItem::Pause,
        !input.up ==> moved_item(PauseMenuItem::Exit, input, is_wasm) == PauseMenuItem::Exit,
        input.down && !is_wasm ==> moved_item(PauseMenuItem::Pause, input, is_wasm) == PauseMenuItem::Exit,
        !input.down || is_wasm ==> moved_item(PauseMenuItem::Pause, input, is_wasm) == PauseMenuItem::Pause,
{
}

/// Chooses and applies a pause menu item. The keyboard is read first; only when it neither
/// moves the choice nor applies it are the gamepad's buttons read. Applying Pause leaves the
/// pause for the state the game paused in; applying Exit ends the game.
pub fn select_and_apply(
    keys: MenuInput,
    buttons: Option<MenuInput>,
    is_wasm: bool,
    menu: &mut PauseMenu,
    state: &mut MyState,
) -> (r: MenuAction)
    ensures
        ({
            let by_keys = moved_item(old(menu).selected_item, keys, is_wasm) != old(menu).selected_item || keys.apply;
            let input = if by_keys || buttons is None { keys } else { buttons->0 };
            let item = moved_item(old(menu).selected_item, input, is_wasm);
            let apply = if by_keys || buttons is None { keys.apply } else { buttons->0.apply };
            &&& final(menu).back_to == old(menu).back_to
            &&& final(menu).selected_item == item
            &&& !apply ==> r == MenuAction::Nothing && *final(state) == *old(state)
            &&& apply && item == PauseMenuItem::Pause ==> r == MenuAction::Resume && *final(state) == old(menu).back_to
            &&& apply && item == PauseMenuItem::Exit ==> r == MenuAction::Exit && *final(state) == *old(state)
        }),
{
    let old = menu.selected_item;
    let mut new = old;
    let mut apply = false;

    // the keyboard
    if keys.up && old == PauseMenuItem::Exit {
        new = PauseMenuItem::Pause;
    }
    if keys.down && old == PauseMenuItem::Pause && !is_wasm {
        new = PauseMenuItem::Exit;
    }
    if keys.apply {
        apply = true;
    }

    // the gamepad, when the keyboard did nothing
    if new == old && !apply {
        match buttons {
            None => {
                return MenuAction::Nothing;
            },
            Some(b) => {
                if b.up && old == PauseMenuItem::Exit {
                    new = PauseMenuItem::Pause;
                }
                if b.down && old == PauseMenuItem::Pause && !is_wasm {
                    new = PauseMenuItem::Exit;
                }
                if b.apply {
                    apply = true;
                }
            },
        }
    }

    menu.selected_item = new;
    if !apply {
        return MenuAction::Nothing;
    }
    match menu.selected_item {
        PauseMenuItem::Pause => {
            *state = menu.back_to;
            MenuAction::Resume
        },
        PauseMenuItem::Exit => MenuAction::Exit,
    }
}

} // verus!
