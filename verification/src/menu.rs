//! The main menu's selection logic: a small, exactly specified state
//! machine over the three entries, skipping the load entry when there is no
//! save to load.

use vstd::prelude::*;

verus! {

#[derive(Clone, Copy, PartialEq, Eq, Structural, Debug)]
pub enum MainMenuSelection {
    NewGame,
    LoadGame,
    Quit,
}

#[derive(Clone, Copy, PartialEq, Eq, Structural, Debug)]
pub enum MainMenuResult {
    NoSelection { selected: MainMenuSelection },
    Selected { selected: MainMenuSelection },
}

/// A menu keystroke, already freed of any windowing detail.
#[derive(Clone, Copy, PartialEq, Eq, Structural, Debug)]
pub enum MenuKey {
    Up,
    Down,
    Select,
    Escape,
    Other,
}

/// What the menu does with one keystroke.
pub open spec fn spec_main_menu(
    current: MainMenuSelection, key: Option<MenuKey>, save_exists: bool,
) -> MainMenuResult {
    match key {
        Option::None => MainMenuResult::NoSelection { selected: current },
        Option::Some(k) => match k {
            MenuKey::Escape => MainMenuResult::NoSelection {
                selected: MainMenuSelection::Quit,
            },
            MenuKey::Up => {
                let up = match current {
                    MainMenuSelection::NewGame => MainMenuSelection::Quit,
                    MainMenuSelection::LoadGame => MainMenuSelection::NewGame,
                    MainMenuSelection::Quit => MainMenuSelection::LoadGame,
                };
                if !save_exists && up is LoadGame {
                    MainMenuResult::NoSelection { selected: MainMenuSelection::NewGame }
                } else {
                    MainMenuResult::NoSelection { selected: up }
                }
            }
            MenuKey::Down => {
                let down = match current {
                    MainMenuSelection::NewGame => MainMenuSelection::LoadGame,
                    MainMenuSelection::LoadGame => MainMenuSelection::Quit,
                    MainMenuSelection::Quit => MainMenuSelection::NewGame,
                };
                if !save_exists && down is LoadGame {
                    MainMenuResult::NoSelection { selected: MainMenuSelection::Quit }
                } else {
                    MainMenuResult::NoSelection { selected: down }
                }
            }
            MenuKey::Select => MainMenuResult::Selected { selected: current },
            MenuKey::Other => MainMenuResult::NoSelection { selected: current },
        },
    }
}

/// Moves the highlight or confirms the choice; without a saved game the
/// load entry is skipped over in either direction.
pub fn main_menu(
    current: MainMenuSelection, key: Option<MenuKey>, save_exists: bool,
) -> (r: MainMenuResult)
    ensures
        r == spec_main_menu(current, key, save_exists),
{
    match key {
        None => MainMenuResult::NoSelection { selected: current },
        Some(k) => match k {
            MenuKey::Escape => MainMenuResult::NoSelection {
                selected: MainMenuSelection::Quit,
            },
            MenuKey::Up => {
                let mut newselection = match current {
                    MainMenuSelection::NewGame => MainMenuSelection::Quit,
                    MainMenuSelection::LoadGame => MainMenuSelection::NewGame,
                    MainMenuSelection::Quit => MainMenuSelection::LoadGame,
                };
                if !save_exists && newselection == MainMenuSelection::LoadGame {
                    newselection = MainMenuSelection::NewGame;
                }
                MainMenuResult::NoSelection { selected: newselection }
            }
            MenuKey::Down => {
                let mut newselection = match current {
                    MainMenuSelection::NewGame => MainMenuSelection::LoadGame,
                    MainMenuSelection::LoadGame => MainMenuSelection::Quit,
                    MainMenuSelection::Quit => MainMenuSelection::NewGame,
                };
                if !save_exists && newselection == MainMenuSelection::LoadGame {
                    newselection = MainMenuSelection::Quit;
                }
                MainMenuResult::NoSelection { selected: newselection }
            }
            MenuKey::Select => MainMenuResult::Selected { selected: current },
            MenuKey::Other => MainMenuResult::NoSelection { selected: current },
        },
    }
}

} // verus!
