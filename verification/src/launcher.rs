//! The launcher window's open and close decisions, and the tray menu's.

use vstd::prelude::*;

use crate::text::same_chars;

verus! {

/// What to do with the launcher window.
#[derive(Clone, Copy, PartialEq, Eq, Structural, Debug)]
pub enum LauncherAction {
    /// Remember the paste target, position, show and focus it.
    Show,
    /// Hide it and tell the front end.
    Hide,
    /// Leave it as it is.
    Keep,
}

/// A mouse button on the tray icon.
#[derive(Clone, Copy, PartialEq, Eq, Structural, Debug)]
pub enum TrayButton {
    Left,
    Right,
    Middle,
}

/// The global shortcut: a launcher that is visible and focused closes, any
/// other opens.
pub fn toggle_action(visible: bool, focused: bool) -> (r: LauncherAction)
    ensures
        r == if visible && focused { LauncherAction::Hide } else { LauncherAction::Show },
{
    if visible && focused {
        LauncherAction::Hide
    } else {
        LauncherAction::Show
    }
}

/// A left click on the tray icon. Losing focus to the tray does not close
/// the launcher (see [`blur_action`]), so `visible` is the state before the
/// click: an open launcher closes, a closed one opens.
pub fn tray_toggle_action(visible: bool) -> (r: LauncherAction)
    ensures
        r == if visible { LauncherAction::Hide } else { LauncherAction::Show },
{
    if visible {
        LauncherAction::Hide
    } else {
        LauncherAction::Show
    }
}

/// Losing focus closes the launcher, unless the pointer is on the tray icon:
/// then the click that follows decides.
pub fn blur_action(cursor_on_tray: bool) -> (r: LauncherAction)
    ensures
        r == if cursor_on_tray { LauncherAction::Keep } else { LauncherAction::Hide },
{
    if cursor_on_tray {
        LauncherAction::Keep
    } else {
        LauncherAction::Hide
    }
}

/// A released click on the tray icon: the left button toggles, the right one
/// closes the launcher (its menu opens), the middle one does nothing.
pub fn tray_click_action(button: TrayButton, visible: bool) -> (r: LauncherAction)
    ensures
        r == match button {
            TrayButton::Left => if visible { LauncherAction::Hide } else { LauncherAction::Show },
            TrayButton::Right => LauncherAction::Hide,
            TrayButton::Middle => LauncherAction::Keep,
        },
{
    match button {
        TrayButton::Left => tray_toggle_action(visible),
        TrayButton::Right => LauncherAction::Hide,
        TrayButton::Middle => LauncherAction::Keep,
    }
}

/// Id of the tray menu item that opens the launcher.
pub const MENU_OPEN: &'static str = "open-launcher";

/// Id of the tray menu item that quits the application.
pub const MENU_QUIT: &'static str = "quit";

/// What a tray menu item does.
#[derive(Clone, Copy, PartialEq, Eq, Structural, Debug)]
pub enum MenuAction {
    /// Show the launcher.
    OpenLauncher,
    /// Exit the application.
    Quit,
    /// Nothing (an id that the menu does not hold).
    Ignore,
}

/// The action of the tray menu item with id `id`.
pub fn menu_action(id: &str) -> (r: MenuAction)
    ensures
        r == if id@ == MENU_OPEN@ {
            MenuAction::OpenLauncher
        } else if id@ == MENU_QUIT@ {
            MenuAction::Quit
        } else {
            MenuAction::Ignore
        },
{
    if same_chars(id, MENU_OPEN) {
        MenuAction::OpenLauncher
    } else if same_chars(id, MENU_QUIT) {
        MenuAction::Quit
    } else {
        MenuAction::Ignore
    }
}

} // verus!
