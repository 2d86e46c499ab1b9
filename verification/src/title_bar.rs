//! The title bar: its menu and the window buttons' commands.

use vstd::prelude::*;

verus! {

/// The three window buttons, green, yellow and red.
pub enum TitleButton {
    Green,
    Yellow,
    Red,
}

/// The window commands sent to the desktop shell.
pub enum WindowCommand {
    Minimize,
    ToggleMaximize,
    Close,
}

/// The command of a window button: green minimizes, yellow maximizes or
/// restores, red closes.
pub fn window_command(b: TitleButton) -> (c: WindowCommand)
    ensures
        match b {
            TitleButton::Green => c is Minimize,
            TitleButton::Yellow => c is ToggleMaximize,
            TitleButton::Red => c is Close,
        },
{
    match b {
        TitleButton::Green => WindowCommand::Minimize,
        TitleButton::Yellow => WindowCommand::ToggleMaximize,
        TitleButton::Red => WindowCommand::Close,
    }
}

/// The name under which the desktop shell knows a window command.
pub open spec fn command_name_text(c: WindowCommand) -> Seq<char> {
    match c {
        WindowCommand::Minimize => "minimize_window"@,
        WindowCommand::ToggleMaximize => "toggle_maximize"@,
        WindowCommand::Close => "close_window"@,
    }
}

/// The name sent to the desktop shell for a window command.
pub fn command_name(c: WindowCommand) -> (r: &'static str)
    ensures
        r@ == command_name_text(c),
{
    match c {
        WindowCommand::Minimize => "minimize_window",
        WindowCommand::ToggleMaximize => "toggle_maximize",
        WindowCommand::Close => "close_window",
    }
}

/// Whether the title bar's menu is shown.
pub struct TitleBarState {
    pub menu_open: bool,
}

impl TitleBarState {
    /// The menu is hidden.
    pub fn new() -> (s: TitleBarState)
        ensures
            !s.menu_open,
    {
        TitleBarState { menu_open: false }
    }

    /// The menu button is pressed: the menu is shown.
    pub fn open_menu(&mut self)
        ensures
            final(self).menu_open,
    {
        self.menu_open = true;
    }

    /// A click outside the menu hides it.
    pub fn close_menu(&mut self)
        ensures
            !final(self).menu_open,
    {
        self.menu_open = false;
    }
}

} // verus!
