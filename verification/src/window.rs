//! The window buttons' decisions. Whether the window is maximized is asked of
//! the windowing system, which may fail to answer (`None`); the caller
//! performs the action chosen here.

use vstd::prelude::*;

verus! {

/// What to do with the window.
pub enum WindowAction {
    Nothing,
    Maximize,
    Unmaximize,
}

/// Whether the window counts as maximized: an unanswered query counts as not.
pub fn is_window_maximized(maximized: Option<bool>) -> (r: bool)
    ensures
        r == is_window_maximized_spec(maximized),
{
    match maximized {
        Some(m) => m,
        None => false,
    }
}

/// The maximize button: a maximized window is restored, another one
/// maximized; nothing happens when the state is unknown.
pub fn toggle_maximize(maximized: Option<bool>) -> (a: WindowAction)
    ensures
        match maximized {
            Some(true) => a is Unmaximize,
            Some(false) => a is Maximize,
            None => a is Nothing,
        },
{
    match maximized {
        Some(true) => WindowAction::Unmaximize,
        Some(false) => WindowAction::Maximize,
        None => WindowAction::Nothing,
    }
}

/// Whether dragging an edge resizes the window: not while it is maximized.
pub fn start_resize(maximized: Option<bool>) -> (r: bool)
    ensures
        r == !is_window_maximized_spec(maximized),
{
    !is_window_maximized(maximized)
}

/// The window counts as maximized.
pub open spec fn is_window_maximized_spec(maximized: Option<bool>) -> bool {
    maximized == Some(true)
}

} // verus!
