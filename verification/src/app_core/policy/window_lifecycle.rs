//! What closing the main window means.
use vstd::prelude::*;

verus! {

/// The two answers to a close request.
#[derive(Clone, Copy, Debug, PartialEq, Eq, Structural)]
pub enum CloseAction {
    MinimizeToTray,
    CloseApp,
}

/// Closing the main window closes the app unless configured otherwise.
pub fn default_allow_close() -> (r: bool)
    ensures
        r,
{
    true
}

/// No request, no action; a request closes the app where closing is allowed
/// or no tray icon could take the window, and hides the window otherwise.
pub open spec fn close_action(close_requested: bool, allow_close: bool, tray_available: bool) -> Option<CloseAction> {
    if !close_requested {
        None
    } else if allow_close || !tray_available {
        Some(CloseAction::CloseApp)
    } else {
        Some(CloseAction::MinimizeToTray)
    }
}

/// No request, no action; a request closes the app where closing is allowed
/// or no tray icon could take the window, and hides the window to the tray
/// otherwise.
pub fn close_action_for_request(close_requested: bool, allow_close: bool, tray_available: bool) -> (r:
    Option<CloseAction>)
    ensures
        r == close_action(close_requested, allow_close, tray_available),
{
    if !close_requested {
        return None;
    }
    if allow_close || !tray_available {
        Some(CloseAction::CloseApp)
    } else {
        Some(CloseAction::MinimizeToTray)
    }
}

} // verus!
