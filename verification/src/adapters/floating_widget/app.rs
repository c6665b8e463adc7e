//! The widget's window.
use std::sync::atomic::{AtomicBool, Ordering};
use vstd::prelude::*;

verus! {

/// The title of the widget's window, by which the shell finds it.
pub fn widget_viewport_title() -> (t: &'static str)
    ensures
        t@ == "Signal Desk Widget"@,
{
    "Signal Desk Widget"
}

/// The native window style has to be installed exactly while it has not
/// been installed yet.
pub fn native_install_needed(installed: bool) -> (r: bool)
    ensures
        r == !installed,
{
    !installed
}

/// Whether the native window style still has to be installed, by the flag
/// that `mark_native_install` sets.
pub fn should_install_native(installed: &AtomicBool) -> bool {
    native_install_needed(installed.load(Ordering::SeqCst))
}

/// Records that the native window style has been installed.
pub fn mark_native_install(installed: &AtomicBool) {
    installed.store(true, Ordering::SeqCst);
}

} // verus!
