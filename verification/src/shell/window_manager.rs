//! Which native window a shell command acts on, and how.
use vstd::prelude::*;

use crate::app_core::contract::{ShellCommand, WindowId};

verus! {

/// The operations that every managed window offers.
pub trait WindowOps: Send + Sync {
    fn show(&self);

    fn hide_window(&self);

    fn focus(&self);

    fn request_close(&self);
}

/// One of the operations of `WindowOps`.
#[derive(Debug, Clone, Copy, PartialEq, Eq, Structural)]
pub enum WindowOp {
    Show,
    Hide,
    Focus,
    RequestClose,
}

/// Show, hide and focus act on the window they name; exiting asks the main
/// window to close.
pub fn window_op_for(command: &ShellCommand) -> (r: (WindowId, WindowOp))
    ensures
        match *command {
            ShellCommand::ShowWindow(id) => r == (id, WindowOp::Show),
            ShellCommand::HideWindow(id) => r == (id, WindowOp::Hide),
            ShellCommand::FocusWindow(id) => r == (id, WindowOp::Focus),
            ShellCommand::ExitProcess => r == (WindowId::Main, WindowOp::RequestClose),
        },
{
    match command {
        ShellCommand::ShowWindow(id) => (*id, WindowOp::Show),
        ShellCommand::HideWindow(id) => (*id, WindowOp::Hide),
        ShellCommand::FocusWindow(id) => (*id, WindowOp::Focus),
        ShellCommand::ExitProcess => (WindowId::Main, WindowOp::RequestClose),
    }
}

} // verus!
