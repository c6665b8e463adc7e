//! The native-window shell: what each shell command does.
pub mod window_manager;
pub mod widget_window;

use vstd::prelude::*;

use crate::app_core::contract::{ShellCommand, WindowId};

verus! {

/// What the shell does to the main window.
#[derive(Debug, Clone, Copy, PartialEq, Eq, Structural)]
pub enum MainWindowShellEffect {
    Show,
    Hide,
    Exit,
}

/// What the shell does for a command: act on the main window, or show or
/// hide the widget (which is also remembered in the settings).
#[derive(Debug, Clone, Copy, PartialEq, Eq, Structural)]
pub enum ShellEffect {
    MainWindow(MainWindowShellEffect),
    WidgetVisibility(bool),
}

/// Showing or focusing the main window shows it, hiding hides it, exiting
/// exits; showing and hiding the widget change its visibility; focusing the
/// widget does nothing.
pub open spec fn effect_of(command: ShellCommand) -> Option<ShellEffect> {
    match command {
        ShellCommand::ShowWindow(WindowId::Main) => Some(ShellEffect::MainWindow(MainWindowShellEffect::Show)),
        ShellCommand::FocusWindow(WindowId::Main) => Some(ShellEffect::MainWindow(MainWindowShellEffect::Show)),
        ShellCommand::HideWindow(WindowId::Main) => Some(ShellEffect::MainWindow(MainWindowShellEffect::Hide)),
        ShellCommand::ShowWindow(WindowId::Widget) => Some(ShellEffect::WidgetVisibility(true)),
        ShellCommand::HideWindow(WindowId::Widget) => Some(ShellEffect::WidgetVisibility(false)),
        ShellCommand::ExitProcess => Some(ShellEffect::MainWindow(MainWindowShellEffect::Exit)),
        ShellCommand::FocusWindow(WindowId::Widget) => None,
    }
}

/// The effect of a shell command.
pub fn shell_effect(command: &ShellCommand) -> (r: Option<ShellEffect>)
    ensures
        r == effect_of(*command),
{
    match command {
        ShellCommand::ShowWindow(WindowId::Main) | ShellCommand::FocusWindow(WindowId::Main) => {
            Some(ShellEffect::MainWindow(MainWindowShellEffect::Show))
        },
        ShellCommand::HideWindow(WindowId::Main) => {
            Some(ShellEffect::MainWindow(MainWindowShellEffect::Hide))
        },
        ShellCommand::ShowWindow(WindowId::Widget) => Some(ShellEffect::WidgetVisibility(true)),
        ShellCommand::HideWindow(WindowId::Widget) => Some(ShellEffect::WidgetVisibility(false)),
        ShellCommand::ExitProcess => Some(ShellEffect::MainWindow(MainWindowShellEffect::Exit)),
        _ => None,
    }
}

} // verus!
