//! The adapters: the main window, the tray icon and the floating widget.
pub mod floating_widget;
pub mod main_window;
pub mod tray;
