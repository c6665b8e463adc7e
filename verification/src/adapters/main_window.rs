//! The main window adapter.
pub mod app;
