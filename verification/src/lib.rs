//! Verified core of the Signal Desk trading-signal monitor.
pub mod text;
pub mod domain;
pub mod api;
pub mod collections;
pub mod config;
pub mod app_core;
pub mod poller;
pub mod alerts;
pub mod unread_panel;
pub mod app;
pub mod adapters;
pub mod shell;
pub mod protocol;
