//! Read-only questions about the state.
pub mod unread;
