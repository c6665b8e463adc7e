//! Decisions that the runtime takes.
pub mod window_lifecycle;
