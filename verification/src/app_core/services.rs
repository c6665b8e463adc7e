//! Services that the runtime drives.
pub mod poller_service;
