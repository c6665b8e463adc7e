//! The runtime core: contract, state, policies, queries and services.
pub mod contract;
pub mod policy;
pub mod queries;
pub mod runtime;
pub mod services;
pub mod state;
