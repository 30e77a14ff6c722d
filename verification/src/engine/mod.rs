//! The Raft engine.

pub mod model;
pub mod engine_impl;
pub mod event;
pub mod effect;
pub mod validity;
pub mod laws;
pub mod meaning;
pub mod log_meaning;
