//! The basic per-connection handler's decisions.

pub mod handle;
