//! Example handlers served by the engine.

pub mod example_services;
pub mod test_service;
