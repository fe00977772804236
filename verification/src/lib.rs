//! A minimal HTTP/1.1 server engine: request decoding, route matching with
//! path-parameter extraction, a bounded worker pool, and response encoding.
//!
//! The engine itself is pure logic over strings and plain values; binding
//! sockets, reading streams and spawning threads live outside this crate.

pub mod handler;
pub mod http_constants;
pub mod request;
pub mod response;
pub mod server;
pub mod server_builder;
pub mod service;
pub mod services;
pub mod text;
pub mod workpool;
