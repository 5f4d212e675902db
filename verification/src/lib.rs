//! A small convention-driven static file server library.
//!
//! The library covers the logic of serving a directory tree over HTTP:
//! mapping a request path to a resource on disk (with implicit extensions
//! and implicit directory indexes), cascading per-directory configuration,
//! the ordered request-handling chain, and response assembly. Transport,
//! template rendering and all other I/O live outside the library and hand
//! it plain values.

pub mod strutil;
pub mod vfs;
pub mod request_config;
pub mod resource;
pub mod common;
pub mod response;
pub mod request;
pub mod middleware;
pub mod server;
