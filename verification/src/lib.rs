//! Verified core of a gas-measurement recording service.
//!
//! The service stores sensor measurements (lpg, lng, co readings) in a
//! relational database and lists them newest first.  This crate holds the
//! logic that is worth proving: resolving connection configuration,
//! decoding and validating the JSON request body for a store operation,
//! rendering measurements and measurement lists as JSON, and turning the
//! outcome of a database call into an HTTP response.  The HTTP server and
//! the database driver themselves live outside the library.

pub mod config;
pub mod gateway;
pub mod handlers;
pub mod laws;
pub mod measurement;
pub mod model;
pub mod parse;
pub mod render;
