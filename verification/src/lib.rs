//! A verified core for a prefork HTTP static-file server: the request/response
//! codec, the traversal-safe static-file resolver over an in-memory view of the
//! confinement root, and the per-connection buffered state machine that the
//! poll-driven worker loop steps.
pub mod bytes;
pub mod config;
pub mod conn;
pub mod handler;
pub mod http;
pub mod static_files;
