//! A small HTTP/1.1 server library: request parsing, response framing,
//! routing, static-file path handling, and the bookkeeping of a
//! single-threaded task executor and an epoll readiness registry.

pub mod http;
pub mod router;
pub mod runtime;
pub mod static_files;
pub mod server;
