//! A small event-driven HTTP/1.1 origin server library: incremental request
//! parsing, virtual-host and route resolution, admission control, response
//! production and the per-connection state machine, all verified.

pub mod cgi;
pub mod config;
pub mod error;
pub mod handler;
pub mod models;
pub mod read;
pub mod request;
pub mod response;
pub mod router;
pub mod server;
pub mod session;
pub mod strutil;
pub mod write;
