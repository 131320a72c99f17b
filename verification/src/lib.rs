//! Reverse proxy, service registry and authentication layer for container clusters:
//! the request routing, header and path handling, and the decisions that the
//! server takes on each request.

pub mod cache;
pub mod config;
pub mod dash;
pub mod proxy;
pub mod router;
pub mod security;
pub mod session;
pub mod utils;
