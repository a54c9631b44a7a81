//! Route resolution, configuration validation and cache decisions of a caching HTTP proxy.

pub mod boundary;
pub mod config;
pub mod flow;
pub mod info;
pub mod laws;
pub mod proxy;
pub mod response;
pub mod text;
