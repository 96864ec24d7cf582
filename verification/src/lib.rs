//! Verified core of a remote command agent.
pub mod text;
pub mod security;
pub mod config;
pub mod protocol;
pub mod paths;
pub mod executor;
pub mod client;
