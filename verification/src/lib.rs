//! Decision core of den, a Docker-based sandbox runtime.

pub mod api;
pub mod clock;
pub mod config;
pub mod cpus;
pub mod docker;
pub mod error;
pub mod naming;
pub mod pool;
pub mod proxy;
pub mod reaper;
pub mod registry;
pub mod sandbox;
pub mod scheduler;
pub mod session;
pub mod tarball;
pub mod text;
