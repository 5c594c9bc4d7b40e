//! Verified core of a local-network agent manager: an operator tool that
//! discovers agent daemons advertised on the local network, resolves
//! heterogeneous target strings to base URLs, fans requests out to every
//! target with per-target failure isolation, and a daemon-side command gate
//! that serializes the long-running upgrade operation.

pub mod config;
pub mod daemon;
pub mod discover;
pub mod dispatch;
pub mod gate;
pub mod packages;
pub mod resolve;
pub mod text;
pub mod timeout;
