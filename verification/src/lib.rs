//! A real-time fan-out chat core: a registry of live sessions that routes
//! every broadcast payload to each registered outbound handle, and a
//! per-connection session that translates transport frames into registry
//! events.  The registry's contracts are stated over a mathematical map
//! from session identity to the state of that session's outbound handle.

pub mod messages;
pub mod registry;
pub mod session;
pub mod laws;
