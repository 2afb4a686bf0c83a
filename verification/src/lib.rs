//! Remote-console protocol server core: a length-prefixed binary packet
//! codec, a byte-budgeted console output buffer, and the per-connection
//! authentication and dispatch state machine that ties them together.

pub mod bindings;
pub mod codec;
pub mod config;
pub mod console;
pub mod console_hook;
pub mod rcon;
