//! A terminal-session multiplexer core: a registry of PTY-backed sessions,
//! a bounded scrollback buffer, a length-prefixed frame codec with a binary
//! message encoding, and the control-plane decision logic that a daemon and
//! its clients drive over a local socket.

pub mod codec;
pub mod common;
pub mod dispatch;
pub mod endian;
pub mod keys;
pub mod messages;
pub mod registry;
pub mod scrollback;
pub mod timefmt;
