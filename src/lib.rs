//! A WebSocket protocol engine: the base-frame codec and the pieces built on it.
pub mod wire;
pub mod utf8;
pub mod frame;
pub mod codec;
pub mod stream;
pub mod assembler;
pub mod close;
pub mod session;
