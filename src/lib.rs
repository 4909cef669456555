//! Client-side engine for a binary, object-oriented IPC protocol spoken over a
//! local socket: wire codec, object table, event queues and the connection
//! state that ties them together.

pub mod bytes;
pub mod wire;
pub mod objects;
pub mod display;
