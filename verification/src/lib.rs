//! A remote-debugging server core for a small virtual machine: the packet
//! codec, command parser, breakpoint bookkeeping, register codec, and the
//! session state machine that drives the request/reply exchange with the
//! execution engine.

pub mod breakpoint_set;
pub mod breakpoints;
pub mod codec;
pub mod parser;
pub mod protocol;
pub mod registers;
pub mod session;
pub mod wire;
