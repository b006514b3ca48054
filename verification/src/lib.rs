//! A minimal game-server protocol core: a length-prefixed binary codec with
//! variable-length integers, the closed set of inbound and outbound packet
//! variants, the per-connection state machine that gates which packets are
//! legal in which session phase, a command-graph encoder, and the login flow
//! with its proxy-trust signature check.
//!
//! Everything here is pure logic on plain values: sockets, threads and the
//! plugin host live outside, feed events in, and carry the produced actions
//! out.

pub mod protocol;
pub mod data;
pub mod serverbound;
pub mod clientbound;
pub mod command;
pub mod config;
pub mod server;
