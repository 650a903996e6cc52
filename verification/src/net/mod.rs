//! Matches over a network, with one host in charge.
//!
//! The host runs the game. The others send their input and draw what the host
//! sends back, so nothing has to be kept in step between machines.

pub mod client;
pub mod protocol;
pub mod server;
