//! Application-side adapter core for a pluggable BFT consensus engine.
//!
//! The library models the consensus-event handling loop that drives the
//! height/round/proposal lifecycle of a chain application: it consumes a
//! strictly ordered stream of engine events, mutates the application state,
//! produces the reply the engine needs, and splits/reassembles proposed
//! values streamed over the network as ordered parts.

pub mod codec;
pub mod handler;
pub mod reassembly;
pub mod state;
pub mod types;
