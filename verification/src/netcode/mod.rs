//! Netcode: sequence/ack math, frame encoding, snapshots and deltas.

pub mod aoi;
pub mod delta;
pub mod framing;
pub mod priority;
pub mod reliability;
pub mod snapshot;
pub mod transport;
