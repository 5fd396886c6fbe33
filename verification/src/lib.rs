//! Runtime for bandwidth-adaptive streaming connections.
//!
//! Two subsystems: a bandwidth-driven configuration selector (a ranked table
//! of levels searched by measured bandwidth) and a framed transport layer (a
//! backpressure-aware sink, a throughput counter, and a pull-based decode
//! state machine for incoming frames).

pub mod codec;
pub mod profile;
pub mod socket;
pub mod transport;
