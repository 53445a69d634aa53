//! Core logic of a two-controller split keyboard: a QoS-tiered transmission
//! pool with backpressure, the half-duplex interboard transport (framing,
//! checksums, retries, duplicate rejection), a fan-out distributor, and the
//! double-reset bootloader handshake.
//!
//! Everything here is hardware-independent: pin levels, persisted words and
//! received bytes come in as plain values, and decisions go back out as plain
//! values, so the whole of the logic is verified.

pub mod bootloader;
pub mod distributor;
pub mod frame;
pub mod keys;
pub mod messages;
pub mod pool;
pub mod side;
pub mod transport;
