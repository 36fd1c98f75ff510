//! Core engine of a multi-protocol round-trip latency benchmark.
//!
//! The library covers everything a benchmark trial decides or computes:
//! building and decoding indexed message payloads, collecting receive
//! timestamps into slot-indexed arrays, reducing matched timestamp pairs
//! into latency statistics through a bounded-memory histogram, and laying
//! out stepped load schedules.  Transports, clocks, threads and files are
//! the caller's business: the engine consumes and produces plain values.

use vstd::prelude::*;

pub mod benchmarker;
pub mod codec;
pub mod config;
pub mod histogram;
pub mod schedule;
pub mod stats;

verus! {

/// Error for configuration parameters that no run may start with.
#[derive(Debug, Clone, Copy, PartialEq, Eq, Structural)]
pub enum ConfigError {
    /// The message size leaves no room behind the eight index bytes.
    MessageSizeTooSmall,
    /// A schedule with no steps was requested.
    NoSteps,
    /// The ramp's stop rate lies below its start rate.
    RampNotAscending,
    /// A step's rate or message count exceeds what the engine can count.
    RateOverflow,
}

/// Error reported by a transport adapter on a failed send or receive.
///
/// The engine counts such failures and continues; they never abort a run.
#[derive(Debug, Clone, Copy, PartialEq, Eq, Structural)]
pub enum TransportError {
    /// The adapter could not hand the payload to its peer.
    SendFailed,
    /// The adapter could not take a payload from its peer.
    ReceiveFailed,
}

} // verus!
