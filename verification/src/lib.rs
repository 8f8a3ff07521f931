//! A multi-client network audio mixer core.
//!
//! Remote clients push compressed audio frames over a socket; the mixing
//! context decodes them, absorbs network jitter in a per-connection buffer,
//! assigns each connection to the least-loaded output bus, and sums the
//! per-connection samples into each bus once per real-time period.
//!
//! This crate holds the verified core: the jitter-buffer state machine, the
//! bus registry with its load-balancing policy, and the periodic drain/mix
//! step. Transport, TLS, and audio-driver plumbing live outside the library
//! and talk to it through plain values and two bounded control channels.

pub mod codec;
pub mod control;
pub mod jitter;
pub mod mixer;
pub mod registry;
