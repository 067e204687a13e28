//! An authoritative tick-driven simulation engine and its synchronisation
//! protocol: fixed-step world updates, command application, snapshot/delta
//! decisions and a deterministic state fingerprint.
pub mod protocol;
pub mod physics;
pub mod rng;
pub mod ids;
pub mod sim;
pub mod fingerprint;
pub mod diff;
pub mod sync;
pub mod laws;
