//! Verified core of a rollup notarization worker.
//!
//! The library synthesizes nothing and performs no I/O itself: it derives a
//! deterministic seed from a request payload, decides every step of the
//! content-store publication pipeline as a state machine, verifies that each
//! enumerated block address declares the mandated hash algorithm, assembles
//! the block manifest, and produces the canonical two-layer notice encoding.
//! A thin unverified shell performs the network calls and feeds the results
//! back as events.

pub mod encoding;
pub mod errors;
pub mod hashing;
pub mod address;
pub mod manifest;
pub mod notice;
pub mod driver;
