//! Verified core of a RedStone-style oracle payload processor.
//!
//! The crate decodes a trailer-encoded binary payload of signed data
//! packages, recovers each package's signer from its ECDSA signature,
//! enforces freshness and signer-consensus policy against a caller-supplied
//! configuration, and aggregates per-feed values into an overflow-safe
//! 256-bit median.

pub mod bytes;
pub mod crypto;
pub mod encoder;
pub mod error;
pub mod median;
pub mod processor;
pub mod redstone;
pub mod state;
pub mod util;
