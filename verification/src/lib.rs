//! Verified core of a Bitcoin vanity-address search tool.
//!
//! The library maps a `(seed, attempt index)` pair deterministically to
//! candidate key material, encodes candidate keys as Base58Check or
//! Bech32/Bech32m addresses, matches addresses against prefix/suffix
//! patterns, and manages resumable checkpoints of search progress.
//! Process wiring (threads, files, command line) lives outside the library.

pub mod address;
pub mod base58;
pub mod checkpoint;
pub mod config;
pub mod derive;
pub mod search;
pub mod external;
pub mod hexstr;
pub mod pattern;
pub mod rng;
