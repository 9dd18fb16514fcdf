//! Reconciliation of per-day photo collections.
//!
//! Several people keep their photos of one day in folders of their own. This
//! library says, for one of them (the owner) and for every day, which photos
//! each of the others (the peers) has that the owner lacks. It reports; it
//! copies nothing.
//!
//! There are two front ends. `cli` compares every peer with the owner in full.
//! `drivers`, on top of `use_cases` and `interfaces`, first compares
//! fingerprints and takes a provider of collections that callers may replace.
//!
//! The functions here are verified. What they promise is stated over
//! mathematical sets and maps of photo identities, which the `view` of each
//! data type gives. Two calls leave the library, one to chrono for reading a
//! date and one to sha256 for the digest of a photo; what is assumed of each
//! is written above it.

pub mod cli;
pub mod drivers;
pub mod entity;
pub mod interfaces;
pub mod types;
pub mod use_cases;
