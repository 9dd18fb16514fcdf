//! What the reconciliation needs from outside: a provider of collections, and
//! the ways in which providing them fails.

pub mod errors;
pub mod photo_provider;
