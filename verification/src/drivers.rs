//! The outer layer: folders that were read from disk, and the command line's
//! arguments.

pub mod cli;
pub mod errors;
pub mod photo_provider;
