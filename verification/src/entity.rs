//! The data model: photo identities, user labels, collections and the maps
//! built from them.

pub mod assoc;
pub mod collections;
pub mod day;
