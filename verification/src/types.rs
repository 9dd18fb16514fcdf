//! The data model under the names that the direct front end uses.

pub use crate::entity::collections::{
    CollectionOfMissing, FriendCollections, MissingPhotos, PhotoCollection, PhotoId, Username,
};
use vstd::prelude::*;

verus! {

/// The label of a peer. A peer is named as any user is.
pub type FriendName = Username;

} // verus!
