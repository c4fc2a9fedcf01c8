//! The error taxonomy of the registry.

use vstd::prelude::*;

verus! {

/// Everything that can go wrong with a registry operation.
///
/// - `Unauthorized`: the caller is not the authorized principal for a
///   mutating or destructive operation.
/// - `MissingOwnerProfile`: a document was initialized by a principal that
///   has no owner profile yet.
/// - `ProfileAlreadyExists`: a profile was initialized twice for the same
///   principal.
/// - `DuplicateDocument`: a document was initialized at an address that is
///   already occupied.
/// - `AccessListFull`: a grant would push a document's access list past its
///   bound.
/// - `ProfileCapacityExceeded`: an operation would push a profile's document
///   list past its bound.
#[derive(Clone, Copy, Debug, PartialEq, Eq, Structural)]
pub enum ContractError {
    Unauthorized,
    MissingOwnerProfile,
    ProfileAlreadyExists,
    DuplicateDocument,
    AccessListFull,
    ProfileCapacityExceeded,
}

} // verus!
