//! A permissioned document-access registry.
//!
//! The library keeps references to externally stored content, each owned by
//! exactly one principal, together with a bounded access list of other
//! principals permitted to view it. Three linked records (document, owner
//! profile, grantee profile) are kept mutually consistent under grant,
//! revoke and delete operations; every operation is authorization-checked
//! and every list is bounded, with explicit overflow errors.

use vstd::prelude::*;

pub mod address;
pub mod errors;
pub mod hashing;
pub mod ops;
pub mod principal;
pub mod records;
pub mod registry;
pub mod store;

verus! {

} // verus!
