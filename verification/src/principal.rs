//! Principal identities: 32-byte values that name the parties issuing
//! operations and owning or receiving access.

use vstd::prelude::*;

verus! {

/// An identity capable of issuing operations and owning or receiving access.
/// It is an opaque 32-byte value; the library only compares identities and
/// feeds their bytes into address derivation.
#[derive(Clone, Copy, Debug, PartialEq, Eq)]
pub struct Principal {
    pub bytes: [u8; 32],
}

impl View for Principal {
    type V = Seq<u8>;

    open spec fn view(&self) -> Seq<u8> {
        self.bytes@
    }
}

impl Principal {
    /// Builds a principal from its 32 identity bytes.
    pub fn new(bytes: [u8; 32]) -> (p: Principal)
        ensures
            p@ == bytes@,
    {
        Principal { bytes }
    }

    /// Decides whether two principals are the same identity.
    pub fn same_as(&self, other: &Principal) -> (r: bool)
        ensures
            r == (self@ == other@),
    {
        let mut i: usize = 0;
        while i < 32
            invariant
                i <= 32,
                forall|j: int| 0 <= j < i ==> self.bytes@[j] == other.bytes@[j],
            decreases 32 - i,
        {
            if self.bytes[i] != other.bytes[i] {
                return false;
            }
            i = i + 1;
        }
        proof {
            assert(self@ =~= other@);
        }
        true
    }
}

} // verus!
