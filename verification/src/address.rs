//! Address derivation.
//!
//! A record's storage address is derived deterministically from a namespace
//! tag, a principal identity, and — for documents only — the 32-byte digest
//! of the content identifier. The derivation is a pure function: the same
//! inputs always yield the same address, distinct inputs within a namespace
//! yield distinct addresses, and no two namespaces collide.

use vstd::prelude::*;
use crate::principal::Principal;

verus! {

/// Namespace tag of document records: the bytes of `"document"`.
pub open spec fn document_tag() -> Seq<u8> {
    seq![100u8, 111u8, 99u8, 117u8, 109u8, 101u8, 110u8, 116u8]
}

/// Namespace tag of owner profiles: the bytes of `"patient_profile"`.
pub open spec fn patient_profile_tag() -> Seq<u8> {
    seq![112u8, 97u8, 116u8, 105u8, 101u8, 110u8, 116u8, 95u8, 112u8, 114u8, 111u8, 102u8, 105u8, 108u8, 101u8]
}

/// Namespace tag of grantee profiles: the bytes of `"doctor_profile"`.
pub open spec fn doctor_profile_tag() -> Seq<u8> {
    seq![100u8, 111u8, 99u8, 116u8, 111u8, 114u8, 95u8, 112u8, 114u8, 111u8, 102u8, 105u8, 108u8, 101u8]
}

/// The address of the document record owned by `owner` whose content
/// identifier has digest `digest`.
pub open spec fn document_address(owner: Seq<u8>, digest: Seq<u8>) -> Seq<u8> {
    document_tag() + owner + digest
}

/// The address of `user`'s owner profile.
pub open spec fn patient_profile_address(user: Seq<u8>) -> Seq<u8> {
    patient_profile_tag() + user
}

/// The address of `user`'s grantee profile.
pub open spec fn doctor_profile_address(user: Seq<u8>) -> Seq<u8> {
    doctor_profile_tag() + user
}

/// Appends the 32 bytes of `src` to `out`.
fn push_array32(out: &mut Vec<u8>, src: &[u8; 32])
    ensures
        final(out)@ == old(out)@ + src@,
{
    let mut i: usize = 0;
    while i < 32
        invariant
            i <= 32,
            out@ == old(out)@ + src@.subrange(0, i as int),
        decreases 32 - i,
    {
        out.push(src[i]);
        proof {
            assert(old(out)@ + src@.subrange(0, i as int + 1)
                =~= (old(out)@ + src@.subrange(0, i as int)).push(src@[i as int]));
        }
        i = i + 1;
    }
    proof {
        assert(out@ =~= old(out)@ + src@);
    }
}

/// Derives the storage address of the document record owned by `owner`
/// whose content identifier has digest `digest`.
pub fn derive_document_address(owner: &Principal, digest: &[u8; 32]) -> (addr: Vec<u8>)
    ensures
        addr@ == document_address(owner@, digest@),
{
    let mut addr: Vec<u8> = Vec::new();
    addr.push(100u8);
    addr.push(111u8);
    addr.push(99u8);
    addr.push(117u8);
    addr.push(109u8);
    addr.push(101u8);
    addr.push(110u8);
    addr.push(116u8);
    proof {
        assert(addr@ =~= document_tag());
    }
    push_array32(&mut addr, &owner.bytes);
    push_array32(&mut addr, digest);
    proof {
        assert(addr@ =~= document_address(owner@, digest@));
    }
    addr
}

/// Derives the storage address of `user`'s owner profile.
pub fn derive_patient_profile_address(user: &Principal) -> (addr: Vec<u8>)
    ensures
        addr@ == patient_profile_address(user@),
{
    let mut addr: Vec<u8> = Vec::new();
    addr.push(112u8);
    addr.push(97u8);
    addr.push(116u8);
    addr.push(105u8);
    addr.push(101u8);
    addr.push(110u8);
    addr.push(116u8);
    addr.push(95u8);
    addr.push(112u8);
    addr.push(114u8);
    addr.push(111u8);
    addr.push(102u8);
    addr.push(105u8);
    addr.push(108u8);
    addr.push(101u8);
    proof {
        assert(addr@ =~= patient_profile_tag());
    }
    push_array32(&mut addr, &user.bytes);
    proof {
        assert(addr@ =~= patient_profile_address(user@));
    }
    addr
}

/// Derives the storage address of `user`'s grantee profile.
pub fn derive_doctor_profile_address(user: &Principal) -> (addr: Vec<u8>)
    ensures
        addr@ == doctor_profile_address(user@),
{
    let mut addr: Vec<u8> = Vec::new();
    addr.push(100u8);
    addr.push(111u8);
    addr.push(99u8);
    addr.push(116u8);
    addr.push(111u8);
    addr.push(114u8);
    addr.push(95u8);
    addr.push(112u8);
    addr.push(114u8);
    addr.push(111u8);
    addr.push(102u8);
    addr.push(105u8);
    addr.push(108u8);
    addr.push(101u8);
    proof {
        assert(addr@ =~= doctor_profile_tag());
    }
    push_array32(&mut addr, &user.bytes);
    proof {
        assert(addr@ =~= doctor_profile_address(user@));
    }
    addr
}

/// Law: document-address derivation is injective in the owner and the
/// digest — two document addresses agree only when both inputs agree.
pub proof fn lemma_document_address_injective(
    o1: Seq<u8>,
    d1: Seq<u8>,
    o2: Seq<u8>,
    d2: Seq<u8>,
)
    requires
        o1.len() == 32,
        o2.len() == 32,
        d1.len() == 32,
        d2.len() == 32,
        document_address(o1, d1) == document_address(o2, d2),
    ensures
        o1 == o2,
        d1 == d2,
{
    let a1 = document_address(o1, d1);
    let a2 = document_address(o2, d2);
    assert forall|i: int| 0 <= i < 32 implies o1[i] == o2[i] by {
        assert(a1[8 + i] == o1[i]);
        assert(a2[8 + i] == o2[i]);
    }
    assert forall|i: int| 0 <= i < 32 implies d1[i] == d2[i] by {
        assert(a1[40 + i] == d1[i]);
        assert(a2[40 + i] == d2[i]);
    }
    assert(o1 =~= o2);
    assert(d1 =~= d2);
}

/// Law: profile-address derivation is injective in the principal, in each
/// profile namespace.
pub proof fn lemma_profile_address_injective(u1: Seq<u8>, u2: Seq<u8>)
    ensures
        patient_profile_address(u1) == patient_profile_address(u2) ==> u1 == u2,
        doctor_profile_address(u1) == doctor_profile_address(u2) ==> u1 == u2,
{
    if patient_profile_address(u1) == patient_profile_address(u2) {
        assert(patient_profile_address(u1).len() == 15 + u1.len());
        assert(patient_profile_address(u2).len() == 15 + u2.len());
        assert(u1.len() == u2.len());
        assert forall|i: int| 0 <= i < u1.len() implies u1[i] == u2[i] by {
            assert(patient_profile_address(u1)[15 + i] == u1[i]);
            assert(patient_profile_address(u2)[15 + i] == u2[i]);
        }
        assert(u1 =~= u2);
    }
    if doctor_profile_address(u1) == doctor_profile_address(u2) {
        assert(doctor_profile_address(u1).len() == 14 + u1.len());
        assert(doctor_profile_address(u2).len() == 14 + u2.len());
        assert(u1.len() == u2.len());
        assert forall|i: int| 0 <= i < u1.len() implies u1[i] == u2[i] by {
            assert(doctor_profile_address(u1)[14 + i] == u1[i]);
            assert(doctor_profile_address(u2)[14 + i] == u2[i]);
        }
        assert(u1 =~= u2);
    }
}

/// Law: the three namespaces never collide — a document address is never a
/// profile address, and the two profile namespaces are disjoint.
pub proof fn lemma_namespaces_disjoint(o: Seq<u8>, d: Seq<u8>, u1: Seq<u8>, u2: Seq<u8>)
    requires
        o.len() == 32,
        d.len() == 32,
        u1.len() == 32,
        u2.len() == 32,
    ensures
        document_address(o, d) != patient_profile_address(u1),
        document_address(o, d) != doctor_profile_address(u2),
        patient_profile_address(u1) != doctor_profile_address(u2),
{
    assert(document_address(o, d).len() == 72);
    assert(patient_profile_address(u1).len() == 47);
    assert(doctor_profile_address(u2).len() == 46);
}

} // verus!
