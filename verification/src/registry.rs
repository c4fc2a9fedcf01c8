//! The registry: every record of the system, each stored under its derived
//! address.
//!
//! The registry stands for the record store together with the engine on
//! top of it: each operation derives the addresses it touches, resolves
//! them, runs the record-level operation, and commits either every write
//! or none. An operation that addresses a record the store does not hold
//! is rejected before the engine runs.

use vstd::prelude::*;
use crate::address::{
    derive_doctor_profile_address, derive_document_address, derive_patient_profile_address,
    doctor_profile_address, document_address, lemma_document_address_injective,
    lemma_profile_address_injective, patient_profile_address,
};
use crate::errors::ContractError;
use crate::hashing::{hash_ipfs, sha256_of};
use crate::principal::Principal;
use crate::records::{
    document_key, lemma_push_keeps_no_duplicates, lemma_removed_index_absent, Document,
    DocumentView, DoctorProfile, PatientProfile, ProfileView, MAX_ACCESS_LIST_LEN,
    MAX_CONTENT_ID_LEN, MAX_DESCRIPTION_LEN, MAX_PROFILE_DOCUMENTS, MAX_TITLE_LEN,
};
use crate::store::{
    find_entry, keys_of, lemma_map_of_dom, lemma_map_of_index, lemma_map_of_push,
    lemma_map_of_remove, map_of,
};

verus! {

/// What a registry operation reports when it cannot commit.
///
/// `NotFound` is the store's own rejection: an operation addressed a
/// record that does not exist, so the transaction never reached the
/// engine. `Contract` carries the engine's error.
#[derive(Clone, Copy, Debug, PartialEq, Eq, Structural)]
pub enum RegistryError {
    NotFound,
    Contract(ContractError),
}

/// Document slots carry well-formed documents, each under its own key.
pub open spec fn doc_slots_ok(s: Seq<(Vec<u8>, Document)>) -> bool {
    forall|i: int|
        0 <= i < s.len() ==> (#[trigger] s[i]).1@.wf() && s[i].0@ == document_key(s[i].1@)
}

/// Owner-profile slots carry well-formed profiles, each under its user's
/// owner-profile address.
pub open spec fn patient_slots_ok(s: Seq<(Vec<u8>, PatientProfile)>) -> bool {
    forall|i: int|
        0 <= i < s.len() ==> (#[trigger] s[i]).1@.wf() && s[i].0@ == patient_profile_address(
            s[i].1@.user,
        )
}

/// Grantee-profile slots carry well-formed profiles, each under its
/// user's grantee-profile address.
pub open spec fn doctor_slots_ok(s: Seq<(Vec<u8>, DoctorProfile)>) -> bool {
    forall|i: int|
        0 <= i < s.len() ==> (#[trigger] s[i]).1@.wf() && s[i].0@ == doctor_profile_address(
            s[i].1@.user,
        )
}

/// The linkage between documents and grantee profiles: every principal on
/// a document's access list other than the document's owner has a grantee
/// profile, and that profile references the document. The converse — that
/// every grantee-profile entry points at a live document — is deliberately
/// not maintained: deletion leaves grantee entries dangling.
pub open spec fn maps_linked(
    dm: Map<Seq<u8>, DocumentView>,
    gm: Map<Seq<u8>, ProfileView>,
) -> bool {
    forall|k: Seq<u8>, p: Seq<u8>|
        dm.contains_key(k) && #[trigger] dm[k].access_list.contains(p) && p != dm[k].owner
            ==> gm.contains_key(doctor_profile_address(p)) && gm[doctor_profile_address(
            p,
        )].documents.contains(k)
}

/// Adding a grantee profile at a fresh address keeps the linkage.
proof fn lemma_add_profile_preserves_links(
    dm: Map<Seq<u8>, DocumentView>,
    gm: Map<Seq<u8>, ProfileView>,
    gaddr: Seq<u8>,
    prof: ProfileView,
)
    requires
        maps_linked(dm, gm),
        !gm.contains_key(gaddr),
    ensures
        maps_linked(dm, gm.insert(gaddr, prof)),
{
    let gm2 = gm.insert(gaddr, prof);
    assert forall|k: Seq<u8>, q: Seq<u8>|
        dm.contains_key(k) && #[trigger] dm[k].access_list.contains(q) && q != dm[k].owner
        implies gm2.contains_key(doctor_profile_address(q)) && gm2[doctor_profile_address(
        q,
    )].documents.contains(k) by {
        let qaddr = doctor_profile_address(q);
        assert(gm.contains_key(qaddr));
        assert(qaddr != gaddr);
        assert(gm2[qaddr] == gm[qaddr]);
    }
}

/// Adding a document whose access list holds its owner alone keeps the
/// linkage.
proof fn lemma_create_document_preserves_links(
    dm: Map<Seq<u8>, DocumentView>,
    gm: Map<Seq<u8>, ProfileView>,
    daddr: Seq<u8>,
    d: DocumentView,
)
    requires
        maps_linked(dm, gm),
        d.access_list == seq![d.owner],
    ensures
        maps_linked(dm.insert(daddr, d), gm),
{
    let dm2 = dm.insert(daddr, d);
    assert forall|k: Seq<u8>, q: Seq<u8>|
        dm2.contains_key(k) && #[trigger] dm2[k].access_list.contains(q) && q != dm2[k].owner
        implies gm.contains_key(doctor_profile_address(q)) && gm[doctor_profile_address(
        q,
    )].documents.contains(k) by {
        if k == daddr {
            let j = choose|j: int| 0 <= j < d.access_list.len() && d.access_list[j] == q;
            assert(d.access_list[0] == d.owner);
            assert(q == d.owner);
        } else {
            assert(dm2[k] == dm[k]);
            assert(dm[k].access_list.contains(q));
        }
    }
}

/// Granting appends to the document's access list and to the grantee's
/// profile together, which keeps the linkage.
proof fn lemma_grant_preserves_links(
    dm: Map<Seq<u8>, DocumentView>,
    gm: Map<Seq<u8>, ProfileView>,
    daddr: Seq<u8>,
    gaddr: Seq<u8>,
    p: Seq<u8>,
)
    requires
        maps_linked(dm, gm),
        dm.contains_key(daddr),
        gm.contains_key(gaddr),
        gaddr == doctor_profile_address(p),
    ensures
        maps_linked(
            dm.insert(daddr, dm[daddr].with_access_list(dm[daddr].access_list.push(p))),
            gm.insert(gaddr, gm[gaddr].with_documents(gm[gaddr].documents.push(daddr))),
        ),
{
    let dm2 = dm.insert(daddr, dm[daddr].with_access_list(dm[daddr].access_list.push(p)));
    let gm2 = gm.insert(gaddr, gm[gaddr].with_documents(gm[gaddr].documents.push(daddr)));
    assert forall|k: Seq<u8>, q: Seq<u8>|
        dm2.contains_key(k) && #[trigger] dm2[k].access_list.contains(q) && q != dm2[k].owner
        implies gm2.contains_key(doctor_profile_address(q)) && gm2[doctor_profile_address(
        q,
    )].documents.contains(k) by {
        let qaddr = doctor_profile_address(q);
        let old_docs = gm[gaddr].documents;
        if k == daddr && q == p {
            assert(gm2[gaddr].documents[old_docs.len() as int] == daddr);
            assert(gm2[gaddr].documents.contains(k));
        } else {
            if k == daddr {
                let al = dm[daddr].access_list;
                let j = choose|j: int|
                    0 <= j < dm2[k].access_list.len() && dm2[k].access_list[j] == q;
                assert(j < al.len());
                assert(al[j] == q);
                assert(al.contains(q));
                assert(dm[k].access_list.contains(q));
            } else {
                assert(dm2[k] == dm[k]);
                assert(dm[k].access_list.contains(q));
            }
            assert(gm.contains_key(qaddr));
            assert(gm[qaddr].documents.contains(k));
            if qaddr == gaddr {
                let m = choose|m: int| 0 <= m < old_docs.len() && old_docs[m] == k;
                assert(gm2[gaddr].documents[m] == k);
                assert(gm2[gaddr].documents.contains(k));
            } else {
                assert(gm2[qaddr] == gm[qaddr]);
            }
        }
    }
}

/// Revoking removes from the document's access list and from the
/// grantee's profile together, which keeps the linkage.
proof fn lemma_revoke_preserves_links(
    dm: Map<Seq<u8>, DocumentView>,
    gm: Map<Seq<u8>, ProfileView>,
    daddr: Seq<u8>,
    gaddr: Seq<u8>,
    p: Seq<u8>,
)
    requires
        maps_linked(dm, gm),
        dm.contains_key(daddr),
        gm.contains_key(gaddr),
        gaddr == doctor_profile_address(p),
        dm[daddr].access_list.no_duplicates(),
    ensures
        maps_linked(
            dm.insert(daddr, dm[daddr].with_access_list(dm[daddr].access_list.remove_value(p))),
            gm.insert(gaddr, gm[gaddr].with_documents(gm[gaddr].documents.remove_value(daddr))),
        ),
{
    let al = dm[daddr].access_list;
    let old_docs = gm[gaddr].documents;
    let dm2 = dm.insert(daddr, dm[daddr].with_access_list(al.remove_value(p)));
    let gm2 = gm.insert(gaddr, gm[gaddr].with_documents(old_docs.remove_value(daddr)));
    crate::records::lemma_remove_value_membership(al, p);
    crate::records::lemma_remove_value_membership(old_docs, daddr);
    crate::records::lemma_remove_value_properties(al, p);
    assert forall|k: Seq<u8>, q: Seq<u8>|
        dm2.contains_key(k) && #[trigger] dm2[k].access_list.contains(q) && q != dm2[k].owner
        implies gm2.contains_key(doctor_profile_address(q)) && gm2[doctor_profile_address(
        q,
    )].documents.contains(k) by {
        let qaddr = doctor_profile_address(q);
        if k == daddr {
            assert(al.remove_value(p).contains(q));
            assert(al.contains(q));
            assert(q != p);
            assert(dm[k].access_list.contains(q));
            assert(gm.contains_key(qaddr));
            assert(gm[qaddr].documents.contains(k));
            lemma_profile_address_injective(q, p);
            assert(qaddr != gaddr);
            assert(gm2[qaddr] == gm[qaddr]);
        } else {
            assert(dm2[k] == dm[k]);
            assert(dm[k].access_list.contains(q));
            assert(gm.contains_key(qaddr));
            assert(gm[qaddr].documents.contains(k));
            if qaddr == gaddr {
                assert(gm2[gaddr].documents == old_docs.remove_value(daddr));
                assert(k != daddr);
                assert(old_docs.remove_value(daddr).contains(k));
            } else {
                assert(gm2[qaddr] == gm[qaddr]);
            }
        }
    }
}

/// Destroying a document only removes access-list obligations, which
/// keeps the linkage.
proof fn lemma_delete_preserves_links(
    dm: Map<Seq<u8>, DocumentView>,
    gm: Map<Seq<u8>, ProfileView>,
    daddr: Seq<u8>,
)
    requires
        maps_linked(dm, gm),
    ensures
        maps_linked(dm.remove(daddr), gm),
{
    let dm2 = dm.remove(daddr);
    assert forall|k: Seq<u8>, q: Seq<u8>|
        dm2.contains_key(k) && #[trigger] dm2[k].access_list.contains(q) && q != dm2[k].owner
        implies gm.contains_key(doctor_profile_address(q)) && gm[doctor_profile_address(
        q,
    )].documents.contains(k) by {
        assert(dm2[k] == dm[k]);
        assert(dm[k].access_list.contains(q));
    }
}

/// A well-formed document stored under a derived address belongs to the
/// owner and digest that address was derived from.
proof fn lemma_doc_slot_matches(d: DocumentView, owner: Seq<u8>, digest: Seq<u8>)
    requires
        d.wf(),
        owner.len() == 32,
        digest.len() == 32,
        document_key(d) == document_address(owner, digest),
    ensures
        d.owner == owner,
        sha256_of(d.ipfs_hash) == digest,
{
    assert(document_address(owner, digest).len() == 72);
    assert(document_key(d).len() == 8 + 32 + sha256_of(d.ipfs_hash).len());
    assert(sha256_of(d.ipfs_hash).len() == 32);
    lemma_document_address_injective(d.owner, sha256_of(d.ipfs_hash), owner, digest);
}

/// The record store with the access engine on top.
pub struct Registry {
    documents: Vec<(Vec<u8>, Document)>,
    patients: Vec<(Vec<u8>, PatientProfile)>,
    doctors: Vec<(Vec<u8>, DoctorProfile)>,
}

impl Registry {
    /// The document records, by address.
    pub closed spec fn documents_map(self) -> Map<Seq<u8>, DocumentView> {
        map_of(self.documents@)
    }

    /// The owner profiles, by address.
    pub closed spec fn patients_map(self) -> Map<Seq<u8>, ProfileView> {
        map_of(self.patients@)
    }

    /// The grantee profiles, by address.
    pub closed spec fn doctors_map(self) -> Map<Seq<u8>, ProfileView> {
        map_of(self.doctors@)
    }

    /// Well-formedness: addresses are pairwise distinct in each namespace,
    /// every stored record is well-formed, and every record sits at the
    /// address derived from it.
    pub closed spec fn wf(self) -> bool {
        &&& keys_of(self.documents@).no_duplicates()
        &&& keys_of(self.patients@).no_duplicates()
        &&& keys_of(self.doctors@).no_duplicates()
        &&& doc_slots_ok(self.documents@)
        &&& patient_slots_ok(self.patients@)
        &&& doctor_slots_ok(self.doctors@)
    }

    /// The relationship invariant of the registry: every non-owner on a
    /// document's access list has a grantee profile that references the
    /// document. It holds of the empty registry and every operation
    /// preserves it.
    pub open spec fn linked(self) -> bool {
        maps_linked(self.documents_map(), self.doctors_map())
    }

    /// An empty registry.
    pub fn new() -> (r: Registry)
        ensures
            r.wf(),
            r.linked(),
            r.documents_map() == Map::<Seq<u8>, DocumentView>::empty(),
            r.patients_map() == Map::<Seq<u8>, ProfileView>::empty(),
            r.doctors_map() == Map::<Seq<u8>, ProfileView>::empty(),
    {
        Registry { documents: Vec::new(), patients: Vec::new(), doctors: Vec::new() }
    }

    /// Creates `caller`'s owner profile, empty, at its derived address.
    /// Fails with `ProfileAlreadyExists` when that address is occupied,
    /// and then changes nothing.
    pub fn initialize_patient_profile(&mut self, caller: &Principal) -> (r: Result<
        (),
        RegistryError,
    >)
        requires
            old(self).wf(),
        ensures
            final(self).wf(),
            old(self).linked() ==> final(self).linked(),
            r is Ok <==> !old(self).patients_map().contains_key(patient_profile_address(caller@)),
            match r {
                Ok(_) => {
                    &&& final(self).patients_map() == old(self).patients_map().insert(
                        patient_profile_address(caller@),
                        ProfileView { user: caller@, documents: Seq::empty() },
                    )
                    &&& final(self).documents_map() == old(self).documents_map()
                    &&& final(self).doctors_map() == old(self).doctors_map()
                },
                Err(e) => {
                    &&& e == RegistryError::Contract(ContractError::ProfileAlreadyExists)
                    &&& final(self).documents_map() == old(self).documents_map()
                    &&& final(self).patients_map() == old(self).patients_map()
                    &&& final(self).doctors_map() == old(self).doctors_map()
                },
            },
    {
        let addr = derive_patient_profile_address(caller);
        proof {
            lemma_map_of_dom(self.patients@);
        }
        match find_entry(&self.patients, &addr) {
            Some(i) => {
                proof {
                    assert(keys_of(self.patients@)[i as int] == addr@);
                    assert(keys_of(self.patients@).contains(addr@));
                }
                return Err(RegistryError::Contract(ContractError::ProfileAlreadyExists));
            },
            None => {},
        }
        let profile = crate::ops::initialize_patient_profile(caller);
        let ghost pre = self.patients@;
        let ghost gaddr = addr;
        let ghost gprofile = profile;
        self.patients.push((addr, profile));
        proof {
            lemma_map_of_push(pre, (gaddr, gprofile));
            lemma_push_keeps_no_duplicates(keys_of(pre), gaddr@);
            assert(keys_of(pre).push(gaddr@) == keys_of(self.patients@));
            assert forall|i: int|
                0 <= i < self.patients@.len() implies (#[trigger] self.patients@[i]).1@.wf()
                && self.patients@[i].0@ == patient_profile_address(self.patients@[i].1@.user) by {
                if i < pre.len() {
                    assert(self.patients@[i] == pre[i]);
                } else {
                    assert(self.patients@[i] == (gaddr, gprofile));
                }
            }
        }
        Ok(())
    }

    /// Creates `caller`'s grantee profile, empty, at its derived address.
    /// Fails with `ProfileAlreadyExists` when that address is occupied,
    /// and then changes nothing.
    pub fn initialize_doctor_profile(&mut self, caller: &Principal) -> (r: Result<
        (),
        RegistryError,
    >)
        requires
            old(self).wf(),
        ensures
            final(self).wf(),
            old(self).linked() ==> final(self).linked(),
            r is Ok <==> !old(self).doctors_map().contains_key(doctor_profile_address(caller@)),
            match r {
                Ok(_) => {
                    &&& final(self).doctors_map() == old(self).doctors_map().insert(
                        doctor_profile_address(caller@),
                        ProfileView { user: caller@, documents: Seq::empty() },
                    )
                    &&& final(self).documents_map() == old(self).documents_map()
                    &&& final(self).patients_map() == old(self).patients_map()
                },
                Err(e) => {
                    &&& e == RegistryError::Contract(ContractError::ProfileAlreadyExists)
                    &&& final(self).documents_map() == old(self).documents_map()
                    &&& final(self).patients_map() == old(self).patients_map()
                    &&& final(self).doctors_map() == old(self).doctors_map()
                },
            },
    {
        let addr = derive_doctor_profile_address(caller);
        proof {
            lemma_map_of_dom(self.doctors@);
        }
        match find_entry(&self.doctors, &addr) {
            Some(i) => {
                proof {
                    assert(keys_of(self.doctors@)[i as int] == addr@);
                    assert(keys_of(self.doctors@).contains(addr@));
                }
                return Err(RegistryError::Contract(ContractError::ProfileAlreadyExists));
            },
            None => {},
        }
        let profile = crate::ops::initialize_doctor_profile(caller);
        let ghost pre = self.doctors@;
        let ghost gaddr = addr;
        let ghost gprofile = profile;
        self.doctors.push((addr, profile));
        proof {
            lemma_map_of_push(pre, (gaddr, gprofile));
            lemma_push_keeps_no_duplicates(keys_of(pre), gaddr@);
            assert(keys_of(pre).push(gaddr@) == keys_of(self.doctors@));
            assert forall|i: int|
                0 <= i < self.doctors@.len() implies (#[trigger] self.doctors@[i]).1@.wf()
                && self.doctors@[i].0@ == doctor_profile_address(self.doctors@[i].1@.user) by {
                if i < pre.len() {
                    assert(self.doctors@[i] == pre[i]);
                } else {
                    assert(self.doctors@[i] == (gaddr, gprofile));
                }
            }
            if old(self).linked() {
                lemma_add_profile_preserves_links(
                    old(self).documents_map(),
                    old(self).doctors_map(),
                    gaddr@,
                    gprofile@,
                );
            }
        }
        Ok(())
    }

    /// Creates the document record of `caller` and `ipfs_hash` at its
    /// derived address, seeds its access list with the owner, and appends
    /// the new address to the caller's owner profile — both records
    /// together or neither.
    ///
    /// Fails with `MissingOwnerProfile` when the caller has no owner
    /// profile, with `DuplicateDocument` when the derived address is
    /// occupied, and with `ProfileCapacityExceeded` when the profile is
    /// full; each failure leaves the registry unchanged.
    pub fn initialize_document(
        &mut self,
        caller: &Principal,
        ipfs_hash: String,
        title: String,
        description: String,
        salt: [u8; 16],
    ) -> (r: Result<(), RegistryError>)
        requires
            old(self).wf(),
            ipfs_hash@.len() <= MAX_CONTENT_ID_LEN,
            title@.len() <= MAX_TITLE_LEN,
            description@.len() <= MAX_DESCRIPTION_LEN,
        ensures
            final(self).wf(),
            old(self).linked() ==> final(self).linked(),
            ({
                let paddr = patient_profile_address(caller@);
                let daddr = document_address(caller@, sha256_of(ipfs_hash@));
                &&& (r is Ok <==> (old(self).patients_map().contains_key(paddr) && !old(
                    self,
                ).documents_map().contains_key(daddr) && old(self).patients_map()[paddr].documents.len()
                    < MAX_PROFILE_DOCUMENTS))
                &&& match r {
                    Ok(_) => {
                        &&& final(self).documents_map() == old(self).documents_map().insert(
                            daddr,
                            DocumentView {
                                ipfs_hash: ipfs_hash@,
                                title: title@,
                                description: description@,
                                salt: salt@,
                                owner: caller@,
                                access_list: seq![caller@],
                            },
                        )
                        &&& final(self).patients_map() == old(self).patients_map().insert(
                            paddr,
                            old(self).patients_map()[paddr].with_documents(
                                old(self).patients_map()[paddr].documents.push(daddr),
                            ),
                        )
                        &&& final(self).doctors_map() == old(self).doctors_map()
                    },
                    Err(e) => {
                        &&& (if !old(self).patients_map().contains_key(paddr) {
                            e == RegistryError::Contract(ContractError::MissingOwnerProfile)
                        } else if old(self).documents_map().contains_key(daddr) {
                            e == RegistryError::Contract(ContractError::DuplicateDocument)
                        } else {
                            e == RegistryError::Contract(ContractError::ProfileCapacityExceeded)
                        })
                        &&& final(self).documents_map() == old(self).documents_map()
                        &&& final(self).patients_map() == old(self).patients_map()
                        &&& final(self).doctors_map() == old(self).doctors_map()
                    },
                }
            }),
    {
        let paddr = derive_patient_profile_address(caller);
        proof {
            lemma_map_of_dom(self.patients@);
        }
        let pi: usize = match find_entry(&self.patients, &paddr) {
            Some(i) => i,
            None => {
                return Err(RegistryError::Contract(ContractError::MissingOwnerProfile));
            },
        };
        proof {
            assert(keys_of(self.patients@)[pi as int] == paddr@);
            assert(keys_of(self.patients@).contains(paddr@));
            lemma_map_of_index(self.patients@, pi as int);
        }
        let digest = hash_ipfs(ipfs_hash.as_str());
        let daddr = derive_document_address(caller, &digest);
        proof {
            lemma_map_of_dom(self.documents@);
        }
        match find_entry(&self.documents, &daddr) {
            Some(i) => {
                proof {
                    assert(keys_of(self.documents@)[i as int] == daddr@);
                    assert(keys_of(self.documents@).contains(daddr@));
                }
                return Err(RegistryError::Contract(ContractError::DuplicateDocument));
            },
            None => {},
        }
        let ghost pre_p = self.patients@;
        let (pkey, mut profile) = self.patients.remove(pi);
        proof {
            lemma_map_of_remove(pre_p, pi as int);
            lemma_removed_index_absent(keys_of(pre_p), pi as int);
            lemma_profile_address_injective(pre_p[pi as int].1@.user, caller@);
            assert(profile@.user == caller@);
        }
        let r = crate::ops::initialize_document(
            caller,
            ipfs_hash,
            title,
            description,
            salt,
            &mut profile,
        );
        match r {
            Ok(document) => {
                let ghost mid_p = self.patients@;
                let ghost gpkey = pkey;
                let ghost gprofile = profile;
                self.patients.push((pkey, profile));
                proof {
                    lemma_map_of_push(mid_p, (gpkey, gprofile));
                    lemma_push_keeps_no_duplicates(keys_of(mid_p), gpkey@);
                    assert(keys_of(mid_p).push(gpkey@) == keys_of(self.patients@));
                    assert forall|i: int|
                        0 <= i < self.patients@.len() implies (#[trigger] self.patients@[i]).1@.wf()
                        && self.patients@[i].0@ == patient_profile_address(
                        self.patients@[i].1@.user,
                    ) by {
                        if i < mid_p.len() {
                            assert(self.patients@[i] == mid_p[i]);
                            assert(mid_p[i] == pre_p.remove(pi as int)[i]);
                        } else {
                            assert(self.patients@[i] == (gpkey, gprofile));
                        }
                    }
                    assert(map_of(self.patients@) =~= map_of(pre_p).insert(paddr@, gprofile@));
                }
                let ghost pre_d = self.documents@;
                let ghost gdaddr = daddr;
                let ghost gdocument = document;
                self.documents.push((daddr, document));
                proof {
                    lemma_map_of_push(pre_d, (gdaddr, gdocument));
                    lemma_push_keeps_no_duplicates(keys_of(pre_d), gdaddr@);
                    assert(keys_of(pre_d).push(gdaddr@) == keys_of(self.documents@));
                    assert(document_key(gdocument@) == gdaddr@);
                    assert forall|i: int|
                        0 <= i < self.documents@.len() implies (#[trigger] self.documents@[i]).1@.wf()
                        && self.documents@[i].0@ == document_key(self.documents@[i].1@) by {
                        if i < pre_d.len() {
                            assert(self.documents@[i] == pre_d[i]);
                        } else {
                            assert(self.documents@[i] == (gdaddr, gdocument));
                        }
                    }
                    assert(gdocument@ =~= DocumentView {
                        ipfs_hash: ipfs_hash@,
                        title: title@,
                        description: description@,
                        salt: salt@,
                        owner: caller@,
                        access_list: seq![caller@],
                    });
                    if old(self).linked() {
                        lemma_create_document_preserves_links(
                            old(self).documents_map(),
                            old(self).doctors_map(),
                            gdaddr@,
                            gdocument@,
                        );
                    }
                }
                Ok(())
            },
            Err(e) => {
                let ghost mid_p = self.patients@;
                let ghost gpkey = pkey;
                let ghost gprofile = profile;
                self.patients.push((pkey, profile));
                proof {
                    lemma_map_of_push(mid_p, (gpkey, gprofile));
                    lemma_push_keeps_no_duplicates(keys_of(mid_p), gpkey@);
                    assert(keys_of(mid_p).push(gpkey@) == keys_of(self.patients@));
                    assert forall|i: int|
                        0 <= i < self.patients@.len() implies (#[trigger] self.patients@[i]).1@.wf()
                        && self.patients@[i].0@ == patient_profile_address(
                        self.patients@[i].1@.user,
                    ) by {
                        if i < mid_p.len() {
                            assert(self.patients@[i] == mid_p[i]);
                            assert(mid_p[i] == pre_p.remove(pi as int)[i]);
                        } else {
                            assert(self.patients@[i] == (gpkey, gprofile));
                        }
                    }
                    assert(map_of(self.patients@) =~= map_of(pre_p));
                }
                Err(RegistryError::Contract(e))
            },
        }
    }

    /// Grants `doctor_pubkey` access to the document of `owner` and
    /// `ipfs_hash`: the principal joins the document's access list and the
    /// document's address joins the grantee's profile, both together or
    /// not at all. Granting a principal that already has access succeeds
    /// and changes nothing.
    ///
    /// The derivation itself ties the document to `owner`: only a
    /// principal's own documents are reachable through this operation, so
    /// no separate ownership check stands here.
    pub fn grant_access(
        &mut self,
        owner: &Principal,
        doctor_pubkey: &Principal,
        ipfs_hash: &str,
    ) -> (r: Result<(), RegistryError>)
        requires
            old(self).wf(),
        ensures
            final(self).wf(),
            old(self).linked() ==> final(self).linked(),
            ({
                let daddr = document_address(owner@, sha256_of(ipfs_hash@));
                let gaddr = doctor_profile_address(doctor_pubkey@);
                &&& (r is Ok <==> (old(self).documents_map().contains_key(daddr) && old(
                    self,
                ).doctors_map().contains_key(gaddr) && (old(
                    self,
                ).documents_map()[daddr].access_list.contains(doctor_pubkey@) || (old(
                    self,
                ).documents_map()[daddr].access_list.len() < MAX_ACCESS_LIST_LEN && old(
                    self,
                ).doctors_map()[gaddr].documents.len() < MAX_PROFILE_DOCUMENTS))))
                &&& match r {
                    Ok(_) => if old(self).documents_map()[daddr].access_list.contains(
                        doctor_pubkey@,
                    ) {
                        final(self).documents_map() == old(self).documents_map()
                            && final(self).doctors_map() == old(self).doctors_map()
                            && final(self).patients_map() == old(self).patients_map()
                    } else {
                        &&& final(self).documents_map() == old(self).documents_map().insert(
                            daddr,
                            old(self).documents_map()[daddr].with_access_list(
                                old(self).documents_map()[daddr].access_list.push(doctor_pubkey@),
                            ),
                        )
                        &&& final(self).doctors_map() == old(self).doctors_map().insert(
                            gaddr,
                            old(self).doctors_map()[gaddr].with_documents(
                                old(self).doctors_map()[gaddr].documents.push(daddr),
                            ),
                        )
                        &&& final(self).patients_map() == old(self).patients_map()
                    },
                    Err(e) => {
                        &&& (if !old(self).documents_map().contains_key(daddr) || !old(
                            self,
                        ).doctors_map().contains_key(gaddr) {
                            e == RegistryError::NotFound
                        } else if old(self).documents_map()[daddr].access_list.len()
                            >= MAX_ACCESS_LIST_LEN {
                            e == RegistryError::Contract(ContractError::AccessListFull)
                        } else {
                            e == RegistryError::Contract(ContractError::ProfileCapacityExceeded)
                        })
                        &&& final(self).documents_map() == old(self).documents_map()
                        &&& final(self).patients_map() == old(self).patients_map()
                        &&& final(self).doctors_map() == old(self).doctors_map()
                    },
                }
            }),
    {
        let digest = hash_ipfs(ipfs_hash);
        let daddr = derive_document_address(owner, &digest);
        let gaddr = derive_doctor_profile_address(doctor_pubkey);
        proof {
            lemma_map_of_dom(self.documents@);
            lemma_map_of_dom(self.doctors@);
        }
        let di: usize = match find_entry(&self.documents, &daddr) {
            Some(i) => i,
            None => {
                return Err(RegistryError::NotFound);
            },
        };
        let gi: usize = match find_entry(&self.doctors, &gaddr) {
            Some(i) => i,
            None => {
                proof {
                    assert(keys_of(self.documents@)[di as int] == daddr@);
                    assert(keys_of(self.documents@).contains(daddr@));
                }
                return Err(RegistryError::NotFound);
            },
        };
        proof {
            assert(keys_of(self.documents@)[di as int] == daddr@);
            assert(keys_of(self.documents@).contains(daddr@));
            assert(keys_of(self.doctors@)[gi as int] == gaddr@);
            assert(keys_of(self.doctors@).contains(gaddr@));
            lemma_map_of_index(self.documents@, di as int);
            lemma_map_of_index(self.doctors@, gi as int);
        }
        let ghost pre_d = self.documents@;
        let (dkey, mut document) = self.documents.remove(di);
        proof {
            lemma_map_of_remove(pre_d, di as int);
            lemma_removed_index_absent(keys_of(pre_d), di as int);
            lemma_doc_slot_matches(pre_d[di as int].1@, owner@, digest@);
            assert(document@.owner == owner@);
        }
        let ghost pre_g = self.doctors@;
        let (gkey, mut gprofile) = self.doctors.remove(gi);
        proof {
            lemma_map_of_remove(pre_g, gi as int);
            lemma_removed_index_absent(keys_of(pre_g), gi as int);
            lemma_profile_address_injective(pre_g[gi as int].1@.user, doctor_pubkey@);
        }
        let r = crate::ops::grant_access(&mut document, &mut gprofile, owner, doctor_pubkey, false);
        proof {
            assert(document_key(document@) == document_key(pre_d[di as int].1@));
        }
        let ghost mid_d = self.documents@;
        let ghost gdkey = dkey;
        let ghost gdoc = document;
        self.documents.push((dkey, document));
        proof {
            lemma_map_of_push(mid_d, (gdkey, gdoc));
            lemma_push_keeps_no_duplicates(keys_of(mid_d), gdkey@);
            assert(keys_of(mid_d).push(gdkey@) == keys_of(self.documents@));
            assert forall|i: int|
                0 <= i < self.documents@.len() implies (#[trigger] self.documents@[i]).1@.wf()
                && self.documents@[i].0@ == document_key(self.documents@[i].1@) by {
                if i < mid_d.len() {
                    assert(self.documents@[i] == mid_d[i]);
                    assert(mid_d[i] == pre_d.remove(di as int)[i]);
                } else {
                    assert(self.documents@[i] == (gdkey, gdoc));
                }
            }
        }
        let ghost mid_g = self.doctors@;
        let ghost ggkey = gkey;
        let ghost gprof = gprofile;
        self.doctors.push((gkey, gprofile));
        proof {
            lemma_map_of_push(mid_g, (ggkey, gprof));
            lemma_push_keeps_no_duplicates(keys_of(mid_g), ggkey@);
            assert(keys_of(mid_g).push(ggkey@) == keys_of(self.doctors@));
            assert forall|i: int|
                0 <= i < self.doctors@.len() implies (#[trigger] self.doctors@[i]).1@.wf()
                && self.doctors@[i].0@ == doctor_profile_address(self.doctors@[i].1@.user) by {
                if i < mid_g.len() {
                    assert(self.doctors@[i] == mid_g[i]);
                    assert(mid_g[i] == pre_g.remove(gi as int)[i]);
                } else {
                    assert(self.doctors@[i] == (ggkey, gprof));
                }
            }
        }
        match r {
            Ok(_) => {
                proof {
                    if pre_d[di as int].1@.access_list.contains(doctor_pubkey@) {
                        assert(map_of(self.documents@) =~= map_of(pre_d));
                        assert(map_of(self.doctors@) =~= map_of(pre_g));
                    } else {
                        assert(map_of(self.documents@) =~= map_of(pre_d).insert(
                            daddr@,
                            pre_d[di as int].1@.with_access_list(
                                pre_d[di as int].1@.access_list.push(doctor_pubkey@),
                            ),
                        ));
                        assert(map_of(self.doctors@) =~= map_of(pre_g).insert(
                            gaddr@,
                            pre_g[gi as int].1@.with_documents(
                                pre_g[gi as int].1@.documents.push(daddr@),
                            ),
                        ));
                        if old(self).linked() {
                            lemma_grant_preserves_links(
                                map_of(pre_d),
                                map_of(pre_g),
                                daddr@,
                                gaddr@,
                                doctor_pubkey@,
                            );
                        }
                    }
                }
                Ok(())
            },
            Err(e) => {
                proof {
                    assert(map_of(self.documents@) =~= map_of(pre_d));
                    assert(map_of(self.doctors@) =~= map_of(pre_g));
                }
                Err(RegistryError::Contract(e))
            },
        }
    }

    /// Revokes `doctor_pubkey`'s access to the document of `owner` and
    /// `ipfs_hash`: the principal leaves the document's access list and
    /// the document's address leaves the grantee's profile, each an
    /// order-preserving removal of the first occurrence, tolerant of an
    /// entry already absent. The derivation ties the document to `owner`,
    /// so the revocation is always the owner's own.
    pub fn revoke_access(
        &mut self,
        owner: &Principal,
        doctor_pubkey: &Principal,
        ipfs_hash: &str,
    ) -> (r: Result<(), RegistryError>)
        requires
            old(self).wf(),
        ensures
            final(self).wf(),
            old(self).linked() ==> final(self).linked(),
            ({
                let daddr = document_address(owner@, sha256_of(ipfs_hash@));
                let gaddr = doctor_profile_address(doctor_pubkey@);
                &&& (r is Ok <==> (old(self).documents_map().contains_key(daddr) && old(
                    self,
                ).doctors_map().contains_key(gaddr)))
                &&& match r {
                    Ok(_) => {
                        &&& final(self).documents_map() == old(self).documents_map().insert(
                            daddr,
                            old(self).documents_map()[daddr].with_access_list(
                                old(self).documents_map()[daddr].access_list.remove_value(
                                    doctor_pubkey@,
                                ),
                            ),
                        )
                        &&& final(self).doctors_map() == old(self).doctors_map().insert(
                            gaddr,
                            old(self).doctors_map()[gaddr].with_documents(
                                old(self).doctors_map()[gaddr].documents.remove_value(daddr),
                            ),
                        )
                        &&& final(self).patients_map() == old(self).patients_map()
                        &&& !final(self).documents_map()[daddr].access_list.contains(
                            doctor_pubkey@,
                        )
                    },
                    Err(e) => {
                        &&& e == RegistryError::NotFound
                        &&& final(self).documents_map() == old(self).documents_map()
                        &&& final(self).patients_map() == old(self).patients_map()
                        &&& final(self).doctors_map() == old(self).doctors_map()
                    },
                }
            }),
    {
        let digest = hash_ipfs(ipfs_hash);
        let daddr = derive_document_address(owner, &digest);
        let gaddr = derive_doctor_profile_address(doctor_pubkey);
        proof {
            lemma_map_of_dom(self.documents@);
            lemma_map_of_dom(self.doctors@);
        }
        let di: usize = match find_entry(&self.documents, &daddr) {
            Some(i) => i,
            None => {
                return Err(RegistryError::NotFound);
            },
        };
        let gi: usize = match find_entry(&self.doctors, &gaddr) {
            Some(i) => i,
            None => {
                proof {
                    assert(keys_of(self.documents@)[di as int] == daddr@);
                    assert(keys_of(self.documents@).contains(daddr@));
                }
                return Err(RegistryError::NotFound);
            },
        };
        proof {
            assert(keys_of(self.documents@)[di as int] == daddr@);
            assert(keys_of(self.documents@).contains(daddr@));
            assert(keys_of(self.doctors@)[gi as int] == gaddr@);
            assert(keys_of(self.doctors@).contains(gaddr@));
            lemma_map_of_index(self.documents@, di as int);
            lemma_map_of_index(self.doctors@, gi as int);
        }
        let ghost pre_d = self.documents@;
        let (dkey, mut document) = self.documents.remove(di);
        proof {
            lemma_map_of_remove(pre_d, di as int);
            lemma_removed_index_absent(keys_of(pre_d), di as int);
            lemma_doc_slot_matches(pre_d[di as int].1@, owner@, digest@);
            assert(document@.owner == owner@);
        }
        let ghost pre_g = self.doctors@;
        let (gkey, mut gprofile) = self.doctors.remove(gi);
        proof {
            lemma_map_of_remove(pre_g, gi as int);
            lemma_removed_index_absent(keys_of(pre_g), gi as int);
            lemma_profile_address_injective(pre_g[gi as int].1@.user, doctor_pubkey@);
        }
        let r = crate::ops::revoke_access(&mut document, &mut gprofile, owner, doctor_pubkey);
        proof {
            assert(document_key(document@) == document_key(pre_d[di as int].1@));
        }
        let ghost mid_d = self.documents@;
        let ghost gdkey = dkey;
        let ghost gdoc = document;
        self.documents.push((dkey, document));
        proof {
            lemma_map_of_push(mid_d, (gdkey, gdoc));
            lemma_push_keeps_no_duplicates(keys_of(mid_d), gdkey@);
            assert(keys_of(mid_d).push(gdkey@) == keys_of(self.documents@));
            assert forall|i: int|
                0 <= i < self.documents@.len() implies (#[trigger] self.documents@[i]).1@.wf()
                && self.documents@[i].0@ == document_key(self.documents@[i].1@) by {
                if i < mid_d.len() {
                    assert(self.documents@[i] == mid_d[i]);
                    assert(mid_d[i] == pre_d.remove(di as int)[i]);
                } else {
                    assert(self.documents@[i] == (gdkey, gdoc));
                }
            }
        }
        let ghost mid_g = self.doctors@;
        let ghost ggkey = gkey;
        let ghost gprof = gprofile;
        self.doctors.push((gkey, gprofile));
        proof {
            lemma_map_of_push(mid_g, (ggkey, gprof));
            lemma_push_keeps_no_duplicates(keys_of(mid_g), ggkey@);
            assert(keys_of(mid_g).push(ggkey@) == keys_of(self.doctors@));
            assert forall|i: int|
                0 <= i < self.doctors@.len() implies (#[trigger] self.doctors@[i]).1@.wf()
                && self.doctors@[i].0@ == doctor_profile_address(self.doctors@[i].1@.user) by {
                if i < mid_g.len() {
                    assert(self.doctors@[i] == mid_g[i]);
                    assert(mid_g[i] == pre_g.remove(gi as int)[i]);
                } else {
                    assert(self.doctors@[i] == (ggkey, gprof));
                }
            }
        }
        match r {
            Ok(_) => {
                proof {
                    assert(map_of(self.documents@) =~= map_of(pre_d).insert(
                        daddr@,
                        pre_d[di as int].1@.with_access_list(
                            pre_d[di as int].1@.access_list.remove_value(doctor_pubkey@),
                        ),
                    ));
                    assert(map_of(self.doctors@) =~= map_of(pre_g).insert(
                        gaddr@,
                        pre_g[gi as int].1@.with_documents(
                            pre_g[gi as int].1@.documents.remove_value(daddr@),
                        ),
                    ));
                    assert(map_of(self.documents@)[daddr@] == gdoc@);
                    if old(self).linked() {
                        lemma_revoke_preserves_links(
                            map_of(pre_d),
                            map_of(pre_g),
                            daddr@,
                            gaddr@,
                            doctor_pubkey@,
                        );
                    }
                }
                Ok(())
            },
            Err(_) => {
                proof {
                    assert(false);
                }
                Err(RegistryError::NotFound)
            },
        }
    }

    /// Destroys the document of `caller` and `ipfs_hash` and prunes its
    /// address from the caller's owner profile. The derivation ties the
    /// document to `caller`, so only a principal's own documents can be
    /// deleted through the registry.
    ///
    /// Grantee profiles are not touched: an address a grantee still holds
    /// stays behind as a dangling reference. That is a known, documented
    /// limitation of the access rules.
    pub fn delete_document(&mut self, caller: &Principal, ipfs_hash: &str) -> (r: Result<
        (),
        RegistryError,
    >)
        requires
            old(self).wf(),
        ensures
            final(self).wf(),
            old(self).linked() ==> final(self).linked(),
            ({
                let daddr = document_address(caller@, sha256_of(ipfs_hash@));
                let paddr = patient_profile_address(caller@);
                &&& (r is Ok <==> (old(self).documents_map().contains_key(daddr) && old(
                    self,
                ).patients_map().contains_key(paddr)))
                &&& match r {
                    Ok(_) => {
                        &&& final(self).documents_map() == old(self).documents_map().remove(daddr)
                        &&& final(self).patients_map() == old(self).patients_map().insert(
                            paddr,
                            old(self).patients_map()[paddr].with_documents(
                                old(self).patients_map()[paddr].documents.remove_value(daddr),
                            ),
                        )
                        &&& final(self).doctors_map() == old(self).doctors_map()
                    },
                    Err(e) => {
                        &&& e == RegistryError::NotFound
                        &&& final(self).documents_map() == old(self).documents_map()
                        &&& final(self).patients_map() == old(self).patients_map()
                        &&& final(self).doctors_map() == old(self).doctors_map()
                    },
                }
            }),
    {
        let digest = hash_ipfs(ipfs_hash);
        let daddr = derive_document_address(caller, &digest);
        let paddr = derive_patient_profile_address(caller);
        proof {
            lemma_map_of_dom(self.documents@);
            lemma_map_of_dom(self.patients@);
        }
        let di: usize = match find_entry(&self.documents, &daddr) {
            Some(i) => i,
            None => {
                return Err(RegistryError::NotFound);
            },
        };
        let pi: usize = match find_entry(&self.patients, &paddr) {
            Some(i) => i,
            None => {
                proof {
                    assert(keys_of(self.documents@)[di as int] == daddr@);
                    assert(keys_of(self.documents@).contains(daddr@));
                }
                return Err(RegistryError::NotFound);
            },
        };
        proof {
            assert(keys_of(self.documents@)[di as int] == daddr@);
            assert(keys_of(self.documents@).contains(daddr@));
            assert(keys_of(self.patients@)[pi as int] == paddr@);
            assert(keys_of(self.patients@).contains(paddr@));
            lemma_map_of_index(self.documents@, di as int);
            lemma_map_of_index(self.patients@, pi as int);
        }
        let ghost pre_d = self.documents@;
        let (dkey, document) = self.documents.remove(di);
        proof {
            lemma_map_of_remove(pre_d, di as int);
            lemma_removed_index_absent(keys_of(pre_d), di as int);
            lemma_doc_slot_matches(pre_d[di as int].1@, caller@, digest@);
            assert(document@.owner == caller@);
        }
        let ghost pre_p = self.patients@;
        let (pkey, mut profile) = self.patients.remove(pi);
        proof {
            lemma_map_of_remove(pre_p, pi as int);
            lemma_removed_index_absent(keys_of(pre_p), pi as int);
            lemma_profile_address_injective(pre_p[pi as int].1@.user, caller@);
            assert(profile@.user == caller@);
        }
        let r = crate::ops::delete_document(&document, &mut profile, caller);
        proof {
            assert(document_key(document@) == daddr@);
        }
        let ghost mid_p = self.patients@;
        let ghost gpkey = pkey;
        let ghost gprofile = profile;
        self.patients.push((pkey, profile));
        proof {
            lemma_map_of_push(mid_p, (gpkey, gprofile));
            lemma_push_keeps_no_duplicates(keys_of(mid_p), gpkey@);
            assert(keys_of(mid_p).push(gpkey@) == keys_of(self.patients@));
            assert forall|i: int|
                0 <= i < self.patients@.len() implies (#[trigger] self.patients@[i]).1@.wf()
                && self.patients@[i].0@ == patient_profile_address(self.patients@[i].1@.user) by {
                if i < mid_p.len() {
                    assert(self.patients@[i] == mid_p[i]);
                    assert(mid_p[i] == pre_p.remove(pi as int)[i]);
                } else {
                    assert(self.patients@[i] == (gpkey, gprofile));
                }
            }
        }
        match r {
            Ok(_) => {
                proof {
                    assert(map_of(self.patients@) =~= map_of(pre_p).insert(
                        paddr@,
                        pre_p[pi as int].1@.with_documents(
                            pre_p[pi as int].1@.documents.remove_value(daddr@),
                        ),
                    ));
                    if old(self).linked() {
                        lemma_delete_preserves_links(
                            map_of(pre_d),
                            old(self).doctors_map(),
                            daddr@,
                        );
                    }
                }
                Ok(())
            },
            Err(_) => {
                proof {
                    assert(false);
                }
                Err(RegistryError::NotFound)
            },
        }
    }

    /// Resolves the document record of `owner` and `ipfs_hash`, if the
    /// store holds one.
    pub fn get_document(&self, owner: &Principal, ipfs_hash: &str) -> (r: Option<&Document>)
        requires
            self.wf(),
        ensures
            match r {
                Some(d) => self.documents_map().contains_key(
                    document_address(owner@, sha256_of(ipfs_hash@)),
                ) && d@ == self.documents_map()[document_address(owner@, sha256_of(ipfs_hash@))]
                    && d@.wf(),
                None => !self.documents_map().contains_key(
                    document_address(owner@, sha256_of(ipfs_hash@)),
                ),
            },
    {
        let digest = hash_ipfs(ipfs_hash);
        let addr = derive_document_address(owner, &digest);
        proof {
            lemma_map_of_dom(self.documents@);
        }
        match find_entry(&self.documents, &addr) {
            Some(i) => {
                proof {
                    lemma_map_of_index(self.documents@, i as int);
                }
                Some(&self.documents[i].1)
            },
            None => None,
        }
    }

    /// Resolves `user`'s owner profile, if the store holds one.
    pub fn get_patient_profile(&self, user: &Principal) -> (r: Option<&PatientProfile>)
        requires
            self.wf(),
        ensures
            match r {
                Some(p) => self.patients_map().contains_key(patient_profile_address(user@))
                    && p@ == self.patients_map()[patient_profile_address(user@)],
                None => !self.patients_map().contains_key(patient_profile_address(user@)),
            },
    {
        let addr = derive_patient_profile_address(user);
        proof {
            lemma_map_of_dom(self.patients@);
        }
        match find_entry(&self.patients, &addr) {
            Some(i) => {
                proof {
                    lemma_map_of_index(self.patients@, i as int);
                }
                Some(&self.patients[i].1)
            },
            None => None,
        }
    }

    /// Resolves `user`'s grantee profile, if the store holds one.
    pub fn get_doctor_profile(&self, user: &Principal) -> (r: Option<&DoctorProfile>)
        requires
            self.wf(),
        ensures
            match r {
                Some(p) => self.doctors_map().contains_key(doctor_profile_address(user@)) && p@
                    == self.doctors_map()[doctor_profile_address(user@)],
                None => !self.doctors_map().contains_key(doctor_profile_address(user@)),
            },
    {
        let addr = derive_doctor_profile_address(user);
        proof {
            lemma_map_of_dom(self.doctors@);
        }
        match find_entry(&self.doctors, &addr) {
            Some(i) => {
                proof {
                    lemma_map_of_index(self.doctors@, i as int);
                }
                Some(&self.doctors[i].1)
            },
            None => None,
        }
    }
}

} // verus!
