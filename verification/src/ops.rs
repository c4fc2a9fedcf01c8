//! The registry operations.
//!
//! Each operation is one atomic unit against the record store: every check
//! precedes every mutation, so an operation that reports an error leaves
//! every record exactly as it found it.

use vstd::prelude::*;
use crate::errors::ContractError;
use crate::principal::Principal;
use crate::records::{
    contains_principal, document_key, document_key_of, find_key, find_principal,
    lemma_push_keeps_no_duplicates, lemma_remove_keeps_no_duplicates,
    lemma_remove_then_push_membership, lemma_remove_value_properties, lemma_views_of_push,
    lemma_views_of_remove, views_of, Document, DocumentView, DoctorProfile, PatientProfile,
    ProfileView, MAX_ACCESS_LIST_LEN, MAX_CONTENT_ID_LEN, MAX_DESCRIPTION_LEN,
    MAX_PROFILE_DOCUMENTS, MAX_TITLE_LEN,
};

verus! {

/// Creates the owner profile of `caller`, with no documents yet.
pub fn initialize_patient_profile(caller: &Principal) -> (p: PatientProfile)
    ensures
        p@.user == caller@,
        p@.documents == Seq::<Seq<u8>>::empty(),
        p@.wf(),
{
    let p = PatientProfile { user: *caller, documents: Vec::new() };
    proof {
        assert(views_of(p.documents@) =~= Seq::<Seq<u8>>::empty());
    }
    p
}

/// Creates the grantee profile of `caller`, with no documents yet.
pub fn initialize_doctor_profile(caller: &Principal) -> (p: DoctorProfile)
    ensures
        p@.user == caller@,
        p@.documents == Seq::<Seq<u8>>::empty(),
        p@.wf(),
{
    let p = DoctorProfile { user: *caller, documents: Vec::new() };
    proof {
        assert(views_of(p.documents@) =~= Seq::<Seq<u8>>::empty());
    }
    p
}

/// Creates a document owned by `caller`, seeds its access list with the
/// owner, and records the document in the caller's owner profile.
///
/// Fails with `MissingOwnerProfile` when the profile at hand does not
/// belong to the caller, and with `ProfileCapacityExceeded` when the
/// profile already references its full count of documents; in both cases
/// the profile is left unchanged and no document comes to be.
pub fn initialize_document(
    caller: &Principal,
    ipfs_hash: String,
    title: String,
    description: String,
    salt: [u8; 16],
    patient_profile: &mut PatientProfile,
) -> (r: Result<Document, ContractError>)
    requires
        old(patient_profile)@.wf(),
        ipfs_hash@.len() <= MAX_CONTENT_ID_LEN,
        title@.len() <= MAX_TITLE_LEN,
        description@.len() <= MAX_DESCRIPTION_LEN,
    ensures
        final(patient_profile)@.wf(),
        r is Ok <==> (old(patient_profile)@.user == caller@ && old(
            patient_profile,
        )@.documents.len() < MAX_PROFILE_DOCUMENTS),
        match r {
            Ok(d) => {
                &&& d@.owner == caller@
                &&& d@.ipfs_hash == ipfs_hash@
                &&& d@.title == title@
                &&& d@.description == description@
                &&& d@.salt == salt@
                &&& d@.access_list == seq![caller@]
                &&& d@.wf()
                &&& final(patient_profile)@ == old(patient_profile)@.with_documents(
                    old(patient_profile)@.documents.push(document_key(d@)),
                )
            },
            Err(e) => {
                &&& final(patient_profile)@ == old(patient_profile)@
                &&& (if old(patient_profile)@.user != caller@ {
                    e == ContractError::MissingOwnerProfile
                } else {
                    e == ContractError::ProfileCapacityExceeded
                })
            },
        },
{
    if !patient_profile.user.same_as(caller) {
        return Err(ContractError::MissingOwnerProfile);
    }
    if patient_profile.documents.len() >= MAX_PROFILE_DOCUMENTS {
        return Err(ContractError::ProfileCapacityExceeded);
    }
    let mut access_list: Vec<Principal> = Vec::new();
    access_list.push(*caller);
    let document = Document { ipfs_hash, title, description, salt, owner: *caller, access_list };
    let key = document_key_of(&document);
    let ghost pre_docs = patient_profile.documents@;
    let ghost gkey = key;
    patient_profile.documents.push(key);
    proof {
        assert(document@.access_list =~= seq![caller@]);
        lemma_views_of_push(pre_docs, gkey);
        assert(patient_profile@ =~= old(patient_profile)@.with_documents(
            old(patient_profile)@.documents.push(document_key(document@)),
        ));
    }
    Ok(document)
}

/// Grants `doctor_pubkey` access to the document: appends the principal to
/// the document's access list and the document's identifier to the
/// grantee's profile, both together or not at all.
///
/// Granting a principal that already has access is a no-op that still
/// reports success, and changes neither record. With `enforce_owner` set,
/// a caller other than the document's owner is turned away with
/// `Unauthorized`; with it clear, any caller may grant on the owner's
/// behalf. Whether grants are owner-only is an open question of the
/// access rules, so both behaviours stand behind this flag.
pub fn grant_access(
    document: &mut Document,
    doctor_profile: &mut DoctorProfile,
    caller: &Principal,
    doctor_pubkey: &Principal,
    enforce_owner: bool,
) -> (r: Result<(), ContractError>)
    requires
        old(document)@.wf(),
        old(doctor_profile)@.wf(),
    ensures
        final(document)@.wf(),
        final(doctor_profile)@.wf(),
        r is Ok <==> ((!enforce_owner || caller@ == old(document)@.owner) && (old(
            document,
        )@.access_list.contains(doctor_pubkey@) || (old(document)@.access_list.len()
            < MAX_ACCESS_LIST_LEN && old(doctor_profile)@.documents.len()
            < MAX_PROFILE_DOCUMENTS))),
        match r {
            Ok(_) => if old(document)@.access_list.contains(doctor_pubkey@) {
                final(document)@ == old(document)@ && final(doctor_profile)@ == old(
                    doctor_profile,
                )@
            } else {
                final(document)@ == old(document)@.with_access_list(
                    old(document)@.access_list.push(doctor_pubkey@),
                ) && final(doctor_profile)@ == old(doctor_profile)@.with_documents(
                    old(doctor_profile)@.documents.push(document_key(old(document)@)),
                )
            },
            Err(e) => {
                &&& final(document)@ == old(document)@
                &&& final(doctor_profile)@ == old(doctor_profile)@
                &&& (if enforce_owner && caller@ != old(document)@.owner {
                    e == ContractError::Unauthorized
                } else if old(document)@.access_list.len() >= MAX_ACCESS_LIST_LEN {
                    e == ContractError::AccessListFull
                } else {
                    e == ContractError::ProfileCapacityExceeded
                })
            },
        },
{
    if enforce_owner && !caller.same_as(&document.owner) {
        return Err(ContractError::Unauthorized);
    }
    if contains_principal(&document.access_list, doctor_pubkey) {
        return Ok(());
    }
    if document.access_list.len() >= MAX_ACCESS_LIST_LEN {
        return Err(ContractError::AccessListFull);
    }
    if doctor_profile.documents.len() >= MAX_PROFILE_DOCUMENTS {
        return Err(ContractError::ProfileCapacityExceeded);
    }
    let key = document_key_of(document);
    let ghost pre_al = document.access_list@;
    let ghost pre_docs = doctor_profile.documents@;
    let ghost gkey = key;
    document.access_list.push(*doctor_pubkey);
    doctor_profile.documents.push(key);
    proof {
        lemma_views_of_push(pre_al, *doctor_pubkey);
        lemma_views_of_push(pre_docs, gkey);
        lemma_push_keeps_no_duplicates(views_of(pre_al), doctor_pubkey@);
        assert(document@ =~= old(document)@.with_access_list(
            old(document)@.access_list.push(doctor_pubkey@),
        ));
        assert(doctor_profile@ =~= old(doctor_profile)@.with_documents(
            old(doctor_profile)@.documents.push(document_key(old(document)@)),
        ));
    }
    Ok(())
}

/// Revokes `doctor_pubkey`'s access to the document: removes the first
/// occurrence of the principal from the access list and of the document's
/// identifier from the grantee's profile, order-preserving and tolerant of
/// an entry already absent. Only the document's owner may revoke.
pub fn revoke_access(
    document: &mut Document,
    doctor_profile: &mut DoctorProfile,
    caller: &Principal,
    doctor_pubkey: &Principal,
) -> (r: Result<(), ContractError>)
    requires
        old(document)@.wf(),
        old(doctor_profile)@.wf(),
    ensures
        final(document)@.wf(),
        final(doctor_profile)@.wf(),
        r is Ok <==> caller@ == old(document)@.owner,
        match r {
            Ok(_) => {
                &&& final(document)@ == old(document)@.with_access_list(
                    old(document)@.access_list.remove_value(doctor_pubkey@),
                )
                &&& final(doctor_profile)@ == old(doctor_profile)@.with_documents(
                    old(doctor_profile)@.documents.remove_value(document_key(old(document)@)),
                )
                &&& !final(document)@.access_list.contains(doctor_pubkey@)
            },
            Err(e) => {
                &&& e == ContractError::Unauthorized
                &&& final(document)@ == old(document)@
                &&& final(doctor_profile)@ == old(doctor_profile)@
            },
        },
{
    if !caller.same_as(&document.owner) {
        return Err(ContractError::Unauthorized);
    }
    let key = document_key_of(document);
    let ghost pre_al = document.access_list@;
    match find_principal(&document.access_list, doctor_pubkey) {
        Some(pos) => {
            document.access_list.remove(pos);
            proof {
                let s = views_of(pre_al);
                assert(s[pos as int] == doctor_pubkey@);
                s.index_of_first_ensures(doctor_pubkey@);
                match s.index_of_first(doctor_pubkey@) {
                    Some(idx) => {
                        assert(idx == pos as int);
                    },
                    None => {
                        assert(false);
                    },
                }
                lemma_views_of_remove(pre_al, pos as int);
                lemma_remove_keeps_no_duplicates(s, pos as int);
                lemma_remove_value_properties(s, doctor_pubkey@);
                assert(document@ =~= old(document)@.with_access_list(
                    s.remove_value(doctor_pubkey@),
                ));
            }
        },
        None => {
            proof {
                let s = views_of(pre_al);
                s.index_of_first_ensures(doctor_pubkey@);
                lemma_remove_value_properties(s, doctor_pubkey@);
                assert(document@ =~= old(document)@.with_access_list(
                    s.remove_value(doctor_pubkey@),
                ));
            }
        },
    }
    let ghost pre_docs = doctor_profile.documents@;
    let ghost gkey = key;
    match find_key(&doctor_profile.documents, &key) {
        Some(pos) => {
            doctor_profile.documents.remove(pos);
            proof {
                let s = views_of(pre_docs);
                assert(s[pos as int] == gkey@);
                s.index_of_first_ensures(gkey@);
                match s.index_of_first(gkey@) {
                    Some(idx) => {
                        assert(idx == pos as int);
                    },
                    None => {
                        assert(false);
                    },
                }
                lemma_views_of_remove(pre_docs, pos as int);
                assert(doctor_profile@ =~= old(doctor_profile)@.with_documents(
                    s.remove_value(gkey@),
                ));
            }
        },
        None => {
            proof {
                let s = views_of(pre_docs);
                s.index_of_first_ensures(gkey@);
                assert(doctor_profile@ =~= old(doctor_profile)@.with_documents(
                    s.remove_value(gkey@),
                ));
            }
        },
    }
    Ok(())
}

/// Approves the destruction of a document and prunes its identifier from
/// the owner's profile. Only the document's owner, acting through their
/// own profile, may delete; the pruning is tolerant of an identifier
/// already absent.
///
/// Deletion does not reach into grantee profiles: an identifier a grantee
/// still holds after the document is destroyed stays behind as a dangling
/// reference. That is a known, documented limitation of the access rules.
pub fn delete_document(
    document: &Document,
    patient_profile: &mut PatientProfile,
    caller: &Principal,
) -> (r: Result<(), ContractError>)
    requires
        old(patient_profile)@.wf(),
    ensures
        final(patient_profile)@.wf(),
        r is Ok <==> (caller@ == document@.owner && old(patient_profile)@.user == caller@),
        match r {
            Ok(_) => final(patient_profile)@ == old(patient_profile)@.with_documents(
                old(patient_profile)@.documents.remove_value(document_key(document@)),
            ),
            Err(e) => {
                &&& e == ContractError::Unauthorized
                &&& final(patient_profile)@ == old(patient_profile)@
            },
        },
{
    if !caller.same_as(&document.owner) {
        return Err(ContractError::Unauthorized);
    }
    if !patient_profile.user.same_as(caller) {
        return Err(ContractError::Unauthorized);
    }
    let key = document_key_of(document);
    let ghost pre_docs = patient_profile.documents@;
    let ghost gkey = key;
    match find_key(&patient_profile.documents, &key) {
        Some(pos) => {
            patient_profile.documents.remove(pos);
            proof {
                let s = views_of(pre_docs);
                assert(s[pos as int] == gkey@);
                s.index_of_first_ensures(gkey@);
                match s.index_of_first(gkey@) {
                    Some(idx) => {
                        assert(idx == pos as int);
                    },
                    None => {
                        assert(false);
                    },
                }
                lemma_views_of_remove(pre_docs, pos as int);
                assert(patient_profile@ =~= old(patient_profile)@.with_documents(
                    s.remove_value(gkey@),
                ));
            }
        },
        None => {
            proof {
                let s = views_of(pre_docs);
                s.index_of_first_ensures(gkey@);
                assert(patient_profile@ =~= old(patient_profile)@.with_documents(
                    s.remove_value(gkey@),
                ));
            }
        },
    }
    Ok(())
}

/// Law: a revoke followed by a grant of the same principal is a round
/// trip. After removing a granted principal `g` from a well-formed
/// document's access list and the document's identifier from the
/// grantee's profile, the grant is permitted again, takes its appending
/// branch, and pushing `g` and the identifier back restores the
/// membership of both lists exactly.
pub proof fn lemma_revoke_then_grant_round_trip(d: DocumentView, p: ProfileView, g: Seq<u8>)
    requires
        d.wf(),
        p.wf(),
        d.access_list.contains(g),
        p.documents.contains(document_key(d)),
    ensures
        ({
            let al2 = d.access_list.remove_value(g);
            let docs2 = p.documents.remove_value(document_key(d));
            &&& !al2.contains(g)
            &&& al2.len() < MAX_ACCESS_LIST_LEN
            &&& docs2.len() < MAX_PROFILE_DOCUMENTS
            &&& document_key(d.with_access_list(al2)) == document_key(d)
            &&& (forall|x: Seq<u8>| #[trigger] al2.push(g).contains(x) <==> d.access_list.contains(
                x,
            ))
            &&& (forall|x: Seq<u8>| #[trigger] docs2.push(document_key(d)).contains(x)
                <==> p.documents.contains(x))
            &&& al2.push(g).no_duplicates()
        }),
{
    lemma_remove_value_properties(d.access_list, g);
    lemma_remove_then_push_membership(d.access_list, g);
    lemma_remove_then_push_membership(p.documents, document_key(d));
    lemma_push_keeps_no_duplicates(d.access_list.remove_value(g), g);
    p.documents.index_of_first_ensures(document_key(d));
    match p.documents.index_of_first(document_key(d)) {
        Some(i) => {
            p.documents.remove_ensures(i);
        },
        None => {
            assert(false);
        },
    }
}

} // verus!
