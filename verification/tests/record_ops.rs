use docaccess::errors::ContractError;
use docaccess::ops::{
    delete_document, grant_access, initialize_doctor_profile, initialize_document,
    initialize_patient_profile, revoke_access,
};
use docaccess::principal::Principal;
use docaccess::records::{document_key_of, Document, DoctorProfile, PatientProfile};

fn principal(n: u8) -> Principal {
    Principal::new([n; 32])
}

fn fresh_document(owner: Principal, cid: &str) -> Document {
    Document {
        ipfs_hash: cid.to_string(),
        title: "title".to_string(),
        description: "description".to_string(),
        salt: [0; 16],
        owner,
        access_list: vec![owner],
    }
}

fn assert_no_duplicates(list: &[Principal]) {
    for i in 0..list.len() {
        for j in 0..list.len() {
            if i != j {
                assert_ne!(list[i], list[j]);
            }
        }
    }
}

#[test]
fn profiles_start_empty() {
    let o = principal(1);
    let p = initialize_patient_profile(&o);
    assert_eq!(p.user, o);
    assert!(p.documents.is_empty());
    let g = initialize_doctor_profile(&o);
    assert_eq!(g.user, o);
    assert!(g.documents.is_empty());
}

#[test]
fn initialize_document_seeds_owner_and_profile() {
    let o = principal(1);
    let mut profile = initialize_patient_profile(&o);
    let d = initialize_document(
        &o,
        "cid1".to_string(),
        "t".to_string(),
        "d".to_string(),
        [9; 16],
        &mut profile,
    )
    .unwrap();
    assert_eq!(d.owner, o);
    assert_eq!(d.ipfs_hash, "cid1");
    assert_eq!(d.title, "t");
    assert_eq!(d.description, "d");
    assert_eq!(d.salt, [9; 16]);
    assert_eq!(d.access_list, vec![o]);
    assert_eq!(profile.documents, vec![document_key_of(&d)]);
}

#[test]
fn initialize_document_rejects_a_foreign_profile() {
    let o = principal(1);
    let other = principal(2);
    let mut profile = initialize_patient_profile(&other);
    let r = initialize_document(
        &o,
        "cid1".to_string(),
        "t".to_string(),
        "d".to_string(),
        [0; 16],
        &mut profile,
    );
    assert!(matches!(r, Err(ContractError::MissingOwnerProfile)));
    assert!(profile.documents.is_empty());
}

#[test]
fn eleventh_document_reference_is_rejected() {
    let o = principal(1);
    let mut profile = PatientProfile {
        user: o,
        documents: (0..10).map(|i| vec![i as u8; 4]).collect(),
    };
    let before = profile.documents.clone();
    let r = initialize_document(
        &o,
        "cid11".to_string(),
        "t".to_string(),
        "d".to_string(),
        [0; 16],
        &mut profile,
    );
    assert!(matches!(r, Err(ContractError::ProfileCapacityExceeded)));
    assert_eq!(profile.documents, before);
}

#[test]
fn grant_is_idempotent() {
    let o = principal(1);
    let g = principal(2);
    let mut doc = fresh_document(o, "cid1");
    let mut gprof = initialize_doctor_profile(&g);
    assert!(grant_access(&mut doc, &mut gprof, &o, &g, false).is_ok());
    let doc_before = doc.access_list.clone();
    let prof_before = gprof.documents.clone();
    assert!(grant_access(&mut doc, &mut gprof, &o, &g, false).is_ok());
    assert_eq!(doc.access_list, doc_before);
    assert_eq!(gprof.documents, prof_before);
}

#[test]
fn grant_appends_to_both_records() {
    let o = principal(1);
    let g = principal(2);
    let mut doc = fresh_document(o, "cid1");
    let mut gprof = initialize_doctor_profile(&g);
    assert!(grant_access(&mut doc, &mut gprof, &o, &g, false).is_ok());
    assert_eq!(doc.access_list, vec![o, g]);
    assert_eq!(gprof.documents, vec![document_key_of(&doc)]);
}

#[test]
fn grant_rejects_a_full_access_list() {
    let o = principal(1);
    let mut doc = fresh_document(o, "cid1");
    doc.access_list = (0..10).map(|i| principal(i as u8)).collect();
    let newcomer = principal(99);
    let mut gprof = initialize_doctor_profile(&newcomer);
    let before = doc.access_list.clone();
    let r = grant_access(&mut doc, &mut gprof, &o, &newcomer, false);
    assert!(matches!(r, Err(ContractError::AccessListFull)));
    assert_eq!(doc.access_list, before);
    assert!(gprof.documents.is_empty());
}

#[test]
fn grant_rejects_a_full_grantee_profile() {
    let o = principal(1);
    let g = principal(2);
    let mut doc = fresh_document(o, "cid1");
    let mut gprof = DoctorProfile {
        user: g,
        documents: (0..10).map(|i| vec![i as u8; 4]).collect(),
    };
    let before = gprof.documents.clone();
    let r = grant_access(&mut doc, &mut gprof, &o, &g, false);
    assert!(matches!(r, Err(ContractError::ProfileCapacityExceeded)));
    assert_eq!(doc.access_list, vec![o]);
    assert_eq!(gprof.documents, before);
}

#[test]
fn grant_with_owner_enforcement_turns_strangers_away() {
    let o = principal(1);
    let stranger = principal(3);
    let g = principal(2);
    let mut doc = fresh_document(o, "cid1");
    let mut gprof = initialize_doctor_profile(&g);
    let r = grant_access(&mut doc, &mut gprof, &stranger, &g, true);
    assert!(matches!(r, Err(ContractError::Unauthorized)));
    assert_eq!(doc.access_list, vec![o]);
    assert!(gprof.documents.is_empty());
    assert!(grant_access(&mut doc, &mut gprof, &o, &g, true).is_ok());
    assert_eq!(doc.access_list, vec![o, g]);
}

#[test]
fn revoke_requires_the_owner() {
    let o = principal(1);
    let g = principal(2);
    let stranger = principal(3);
    let mut doc = fresh_document(o, "cid1");
    let mut gprof = initialize_doctor_profile(&g);
    grant_access(&mut doc, &mut gprof, &o, &g, false).unwrap();
    let doc_before = doc.access_list.clone();
    let prof_before = gprof.documents.clone();
    let r = revoke_access(&mut doc, &mut gprof, &stranger, &g);
    assert!(matches!(r, Err(ContractError::Unauthorized)));
    assert_eq!(doc.access_list, doc_before);
    assert_eq!(gprof.documents, prof_before);
}

#[test]
fn revoke_removes_from_both_records() {
    let o = principal(1);
    let g = principal(2);
    let mut doc = fresh_document(o, "cid1");
    let mut gprof = initialize_doctor_profile(&g);
    grant_access(&mut doc, &mut gprof, &o, &g, false).unwrap();
    assert!(revoke_access(&mut doc, &mut gprof, &o, &g).is_ok());
    assert_eq!(doc.access_list, vec![o]);
    assert!(gprof.documents.is_empty());
}

#[test]
fn revoke_of_an_absent_grantee_is_tolerated() {
    let o = principal(1);
    let g = principal(2);
    let mut doc = fresh_document(o, "cid1");
    let mut gprof = initialize_doctor_profile(&g);
    assert!(revoke_access(&mut doc, &mut gprof, &o, &g).is_ok());
    assert_eq!(doc.access_list, vec![o]);
    assert!(gprof.documents.is_empty());
}

#[test]
fn revoke_then_grant_restores_membership() {
    let o = principal(1);
    let g = principal(2);
    let mut doc = fresh_document(o, "cid1");
    let mut gprof = initialize_doctor_profile(&g);
    grant_access(&mut doc, &mut gprof, &o, &g, false).unwrap();
    let doc_before = doc.access_list.clone();
    let prof_before = gprof.documents.clone();
    revoke_access(&mut doc, &mut gprof, &o, &g).unwrap();
    grant_access(&mut doc, &mut gprof, &o, &g, false).unwrap();
    assert_eq!(doc.access_list, doc_before);
    assert_eq!(gprof.documents, prof_before);
}

#[test]
fn access_list_never_holds_duplicates() {
    let o = principal(1);
    let mut doc = fresh_document(o, "cid1");
    let mut profiles: Vec<DoctorProfile> =
        (2..6).map(|i| initialize_doctor_profile(&principal(i as u8))).collect();
    for round in 0..3 {
        for i in 0..profiles.len() {
            let g = profiles[i].user;
            grant_access(&mut doc, &mut profiles[i], &o, &g, false).unwrap();
            assert_no_duplicates(&doc.access_list);
        }
        if round % 2 == 0 {
            let g = profiles[0].user;
            revoke_access(&mut doc, &mut profiles[0], &o, &g).unwrap();
            assert_no_duplicates(&doc.access_list);
        }
    }
}

#[test]
fn delete_by_the_owner_prunes_the_profile() {
    let o = principal(1);
    let mut profile = initialize_patient_profile(&o);
    let d = initialize_document(
        &o,
        "cid1".to_string(),
        "t".to_string(),
        "d".to_string(),
        [0; 16],
        &mut profile,
    )
    .unwrap();
    assert_eq!(profile.documents.len(), 1);
    assert!(delete_document(&d, &mut profile, &o).is_ok());
    assert!(profile.documents.is_empty());
}

#[test]
fn delete_by_a_non_owner_is_unauthorized_and_changes_nothing() {
    let o = principal(1);
    let stranger = principal(2);
    let mut profile = initialize_patient_profile(&o);
    let d = initialize_document(
        &o,
        "cid1".to_string(),
        "t".to_string(),
        "d".to_string(),
        [0; 16],
        &mut profile,
    )
    .unwrap();
    let before = profile.documents.clone();
    let r = delete_document(&d, &mut profile, &stranger);
    assert!(matches!(r, Err(ContractError::Unauthorized)));
    assert_eq!(profile.documents, before);
    assert_eq!(d.access_list, vec![o]);
}

#[test]
fn delete_tolerates_an_absent_reference() {
    let o = principal(1);
    let mut profile = initialize_patient_profile(&o);
    let d = fresh_document(o, "never-registered");
    assert!(delete_document(&d, &mut profile, &o).is_ok());
    assert!(profile.documents.is_empty());
}
