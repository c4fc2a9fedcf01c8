use docaccess::address::derive_document_address;
use docaccess::errors::ContractError;
use docaccess::hashing::hash_ipfs;
use docaccess::principal::Principal;
use docaccess::registry::{Registry, RegistryError};

fn principal(n: u8) -> Principal {
    Principal::new([n; 32])
}

fn document_address_for(owner: &Principal, cid: &str) -> Vec<u8> {
    let digest = hash_ipfs(cid);
    derive_document_address(owner, &digest)
}

#[test]
fn owner_grants_and_revokes_a_grantee() {
    let o = principal(1);
    let g = principal(2);
    let mut registry = Registry::new();
    registry.initialize_patient_profile(&o).unwrap();
    registry.initialize_doctor_profile(&g).unwrap();
    registry
        .initialize_document(&o, "cid1".to_string(), "t".to_string(), "d".to_string(), [0; 16])
        .unwrap();
    registry.grant_access(&o, &g, "cid1").unwrap();

    let d = registry.get_document(&o, "cid1").unwrap();
    assert_eq!(d.access_list, vec![o, g]);
    let gp = registry.get_doctor_profile(&g).unwrap();
    assert_eq!(gp.documents, vec![document_address_for(&o, "cid1")]);

    registry.revoke_access(&o, &g, "cid1").unwrap();
    let d = registry.get_document(&o, "cid1").unwrap();
    assert_eq!(d.access_list, vec![o]);
    let gp = registry.get_doctor_profile(&g).unwrap();
    assert!(gp.documents.is_empty());
}

#[test]
fn a_profile_cannot_be_initialized_twice() {
    let o = principal(1);
    let mut registry = Registry::new();
    registry.initialize_patient_profile(&o).unwrap();
    let r = registry.initialize_patient_profile(&o);
    assert!(matches!(r, Err(RegistryError::Contract(ContractError::ProfileAlreadyExists))));
    registry.initialize_doctor_profile(&o).unwrap();
    let r = registry.initialize_doctor_profile(&o);
    assert!(matches!(r, Err(RegistryError::Contract(ContractError::ProfileAlreadyExists))));
}

#[test]
fn a_document_address_cannot_be_taken_twice() {
    let o = principal(1);
    let mut registry = Registry::new();
    registry.initialize_patient_profile(&o).unwrap();
    registry
        .initialize_document(&o, "cid1".to_string(), "t".to_string(), "d".to_string(), [0; 16])
        .unwrap();
    let r = registry.initialize_document(
        &o,
        "cid1".to_string(),
        "other title".to_string(),
        "other description".to_string(),
        [1; 16],
    );
    assert!(matches!(r, Err(RegistryError::Contract(ContractError::DuplicateDocument))));
    let d = registry.get_document(&o, "cid1").unwrap();
    assert_eq!(d.title, "t");
}

#[test]
fn a_document_needs_an_owner_profile_first() {
    let o = principal(1);
    let mut registry = Registry::new();
    let r = registry.initialize_document(
        &o,
        "cid1".to_string(),
        "t".to_string(),
        "d".to_string(),
        [0; 16],
    );
    assert!(matches!(r, Err(RegistryError::Contract(ContractError::MissingOwnerProfile))));
    assert!(registry.get_document(&o, "cid1").is_none());
}

#[test]
fn operations_on_absent_records_are_rejected_by_the_store() {
    let o = principal(1);
    let g = principal(2);
    let mut registry = Registry::new();
    assert!(matches!(registry.grant_access(&o, &g, "cid1"), Err(RegistryError::NotFound)));
    assert!(matches!(registry.revoke_access(&o, &g, "cid1"), Err(RegistryError::NotFound)));
    assert!(matches!(registry.delete_document(&o, "cid1"), Err(RegistryError::NotFound)));
    registry.initialize_patient_profile(&o).unwrap();
    registry
        .initialize_document(&o, "cid1".to_string(), "t".to_string(), "d".to_string(), [0; 16])
        .unwrap();
    // the grantee profile is still missing
    assert!(matches!(registry.grant_access(&o, &g, "cid1"), Err(RegistryError::NotFound)));
}

#[test]
fn an_owner_profile_holds_at_most_ten_documents() {
    let o = principal(1);
    let mut registry = Registry::new();
    registry.initialize_patient_profile(&o).unwrap();
    for i in 0..10 {
        let cid = format!("cid{}", i);
        registry
            .initialize_document(&o, cid, "t".to_string(), "d".to_string(), [0; 16])
            .unwrap();
    }
    let r = registry.initialize_document(
        &o,
        "cid10".to_string(),
        "t".to_string(),
        "d".to_string(),
        [0; 16],
    );
    assert!(matches!(r, Err(RegistryError::Contract(ContractError::ProfileCapacityExceeded))));
    assert!(registry.get_document(&o, "cid10").is_none());
    let p = registry.get_patient_profile(&o).unwrap();
    assert_eq!(p.documents.len(), 10);
}

#[test]
fn deletion_destroys_the_record_and_prunes_the_owner_profile() {
    let o = principal(1);
    let g = principal(2);
    let mut registry = Registry::new();
    registry.initialize_patient_profile(&o).unwrap();
    registry.initialize_doctor_profile(&g).unwrap();
    registry
        .initialize_document(&o, "cid1".to_string(), "t".to_string(), "d".to_string(), [0; 16])
        .unwrap();
    registry.grant_access(&o, &g, "cid1").unwrap();
    registry.delete_document(&o, "cid1").unwrap();
    assert!(registry.get_document(&o, "cid1").is_none());
    let p = registry.get_patient_profile(&o).unwrap();
    assert!(p.documents.is_empty());
    // the grantee's reference is deliberately left dangling
    let gp = registry.get_doctor_profile(&g).unwrap();
    assert_eq!(gp.documents, vec![document_address_for(&o, "cid1")]);
    // the address is free again
    registry
        .initialize_document(&o, "cid1".to_string(), "t2".to_string(), "d2".to_string(), [0; 16])
        .unwrap();
    assert_eq!(registry.get_document(&o, "cid1").unwrap().title, "t2");
}

#[test]
fn granting_twice_changes_nothing_in_the_registry() {
    let o = principal(1);
    let g = principal(2);
    let mut registry = Registry::new();
    registry.initialize_patient_profile(&o).unwrap();
    registry.initialize_doctor_profile(&g).unwrap();
    registry
        .initialize_document(&o, "cid1".to_string(), "t".to_string(), "d".to_string(), [0; 16])
        .unwrap();
    registry.grant_access(&o, &g, "cid1").unwrap();
    registry.grant_access(&o, &g, "cid1").unwrap();
    let d = registry.get_document(&o, "cid1").unwrap();
    assert_eq!(d.access_list, vec![o, g]);
    let gp = registry.get_doctor_profile(&g).unwrap();
    assert_eq!(gp.documents.len(), 1);
}

#[test]
fn documents_of_different_owners_live_side_by_side() {
    let a = principal(1);
    let b = principal(2);
    let mut registry = Registry::new();
    registry.initialize_patient_profile(&a).unwrap();
    registry.initialize_patient_profile(&b).unwrap();
    registry
        .initialize_document(&a, "cid1".to_string(), "ta".to_string(), "d".to_string(), [0; 16])
        .unwrap();
    registry
        .initialize_document(&b, "cid1".to_string(), "tb".to_string(), "d".to_string(), [0; 16])
        .unwrap();
    assert_eq!(registry.get_document(&a, "cid1").unwrap().title, "ta");
    assert_eq!(registry.get_document(&b, "cid1").unwrap().title, "tb");
}
