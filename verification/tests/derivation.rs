use docaccess::address::{
    derive_doctor_profile_address, derive_document_address, derive_patient_profile_address,
};
use docaccess::hashing::hash_ipfs;
use docaccess::principal::Principal;

fn principal(n: u8) -> Principal {
    Principal::new([n; 32])
}

#[test]
fn sha256_of_abc_matches_the_published_vector() {
    let got = hash_ipfs("abc");
    let expected: [u8; 32] = [
        0xba, 0x78, 0x16, 0xbf, 0x8f, 0x01, 0xcf, 0xea, 0x41, 0x41, 0x40, 0xde, 0x5d, 0xae, 0x22,
        0x23, 0xb0, 0x03, 0x61, 0xa3, 0x96, 0x17, 0x7a, 0x9c, 0xb4, 0x10, 0xff, 0x61, 0xf2, 0x00,
        0x15, 0xad,
    ];
    assert_eq!(got, expected);
}

#[test]
fn sha256_is_deterministic_and_input_dependent() {
    assert_eq!(hash_ipfs("cid1"), hash_ipfs("cid1"));
    assert_ne!(hash_ipfs("cid1"), hash_ipfs("cid2"));
    assert_ne!(hash_ipfs(""), hash_ipfs("a"));
}

#[test]
fn document_address_is_tag_owner_digest() {
    let owner = principal(3);
    let digest: [u8; 32] = [7; 32];
    let addr = derive_document_address(&owner, &digest);
    let mut expected: Vec<u8> = Vec::new();
    expected.extend_from_slice(b"document");
    expected.extend_from_slice(&[3; 32]);
    expected.extend_from_slice(&[7; 32]);
    assert_eq!(addr, expected);
}

#[test]
fn profile_addresses_carry_their_namespace_tags() {
    let user = principal(9);
    let paddr = derive_patient_profile_address(&user);
    let gaddr = derive_doctor_profile_address(&user);
    let mut pexpected: Vec<u8> = Vec::new();
    pexpected.extend_from_slice(b"patient_profile");
    pexpected.extend_from_slice(&[9; 32]);
    let mut gexpected: Vec<u8> = Vec::new();
    gexpected.extend_from_slice(b"doctor_profile");
    gexpected.extend_from_slice(&[9; 32]);
    assert_eq!(paddr, pexpected);
    assert_eq!(gaddr, gexpected);
    assert_ne!(paddr, gaddr);
}

#[test]
fn addresses_differ_across_principals_and_digests() {
    let a = principal(1);
    let b = principal(2);
    let d1: [u8; 32] = [1; 32];
    let d2: [u8; 32] = [2; 32];
    assert_ne!(derive_document_address(&a, &d1), derive_document_address(&b, &d1));
    assert_ne!(derive_document_address(&a, &d1), derive_document_address(&a, &d2));
    assert_ne!(derive_patient_profile_address(&a), derive_patient_profile_address(&b));
    assert_ne!(derive_doctor_profile_address(&a), derive_doctor_profile_address(&b));
}

#[test]
fn principal_equality_goes_by_the_bytes() {
    let a = principal(5);
    let b = principal(5);
    let c = principal(6);
    assert!(a.same_as(&b));
    assert!(!a.same_as(&c));
}
