//! The three record kinds and their invariants.
//!
//! A document record keeps the access metadata of one externally stored
//! file; an owner profile keeps the documents a principal created; a
//! grantee profile keeps the documents a principal was granted access to.
//! Every list is bounded, and a document's access list never holds a
//! principal twice.

use vstd::prelude::*;
use crate::address::document_address;
use crate::hashing::{hash_ipfs, sha256_of};
use crate::principal::Principal;

verus! {

/// Bound on a document's access list.
pub const MAX_ACCESS_LIST_LEN: usize = 10;

/// Bound on a profile's document list.
pub const MAX_PROFILE_DOCUMENTS: usize = 10;

/// Bound, in characters, on a content identifier.
pub const MAX_CONTENT_ID_LEN: usize = 64;

/// Bound, in characters, on a document title.
pub const MAX_TITLE_LEN: usize = 64;

/// Bound, in characters, on a document description.
pub const MAX_DESCRIPTION_LEN: usize = 256;

/// The views of the elements of a sequence, element by element.
pub open spec fn views_of<T: View>(s: Seq<T>) -> Seq<<T as View>::V> {
    Seq::new(s.len(), |i: int| s[i]@)
}

/// The mathematical value of a document record.
#[verifier::ext_equal]
pub ghost struct DocumentView {
    pub ipfs_hash: Seq<char>,
    pub title: Seq<char>,
    pub description: Seq<char>,
    pub salt: Seq<u8>,
    pub owner: Seq<u8>,
    pub access_list: Seq<Seq<u8>>,
}

/// The mathematical value of a profile record, owner or grantee alike.
#[verifier::ext_equal]
pub ghost struct ProfileView {
    pub user: Seq<u8>,
    pub documents: Seq<Seq<u8>>,
}

impl DocumentView {
    /// Well-formedness: bounded fields and a duplicate-free access list.
    pub open spec fn wf(self) -> bool {
        &&& self.access_list.no_duplicates()
        &&& self.access_list.len() <= MAX_ACCESS_LIST_LEN
        &&& self.ipfs_hash.len() <= MAX_CONTENT_ID_LEN
        &&& self.title.len() <= MAX_TITLE_LEN
        &&& self.description.len() <= MAX_DESCRIPTION_LEN
        &&& self.salt.len() == 16
        &&& self.owner.len() == 32
    }

    /// The same document with another access list.
    pub open spec fn with_access_list(self, access_list: Seq<Seq<u8>>) -> DocumentView {
        DocumentView {
            ipfs_hash: self.ipfs_hash,
            title: self.title,
            description: self.description,
            salt: self.salt,
            owner: self.owner,
            access_list: access_list,
        }
    }
}

impl ProfileView {
    /// Well-formedness: a bounded document list.
    pub open spec fn wf(self) -> bool {
        &&& self.documents.len() <= MAX_PROFILE_DOCUMENTS
        &&& self.user.len() == 32
    }

    /// The same profile with another document list.
    pub open spec fn with_documents(self, documents: Seq<Seq<u8>>) -> ProfileView {
        ProfileView { user: self.user, documents: documents }
    }
}

/// One externally stored file's access metadata.
pub struct Document {
    pub ipfs_hash: String,
    pub title: String,
    pub description: String,
    pub salt: [u8; 16],
    pub owner: Principal,
    pub access_list: Vec<Principal>,
}

/// The per-owner record of the documents a principal created.
pub struct PatientProfile {
    pub user: Principal,
    pub documents: Vec<Vec<u8>>,
}

/// The per-grantee record of the documents a principal was granted
/// access to.
pub struct DoctorProfile {
    pub user: Principal,
    pub documents: Vec<Vec<u8>>,
}

impl View for Document {
    type V = DocumentView;

    open spec fn view(&self) -> DocumentView {
        DocumentView {
            ipfs_hash: self.ipfs_hash@,
            title: self.title@,
            description: self.description@,
            salt: self.salt@,
            owner: self.owner@,
            access_list: views_of(self.access_list@),
        }
    }
}

impl View for PatientProfile {
    type V = ProfileView;

    open spec fn view(&self) -> ProfileView {
        ProfileView { user: self.user@, documents: views_of(self.documents@) }
    }
}

impl View for DoctorProfile {
    type V = ProfileView;

    open spec fn view(&self) -> ProfileView {
        ProfileView { user: self.user@, documents: views_of(self.documents@) }
    }
}

/// The identifier under which a document is stored and under which the
/// profiles reference it: the address derived from its owner and the
/// digest of its content identifier.
pub open spec fn document_key(d: DocumentView) -> Seq<u8> {
    document_address(d.owner, sha256_of(d.ipfs_hash))
}

/// Computes the identifier of a document record.
pub fn document_key_of(document: &Document) -> (k: Vec<u8>)
    ensures
        k@ == document_key(document@),
{
    let digest = hash_ipfs(document.ipfs_hash.as_str());
    crate::address::derive_document_address(&document.owner, &digest)
}

/// Decides whether two record identifiers are equal.
pub fn key_eq(a: &Vec<u8>, b: &Vec<u8>) -> (r: bool)
    ensures
        r == (a@ == b@),
{
    if a.len() != b.len() {
        return false;
    }
    let mut i: usize = 0;
    while i < a.len()
        invariant
            a@.len() == b@.len(),
            i <= a@.len(),
            forall|j: int| 0 <= j < i ==> a@[j] == b@[j],
        decreases a@.len() - i,
    {
        if a[i] != b[i] {
            return false;
        }
        i = i + 1;
    }
    proof {
        assert(a@ =~= b@);
    }
    true
}

/// Finds the first position of a principal in a list, if any.
pub fn find_principal(list: &Vec<Principal>, p: &Principal) -> (r: Option<usize>)
    ensures
        match r {
            Some(i) => i < list@.len() && views_of(list@)[i as int] == p@ && (forall|j: int|
                0 <= j < i ==> views_of(list@)[j] != p@),
            None => !views_of(list@).contains(p@),
        },
{
    let mut i: usize = 0;
    while i < list.len()
        invariant
            i <= list@.len(),
            forall|j: int| 0 <= j < i ==> views_of(list@)[j] != p@,
        decreases list@.len() - i,
    {
        if list[i].same_as(p) {
            return Some(i);
        }
        i = i + 1;
    }
    None
}

/// Decides whether a principal stands in a list.
pub fn contains_principal(list: &Vec<Principal>, p: &Principal) -> (r: bool)
    ensures
        r == views_of(list@).contains(p@),
{
    match find_principal(list, p) {
        Some(i) => {
            proof {
                assert(views_of(list@)[i as int] == p@);
            }
            true
        },
        None => false,
    }
}

/// Finds the first position of a record identifier in a list, if any.
pub fn find_key(list: &Vec<Vec<u8>>, k: &Vec<u8>) -> (r: Option<usize>)
    ensures
        match r {
            Some(i) => i < list@.len() && views_of(list@)[i as int] == k@ && (forall|j: int|
                0 <= j < i ==> views_of(list@)[j] != k@),
            None => !views_of(list@).contains(k@),
        },
{
    let mut i: usize = 0;
    while i < list.len()
        invariant
            i <= list@.len(),
            forall|j: int| 0 <= j < i ==> views_of(list@)[j] != k@,
        decreases list@.len() - i,
    {
        if key_eq(&list[i], k) {
            return Some(i);
        }
        i = i + 1;
    }
    None
}

/// Mapping a push over the element views commutes with the push.
pub proof fn lemma_views_of_push<T: View>(s: Seq<T>, x: T)
    ensures
        views_of(s.push(x)) == views_of(s).push(x@),
{
    assert(views_of(s.push(x)) =~= views_of(s).push(x@));
}

/// Mapping a removal over the element views commutes with the removal.
pub proof fn lemma_views_of_remove<T: View>(s: Seq<T>, i: int)
    requires
        0 <= i < s.len(),
    ensures
        views_of(s.remove(i)) == views_of(s).remove(i),
{
    s.remove_ensures(i);
    views_of(s).remove_ensures(i);
    assert forall|j: int| 0 <= j < s.len() - 1 implies views_of(s.remove(i))[j] == views_of(
        s,
    ).remove(i)[j] by {
        if j < i {
            assert(s.remove(i)[j] == s[j]);
            assert(views_of(s).remove(i)[j] == views_of(s)[j]);
        } else {
            assert(s.remove(i)[j] == s[j + 1]);
            assert(views_of(s).remove(i)[j] == views_of(s)[j + 1]);
        }
    }
    assert(views_of(s.remove(i)) =~= views_of(s).remove(i));
}

/// Pushing a fresh element keeps a sequence duplicate-free.
pub proof fn lemma_push_keeps_no_duplicates<A>(s: Seq<A>, x: A)
    requires
        s.no_duplicates(),
        !s.contains(x),
    ensures
        s.push(x).no_duplicates(),
{
    assert forall|i: int, j: int|
        0 <= i < s.push(x).len() && 0 <= j < s.push(x).len() && i != j implies s.push(x)[i]
        != s.push(x)[j] by {
        if i < s.len() && j < s.len() {
        } else if i == s.len() && 0 <= j < s.len() {
            if s[j] == x {
                assert(s.contains(x));
            }
        } else if j == s.len() && 0 <= i < s.len() {
            if s[i] == x {
                assert(s.contains(x));
            }
        }
    }
}

/// Removing an element keeps a sequence duplicate-free.
pub proof fn lemma_remove_keeps_no_duplicates<A>(s: Seq<A>, i: int)
    requires
        s.no_duplicates(),
        0 <= i < s.len(),
    ensures
        s.remove(i).no_duplicates(),
{
    s.remove_ensures(i);
    assert forall|p: int, q: int|
        0 <= p < s.remove(i).len() && 0 <= q < s.remove(i).len() && p != q implies s.remove(i)[p]
        != s.remove(i)[q] by {
        if p < i {
            assert(s.remove(i)[p] == s[p]);
        } else {
            assert(s.remove(i)[p] == s[p + 1]);
        }
        if q < i {
            assert(s.remove(i)[q] == s[q]);
        } else {
            assert(s.remove(i)[q] == s[q + 1]);
        }
    }
}

/// In a duplicate-free sequence, the element removed at an index no
/// longer occurs at all.
pub proof fn lemma_removed_index_absent<A>(s: Seq<A>, i: int)
    requires
        s.no_duplicates(),
        0 <= i < s.len(),
    ensures
        !s.remove(i).contains(s[i]),
{
    s.remove_ensures(i);
    assert forall|j: int| 0 <= j < s.remove(i).len() implies s.remove(i)[j] != s[i] by {
        if j < i {
            assert(s.remove(i)[j] == s[j]);
        } else {
            assert(s.remove(i)[j] == s[j + 1]);
        }
    }
}

/// Removing the first occurrence of a value from a duplicate-free sequence
/// removes the value entirely, keeps the sequence duplicate-free, and
/// shortens it by exactly one when the value was present.
pub proof fn lemma_remove_value_properties<A>(s: Seq<A>, x: A)
    requires
        s.no_duplicates(),
    ensures
        !s.remove_value(x).contains(x),
        s.remove_value(x).no_duplicates(),
        s.contains(x) ==> s.remove_value(x).len() == s.len() - 1,
        !s.contains(x) ==> s.remove_value(x) == s,
{
    s.index_of_first_ensures(x);
    match s.index_of_first(x) {
        Some(i) => {
            s.remove_ensures(i);
            lemma_remove_keeps_no_duplicates(s, i);
            assert forall|j: int| 0 <= j < s.remove(i).len() implies s.remove(i)[j] != x by {
                if j < i {
                    assert(s.remove(i)[j] == s[j]);
                } else {
                    assert(s.remove(i)[j] == s[j + 1]);
                }
            }
        },
        None => {},
    }
}

/// Removing the first occurrence of one value never adds members, and
/// keeps every member other than that value.
pub proof fn lemma_remove_value_membership<A>(s: Seq<A>, x: A)
    ensures
        forall|y: A| #[trigger] s.remove_value(x).contains(y) ==> s.contains(y),
        forall|y: A| s.contains(y) && y != x ==> #[trigger] s.remove_value(x).contains(y),
{
    s.index_of_first_ensures(x);
    match s.index_of_first(x) {
        Some(i) => {
            s.remove_ensures(i);
            assert forall|y: A| #[trigger] s.remove(i).contains(y) implies s.contains(y) by {
                let j = choose|j: int| 0 <= j < s.remove(i).len() && s.remove(i)[j] == y;
                if j < i {
                    assert(s[j] == y);
                } else {
                    assert(s[j + 1] == y);
                }
            }
            assert forall|y: A| s.contains(y) && y != x implies #[trigger] s.remove(i).contains(
                y,
            ) by {
                let j = choose|j: int| 0 <= j < s.len() && s[j] == y;
                if j < i {
                    assert(s.remove(i)[j] == y);
                } else {
                    assert(j != i);
                    assert(s.remove(i)[j - 1] == y);
                }
            }
        },
        None => {},
    }
}

/// Removing one occurrence of a value and pushing the value back restores
/// membership exactly.
pub proof fn lemma_remove_then_push_membership<A>(s: Seq<A>, x: A)
    requires
        s.contains(x),
    ensures
        forall|y: A| #[trigger] s.remove_value(x).push(x).contains(y) <==> s.contains(y),
{
    s.index_of_first_ensures(x);
    match s.index_of_first(x) {
        Some(i) => {
            s.remove_ensures(i);
            let r = s.remove(i);
            assert forall|y: A| #[trigger] r.push(x).contains(y) implies s.contains(y) by {
                if y == x {
                } else {
                    let j = choose|j: int| 0 <= j < r.push(x).len() && r.push(x)[j] == y;
                    assert(j < r.len());
                    assert(r[j] == y);
                    if j < i {
                        assert(s[j] == y);
                    } else {
                        assert(s[j + 1] == y);
                    }
                }
            }
            assert forall|y: A| s.contains(y) implies #[trigger] r.push(x).contains(y) by {
                let k = choose|k: int| 0 <= k < s.len() && s[k] == y;
                if k == i {
                    assert(r.push(x)[r.len() as int] == x);
                } else if k < i {
                    assert(r[k] == y);
                    assert(r.push(x)[k] == y);
                } else {
                    assert(r[k - 1] == y);
                    assert(r.push(x)[k - 1] == y);
                }
            }
        },
        None => {},
    }
}

} // verus!
