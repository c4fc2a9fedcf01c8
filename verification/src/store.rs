//! Keyed slots, as the record store hands them out.
//!
//! A slot sequence is a list of `(address, record)` pairs with pairwise
//! distinct addresses; its mathematical value is the finite map from
//! addresses to record values.

use vstd::prelude::*;
use crate::records::key_eq;

verus! {

/// The addresses of a slot sequence, in slot order.
pub open spec fn keys_of<T>(s: Seq<(Vec<u8>, T)>) -> Seq<Seq<u8>> {
    Seq::new(s.len(), |i: int| s[i].0@)
}

/// The map a slot sequence denotes. A later slot would shadow an earlier
/// one under the same address; with distinct addresses every slot is
/// visible.
pub open spec fn map_of<T: View>(s: Seq<(Vec<u8>, T)>) -> Map<Seq<u8>, <T as View>::V>
    decreases s.len(),
{
    if s.len() == 0 {
        Map::empty()
    } else {
        map_of(s.drop_last()).insert(s.last().0@, s.last().1@)
    }
}

/// The denoted map binds exactly the addresses of the slots.
pub proof fn lemma_map_of_dom<T: View>(s: Seq<(Vec<u8>, T)>)
    ensures
        forall|k: Seq<u8>| #[trigger] map_of(s).contains_key(k) <==> keys_of(s).contains(k),
    decreases s.len(),
{
    if s.len() == 0 {
    } else {
        lemma_map_of_dom(s.drop_last());
        assert forall|k: Seq<u8>| #[trigger] map_of(s).contains_key(k) implies keys_of(
            s,
        ).contains(k) by {
            if k == s.last().0@ {
                assert(keys_of(s)[s.len() - 1] == k);
            } else {
                assert(map_of(s.drop_last()).contains_key(k));
                assert(keys_of(s.drop_last()).contains(k));
                let j = choose|j: int|
                    0 <= j < s.drop_last().len() && keys_of(s.drop_last())[j] == k;
                assert(s.drop_last()[j] == s[j]);
                assert(keys_of(s)[j] == k);
            }
        }
        assert forall|k: Seq<u8>| keys_of(s).contains(k) implies #[trigger] map_of(
            s,
        ).contains_key(k) by {
            let j = choose|j: int| 0 <= j < s.len() && keys_of(s)[j] == k;
            if j == s.len() - 1 {
                assert(map_of(s).contains_key(s.last().0@));
            } else {
                assert(s.drop_last()[j] == s[j]);
                assert(keys_of(s.drop_last())[j] == k);
                assert(keys_of(s.drop_last()).contains(k));
                assert(map_of(s.drop_last()).contains_key(k));
            }
        }
    }
}

/// Under distinct addresses, slot `i` is what the denoted map binds at
/// slot `i`'s address.
pub proof fn lemma_map_of_index<T: View>(s: Seq<(Vec<u8>, T)>, i: int)
    requires
        keys_of(s).no_duplicates(),
        0 <= i < s.len(),
    ensures
        map_of(s).contains_key(s[i].0@),
        map_of(s)[s[i].0@] == s[i].1@,
    decreases s.len(),
{
    if i == s.len() - 1 {
    } else {
        assert(keys_of(s.drop_last()) =~= keys_of(s).drop_last());
        assert forall|p: int, q: int|
            0 <= p < keys_of(s.drop_last()).len() && 0 <= q < keys_of(s.drop_last()).len() && p
                != q implies keys_of(s.drop_last())[p] != keys_of(s.drop_last())[q] by {
            assert(keys_of(s)[p] == keys_of(s.drop_last())[p]);
            assert(keys_of(s)[q] == keys_of(s.drop_last())[q]);
        }
        lemma_map_of_index(s.drop_last(), i);
        assert(keys_of(s)[i] != keys_of(s)[s.len() - 1]);
        assert(s.drop_last()[i] == s[i]);
    }
}

/// Appending a slot inserts its binding.
pub proof fn lemma_map_of_push<T: View>(s: Seq<(Vec<u8>, T)>, p: (Vec<u8>, T))
    ensures
        map_of(s.push(p)) == map_of(s).insert(p.0@, p.1@),
        keys_of(s.push(p)) == keys_of(s).push(p.0@),
{
    assert(s.push(p).drop_last() =~= s);
    assert(s.push(p).last() == p);
    assert(keys_of(s.push(p)) =~= keys_of(s).push(p.0@));
}

/// Under distinct addresses, removing slot `i` removes its binding and
/// nothing else.
pub proof fn lemma_map_of_remove<T: View>(s: Seq<(Vec<u8>, T)>, i: int)
    requires
        keys_of(s).no_duplicates(),
        0 <= i < s.len(),
    ensures
        map_of(s.remove(i)) == map_of(s).remove(s[i].0@),
        keys_of(s.remove(i)) == keys_of(s).remove(i),
        keys_of(s.remove(i)).no_duplicates(),
    decreases s.len(),
{
    s.remove_ensures(i);
    keys_of(s).remove_ensures(i);
    assert forall|j: int| 0 <= j < s.len() - 1 implies keys_of(s.remove(i))[j] == keys_of(
        s,
    ).remove(i)[j] by {
        if j < i {
            assert(s.remove(i)[j] == s[j]);
            assert(keys_of(s).remove(i)[j] == keys_of(s)[j]);
        } else {
            assert(s.remove(i)[j] == s[j + 1]);
            assert(keys_of(s).remove(i)[j] == keys_of(s)[j + 1]);
        }
    }
    assert(keys_of(s.remove(i)) =~= keys_of(s).remove(i));
    crate::records::lemma_remove_keeps_no_duplicates(keys_of(s), i);
    lemma_map_of_dom(s);
    lemma_map_of_dom(s.remove(i));
    if i == s.len() - 1 {
        assert(s.remove(i) =~= s.drop_last());
        lemma_map_of_dom(s.drop_last());
        if keys_of(s.drop_last()).contains(s[i].0@) {
            let j = choose|j: int|
                0 <= j < s.drop_last().len() && keys_of(s.drop_last())[j] == s[i].0@;
            assert(keys_of(s)[j] == s[i].0@);
            assert(keys_of(s)[i] == s[i].0@);
            assert(false);
        }
        assert(map_of(s.remove(i)) =~= map_of(s).remove(s[i].0@));
    } else {
        assert(s.remove(i).last() == s.last());
        assert(s.remove(i).drop_last() =~= s.drop_last().remove(i));
        assert(keys_of(s.drop_last()) =~= keys_of(s).drop_last());
        assert forall|p: int, q: int|
            0 <= p < keys_of(s.drop_last()).len() && 0 <= q < keys_of(s.drop_last()).len() && p
                != q implies keys_of(s.drop_last())[p] != keys_of(s.drop_last())[q] by {
            assert(keys_of(s)[p] == keys_of(s.drop_last())[p]);
            assert(keys_of(s)[q] == keys_of(s.drop_last())[q]);
        }
        lemma_map_of_remove(s.drop_last(), i);
        assert(s.drop_last()[i] == s[i]);
        assert(keys_of(s)[i] != keys_of(s)[s.len() - 1]);
        assert(map_of(s.remove(i)) == map_of(s.drop_last().remove(i)).insert(
            s.last().0@,
            s.last().1@,
        ));
        assert(map_of(s.remove(i)) =~= map_of(s).remove(s[i].0@));
    }
}

/// Finds the slot stored under an address, if any.
pub fn find_entry<T>(list: &Vec<(Vec<u8>, T)>, k: &Vec<u8>) -> (r: Option<usize>)
    ensures
        match r {
            Some(i) => i < list@.len() && list@[i as int].0@ == k@,
            None => !keys_of(list@).contains(k@),
        },
{
    let mut i: usize = 0;
    while i < list.len()
        invariant
            i <= list@.len(),
            forall|j: int| 0 <= j < i ==> keys_of(list@)[j] != k@,
        decreases list@.len() - i,
    {
        if key_eq(&list[i].0, k) {
            return Some(i);
        }
        i = i + 1;
    }
    None
}

} // verus!
