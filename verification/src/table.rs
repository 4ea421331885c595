//! Walking a hash map: its keys and its entries, as vectors.

use std::collections::HashMap;
use std::hash::Hash;
use vstd::prelude::*;
use vstd::std_specs::hash::{obeys_key_model, spec_keys_iter};
use vstd::std_specs::iter::IteratorSpec;

verus! {

/// What holds of the first `next = i + 1` items of a list without repeats,
/// given its first `i`.
pub proof fn lemma_prefix_step<K>(v: Seq<K>, i: int, next: int)
    requires
        0 <= i < v.len(),
        next == i + 1,
        v.no_duplicates(),
    ensures
        v.contains(v[i]),
        !v.take(i).contains(v[i]),
        forall|k: K|
            #![trigger v.take(next).contains(k)]
            v.take(next).contains(k) <==> v.take(i).contains(k) || k == v[i],
{
    let shorter = v.take(i);
    let longer = v.take(next);
    if shorter.contains(v[i]) {
        let j = choose|j: int| 0 <= j < i && shorter[j] == v[i];
        assert(v[j] == v[i]);
    }
    assert forall|k: K| #![trigger longer.contains(k)] longer.contains(k) <==> shorter.contains(k)
        || k == v[i] by {
        if shorter.contains(k) {
            let j = choose|j: int| 0 <= j < i && shorter[j] == k;
            assert(longer[j] == k);
        }
        if k == v[i] {
            assert(longer[i] == k);
        }
        if longer.contains(k) {
            let j = choose|j: int| 0 <= j <= i && longer[j] == k;
            if j < i {
                assert(shorter[j] == k);
            }
        }
    }
}

/// `entries` lists each entry of `m` once, and nothing else.
pub open spec fn lists_entries<K, V>(entries: Seq<(K, V)>, m: Map<K, V>) -> bool {
    &&& entries.len() == m.dom().len()
    &&& forall|i: int|
        #![trigger entries[i]]
        0 <= i < entries.len() ==> m.contains_key(entries[i].0) && m[entries[i].0] == entries[i].1
    &&& forall|i: int, j: int|
        #![trigger entries[i], entries[j]]
        0 <= i < j < entries.len() ==> entries[i].0 != entries[j].0
    &&& forall|k: K|
        #![trigger m.contains_key(k)]
        m.contains_key(k) ==> exists|i: int|
            #![trigger entries[i]]
            0 <= i < entries.len() && entries[i].0 == k
}

/// A list that holds the same entries as one that lists a map lists the map
/// too, whatever its order.
pub proof fn lemma_reordered_entries<K, V>(a: Seq<(K, V)>, b: Seq<(K, V)>, m: Map<K, V>)
    requires
        lists_entries(a, m),
        a.to_multiset() == b.to_multiset(),
    ensures
        lists_entries(b, m),
{
    vstd::seq_lib::to_multiset_len(a);
    vstd::seq_lib::to_multiset_len(b);
    assert forall|i: int| #![trigger b[i]] 0 <= i < b.len() implies a.contains(b[i]) by {
        assert(b.contains(b[i]));
        vstd::seq_lib::to_multiset_contains(b, b[i]);
        vstd::seq_lib::to_multiset_contains(a, b[i]);
    }
    assert forall|i: int| #![trigger b[i]] 0 <= i < b.len() implies m.contains_key(b[i].0)
        && m[b[i].0] == b[i].1 by {
        assert(a.contains(b[i]));
        let j = choose|j: int| 0 <= j < a.len() && a[j] == b[i];
        assert(m.contains_key(a[j].0));
    }
    assert(a.no_duplicates());
    a.lemma_multiset_has_no_duplicates();
    b.lemma_multiset_has_no_duplicates_conv();
    assert forall|i: int, j: int| #![trigger b[i], b[j]] 0 <= i < j < b.len() implies b[i].0
        != b[j].0 by {
        if b[i].0 == b[j].0 {
            assert(m[b[i].0] == b[i].1);
            assert(m[b[j].0] == b[j].1);
            assert(b[i] == b[j]);
        }
    }
    assert forall|k: K| #![trigger m.contains_key(k)] m.contains_key(k) implies exists|i: int|
        #![trigger b[i]]
        0 <= i < b.len() && b[i].0 == k by {
        let j = choose|j: int| #![trigger a[j]] 0 <= j < a.len() && a[j].0 == k;
        assert(a.contains(a[j]));
        vstd::seq_lib::to_multiset_contains(a, a[j]);
        vstd::seq_lib::to_multiset_contains(b, a[j]);
        assert(b.contains(a[j]));
        let i = choose|i: int| 0 <= i < b.len() && b[i] == a[j];
        assert(b[i].0 == k);
    }
}

/// The entries of `m`, each once, in the order in which the map hands out
/// its keys.
pub fn entry_list<K: Copy + Eq + Hash, V: Copy>(m: &HashMap<K, V>) -> (entries: Vec<(K, V)>)
    requires
        obeys_key_model::<K>(),
    ensures
        lists_entries(entries@, m@),
{
    broadcast use vstd::std_specs::hash::group_hash_axioms;

    let keys: Vec<K> = key_list(m);
    let mut entries: Vec<(K, V)> = Vec::new();
    let mut i: usize = 0;
    while i < keys.len()
        invariant
            i <= keys@.len(),
            obeys_key_model::<K>(),
            forall|k: K|
                #![trigger m@.contains_key(k)]
                #![trigger keys@.contains(k)]
                m@.contains_key(k) <==> keys@.contains(k),
            entries@.len() == i,
            forall|j: int|
                #![trigger entries@[j]]
                0 <= j < i ==> entries@[j].0 == keys@[j] && m@.contains_key(keys@[j])
                    && entries@[j].1 == m@[keys@[j]],
        decreases keys@.len() - i,
    {
        let key: K = keys[i];
        assert(keys@.contains(key));
        if let Some(value) = m.get(&key) {
            entries.push((key, *value));
        }
        i += 1;
    }
    proof {
        assert forall|k: K| #![trigger m@.contains_key(k)] m@.contains_key(k) implies exists|i: int|
            #![trigger entries@[i]]
            0 <= i < entries@.len() && entries@[i].0 == k by {
            assert(keys@.contains(k));
            let j = choose|j: int| 0 <= j < keys@.len() && keys@[j] == k;
            assert(entries@[j].0 == k);
        }
        assert forall|i: int, j: int|
            #![trigger entries@[i], entries@[j]]
            0 <= i < j < entries@.len() implies entries@[i].0 != entries@[j].0 by {
            assert(keys@[i] != keys@[j]);
        }
    }
    entries
}

/// The keys of `m`, each once, in the order in which the map hands them out.
pub fn key_list<K: Copy + Eq + Hash, V>(m: &HashMap<K, V>) -> (keys: Vec<K>)
    requires
        obeys_key_model::<K>(),
    ensures
        keys@.no_duplicates(),
        keys@.len() == m@.dom().len(),
        forall|k: K|
            #![trigger m@.contains_key(k)]
            #![trigger keys@.contains(k)]
            m@.contains_key(k) <==> keys@.contains(k),
{
    broadcast use vstd::std_specs::hash::group_hash_axioms;

    let ghost walked: Seq<&K> = spec_keys_iter(m).remaining();
    let mut keys: Vec<K> = Vec::new();
    for key in it: m.keys()
        invariant
            it.seq() == walked,
            keys@.len() == it.index(),
            forall|j: int| 0 <= j < it.index() ==> keys@[j] == *walked[j],
    {
        keys.push(*key);
    }
    proof {
        assert(keys@ =~= walked.unref());
        assert forall|i: int, j: int| 0 <= i < j < keys@.len() implies keys@[i] != keys@[j] by {
            assert(walked[i] != walked[j]);
        }
        assert forall|k: K|
            #![trigger m@.contains_key(k)]
            #![trigger keys@.contains(k)]
            m@.contains_key(k) <==> keys@.contains(k) by {
            assert(m@.dom().contains(k) <==> keys@.to_set().contains(k));
        }
    }
    keys
}

} // verus!
