//! Ranking: the users in the order of their means, the largest first.

use std::collections::HashMap;
use std::hash::Hash;
use vstd::prelude::*;
use vstd::std_specs::hash::obeys_key_model;
use crate::mean::{lemma_at_least_total, lemma_at_least_transitive, MeanUsage};
use crate::table::{entry_list, lemma_reordered_entries, lists_entries};

verus! {

/// Every mean of the list is one of at least one sample.
pub open spec fn all_defined<K>(entries: Seq<(K, MeanUsage)>) -> bool {
    forall|i: int| #![trigger entries[i]] 0 <= i < entries.len() ==> entries[i].1.is_defined()
}

/// Every mean of the map is one of at least one sample.
pub open spec fn means_defined<K>(means: Map<K, MeanUsage>) -> bool {
    forall|k: K| #![trigger means[k]] means.contains_key(k) ==> means[k].is_defined()
}

/// No entry has a smaller mean than one that comes after it.
pub open spec fn is_ranked<K>(entries: Seq<(K, MeanUsage)>) -> bool {
    forall|i: int, j: int|
        #![trigger entries[i], entries[j]]
        0 <= i < j < entries.len() ==> entries[i].1.at_least(entries[j].1)
}

/// `ranked` holds every user of `means` once, with the user's mean, and the
/// means do not increase along it.
pub open spec fn is_ranking<K>(ranked: Seq<(K, MeanUsage)>, means: Map<K, MeanUsage>) -> bool {
    lists_entries(ranked, means) && is_ranked(ranked)
}

/// Where every mean of a map is defined, so is every mean of a list of its
/// entries.
pub proof fn lemma_listed_means_defined<K>(entries: Seq<(K, MeanUsage)>, means: Map<K, MeanUsage>)
    requires
        lists_entries(entries, means),
        means_defined(means),
    ensures
        all_defined(entries),
{
    assert forall|i: int| #![trigger entries[i]] 0 <= i < entries.len() implies entries[i].1.is_defined() by {
        assert(means[entries[i].0] == entries[i].1);
    }
}

/// The entries in the order of their means, the largest first.
pub fn sort_by_mean<K: Copy>(entries: &Vec<(K, MeanUsage)>) -> (sorted: Vec<(K, MeanUsage)>)
    requires
        all_defined(entries@),
    ensures
        sorted@.to_multiset() == entries@.to_multiset(),
        is_ranked(sorted@),
{
    let mut sorted: Vec<(K, MeanUsage)> = Vec::new();
    let mut i: usize = 0;
    proof {
        assert(sorted@ =~= entries@.take(0));
    }
    while i < entries.len()
        invariant
            i <= entries@.len(),
            all_defined(entries@),
            all_defined(sorted@),
            is_ranked(sorted@),
            sorted@.to_multiset() == entries@.take(i as int).to_multiset(),
        decreases entries@.len() - i,
    {
        let entry: (K, MeanUsage) = entries[i];
        assert(entry.1.is_defined());
        // its place: behind every entry that is at least as large
        let mut place: usize = sorted.len();
        while place > 0 && !sorted[place - 1].1.is_at_least(&entry.1)
            invariant
                place <= sorted@.len(),
                entry.1.is_defined(),
                all_defined(sorted@),
                forall|j: int|
                    #![trigger sorted@[j]]
                    place <= j < sorted@.len() ==> !sorted@[j].1.at_least(entry.1),
            decreases place,
        {
            place -= 1;
        }
        let ghost earlier = sorted@;
        sorted.insert(place, entry);
        proof {
            let p = place as int;
            assert(entries@.take(i + 1) =~= entries@.take(i as int).push(entry));
            vstd::seq_lib::to_multiset_insert(earlier, p, entry);
            vstd::seq_lib::to_multiset_build(entries@.take(i as int), entry);
            assert forall|j: int| #![trigger sorted@[j]] 0 <= j < sorted@.len() implies sorted@[j]
                == if j < p {
                earlier[j]
            } else if j == p {
                entry
            } else {
                earlier[j - 1]
            } by {}
            assert forall|j: int| #![trigger earlier[j]] 0 <= j < p implies earlier[j].1.at_least(
                entry.1,
            ) by {
                assert(earlier[p - 1].1.at_least(entry.1));
                if j < p - 1 {
                    assert(earlier[j].1.at_least(earlier[p - 1].1));
                    lemma_at_least_transitive(earlier[j].1, earlier[p - 1].1, entry.1);
                }
            }
            assert forall|a: int, b: int|
                #![trigger sorted@[a], sorted@[b]]
                0 <= a < b < sorted@.len() implies sorted@[a].1.at_least(sorted@[b].1) by {
                if b == p {
                    assert(earlier[a].1.at_least(entry.1));
                } else if a == p {
                    assert(!earlier[b - 1].1.at_least(entry.1));
                    lemma_at_least_total(earlier[b - 1].1, entry.1);
                } else if a < p && b > p {
                    assert(earlier[a].1.at_least(earlier[b - 1].1));
                } else if a < p {
                    assert(earlier[a].1.at_least(earlier[b].1));
                } else {
                    assert(earlier[a - 1].1.at_least(earlier[b - 1].1));
                }
            }
            assert forall|j: int| #![trigger sorted@[j]] 0 <= j < sorted@.len() implies sorted@[j].1.is_defined() by {
                if j < p {
                    assert(earlier[j].1.is_defined());
                } else if j > p {
                    assert(earlier[j - 1].1.is_defined());
                }
            }
        }
        i += 1;
    }
    proof {
        assert(entries@.take(entries@.len() as int) =~= entries@);
    }
    sorted
}

/// The users of `user_usage` with their means, the largest mean first. Which
/// of two users of equal mean comes first is left open.
pub fn get_sorted_usage_vec<K: Copy + Eq + Hash>(user_usage: HashMap<K, MeanUsage>) -> (usage_vec:
    Vec<(K, MeanUsage)>)
    requires
        obeys_key_model::<K>(),
        means_defined(user_usage@),
    ensures
        is_ranking(usage_vec@, user_usage@),
{
    let entries: Vec<(K, MeanUsage)> = entry_list(&user_usage);
    proof {
        lemma_listed_means_defined(entries@, user_usage@);
    }
    let usage_vec: Vec<(K, MeanUsage)> = sort_by_mean(&entries);
    proof {
        lemma_reordered_entries(entries@, usage_vec@, user_usage@);
    }
    usage_vec
}

} // verus!
