//! What holds of the store over any number of cycles, and of the text of a
//! cycle.

use vstd::prelude::*;
use crate::content::{
    instantaneous_usage, is_cycle_text, is_usage_store, updated_window, updated_windows,
    window_means, ProcessSample,
};
use crate::mean::MeanUsage;
use crate::names::{
    all_resolved, lemma_all_resolved, looked_up, name_lines, names_result, UnknownUser,
};
use crate::rank::is_ranking;
use crate::text::{
    are_lines, is_one_line, join_lines, lemma_join_lines_len, lemma_split_joined_lines,
    lemma_usage_field_is_one_line, lines_of, usage_field, usage_fields,
};
use crate::window::{
    lemma_window_sum_last, lemma_window_sum_zero, mean_of, window_sum, WINDOW_CAPACITY,
};

verus! {

/// The store after the cycles, the first of `cycles` first.
pub open spec fn after_cycles(store: Map<u32, Seq<u64>>, cycles: Seq<Map<u32, u64>>) -> Map<
    u32,
    Seq<u64>,
>
    decreases cycles.len(),
{
    if cycles.len() == 0 {
        store
    } else {
        updated_windows(after_cycles(store, cycles.drop_last()), cycles.last())
    }
}

/// Every window of a store holds exactly `WINDOW_CAPACITY` samples after any
/// number of cycles, whatever the cycles bring.
pub proof fn lemma_capacity_kept(store: Map<u32, Seq<u64>>, cycles: Seq<Map<u32, u64>>)
    requires
        is_usage_store(store),
    ensures
        is_usage_store(after_cycles(store, cycles)),
    decreases cycles.len(),
{
    if cycles.len() > 0 {
        let earlier = after_cycles(store, cycles.drop_last());
        lemma_capacity_kept(store, cycles.drop_last());
        let later = after_cycles(store, cycles);
        assert forall|k: u32| #![trigger later[k]] later.contains_key(k) implies later[k].len()
            == WINDOW_CAPACITY by {
            assert(later[k] == updated_window(earlier, cycles.last(), k));
            if earlier.contains_key(k) {
                assert(earlier[k].len() == WINDOW_CAPACITY);
            }
        }
    }
}

/// A user whom the store knows stays in the store, whatever the cycles bring;
/// and a user whom a cycle names is in the store from then on.
pub proof fn lemma_users_kept(store: Map<u32, Seq<u64>>, cycles: Seq<Map<u32, u64>>, k: u32)
    requires
        store.contains_key(k) || exists|i: int|
            #![trigger cycles[i]]
            0 <= i < cycles.len() && cycles[i].contains_key(k),
    ensures
        after_cycles(store, cycles).contains_key(k),
    decreases cycles.len(),
{
    if cycles.len() > 0 {
        let earlier = cycles.drop_last();
        if !cycles.last().contains_key(k) {
            if !store.contains_key(k) {
                let i = choose|i: int|
                    #![trigger cycles[i]]
                    0 <= i < cycles.len() && cycles[i].contains_key(k);
                assert(earlier[i].contains_key(k));
            }
            lemma_users_kept(store, earlier, k);
        }
    }
}

/// A user whom no cycle names, over at least `WINDOW_CAPACITY` cycles in a
/// row, has a window of zeros at their end, and so a mean of exactly zero.
pub proof fn lemma_absent_user_decays(
    store: Map<u32, Seq<u64>>,
    cycles: Seq<Map<u32, u64>>,
    k: u32,
)
    requires
        is_usage_store(store),
        store.contains_key(k),
        cycles.len() >= WINDOW_CAPACITY,
        forall|i: int| #![trigger cycles[i]] 0 <= i < cycles.len() ==> !cycles[i].contains_key(k),
    ensures
        after_cycles(store, cycles).contains_key(k),
        after_cycles(store, cycles)[k] == Seq::new(WINDOW_CAPACITY as nat, |i: int| 0u64),
        mean_of(after_cycles(store, cycles)[k]) == (MeanUsage {
            total: 0,
            samples: WINDOW_CAPACITY,
        }),
{
    lemma_absent_user_zeros(store, cycles, k);
    let window = after_cycles(store, cycles)[k];
    assert(window =~= Seq::new(WINDOW_CAPACITY as nat, |i: int| 0u64));
    lemma_window_sum_zero(window);
}

/// After `n` cycles that do not name a user of the store, the last `n` samples
/// of the user's window are zero.
proof fn lemma_absent_user_zeros(store: Map<u32, Seq<u64>>, cycles: Seq<Map<u32, u64>>, k: u32)
    requires
        is_usage_store(store),
        store.contains_key(k),
        forall|i: int| #![trigger cycles[i]] 0 <= i < cycles.len() ==> !cycles[i].contains_key(k),
    ensures
        after_cycles(store, cycles).contains_key(k),
        after_cycles(store, cycles)[k].len() == WINDOW_CAPACITY,
        forall|i: int|
            #![trigger after_cycles(store, cycles)[k][i]]
            0 <= i < WINDOW_CAPACITY && WINDOW_CAPACITY - cycles.len() <= i ==> after_cycles(
                store,
                cycles,
            )[k][i] == 0,
    decreases cycles.len(),
{
    if cycles.len() == 0 {
        assert(store[k].len() == WINDOW_CAPACITY);
    } else {
        let earlier = cycles.drop_last();
        assert forall|i: int| #![trigger earlier[i]] 0 <= i < earlier.len() implies !earlier[i].contains_key(
            k,
        ) by {
            assert(!cycles[i].contains_key(k));
        }
        lemma_absent_user_zeros(store, earlier, k);
        let before = after_cycles(store, earlier);
        let after = after_cycles(store, cycles);
        assert(!cycles[cycles.len() - 1].contains_key(k));
        assert(after[k] == updated_window(before, cycles.last(), k));
        assert forall|i: int|
            #![trigger after[k][i]]
            0 <= i < WINDOW_CAPACITY && WINDOW_CAPACITY - cycles.len() <= i implies after[k][i]
            == 0 by {
            if i < WINDOW_CAPACITY - 1 {
                assert(after[k][i] == before[k][i + 1]);
            }
        }
    }
}

/// A user whom the store did not know and whom the cycle names with usage
/// `v` ends the cycle with a window of zeros and `v`: a mean of `v` over
/// `WINDOW_CAPACITY`.
pub proof fn lemma_new_user_mean(store: Map<u32, Seq<u64>>, new_usage: Map<u32, u64>, k: u32)
    requires
        !store.contains_key(k),
        new_usage.contains_key(k),
    ensures
        updated_windows(store, new_usage).contains_key(k),
        mean_of(updated_windows(store, new_usage)[k]) == (MeanUsage {
            total: new_usage[k] as u128,
            samples: WINDOW_CAPACITY,
        }),
{
    let window = updated_windows(store, new_usage)[k];
    assert(window == updated_window(store, new_usage, k));
    assert(window.len() == WINDOW_CAPACITY);
    assert(window.last() == new_usage[k]);
    lemma_window_sum_last(window);
}

/// Nothing taken into an empty store leaves the store empty: no processes
/// are no usage, no usage into no windows are no windows, and no windows
/// have no means.
pub proof fn lemma_empty_cycle_store()
    ensures
        instantaneous_usage(Seq::<ProcessSample>::empty()) == Map::<u32, u64>::empty(),
        updated_windows(Map::<u32, Seq<u64>>::empty(), Map::<u32, u64>::empty()) == Map::<
            u32,
            Seq<u64>,
        >::empty(),
        window_means(Map::<u32, Seq<u64>>::empty()) == Map::<u32, MeanUsage>::empty(),
{
    assert(instantaneous_usage(Seq::<ProcessSample>::empty()) =~= Map::<u32, u64>::empty());
    assert(updated_windows(Map::<u32, Seq<u64>>::empty(), Map::<u32, u64>::empty()) =~= Map::<
        u32,
        Seq<u64>,
    >::empty());
    assert(window_means(Map::<u32, Seq<u64>>::empty()) =~= Map::<u32, MeanUsage>::empty());
}

/// The text of a cycle without users is empty, whatever names are at hand:
/// no names, no fields.
pub proof fn lemma_empty_cycle_text(
    names: Map<u32, String>,
    result: Result<String, UnknownUser>,
    values: Seq<char>,
)
    requires
        is_cycle_text(Map::<u32, MeanUsage>::empty(), names, result, values),
    ensures
        result is Ok,
        result->Ok_0@ == Seq::<char>::empty(),
        values == Seq::<char>::empty(),
{
    let means = Map::<u32, MeanUsage>::empty();
    let ranked = choose|ranked: Seq<(u32, MeanUsage)>|
        #![trigger is_ranking(ranked, means)]
        is_ranking(ranked, means) && names_result(looked_up(ranked, names), result) && values
            == join_lines(usage_fields(ranked));
    assert(means.dom() =~= Set::<u32>::empty());
    assert(ranked.len() == 0);
    assert(usage_fields(ranked) =~= Seq::<Seq<char>>::empty());
    assert(name_lines(looked_up(ranked, names)) =~= Seq::<Seq<char>>::empty());
}

/// The two columns run in parallel. The fields of `K` ranked entries are `K`
/// lines, and line `i` is the field of entry `i`. The names of the same
/// entries are `K` lines too, and line `i` is the name of the user of entry
/// `i`: where no name holds a newline, and a name that stands alone is not
/// empty.
pub proof fn lemma_columns_parallel(ranked: Seq<(u32, MeanUsage)>, names: Map<u32, String>)
    requires
        all_resolved(looked_up(ranked, names)),
        are_lines(name_lines(looked_up(ranked, names))),
        ranked.len() == 1 ==> names[ranked[0].0]@.len() > 0,
    ensures
        lines_of(join_lines(usage_fields(ranked))).len() == ranked.len(),
        lines_of(join_lines(name_lines(looked_up(ranked, names)))).len() == ranked.len(),
        forall|i: int|
            #![trigger ranked[i]]
            0 <= i < ranked.len() ==> lines_of(join_lines(usage_fields(ranked)))[i] == usage_field(
                ranked[i].1,
            ) && names.contains_key(ranked[i].0) && lines_of(
                join_lines(name_lines(looked_up(ranked, names))),
            )[i] == names[ranked[i].0]@,
{
    let fields = usage_fields(ranked);
    let resolved = looked_up(ranked, names);
    let lines = name_lines(resolved);
    lemma_all_resolved(ranked, names);
    if ranked.len() == 0 {
        assert(fields =~= Seq::<Seq<char>>::empty());
        assert(lines =~= Seq::<Seq<char>>::empty());
    } else {
        assert forall|i: int| #![trigger fields[i]] 0 <= i < fields.len() implies is_one_line(
            fields[i],
        ) by {
            lemma_usage_field_is_one_line(ranked[i].1);
        }
        lemma_usage_field_is_one_line(ranked[0].1);
        lemma_join_lines_len(fields);
        lemma_split_joined_lines(fields);
        lemma_split_joined_lines(lines);
        assert(names.contains_key(ranked[0].0));
        assert(lines[0] == names[ranked[0].0]@);
        if lines.len() > 1 {
            assert(join_lines(lines).len() > 0);
        }
        assert forall|i: int| #![trigger ranked[i]] 0 <= i < ranked.len() implies lines[i]
            == names[ranked[i].0]@ by {
            assert(names.contains_key(ranked[i].0));
        }
    }
}

} // verus!
