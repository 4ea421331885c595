//! One refresh cycle: from the processes of an instant to the ranked text.

use std::collections::{HashMap, VecDeque};
use std::hash::Hash;
use vstd::prelude::*;
use vstd::std_specs::hash::obeys_key_model;
use crate::mean::MeanUsage;
pub use crate::names::get_name_string;
use crate::names::{
    all_resolved, is_first_unresolved, lemma_all_resolved, looked_up, names_result, UnknownUser,
};
pub use crate::rank::get_sorted_usage_vec;
use crate::rank::{is_ranking, lemma_listed_means_defined, means_defined};
use crate::table::{key_list, lemma_prefix_step};
pub use crate::text::get_usage_string;
use crate::text::{join_lines, usage_fields};
pub use crate::window::new_zeroed_vecdeque;
use crate::window::{advance, advanced, mean_of, window_mean, zeroed, WINDOW_CAPACITY};

verus! {

/// The store: a rolling window for every user seen so far.
pub type UsageMap = HashMap<u32, VecDeque<u64>>;

/// What one process used at the instant of sampling, and for whom.
#[derive(Clone, Copy, Debug)]
pub struct ProcessSample {
    /// The owning user, where the system names one.
    pub user: Option<u32>,
    /// CPU usage of the process.
    pub cpu_usage: u64,
}

/// The machine at one instant: its processes and the load of each core.
#[derive(Debug)]
pub struct SystemSample {
    pub processes: Vec<ProcessSample>,
    pub cpus: Vec<u64>,
}

/// The windows that a store holds, by user.
pub open spec fn windows<K>(store: Map<K, VecDeque<u64>>) -> Map<K, Seq<u64>> {
    Map::new(|k: K| store.contains_key(k), |k: K| store[k]@)
}

/// Every window holds exactly `WINDOW_CAPACITY` samples.
pub open spec fn is_usage_store(store: Map<u32, Seq<u64>>) -> bool {
    forall|k: u32| #![trigger store[k]] store.contains_key(k) ==> store[k].len() == WINDOW_CAPACITY
}

/// A user owns at least one of the processes.
pub open spec fn has_process(processes: Seq<ProcessSample>, uid: u32) -> bool {
    exists|i: int| 0 <= i < processes.len() && (#[trigger] processes[i]).user == Some(uid)
}

/// The usage of all processes of `uid`, added up.
pub open spec fn user_total(processes: Seq<ProcessSample>, uid: u32) -> nat
    decreases processes.len(),
{
    if processes.len() == 0 {
        0
    } else {
        user_total(processes.drop_last(), uid) + if processes.last().user == Some(uid) {
            processes.last().cpu_usage as nat
        } else {
            0
        }
    }
}

/// `n` where a sample can hold it, else the largest sample.
pub open spec fn capped(n: nat) -> u64 {
    if n > u64::MAX {
        u64::MAX
    } else {
        n as u64
    }
}

/// The usage of each user who owns a process: the sum over the user's
/// processes, capped at the largest sample.
pub open spec fn instantaneous_usage(processes: Seq<ProcessSample>) -> Map<u32, u64> {
    Map::new(
        |uid: u32| has_process(processes, uid),
        |uid: u32| capped(user_total(processes, uid)),
    )
}

/// The window of user `k` after one cycle. A user who had no window starts
/// from one of zeros; the window then lets its oldest sample go and takes the
/// user's new usage, or zero for a user whom `new_usage` does not name.
pub open spec fn updated_window(store: Map<u32, Seq<u64>>, new_usage: Map<u32, u64>, k: u32) -> Seq<
    u64,
> {
    advanced(
        if store.contains_key(k) {
            store[k]
        } else {
            zeroed(WINDOW_CAPACITY as nat)
        },
        if new_usage.contains_key(k) {
            new_usage[k]
        } else {
            0
        },
    )
}

/// The store after one cycle: a window for every user of the store and every
/// user of `new_usage`, each advanced by one sample.
pub open spec fn updated_windows(store: Map<u32, Seq<u64>>, new_usage: Map<u32, u64>) -> Map<
    u32,
    Seq<u64>,
> {
    Map::new(
        |k: u32| store.contains_key(k) || new_usage.contains_key(k),
        |k: u32| updated_window(store, new_usage, k),
    )
}

/// Each usage as the mean of that one sample.
pub open spec fn whole_means(usage: Map<u32, u64>) -> Map<u32, MeanUsage> {
    Map::new(
        |k: u32| usage.contains_key(k),
        |k: u32| (MeanUsage { total: usage[k] as u128, samples: 1 }),
    )
}

/// `result` and `values` are the two columns of one ranking of `means`: line
/// by line the name that `names` holds for a user and the field of the user's
/// mean, the largest mean first. Where `names` lacks a ranked user, `result`
/// is the first such user instead.
pub open spec fn is_cycle_text(
    means: Map<u32, MeanUsage>,
    names: Map<u32, String>,
    result: Result<String, UnknownUser>,
    values: Seq<char>,
) -> bool {
    exists|ranked: Seq<(u32, MeanUsage)>|
        #![trigger is_ranking(ranked, means)]
        is_ranking(ranked, means) && names_result(looked_up(ranked, names), result) && values
            == join_lines(usage_fields(ranked))
}

/// `names` holds a name for every user of `means`.
pub open spec fn names_cover(means: Map<u32, MeanUsage>, names: Map<u32, String>) -> bool {
    forall|k: u32| #![trigger means.contains_key(k)] means.contains_key(k) ==> names.contains_key(k)
}

/// The names of a ranking come out exactly where `names` holds every user of
/// the means.
pub proof fn lemma_names_owed(
    ranked: Seq<(u32, MeanUsage)>,
    means: Map<u32, MeanUsage>,
    names: Map<u32, String>,
    result: Result<String, UnknownUser>,
)
    requires
        is_ranking(ranked, means),
        names_result(looked_up(ranked, names), result),
    ensures
        result is Ok <==> names_cover(means, names),
{
    lemma_all_resolved(ranked, names);
    let resolved = looked_up(ranked, names);
    if names_cover(means, names) {
        assert forall|i: int| #![trigger ranked[i]] 0 <= i < ranked.len() implies names.contains_key(
            ranked[i].0,
        ) by {
            assert(means.contains_key(ranked[i].0));
        }
        assert(all_resolved(resolved));
        if result is Err {
            let i = choose|i: int| #![trigger resolved[i]] is_first_unresolved(resolved, i);
            assert(resolved[i].1 is Some);
        }
    }
    if result is Ok {
        assert forall|k: u32| #![trigger means.contains_key(k)] means.contains_key(
            k,
        ) implies names.contains_key(k) by {
            let i = choose|i: int| #![trigger ranked[i]] 0 <= i < ranked.len() && ranked[i].0 == k;
            assert(names.contains_key(ranked[i].0));
        }
    }
}

/// The mean of every window.
pub open spec fn window_means<K>(store: Map<K, Seq<u64>>) -> Map<K, MeanUsage> {
    Map::new(|k: K| store.contains_key(k), |k: K| mean_of(store[k]))
}

proof fn lemma_has_process_step(processes: Seq<ProcessSample>, i: int, uid: u32)
    requires
        0 <= i < processes.len(),
    ensures
        has_process(processes.take(i + 1), uid) <==> has_process(processes.take(i), uid)
            || processes[i].user == Some(uid),
        user_total(processes.take(i + 1), uid) == user_total(processes.take(i), uid)
            + if processes[i].user == Some(uid) {
            processes[i].cpu_usage as nat
        } else {
            0
        },
{
    let longer = processes.take(i + 1);
    let shorter = processes.take(i);
    assert(longer.drop_last() =~= shorter);
    if has_process(shorter, uid) {
        let j = choose|j: int| 0 <= j < shorter.len() && (#[trigger] shorter[j]).user == Some(uid);
        assert(longer[j].user == Some(uid));
    }
    if processes[i].user == Some(uid) {
        assert(longer[i].user == Some(uid));
    }
    if has_process(longer, uid) {
        let j = choose|j: int| 0 <= j < longer.len() && (#[trigger] longer[j]).user == Some(uid);
        if j < i {
            assert(shorter[j].user == Some(uid));
        }
    }
}

/// Adds up, user by user, what the processes of the sample used. A process
/// without an owner counts for nobody.
pub fn get_usage_hashmap(sys: &SystemSample) -> (user_usage: HashMap<u32, u64>)
    ensures
        user_usage@ == instantaneous_usage(sys.processes@),
{
    broadcast use vstd::std_specs::hash::group_hash_axioms;

    let mut user_usage: HashMap<u32, u64> = HashMap::new();
    let n: usize = sys.processes.len();
    for i in 0..n
        invariant
            n == sys.processes@.len(),
            user_usage@ =~= instantaneous_usage(sys.processes@.take(i as int)),
    {
        let process: ProcessSample = sys.processes[i];
        proof {
            assert forall|uid: u32|
                has_process(sys.processes@.take(i + 1), uid) == (has_process(
                    sys.processes@.take(i as int),
                    uid,
                ) || sys.processes@[i as int].user == Some(uid)) && user_total(
                    sys.processes@.take(i + 1),
                    uid,
                ) == user_total(sys.processes@.take(i as int), uid) + if sys.processes@[i as int].user
                    == Some(uid) {
                    sys.processes@[i as int].cpu_usage as nat
                } else {
                    0
                } by {
                lemma_has_process_step(sys.processes@, i as int, uid);
            }
        }
        if let Some(uid) = process.user {
            let so_far: u64 = match user_usage.get(&uid) {
                Some(usage) => *usage,
                None => 0,
            };
            proof {
                if !has_process(sys.processes@.take(i as int), uid) {
                    lemma_no_process_no_usage(sys.processes@.take(i as int), uid);
                }
            }
            let usage: u64 = if process.cpu_usage > u64::MAX - so_far {
                u64::MAX
            } else {
                so_far + process.cpu_usage
            };
            user_usage.insert(uid, usage);
        }
    }
    proof {
        assert(sys.processes@.take(n as int) =~= sys.processes@);
    }
    user_usage
}

proof fn lemma_no_process_no_usage(processes: Seq<ProcessSample>, uid: u32)
    requires
        !has_process(processes, uid),
    ensures
        user_total(processes, uid) == 0,
    decreases processes.len(),
{
    if processes.len() > 0 {
        let shorter = processes.drop_last();
        assert(processes[processes.len() - 1].user != Some(uid));
        assert forall|j: int| 0 <= j < shorter.len() implies (#[trigger] shorter[j]).user != Some(
            uid,
        ) by {
            assert(processes[j].user != Some(uid));
        }
        lemma_no_process_no_usage(shorter, uid);
    }
}

/// Advances every window by one sample: the user's new usage, or zero for a
/// user of the store whom `new_usage` does not name. A user new to the store
/// starts from a window of zeros.
pub fn update_usage_vecdeques(usage_store: UsageMap, new_usage: HashMap<u32, u64>) -> (updated:
    UsageMap)
    ensures
        windows(updated@) == updated_windows(windows(usage_store@), new_usage@),
        is_usage_store(windows(usage_store@)) ==> is_usage_store(windows(updated@)),
{
    broadcast use vstd::std_specs::hash::group_hash_axioms;

    let mut store: UsageMap = usage_store;
    let ghost before: Map<u32, Seq<u64>> = windows(usage_store@);

    // the users of this cycle: a first window where there is none, then the sample
    let named: Vec<u32> = key_list(&new_usage);
    let mut i: usize = 0;
    while i < named.len()
        invariant
            i <= named@.len(),
            before == windows(usage_store@),
            named@.no_duplicates(),
            forall|k: u32|
                #![trigger new_usage@.contains_key(k)]
                #![trigger named@.contains(k)]
                new_usage@.contains_key(k) <==> named@.contains(k),
            forall|k: u32|
                #![trigger store@.contains_key(k)]
                store@.contains_key(k) <==> before.contains_key(k) || named@.take(i as int).contains(
                    k,
                ),
            forall|k: u32|
                #![trigger store@[k]]
                store@.contains_key(k) ==> store@[k]@ == if named@.take(i as int).contains(k) {
                    updated_window(before, new_usage@, k)
                } else {
                    before[k]
                },
        decreases named@.len() - i,
    {
        let uid: u32 = named[i];
        proof {
            lemma_prefix_step(named@, i as int, i + 1);
        }
        let usage: u64 = match new_usage.get(&uid) {
            Some(usage) => *usage,
            None => 0,
        };
        let mut window: VecDeque<u64> = match store.remove(&uid) {
            Some(window) => window,
            None => new_zeroed_vecdeque(WINDOW_CAPACITY),
        };
        advance(&mut window, usage);
        store.insert(uid, window);
        i += 1;
    }

    // the others: a sample of zero
    let ghost fed: Map<u32, VecDeque<u64>> = store@;
    let stored: Vec<u32> = key_list(&store);
    proof {
        assert(named@.take(named@.len() as int) =~= named@);
        assert forall|k: u32| #![trigger fed.contains_key(k)] fed.contains_key(k)
            <==> before.contains_key(k) || new_usage@.contains_key(k) by {
            assert(new_usage@.contains_key(k) <==> named@.contains(k));
        }
        assert forall|k: u32| #![trigger fed[k]] fed.contains_key(k) implies fed[k]@
            == if new_usage@.contains_key(k) {
            updated_window(before, new_usage@, k)
        } else {
            before[k]
        } by {
            assert(new_usage@.contains_key(k) <==> named@.contains(k));
        }
    }
    let mut i: usize = 0;
    while i < stored.len()
        invariant
            i <= stored@.len(),
            before == windows(usage_store@),
            stored@.no_duplicates(),
            forall|k: u32|
                #![trigger fed.contains_key(k)]
                #![trigger stored@.contains(k)]
                fed.contains_key(k) <==> stored@.contains(k),
            forall|k: u32|
                #![trigger fed.contains_key(k)]
                fed.contains_key(k) <==> before.contains_key(k) || new_usage@.contains_key(k),
            forall|k: u32|
                #![trigger store@.contains_key(k)]
                store@.contains_key(k) <==> fed.contains_key(k),
            forall|k: u32|
                #![trigger fed[k]]
                fed.contains_key(k) ==> fed[k]@ == if new_usage@.contains_key(k) {
                    updated_window(before, new_usage@, k)
                } else {
                    before[k]
                },
            forall|k: u32|
                #![trigger store@[k]]
                store@.contains_key(k) ==> store@[k]@ == if stored@.take(i as int).contains(k) {
                    updated_window(before, new_usage@, k)
                } else {
                    fed[k]@
                },
        decreases stored@.len() - i,
    {
        let uid: u32 = stored[i];
        proof {
            lemma_prefix_step(stored@, i as int, i + 1);
        }
        if !new_usage.contains_key(&uid) {
            let gone = store.remove(&uid);
            if let Some(mut window) = gone {
                advance(&mut window, 0);
                store.insert(uid, window);
            }
        }
        i += 1;
    }
    proof {
        assert(stored@.take(stored@.len() as int) =~= stored@);
        assert forall|k: u32| #![trigger store@.contains_key(k)] store@.contains_key(k) implies store@[k]@
            == updated_window(before, new_usage@, k) by {
            assert(stored@.contains(k));
        }
        assert(windows(store@) =~= updated_windows(before, new_usage@));
        if is_usage_store(before) {
            assert forall|k: u32| #![trigger windows(store@)[k]] windows(store@).contains_key(
                k,
            ) implies windows(store@)[k].len() == WINDOW_CAPACITY by {
                if before.contains_key(k) {
                    assert(before[k].len() == WINDOW_CAPACITY);
                }
            }
        }
    }
    store
}

/// The mean of every window of the store, for keys that hash and compare as
/// the model of the hash map expects.
pub fn mean_usage<K: Copy + Eq + Hash>(usage_store: &HashMap<K, VecDeque<u64>>) -> (means: HashMap<
    K,
    MeanUsage,
>)
    requires
        obeys_key_model::<K>(),
    ensures
        means@ == window_means(windows(usage_store@)),
{
    broadcast use vstd::std_specs::hash::group_hash_axioms;

    let mut new_usage_hashmap: HashMap<K, MeanUsage> = HashMap::new();
    let users: Vec<K> = key_list(usage_store);
    let mut i: usize = 0;
    while i < users.len()
        invariant
            i <= users@.len(),
            obeys_key_model::<K>(),
            users@.no_duplicates(),
            forall|k: K|
                #![trigger usage_store@.contains_key(k)]
                #![trigger users@.contains(k)]
                usage_store@.contains_key(k) <==> users@.contains(k),
            forall|k: K|
                #![trigger new_usage_hashmap@.contains_key(k)]
                new_usage_hashmap@.contains_key(k) <==> users@.take(i as int).contains(k),
            forall|k: K|
                #![trigger new_usage_hashmap@[k]]
                new_usage_hashmap@.contains_key(k) ==> usage_store@.contains_key(k)
                    && new_usage_hashmap@[k] == mean_of(usage_store@[k]@),
        decreases users@.len() - i,
    {
        let user: K = users[i];
        proof {
            lemma_prefix_step(users@, i as int, i + 1);
        }
        if let Some(window) = usage_store.get(&user) {
            new_usage_hashmap.insert(user, window_mean(window));
        }
        i += 1;
    }
    proof {
        assert(users@.take(users@.len() as int) =~= users@);
        assert(new_usage_hashmap@ =~= window_means(windows(usage_store@)));
    }
    new_usage_hashmap
}

/// Each usage of the map as the mean of that one sample.
pub fn unsmoothed_usage(user_usage: &HashMap<u32, u64>) -> (means: HashMap<u32, MeanUsage>)
    ensures
        means@ == whole_means(user_usage@),
{
    broadcast use vstd::std_specs::hash::group_hash_axioms;

    let mut means: HashMap<u32, MeanUsage> = HashMap::new();
    let users: Vec<u32> = key_list(user_usage);
    let mut i: usize = 0;
    while i < users.len()
        invariant
            i <= users@.len(),
            users@.no_duplicates(),
            forall|k: u32|
                #![trigger user_usage@.contains_key(k)]
                #![trigger users@.contains(k)]
                user_usage@.contains_key(k) <==> users@.contains(k),
            forall|k: u32|
                #![trigger means@.contains_key(k)]
                means@.contains_key(k) <==> users@.take(i as int).contains(k),
            forall|k: u32|
                #![trigger means@[k]]
                means@.contains_key(k) ==> user_usage@.contains_key(k) && means@[k] == (MeanUsage {
                    total: user_usage@[k] as u128,
                    samples: 1,
                }),
        decreases users@.len() - i,
    {
        let user: u32 = users[i];
        proof {
            lemma_prefix_step(users@, i as int, i + 1);
        }
        if let Some(usage) = user_usage.get(&user) {
            means.insert(user, MeanUsage::whole(*usage));
        }
        i += 1;
    }
    proof {
        assert(users@.take(users@.len() as int) =~= users@);
        assert(means@ =~= whole_means(user_usage@));
    }
    means
}

/// The load of each core, in the order of the cores.
pub fn get_cpu_usage(sys: &SystemSample) -> (cpu_usage: Vec<u64>)
    ensures
        cpu_usage@ == sys.cpus@,
{
    let mut cpu_usage: Vec<u64> = Vec::new();
    let mut i: usize = 0;
    while i < sys.cpus.len()
        invariant
            i <= sys.cpus@.len(),
            cpu_usage@ == sys.cpus@.take(i as int),
        decreases sys.cpus@.len() - i,
    {
        cpu_usage.push(sys.cpus[i]);
        proof {
            assert(sys.cpus@.take(i + 1) =~= sys.cpus@.take(i as int).push(sys.cpus@[i as int]));
        }
        i += 1;
    }
    proof {
        assert(sys.cpus@.take(sys.cpus@.len() as int) =~= sys.cpus@);
    }
    cpu_usage
}

/// A load in whole percent: the hundredths are cut off.
pub open spec fn whole_percent(hundredths: u64) -> usize {
    if hundredths / 100 > usize::MAX {
        usize::MAX
    } else {
        (hundredths / 100) as usize
    }
}

/// The load of each core in whole percent, for a gauge that counts in whole
/// steps.
pub fn counter_values(cpu_usage: &Vec<u64>) -> (values: Vec<usize>)
    ensures
        values@.len() == cpu_usage@.len(),
        forall|i: int|
            #![trigger values@[i]]
            0 <= i < values@.len() ==> values@[i] == whole_percent(cpu_usage@[i]),
{
    let mut values: Vec<usize> = Vec::new();
    let mut i: usize = 0;
    while i < cpu_usage.len()
        invariant
            i <= cpu_usage@.len(),
            values@.len() == i,
            forall|j: int|
                #![trigger values@[j]]
                0 <= j < i ==> values@[j] == whole_percent(cpu_usage@[j]),
        decreases cpu_usage@.len() - i,
    {
        let percent: u64 = cpu_usage[i] / 100;
        let value: usize = if percent > usize::MAX as u64 {
            usize::MAX
        } else {
            percent as usize
        };
        values.push(value);
        i += 1;
    }
    values
}

/// The users whose names a cycle on this sample and this store ranks: those
/// of the store and those who own a process, each once.
pub fn cycle_users(sys: &SystemSample, usage_store: &UsageMap) -> (users: Vec<u32>)
    ensures
        users@.no_duplicates(),
        forall|k: u32|
            #![trigger users@.contains(k)]
            users@.contains(k) <==> usage_store@.contains_key(k) || has_process(sys.processes@, k),
{
    broadcast use vstd::std_specs::hash::group_hash_axioms;

    let mut users: Vec<u32> = key_list(usage_store);
    let new_usage: HashMap<u32, u64> = get_usage_hashmap(sys);
    let named: Vec<u32> = key_list(&new_usage);
    let mut i: usize = 0;
    while i < named.len()
        invariant
            i <= named@.len(),
            named@.no_duplicates(),
            users@.no_duplicates(),
            forall|k: u32|
                #![trigger named@.contains(k)]
                named@.contains(k) <==> has_process(sys.processes@, k),
            forall|k: u32|
                #![trigger users@.contains(k)]
                users@.contains(k) <==> usage_store@.contains_key(k) || named@.take(
                    i as int,
                ).contains(k),
        decreases named@.len() - i,
    {
        let uid: u32 = named[i];
        proof {
            lemma_prefix_step(named@, i as int, i + 1);
        }
        if !usage_store.contains_key(&uid) {
            let ghost earlier = users@;
            users.push(uid);
            proof {
                assert forall|k: u32| #![trigger users@.contains(k)] users@.contains(k)
                    <==> earlier.contains(k) || k == uid by {
                    if earlier.contains(k) {
                        let j = choose|j: int| 0 <= j < earlier.len() && earlier[j] == k;
                        assert(users@[j] == k);
                    }
                    if k == uid {
                        assert(users@[earlier.len() as int] == k);
                    }
                }
                assert(!earlier.contains(uid));
            }
        }
        i += 1;
    }
    proof {
        assert(named@.take(named@.len() as int) =~= named@);
    }
    users
}

/// One cycle without smoothing: the users ranked by what they use at this
/// instant. Hands out the names, the usage fields and the load of each core.
/// The names come out where `names` holds every user who owns a process.
pub fn get_updated_usage_old(sys: &SystemSample, names: &HashMap<u32, String>) -> (r: (
    Result<String, UnknownUser>,
    String,
    Vec<u64>,
))
    ensures
        is_cycle_text(whole_means(instantaneous_usage(sys.processes@)), names@, r.0, r.1@),
        r.0 is Ok <==> names_cover(whole_means(instantaneous_usage(sys.processes@)), names@),
        r.2@ == sys.cpus@,
{
    broadcast use vstd::std_specs::hash::group_hash_axioms;

    let usage_hashmap: HashMap<u32, u64> = get_usage_hashmap(sys);
    let means: HashMap<u32, MeanUsage> = unsmoothed_usage(&usage_hashmap);
    let ghost ranked_means = means@;
    let usage_vec: Vec<(u32, MeanUsage)> = get_sorted_usage_vec(means);
    proof {
        lemma_listed_means_defined(usage_vec@, ranked_means);
    }

    let name_string = get_name_string(usage_vec.as_slice(), names);
    let usage_string: String = get_usage_string(usage_vec.as_slice());
    let cpu_usage: Vec<u64> = get_cpu_usage(sys);
    proof {
        assert(is_ranking(usage_vec@, ranked_means));
        lemma_names_owed(usage_vec@, ranked_means, names@, name_string);
    }
    (name_string, usage_string, cpu_usage)
}

/// One cycle: the store takes in what the users use at this instant, and the
/// users are ranked by the means of their windows. Hands out the names, the
/// usage fields, the load of each core, and the store for the next cycle. The
/// names come out where `names` holds every user of that store.
pub fn get_updated_usage(
    sys: &SystemSample,
    names: &HashMap<u32, String>,
    usage_store: UsageMap,
) -> (r: (Result<String, UnknownUser>, String, Vec<u64>, UsageMap))
    ensures
        windows(r.3@) == updated_windows(
            windows(usage_store@),
            instantaneous_usage(sys.processes@),
        ),
        is_usage_store(windows(usage_store@)) ==> is_usage_store(windows(r.3@)),
        is_cycle_text(window_means(windows(r.3@)), names@, r.0, r.1@),
        r.0 is Ok <==> names_cover(window_means(windows(r.3@)), names@),
        r.2@ == sys.cpus@,
{
    broadcast use vstd::std_specs::hash::group_hash_axioms;

    let new_usage_hashmap: HashMap<u32, u64> = get_usage_hashmap(sys);
    let usage_store: UsageMap = update_usage_vecdeques(usage_store, new_usage_hashmap);
    let mean_usage_hm: HashMap<u32, MeanUsage> = mean_usage(&usage_store);
    let ghost means = mean_usage_hm@;
    proof {
        broadcast use vstd::std_specs::vecdeque::group_vec_dequeue_axioms;

        assert forall|k: u32| #![trigger means[k]] means.contains_key(k) implies means[k].is_defined() by {
            assert(windows(usage_store@)[k] == usage_store@[k]@);
            assert(usage_store@[k].len() == usage_store@[k]@.len());
        }
    }
    let usage_vec: Vec<(u32, MeanUsage)> = get_sorted_usage_vec(mean_usage_hm);
    proof {
        lemma_listed_means_defined(usage_vec@, means);
    }

    let name_string = get_name_string(usage_vec.as_slice(), names);
    let usage_string: String = get_usage_string(usage_vec.as_slice());
    let cpu_usage: Vec<u64> = get_cpu_usage(sys);
    proof {
        assert(is_ranking(usage_vec@, means));
        lemma_names_owed(usage_vec@, means, names@, name_string);
    }
    (name_string, usage_string, cpu_usage, usage_store)
}

} // verus!
