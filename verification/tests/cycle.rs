use std::collections::{HashMap, VecDeque};

use usage::content::{
    counter_values, cycle_users, get_cpu_usage, get_updated_usage, get_updated_usage_old,
    get_usage_hashmap, mean_usage, unsmoothed_usage, update_usage_vecdeques, ProcessSample,
    SystemSample, UsageMap,
};
use usage::mean::MeanUsage;
use usage::names::UnknownUser;
use usage::window::WINDOW_CAPACITY;

fn sample_of(processes: Vec<(Option<u32>, u64)>, cpus: Vec<u64>) -> SystemSample {
    SystemSample {
        processes: processes
            .into_iter()
            .map(|(user, cpu_usage)| ProcessSample { user, cpu_usage })
            .collect(),
        cpus,
    }
}

fn usage_of(pairs: Vec<(u32, u64)>) -> HashMap<u32, u64> {
    pairs.into_iter().collect()
}

fn window_of(samples: Vec<u64>) -> VecDeque<u64> {
    VecDeque::from_iter(samples)
}

fn names_of(pairs: Vec<(u32, &str)>) -> HashMap<u32, String> {
    pairs.into_iter().map(|(uid, name)| (uid, String::from(name))).collect()
}

#[test]
fn usage_is_added_up_by_user() {
    let sys = sample_of(
        vec![(Some(0), 500), (Some(1000), 120), (Some(0), 250), (None, 999), (Some(1000), 5)],
        vec![],
    );
    let usage = get_usage_hashmap(&sys);
    assert_eq!(usage, usage_of(vec![(0, 750), (1000, 125)]));
}

#[test]
fn process_without_owner_counts_for_nobody() {
    let sys = sample_of(vec![(None, 1), (None, 2)], vec![]);
    assert!(get_usage_hashmap(&sys).is_empty());
}

#[test]
fn user_with_idle_processes_is_listed() {
    let sys = sample_of(vec![(Some(3), 0)], vec![]);
    assert_eq!(get_usage_hashmap(&sys), usage_of(vec![(3, 0)]));
}

#[test]
fn usage_stops_at_the_largest_sample() {
    let sys = sample_of(vec![(Some(3), u64::MAX), (Some(3), 5), (Some(4), u64::MAX - 1), (Some(4), 1)], vec![]);
    assert_eq!(get_usage_hashmap(&sys), usage_of(vec![(3, u64::MAX), (4, u64::MAX)]));
}

#[test]
fn new_user_starts_from_zeros() {
    let store = update_usage_vecdeques(UsageMap::new(), usage_of(vec![(5, 70)]));
    assert_eq!(store.len(), 1);
    assert_eq!(store[&5], window_of(vec![0, 0, 0, 0, 0, 0, 0, 0, 0, 70]));
}

#[test]
fn new_user_has_mean_of_value_over_capacity() {
    let store = update_usage_vecdeques(UsageMap::new(), usage_of(vec![(5, 70)]));
    let means = mean_usage(&store);
    assert_eq!(means[&5].total, 70);
    assert_eq!(means[&5].samples, WINDOW_CAPACITY);
    assert_eq!(means[&5], MeanUsage::whole(7));
}

#[test]
fn known_user_gets_the_new_sample() {
    let mut store = UsageMap::new();
    store.insert(1, window_of(vec![1, 2, 3, 4, 5, 6, 7, 8, 9, 10]));
    let store = update_usage_vecdeques(store, usage_of(vec![(1, 11)]));
    assert_eq!(store[&1], window_of(vec![2, 3, 4, 5, 6, 7, 8, 9, 10, 11]));
}

#[test]
fn absent_user_gets_a_zero_and_stays() {
    let mut store = UsageMap::new();
    store.insert(1, window_of(vec![1, 2, 3, 4, 5, 6, 7, 8, 9, 10]));
    let store = update_usage_vecdeques(store, usage_of(vec![(2, 50)]));
    assert_eq!(store.len(), 2);
    assert_eq!(store[&1], window_of(vec![2, 3, 4, 5, 6, 7, 8, 9, 10, 0]));
    assert_eq!(store[&2], window_of(vec![0, 0, 0, 0, 0, 0, 0, 0, 0, 50]));
}

#[test]
fn windows_keep_their_length_over_many_cycles() {
    let mut store = UsageMap::new();
    for cycle in 0..25u64 {
        let mut usage = HashMap::new();
        usage.insert(1u32, cycle);
        if cycle % 3 == 0 {
            usage.insert(2u32, 2 * cycle);
        }
        if cycle >= 20 {
            usage.insert(3u32, 7);
        }
        store = update_usage_vecdeques(store, usage);
        for window in store.values() {
            assert_eq!(window.len(), WINDOW_CAPACITY);
        }
    }
    assert_eq!(store.len(), 3);
    assert_eq!(store[&1], window_of(vec![15, 16, 17, 18, 19, 20, 21, 22, 23, 24]));
    assert_eq!(store[&2], window_of(vec![30, 0, 0, 36, 0, 0, 42, 0, 0, 48]));
    assert_eq!(store[&3], window_of(vec![0, 0, 0, 0, 0, 7, 7, 7, 7, 7]));
}

#[test]
fn absent_user_decays_to_zero() {
    let mut store = update_usage_vecdeques(UsageMap::new(), usage_of(vec![(9, 12345)]));
    for cycle in 0..WINDOW_CAPACITY {
        let mean = mean_usage(&store)[&9];
        if cycle < WINDOW_CAPACITY {
            assert_eq!(mean.total, 12345);
        }
        store = update_usage_vecdeques(store, HashMap::new());
    }
    assert_eq!(store[&9], window_of(vec![0; 10]));
    let mean = mean_usage(&store)[&9];
    assert_eq!(mean.total, 0);
    assert_eq!(mean.samples, WINDOW_CAPACITY);
    assert_eq!(mean, MeanUsage::whole(0));
}

#[test]
fn window_of_another_length_keeps_it() {
    let mut store = UsageMap::new();
    store.insert(1, window_of(vec![1, 2, 3]));
    store.insert(2, window_of(vec![]));
    let store = update_usage_vecdeques(store, usage_of(vec![(1, 4)]));
    assert_eq!(store[&1], window_of(vec![2, 3, 4]));
    assert_eq!(store[&2], window_of(vec![0]));
}

#[test]
fn unsmoothed_usage_is_one_sample_each() {
    let means = unsmoothed_usage(&usage_of(vec![(1, 10), (2, 0)]));
    assert_eq!(means.len(), 2);
    assert_eq!(means[&1].total, 10);
    assert_eq!(means[&1].samples, 1);
    assert_eq!(means[&2].total, 0);
    assert_eq!(means[&2].samples, 1);
}

#[test]
fn cpu_usage_is_handed_on() {
    let sys = sample_of(vec![], vec![1234, 0, 10000]);
    assert_eq!(get_cpu_usage(&sys), vec![1234, 0, 10000]);
}

#[test]
fn counter_values_cut_the_hundredths() {
    assert_eq!(counter_values(&vec![1234, 0, 99, 100, 10000, 9999]), vec![12, 0, 0, 1, 100, 99]);
    assert_eq!(counter_values(&vec![]), Vec::<usize>::new());
    assert_eq!(counter_values(&vec![u64::MAX])[0] as u128, (u64::MAX / 100) as u128);
}

#[test]
fn empty_cycle_on_empty_store() {
    let (names, values, cpus, store) =
        get_updated_usage(&sample_of(vec![], vec![]), &HashMap::new(), UsageMap::new());
    assert_eq!(names, Ok(String::new()));
    assert_eq!(values, "");
    assert!(cpus.is_empty());
    assert!(store.is_empty());
}

#[test]
fn empty_cycle_without_smoothing() {
    let names = names_of(vec![(0, "root")]);
    let (names, values, cpus) = get_updated_usage_old(&sample_of(vec![], vec![50]), &names);
    assert_eq!(names, Ok(String::new()));
    assert_eq!(values, "");
    assert_eq!(cpus, vec![50]);
}

#[test]
fn one_cycle_ranks_the_smoothed_usage() {
    let sys = sample_of(
        vec![(Some(1), 100), (Some(0), 500), (None, 9999), (Some(0), 250)],
        vec![2500, 7500],
    );
    let names = names_of(vec![(1, "daemon"), (0, "root"), (2, "bin")]);
    let (names, values, cpus, store) = get_updated_usage(&sys, &names, UsageMap::new());
    assert_eq!(names, Ok(String::from("root\ndaemon")));
    assert_eq!(values, "    0.75\n    0.10");
    assert_eq!(cpus, vec![2500, 7500]);
    assert_eq!(store.len(), 2);
    assert_eq!(store[&0], window_of(vec![0, 0, 0, 0, 0, 0, 0, 0, 0, 750]));
    assert_eq!(store[&1], window_of(vec![0, 0, 0, 0, 0, 0, 0, 0, 0, 100]));
}

#[test]
fn second_cycle_builds_on_the_first() {
    let first = sample_of(vec![(Some(0), 1000)], vec![]);
    let second = sample_of(vec![(Some(0), 3000), (Some(1), 9000)], vec![]);
    let names = names_of(vec![(0, "root"), (1, "daemon")]);
    let (_, _, _, store) = get_updated_usage(&first, &names, UsageMap::new());
    let (names, values, _, store) = get_updated_usage(&second, &names, store);
    assert_eq!(store[&0], window_of(vec![0, 0, 0, 0, 0, 0, 0, 0, 1000, 3000]));
    assert_eq!(store[&1], window_of(vec![0, 0, 0, 0, 0, 0, 0, 0, 0, 9000]));
    assert_eq!(names, Ok(String::from("daemon\nroot")));
    assert_eq!(values, "    9.00\n    4.00");
}

#[test]
fn absent_user_is_still_named() {
    let first = sample_of(vec![(Some(7), 1000)], vec![]);
    let second = sample_of(vec![], vec![]);
    let names = names_of(vec![(7, "Ada Lovelace")]);
    let (_, _, _, store) = get_updated_usage(&first, &names, UsageMap::new());
    let (names, values, _, store) = get_updated_usage(&second, &names, store);
    assert_eq!(names, Ok(String::from("Ada Lovelace")));
    assert_eq!(values, "    1.00");
    assert_eq!(store[&7], window_of(vec![0, 0, 0, 0, 0, 0, 0, 0, 1000, 0]));
}

#[test]
fn cycle_fails_the_names_on_an_unknown_user() {
    let sys = sample_of(vec![(Some(1), 100), (Some(0), 500)], vec![9]);
    let names = names_of(vec![(0, "root")]);
    let (names, values, cpus, store) = get_updated_usage(&sys, &names, UsageMap::new());
    assert_eq!(names, Err(UnknownUser { uid: 1 }));
    assert_eq!(values, "    0.50\n    0.10");
    assert_eq!(cpus, vec![9]);
    assert_eq!(store.len(), 2);
}

#[test]
fn cycle_without_smoothing_ranks_the_instant() {
    let sys = sample_of(vec![(Some(1), 100), (Some(0), 500), (Some(0), 250)], vec![1]);
    let names = names_of(vec![(0, "root"), (1, "daemon")]);
    let (names, values, cpus) = get_updated_usage_old(&sys, &names);
    assert_eq!(names, Ok(String::from("root\ndaemon")));
    assert_eq!(values, "    7.50\n    1.00");
    assert_eq!(cpus, vec![1]);
}

#[test]
fn cycle_without_smoothing_fails_the_names_on_an_unknown_user() {
    let sys = sample_of(vec![(Some(1), 100), (Some(0), 500)], vec![]);
    let (names, values, _) = get_updated_usage_old(&sys, &HashMap::new());
    assert_eq!(names, Err(UnknownUser { uid: 0 }));
    assert_eq!(values, "    5.00\n    1.00");
}

#[test]
fn cycle_without_smoothing_is_repeatable() {
    let sys = sample_of(vec![(Some(1), 100), (Some(0), 500), (Some(2), 300)], vec![1, 2]);
    let names = names_of(vec![(0, "root"), (1, "daemon"), (2, "bin")]);
    assert_eq!(get_updated_usage_old(&sys, &names), get_updated_usage_old(&sys, &names));
}

#[test]
fn cycle_users_are_those_of_store_and_sample() {
    let mut store = UsageMap::new();
    store.insert(1, window_of(vec![0; 10]));
    store.insert(2, window_of(vec![0; 10]));
    let sys = sample_of(vec![(Some(2), 5), (Some(3), 5), (None, 5), (Some(3), 1)], vec![]);
    let mut users = cycle_users(&sys, &store);
    users.sort();
    assert_eq!(users, vec![1, 2, 3]);
    assert!(cycle_users(&sample_of(vec![(None, 1)], vec![]), &UsageMap::new()).is_empty());
}
