use std::collections::{HashMap, VecDeque};

use usage::content::mean_usage;
use usage::mean::MeanUsage;
use usage::window::{advance, new_zeroed_vecdeque, window_mean, window_total};

#[test]
fn test_mean_hash_deque() {
    let mut usage_map = HashMap::new();
    usage_map.insert("a", VecDeque::from_iter(vec![1u64, 2, 3]));
    usage_map.insert("b", VecDeque::from_iter(vec![10, 20, 30]));
    usage_map.insert("c", VecDeque::from_iter(vec![4, 5, 6]));

    let mut expected_result = HashMap::new();
    expected_result.insert("a", MeanUsage::whole(2));
    expected_result.insert("b", MeanUsage::whole(20));
    expected_result.insert("c", MeanUsage::whole(5));

    let means = mean_usage(&usage_map);

    assert_eq!(expected_result, means);
}

#[test]
fn mean_keeps_sum_and_length() {
    let mut usage_map = HashMap::new();
    usage_map.insert(7u32, VecDeque::from_iter(vec![1u64, 2]));
    let means = mean_usage(&usage_map);
    assert_eq!(means.len(), 1);
    assert_eq!(means[&7].total, 3);
    assert_eq!(means[&7].samples, 2);
}

#[test]
fn mean_of_no_window_is_no_mean() {
    let usage_map: HashMap<u32, VecDeque<u64>> = HashMap::new();
    assert!(mean_usage(&usage_map).is_empty());
}

#[test]
fn whole_is_one_sample() {
    let m = MeanUsage::whole(42);
    assert_eq!(m.total, 42);
    assert_eq!(m.samples, 1);
}

#[test]
fn equal_fractions_are_equal() {
    assert_eq!(MeanUsage { total: 6, samples: 3 }, MeanUsage::whole(2));
    assert_eq!(MeanUsage { total: 1, samples: 2 }, MeanUsage { total: 5, samples: 10 });
    assert_ne!(MeanUsage { total: 1, samples: 2 }, MeanUsage { total: 1, samples: 3 });
    assert_ne!(MeanUsage { total: 7, samples: 3 }, MeanUsage::whole(2));
}

#[test]
fn undefined_mean_equals_nothing() {
    let undefined = MeanUsage { total: 0, samples: 0 };
    assert_ne!(undefined, undefined);
    assert_ne!(undefined, MeanUsage::whole(0));
}

#[test]
fn equality_of_large_fractions() {
    let a = MeanUsage { total: u128::MAX, samples: usize::MAX };
    let b = MeanUsage { total: u128::MAX - 1, samples: usize::MAX };
    assert_eq!(a, a);
    assert_ne!(a, b);
}

#[test]
fn order_of_means() {
    let half = MeanUsage { total: 1, samples: 2 };
    let third = MeanUsage { total: 1, samples: 3 };
    assert!(half.is_at_least(&third));
    assert!(!third.is_at_least(&half));
    assert!(half.is_at_least(&half));
    assert!(half.is_at_least(&MeanUsage { total: 5, samples: 10 }));
    assert!(MeanUsage::whole(3).is_at_least(&MeanUsage { total: 29, samples: 10 }));
    assert!(!MeanUsage { total: 29, samples: 10 }.is_at_least(&MeanUsage::whole(3)));
}

#[test]
fn order_of_large_means() {
    let top = MeanUsage { total: u128::MAX, samples: 1 };
    let near = MeanUsage { total: u128::MAX - 1, samples: 1 };
    let spread = MeanUsage { total: u128::MAX, samples: usize::MAX };
    assert!(top.is_at_least(&near));
    assert!(!near.is_at_least(&top));
    assert!(top.is_at_least(&spread));
    assert!(!spread.is_at_least(&top));
    assert!(spread.is_at_least(&spread));
}

#[test]
fn round_goes_to_the_nearest() {
    assert_eq!(MeanUsage { total: 1, samples: 3 }.round(), 0);
    assert_eq!(MeanUsage { total: 2, samples: 3 }.round(), 1);
    assert_eq!(MeanUsage { total: 6, samples: 3 }.round(), 2);
    assert_eq!(MeanUsage { total: 1234, samples: 10 }.round(), 123);
    assert_eq!(MeanUsage { total: 1236, samples: 10 }.round(), 124);
}

#[test]
fn round_sends_a_tie_to_the_even_neighbour() {
    assert_eq!(MeanUsage { total: 1, samples: 2 }.round(), 0);
    assert_eq!(MeanUsage { total: 3, samples: 2 }.round(), 2);
    assert_eq!(MeanUsage { total: 5, samples: 2 }.round(), 2);
    assert_eq!(MeanUsage { total: 7, samples: 2 }.round(), 4);
    assert_eq!(MeanUsage { total: 125, samples: 10 }.round(), 12);
    assert_eq!(MeanUsage { total: 135, samples: 10 }.round(), 14);
}

#[test]
fn round_at_the_top_of_the_range() {
    assert_eq!(MeanUsage { total: u128::MAX, samples: 1 }.round(), u128::MAX);
    assert_eq!(MeanUsage { total: u128::MAX, samples: 2 }.round(), u128::MAX / 2 + 1);
}

#[test]
fn fresh_window_is_all_zero() {
    let window = new_zeroed_vecdeque(10);
    assert_eq!(window, VecDeque::from_iter(vec![0u64; 10]));
    assert!(new_zeroed_vecdeque(0).is_empty());
}

#[test]
fn advance_drops_the_oldest() {
    let mut window = VecDeque::from_iter(vec![1u64, 2, 3]);
    advance(&mut window, 9);
    assert_eq!(window, VecDeque::from_iter(vec![2u64, 3, 9]));
    advance(&mut window, 0);
    assert_eq!(window, VecDeque::from_iter(vec![3u64, 9, 0]));
}

#[test]
fn advance_of_an_empty_window_takes_the_sample() {
    let mut window: VecDeque<u64> = VecDeque::new();
    advance(&mut window, 4);
    assert_eq!(window, VecDeque::from_iter(vec![4u64]));
}

#[test]
fn window_total_adds_up() {
    assert_eq!(window_total(&VecDeque::from_iter(vec![10u64, 20, 30])), 60);
    assert_eq!(window_total(&VecDeque::new()), 0);
    assert_eq!(
        window_total(&VecDeque::from_iter(vec![u64::MAX, u64::MAX, 2])),
        2 * (u64::MAX as u128) + 2
    );
}

#[test]
fn window_mean_is_sum_over_length() {
    let mean = window_mean(&VecDeque::from_iter(vec![4u64, 5, 6]));
    assert_eq!(mean.total, 15);
    assert_eq!(mean.samples, 3);
    assert_eq!(mean, MeanUsage::whole(5));
}
