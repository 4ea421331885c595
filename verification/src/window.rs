//! A user's rolling window: the most recent samples, oldest first.

use std::collections::VecDeque;
use vstd::prelude::*;
use crate::mean::MeanUsage;

verus! {

/// The number of samples that a window of the store holds.
pub const WINDOW_CAPACITY: usize = 10;

/// The sum of the samples of a window.
pub open spec fn window_sum(w: Seq<u64>) -> nat
    decreases w.len(),
{
    if w.len() == 0 {
        0
    } else {
        window_sum(w.drop_last()) + w.last() as nat
    }
}

/// A window of `capacity` samples that are all zero.
pub open spec fn zeroed(capacity: nat) -> Seq<u64> {
    Seq::new(capacity, |i: int| 0u64)
}

/// The window after `sample` has arrived: the oldest sample has left, the new
/// one stands last. An empty window has no sample to give up.
pub open spec fn advanced(w: Seq<u64>, sample: u64) -> Seq<u64> {
    if w.len() > 0 {
        w.drop_first().push(sample)
    } else {
        w.push(sample)
    }
}

/// The mean of a window: its sum over its length.
pub open spec fn mean_of(w: Seq<u64>) -> MeanUsage {
    MeanUsage { total: window_sum(w) as u128, samples: w.len() as usize }
}

/// A window's sum is at most its length times the largest sample.
pub proof fn lemma_window_sum_bound(w: Seq<u64>)
    ensures
        window_sum(w) <= w.len() * u64::MAX,
    decreases w.len(),
{
    if w.len() > 0 {
        lemma_window_sum_bound(w.drop_last());
        assert((w.len() - 1) * u64::MAX + u64::MAX == w.len() * u64::MAX) by (nonlinear_arith);
    }
}

/// The sum of a window's first `i + 1` samples is the sum of its first `i`
/// and the next one.
pub proof fn lemma_window_sum_step(w: Seq<u64>, i: int)
    requires
        0 <= i < w.len(),
    ensures
        window_sum(w.take(i + 1)) == window_sum(w.take(i)) + w[i] as nat,
{
    assert(w.take(i + 1).drop_last() =~= w.take(i));
}

/// A window of zeros sums to zero.
pub proof fn lemma_window_sum_zero(w: Seq<u64>)
    requires
        forall|i: int| 0 <= i < w.len() ==> w[i] == 0,
    ensures
        window_sum(w) == 0,
    decreases w.len(),
{
    if w.len() > 0 {
        lemma_window_sum_zero(w.drop_last());
    }
}

/// A window whose samples are zero but for the last sums to the last.
pub proof fn lemma_window_sum_last(w: Seq<u64>)
    requires
        w.len() > 0,
        forall|i: int| 0 <= i < w.len() - 1 ==> w[i] == 0,
    ensures
        window_sum(w) == w.last(),
{
    lemma_window_sum_zero(w.drop_last());
}

/// The mean of a window that a machine can hold is exactly its sum over its
/// length.
pub proof fn lemma_mean_of_exact(w: Seq<u64>)
    requires
        w.len() <= usize::MAX,
    ensures
        mean_of(w).total == window_sum(w),
        mean_of(w).samples == w.len(),
{
    lemma_window_sum_bound(w);
    assert(w.len() * u64::MAX <= u64::MAX * u64::MAX) by (nonlinear_arith)
        requires
            w.len() <= u64::MAX,
    ;
}

/// A fresh window: `capacity` samples of zero.
pub fn new_zeroed_vecdeque(capacity: usize) -> (vecdeque: VecDeque<u64>)
    ensures
        vecdeque@ == zeroed(capacity as nat),
{
    let mut vecdeque: VecDeque<u64> = VecDeque::with_capacity(capacity);
    for i in 0..capacity
        invariant
            vecdeque@ =~= zeroed(i as nat),
    {
        vecdeque.push_back(0);
    }
    vecdeque
}

/// Lets the oldest sample go and appends `sample`.
pub fn advance(window: &mut VecDeque<u64>, sample: u64)
    ensures
        final(window)@ == advanced(old(window)@, sample),
{
    let gone = window.pop_front();
    window.push_back(sample);
    proof {
        if old(window)@.len() > 0 {
            assert(old(window)@.subrange(1, old(window)@.len() as int) =~= old(window)@.drop_first());
        }
    }
}

/// The sum of the samples of `window`.
pub fn window_total(window: &VecDeque<u64>) -> (total: u128)
    ensures
        total == window_sum(window@),
{
    broadcast use vstd::std_specs::vecdeque::group_vec_dequeue_axioms;

    let n: usize = window.len();
    let mut total: u128 = 0;
    for i in 0..n
        invariant
            n == window@.len(),
            total == window_sum(window@.take(i as int)),
    {
        proof {
            lemma_window_sum_step(window@, i as int);
            lemma_window_sum_bound(window@.take(i as int + 1));
            assert((i + 1) * u64::MAX <= usize::MAX * u64::MAX) by (nonlinear_arith)
                requires
                    i + 1 <= usize::MAX,
            ;
            assert(usize::MAX * u64::MAX <= u64::MAX * u64::MAX) by (nonlinear_arith)
                requires
                    usize::MAX <= u64::MAX,
            ;
        }
        total = total + window[i] as u128;
    }
    proof {
        assert(window@.take(n as int) =~= window@);
    }
    total
}

/// The mean of `window`.
pub fn window_mean(window: &VecDeque<u64>) -> (mean: MeanUsage)
    ensures
        mean == mean_of(window@),
{
    broadcast use vstd::std_specs::vecdeque::group_vec_dequeue_axioms;

    MeanUsage { total: window_total(window), samples: window.len() }
}

} // verus!
