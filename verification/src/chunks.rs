//! How many hands a simulation deals, and how they are cut into chunks for
//! the workers.

use vstd::arithmetic::div_mod::lemma_fundamental_div_mod;
use vstd::prelude::*;

use crate::counters::{counts, sum};

verus! {

/// The most hands that one simulation deals.
pub const MAX_TRIALS: u32 = 10_000_000;

/// The number of hands to deal for a request: the request itself, but no more
/// than `MAX_TRIALS`.
pub open spec fn clamped(num: int) -> int {
    if num > MAX_TRIALS {
        MAX_TRIALS as int
    } else {
        num
    }
}

/// The number of hands to deal for the requested number: requests above
/// `MAX_TRIALS` are cut down to it.
pub fn clamp_trials(num: u32) -> (loop_num: u32)
    ensures
        loop_num == clamped(num as int),
{
    if num > MAX_TRIALS {
        MAX_TRIALS
    } else {
        num
    }
}

/// The chunks into which the hands to deal are cut for a number of workers.
///
/// With two workers or more, every worker but the last gets the hands divided
/// by one less than the number of workers, and the last gets the remainder.
/// A single worker gets them all.
pub open spec fn chunk_sizes(trials: int, workers: int) -> Seq<int> {
    if workers >= 2 {
        Seq::new(
            workers as nat,
            |i: int|
                if i < workers - 1 {
                    trials / (workers - 1)
                } else {
                    trials % (workers - 1)
                },
        )
    } else {
        seq![trials]
    }
}

/// The first chunks of an even cut add up to as many times the chunk.
proof fn lemma_sum_even(s: Seq<int>, k: int, d: int)
    requires
        0 <= k <= s.len(),
        forall|i: int| 0 <= i < k ==> s[i] == d,
    ensures
        sum(s.take(k)) == k * d,
    decreases k,
{
    if k > 0 {
        lemma_sum_even(s, k - 1, d);
        assert(s.take(k).drop_last() =~= s.take(k - 1));
        assert(s.take(k).last() == d);
        assert(k * d == (k - 1) * d + d) by (nonlinear_arith);
    } else {
        assert(s.take(k).len() == 0);
        assert(k * d == 0) by (nonlinear_arith)
            requires
                k == 0,
        ;
    }
}

/// The chunks add up to the hands to deal: no hand is lost or dealt twice.
pub proof fn lemma_chunks_cover(trials: int, workers: int)
    requires
        0 <= trials,
    ensures
        sum(chunk_sizes(trials, workers)) == trials,
        forall|i: int|
            0 <= i < chunk_sizes(trials, workers).len() ==> 0 <= #[trigger] chunk_sizes(
                trials,
                workers,
            )[i] <= trials,
{
    let chunks = chunk_sizes(trials, workers);
    if workers >= 2 {
        let d = trials / (workers - 1);
        lemma_sum_even(chunks, workers - 1, d);
        assert(chunks.drop_last() =~= chunks.take(workers - 1));
        lemma_fundamental_div_mod(trials, workers - 1);
        assert((workers - 1) * d == d * (workers - 1)) by (nonlinear_arith);
        assert(0 <= d <= trials) by (nonlinear_arith)
            requires
                d == trials / (workers - 1),
                workers - 1 >= 1,
                trials >= 0,
        ;
        assert(0 <= trials % (workers - 1) <= trials) by (nonlinear_arith)
            requires
                workers - 1 >= 1,
                trials >= 0,
        ;
    } else {
        assert(chunks.drop_last() =~= Seq::<int>::empty());
        assert(sum(chunks.drop_last()) == 0);
    }
}

/// Cuts the hands to deal into one chunk for each worker.
pub fn split_trials(loop_num: u32, thread_num: usize) -> (chunks: Vec<u32>)
    ensures
        counts(chunks@) == chunk_sizes(loop_num as int, thread_num as int),
        chunks@.len() == chunk_sizes(loop_num as int, thread_num as int).len(),
        forall|k: int|
            0 <= k < chunks@.len() ==> #[trigger] chunks@[k] == chunk_sizes(
                loop_num as int,
                thread_num as int,
            )[k],
{
    let mut v: Vec<u32> = Vec::new();
    if thread_num < 2 {
        v.push(loop_num);
        assert(counts(v@) =~= chunk_sizes(loop_num as int, thread_num as int));
        return v;
    }
    let workers: u64 = (thread_num - 1) as u64;
    let whole: u64 = loop_num as u64 / workers;
    let rest: u64 = loop_num as u64 % workers;
    proof {
        lemma_chunks_cover(loop_num as int, thread_num as int);
        let chunks = chunk_sizes(loop_num as int, thread_num as int);
        assert(chunks[0] == whole);
        assert(chunks[thread_num - 1] == rest);
    }
    let d: u32 = whole as u32;
    let left: u32 = rest as u32;
    let mut i: usize = 0;
    while i < thread_num
        invariant
            i <= thread_num,
            thread_num >= 2,
            workers == thread_num - 1,
            d == loop_num as int / (thread_num - 1),
            left == loop_num as int % (thread_num - 1),
            v@.len() == i,
            forall|k: int|
                0 <= k < i ==> #[trigger] v@[k] == chunk_sizes(
                    loop_num as int,
                    thread_num as int,
                )[k],
        decreases thread_num - i,
    {
        if i == thread_num - 1 {
            v.push(left);
        } else {
            v.push(d);
        }
        i += 1;
    }
    assert(counts(v@) =~= chunk_sizes(loop_num as int, thread_num as int));
    v
}

} // verus!
