//! Tables of counters: one counter for each role, in the order of strength.

use vstd::prelude::*;

use crate::error::PorkerError;
use crate::role::ROLE_COUNT;

verus! {

/// The counters as a sequence of numbers.
pub open spec fn counts(role_count: Seq<u32>) -> Seq<int> {
    Seq::new(role_count.len(), |i: int| role_count[i] as int)
}

/// The sum of a sequence of numbers.
pub open spec fn sum(s: Seq<int>) -> int
    decreases s.len(),
{
    if s.len() == 0 {
        0
    } else {
        sum(s.drop_last()) + s.last()
    }
}

/// The number of hands that a table of counters has counted.
pub open spec fn hands_counted(role_count: Seq<u32>) -> int {
    sum(counts(role_count))
}

/// The hands counted by ten counters, written out role by role.
pub proof fn lemma_hands_counted(role_count: Seq<u32>)
    requires
        role_count.len() == ROLE_COUNT,
    ensures
        hands_counted(role_count) == role_count[0] + role_count[1] + role_count[2] + role_count[3]
            + role_count[4] + role_count[5] + role_count[6] + role_count[7] + role_count[8]
            + role_count[9],
{
    reveal_with_fuel(sum, 11);
}

/// Adds the counters of one worker to the running totals, or leaves the totals
/// as they are and fails with `ConversionError` when a total would no longer
/// fit its width.
pub fn merge_counts(role_counter: &mut [u32; 10], part: &[u32; 10]) -> (merged: Result<
    (),
    PorkerError,
>)
    ensures
        match merged {
            Ok(_) => forall|i: int|
                0 <= i < ROLE_COUNT ==> #[trigger] final(role_counter)@[i] == old(role_counter)@[i]
                    + part@[i],
            Err(e) => e == PorkerError::ConversionError && *final(role_counter) == *old(
                role_counter,
            ) && exists|i: int|
                0 <= i < ROLE_COUNT && #[trigger] old(role_counter)@[i] + part@[i] > u32::MAX,
        },
{
    let mut i: usize = 0;
    while i < 10
        invariant
            i <= 10,
            *role_counter == *old(role_counter),
            forall|k: int| 0 <= k < i ==> #[trigger] role_counter@[k] + part@[k] <= u32::MAX,
        decreases 10 - i,
    {
        if role_counter[i] > u32::MAX - part[i] {
            return Err(PorkerError::ConversionError);
        }
        i += 1;
    }
    let mut i: usize = 0;
    while i < 10
        invariant
            i <= 10,
            forall|k: int|
                0 <= k < ROLE_COUNT ==> #[trigger] old(role_counter)@[k] + part@[k] <= u32::MAX,
            forall|k: int|
                0 <= k < i ==> #[trigger] role_counter@[k] == old(role_counter)@[k] + part@[k],
            forall|k: int|
                i <= k < ROLE_COUNT ==> #[trigger] role_counter@[k] == old(role_counter)@[k],
        decreases 10 - i,
    {
        role_counter[i] = role_counter[i] + part[i];
        i += 1;
    }
    Ok(())
}

} // verus!
