//! The score sheet: what each role is worth, and the score of a table of counters.

use vstd::prelude::*;

use crate::counters::counts;
use crate::role::ROLE_COUNT;

verus! {

/// Points for one hand of each role, from `NoPair` up to `RoyalStraightFlush`.
pub const SCORE_SHEET: [u32; 10] = [1, 5, 10, 20, 100, 150, 200, 500, 800, 1500];

/// The score sheet as a sequence of numbers.
pub open spec fn score_sheet() -> Seq<int> {
    counts(SCORE_SHEET@)
}

/// The dot product of two sequences of one length.
pub open spec fn dot(a: Seq<int>, b: Seq<int>) -> int
    decreases a.len(),
{
    if a.len() == 0 || b.len() == 0 {
        0
    } else {
        dot(a.drop_last(), b.drop_last()) + a.last() * b.last()
    }
}

/// The score of a table of counters: each counter times the points of its role,
/// summed over the ten roles.
pub open spec fn score_of(role_count: Seq<u32>) -> int {
    dot(counts(role_count), score_sheet())
}

/// The score of ten counters, written out role by role.
pub proof fn lemma_score_of(role_count: Seq<u32>)
    requires
        role_count.len() == ROLE_COUNT,
    ensures
        score_of(role_count) == role_count[0] * 1 + role_count[1] * 5 + role_count[2] * 10
            + role_count[3] * 20 + role_count[4] * 100 + role_count[5] * 150 + role_count[6] * 200
            + role_count[7] * 500 + role_count[8] * 800 + role_count[9] * 1500,
{
    reveal_with_fuel(dot, 11);
}

/// The total score of the counted hands.
pub fn calc_score(role_count: &[u32; 10]) -> (score: u64)
    ensures
        score == score_of(role_count@),
{
    let mut sum_score: u64 = 0;
    let mut i: usize = 0;
    while i < 10
        invariant
            i <= 10,
            sum_score == dot(counts(role_count@).take(i as int), score_sheet().take(i as int)),
            sum_score <= i * (u32::MAX * 1500),
        decreases 10 - i,
    {
        proof {
            let a = counts(role_count@).take(i + 1);
            let b = score_sheet().take(i + 1);
            assert(a.drop_last() =~= counts(role_count@).take(i as int));
            assert(b.drop_last() =~= score_sheet().take(i as int));
            assert(a.last() * b.last() <= u32::MAX * 1500) by (nonlinear_arith)
                requires
                    0 <= a.last() <= u32::MAX,
                    0 <= b.last() <= 1500,
            ;
        }
        let count: u64 = role_count[i] as u64;
        let points: u64 = SCORE_SHEET[i] as u64;
        assert(count * points <= u32::MAX * 1500) by (nonlinear_arith)
            requires
                0 <= count <= u32::MAX,
                0 <= points <= 1500,
        ;
        sum_score = sum_score + count * points;
        i += 1;
    }
    proof {
        assert(counts(role_count@).take(10) =~= counts(role_count@));
        assert(score_sheet().take(10) =~= score_sheet());
    }
    sum_score
}

} // verus!
