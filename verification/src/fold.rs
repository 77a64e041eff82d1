//! The fold of what the workers hand back into the result of the simulation.

use vstd::prelude::*;

use crate::counters::{hands_counted, lemma_hands_counted, merge_counts};
use crate::error::PorkerError;
use crate::role::ROLE_COUNT;
use crate::score::{calc_score, score_of};
use crate::worker::Counted;

verus! {

/// What one simulation found.
#[derive(Debug, Clone, Copy, PartialEq, Eq)]
pub struct ResultData {
    /// The score of the counted hands.
    pub score: u64,
    /// The number of hands dealt.
    pub total_num_of_atempt: u32,
    /// How many hands had each role, from `NoPair` up to `RoyalStraightFlush`.
    pub role_count: [u32; 10],
}

/// The failure of the first worker that failed, if one did.
pub open spec fn first_error(parts: Seq<Counted>) -> Option<PorkerError>
    decreases parts.len(),
{
    if parts.len() == 0 {
        None
    } else {
        match first_error(parts.drop_last()) {
            Some(e) => Some(e),
            None => match parts.last() {
                Ok(_) => None,
                Err(e) => Some(e),
            },
        }
    }
}

/// The hands of one role that the workers counted together.
pub open spec fn column(parts: Seq<Counted>, role: int) -> int
    decreases parts.len(),
{
    if parts.len() == 0 {
        0
    } else {
        column(parts.drop_last(), role) + match parts.last() {
            Ok(role_count) => role_count@[role] as int,
            Err(_) => 0,
        }
    }
}

/// The hands that the workers counted together.
pub open spec fn tally(parts: Seq<Counted>) -> int
    decreases parts.len(),
{
    if parts.len() == 0 {
        0
    } else {
        tally(parts.drop_last()) + match parts.last() {
            Ok(role_count) => hands_counted(role_count@),
            Err(_) => 0,
        }
    }
}

/// The hands counted role by role add up to the hands counted worker by worker.
pub proof fn lemma_columns_tally(parts: Seq<Counted>)
    ensures
        column(parts, 0) + column(parts, 1) + column(parts, 2) + column(parts, 3) + column(parts, 4)
            + column(parts, 5) + column(parts, 6) + column(parts, 7) + column(parts, 8) + column(
            parts,
            9,
        ) == tally(parts),
        forall|role: int| 0 <= role < ROLE_COUNT ==> 0 <= #[trigger] column(parts, role),
    decreases parts.len(),
{
    if parts.len() > 0 {
        lemma_columns_tally(parts.drop_last());
        match parts.last() {
            Ok(role_count) => {
                lemma_hands_counted(role_count@);
            },
            Err(_) => {},
        }
    }
}

/// What the first workers counted of a role is no more than what all counted.
proof fn lemma_column_grows(parts: Seq<Counted>, k: int, role: int)
    requires
        0 <= k <= parts.len(),
        0 <= role < ROLE_COUNT,
    ensures
        column(parts.take(k), role) <= column(parts, role),
    decreases parts.len() - k,
{
    if k < parts.len() {
        lemma_column_grows(parts, k + 1, role);
        assert(parts.take(k + 1).drop_last() =~= parts.take(k));
    } else {
        assert(parts.take(k) =~= parts);
    }
}

/// What the fold of the workers' answers is.
///
/// If a worker failed, it is the failure of the first such worker. Otherwise
/// it is `ConversionError` if a role's total does not fit its width, and else
/// the result with the counters added up role by role, their score, and the
/// given number of hands.
pub open spec fn folded(loop_num: int, parts: Seq<Counted>, found: Result<
    ResultData,
    PorkerError,
>) -> bool {
    match first_error(parts) {
        Some(e) => found == Err::<ResultData, PorkerError>(e),
        None => if exists|role: int|
            0 <= role < ROLE_COUNT && #[trigger] column(parts, role) > u32::MAX {
            found == Err::<ResultData, PorkerError>(PorkerError::ConversionError)
        } else {
            &&& found matches Ok(data)
            &&& data.total_num_of_atempt == loop_num
            &&& data.score == score_of(data.role_count@)
            &&& hands_counted(data.role_count@) == tally(parts)
            &&& forall|role: int|
                0 <= role < ROLE_COUNT ==> #[trigger] data.role_count@[role] == column(parts, role)
        },
    }
}

/// Folds what the workers hand back into the result of the simulation.
///
/// If a worker failed, the failure of the first such worker is the answer and
/// no result is built. Otherwise the counters are added up role by role; if a
/// total does not fit its width the answer is `ConversionError`.
pub fn collect_results(loop_num: u32, parts: &Vec<Counted>) -> (found: Result<
    ResultData,
    PorkerError,
>)
    ensures
        folded(loop_num as int, parts@, found),
{
    let mut k: usize = 0;
    while k < parts.len()
        invariant
            k <= parts.len(),
            first_error(parts@.take(k as int)) is None,
        decreases parts.len() - k,
    {
        proof {
            assert(parts@.take(k + 1).drop_last() =~= parts@.take(k as int));
        }
        match parts[k] {
            Ok(_) => {},
            Err(e) => {
                proof {
                    lemma_first_error_stays(parts@, k + 1);
                }
                return Err(e);
            },
        }
        k += 1;
    }
    assert(parts@.take(parts@.len() as int) =~= parts@);
    let mut role_counter: [u32; 10] = [0; 10];
    let mut k: usize = 0;
    while k < parts.len()
        invariant
            k <= parts.len(),
            first_error(parts@) is None,
            forall|role: int|
                0 <= role < ROLE_COUNT ==> #[trigger] role_counter@[role] == column(
                    parts@.take(k as int),
                    role,
                ),
        decreases parts.len() - k,
    {
        proof {
            assert(parts@.take(k + 1).drop_last() =~= parts@.take(k as int));
        }
        match parts[k] {
            Ok(part) => {
                match merge_counts(&mut role_counter, &part) {
                    Ok(_) => {},
                    Err(e) => {
                        proof {
                            let role = choose|role: int|
                                0 <= role < ROLE_COUNT && #[trigger] role_counter@[role]
                                    + part@[role] > u32::MAX;
                            lemma_column_grows(parts@, k + 1, role);
                            assert(column(parts@, role) > u32::MAX);
                        }
                        return Err(e);
                    },
                }
            },
            Err(_) => {},
        }
        k += 1;
    }
    proof {
        assert(parts@.take(parts@.len() as int) =~= parts@);
        lemma_columns_tally(parts@);
        lemma_hands_counted(role_counter@);
    }
    let score = calc_score(&role_counter);
    Ok(ResultData { total_num_of_atempt: loop_num, score, role_count: role_counter })
}

/// Once a worker among the first has failed, the first failure is settled.
proof fn lemma_first_error_stays(parts: Seq<Counted>, k: int)
    requires
        0 <= k <= parts.len(),
        first_error(parts.take(k)) is Some,
    ensures
        first_error(parts) == first_error(parts.take(k)),
    decreases parts.len() - k,
{
    if k < parts.len() {
        assert(parts.take(k + 1).drop_last() =~= parts.take(k));
        lemma_first_error_stays(parts, k + 1);
    } else {
        assert(parts.take(k) =~= parts);
    }
}

} // verus!
