//! The simulation as a whole: the hands are cut into chunks, each chunk is
//! worked, and the answers are folded.

use std::sync::Arc;
use vstd::prelude::*;
use vstd::std_specs::convert::TryIntoSpec;

use crate::card::DECK_SIZE;
use crate::chunks::{
    chunk_sizes, clamp_trials, clamped, lemma_chunks_cover, split_trials, MAX_TRIALS,
};
use crate::counters::{counts, hands_counted, sum};
use crate::deal::distinct_cards;
use crate::error::PorkerError;
use crate::fold::{
    collect_results, column, first_error, folded, lemma_columns_tally, tally, ResultData,
};
use crate::role::ROLE_COUNT;
use crate::score::score_of;
use crate::worker::{
    counted, dealt_hands, lemma_counted, lemma_counted_joined, run_trials, tried, Counted,
};

verus! {

/// `num_cpus::get`: the number of logical processors that the machine offers
/// to this process. Nothing is claimed of the number.
pub assume_specification[ num_cpus::get ]() -> (cpus: usize);

/// What a simulation may answer for a pool and a number of hands to deal.
///
/// An answer counts exactly the hands to deal, each under the role that
/// `judge` gives it, and scores them. A failure says that a hand could not be
/// dealt, or that the pool holds an identifier which names no card. With no
/// hand to deal the simulation succeeds; with hands to deal and fewer than
/// five different cards in the pool it fails.
pub open spec fn simulated(use_cards: Seq<u32>, loop_num: int, found: Result<
    ResultData,
    PorkerError,
>) -> bool {
    &&& found matches Ok(data) ==> {
        &&& data.total_num_of_atempt == loop_num
        &&& hands_counted(data.role_count@) == loop_num
        &&& data.score == score_of(data.role_count@)
        &&& exists|hands: Seq<Seq<u32>>|
            hands.len() == loop_num && dealt_hands(use_cards, hands) && counts(data.role_count@)
                == #[trigger] counted(hands)
    }
    &&& found matches Err(e) ==> loop_num > 0 && (e == PorkerError::InvalidCardPool || (e
        == PorkerError::ConversionError && exists|i: int|
        0 <= i < use_cards.len() && #[trigger] use_cards[i] >= DECK_SIZE))
    &&& loop_num == 0 ==> found is Ok
    &&& loop_num > 0 && distinct_cards(use_cards) < 5 ==> found == Err::<ResultData, PorkerError>(
        PorkerError::InvalidCardPool,
    )
}

/// What `million_porker_parallel` answers for a request that converted, or
/// failed to convert, to the working width.
pub open spec fn simulated_from<E>(use_cards: Seq<u32>, converted: Result<u32, E>, found: Result<
    ResultData,
    PorkerError,
>) -> bool {
    match converted {
        Ok(num) => simulated(use_cards, clamped(num as int), found),
        Err(_) => found == Err::<ResultData, PorkerError>(PorkerError::ConversionError),
    }
}

/// Where the first failure stands: a worker that failed after workers that
/// all succeeded.
proof fn lemma_first_error_at(parts: Seq<Counted>) -> (k: int)
    requires
        first_error(parts) is Some,
    ensures
        0 <= k < parts.len(),
        parts[k] == Counted::Err(first_error(parts)->Some_0),
    decreases parts.len(),
{
    if first_error(parts.drop_last()) is Some {
        lemma_first_error_at(parts.drop_last())
    } else {
        parts.len() - 1
    }
}

/// The hands that workers who all succeeded have counted, chunk after chunk.
proof fn lemma_hands_of_chunks(
    use_cards: Seq<u32>,
    chunks: Seq<int>,
    parts: Seq<Counted>,
) -> (hands: Seq<Seq<u32>>)
    requires
        parts.len() == chunks.len(),
        forall|k: int| 0 <= k < parts.len() ==> tried(use_cards, chunks[k], #[trigger] parts[k]),
        first_error(parts) is None,
    ensures
        tally(parts) == sum(chunks),
        hands.len() == sum(chunks),
        dealt_hands(use_cards, hands),
        forall|role: int|
            0 <= role < ROLE_COUNT ==> #[trigger] column(parts, role) == counted(hands)[role],
        distinct_cards(use_cards) < 5 ==> forall|k: int|
            0 <= k < chunks.len() ==> #[trigger] chunks[k] <= 0,
    decreases parts.len(),
{
    if parts.len() == 0 {
        let hands = Seq::<Seq<u32>>::empty();
        lemma_counted(hands);
        hands
    } else {
        let first = lemma_hands_of_chunks(use_cards, chunks.drop_last(), parts.drop_last());
        let role_count = parts.last()->Ok_0;
        assert(tried(use_cards, chunks.last(), parts.last()));
        let more = choose|more: Seq<Seq<u32>>|
            more.len() == chunks.last() && dealt_hands(use_cards, more) && counts(role_count@)
                == #[trigger] counted(more);
        lemma_counted_joined(first, more);
        lemma_counted(first + more);
        assert forall|role: int| 0 <= role < ROLE_COUNT implies #[trigger] column(parts, role)
            == counted(first + more)[role] by {
            assert(parts.last() is Ok);
            assert(column(parts, role) == column(parts.drop_last(), role) + role_count@[role]);
            assert(column(parts.drop_last(), role) == counted(first)[role]);
            assert(counts(role_count@)[role] == role_count@[role]);
            assert(counted(first + more)[role] == counted(first)[role] + counted(more)[role]);
        }
        assert forall|k: int| 0 <= k < chunks.len() && distinct_cards(use_cards)
            < 5 implies #[trigger] chunks[k] <= 0 by {
            if k < chunks.len() - 1 {
                assert(chunks.drop_last()[k] <= 0);
            }
        }
        first + more
    }
}

/// Chunks of which none holds a hand hold no hand together.
proof fn lemma_sum_of_none(s: Seq<int>)
    requires
        forall|k: int| 0 <= k < s.len() ==> #[trigger] s[k] == 0,
    ensures
        sum(s) == 0,
    decreases s.len(),
{
    if s.len() > 0 {
        lemma_sum_of_none(s.drop_last());
    }
}

/// Cutting the hands into chunks, working each chunk and folding the answers
/// is one simulation: if every worker hands back what it may for its chunk,
/// the fold is what the simulation may answer for all the hands. This holds
/// whoever the workers are and in whatever order they worked.
pub proof fn lemma_fold_simulates(
    use_cards: Seq<u32>,
    loop_num: int,
    workers: int,
    parts: Seq<Counted>,
    found: Result<ResultData, PorkerError>,
)
    requires
        0 <= loop_num <= u32::MAX,
        parts.len() == chunk_sizes(loop_num, workers).len(),
        forall|k: int|
            0 <= k < parts.len() ==> tried(
                use_cards,
                chunk_sizes(loop_num, workers)[k],
                #[trigger] parts[k],
            ),
        folded(loop_num, parts, found),
    ensures
        simulated(use_cards, loop_num, found),
{
    let chunks = chunk_sizes(loop_num, workers);
    lemma_chunks_cover(loop_num, workers);
    if first_error(parts) is Some {
        let k = lemma_first_error_at(parts);
        assert(tried(use_cards, chunks[k], parts[k]));
        assert(0 < chunks[k] <= loop_num);
    } else {
        let hands = lemma_hands_of_chunks(use_cards, chunks, parts);
        lemma_columns_tally(parts);
        lemma_counted(hands);
        if distinct_cards(use_cards) < 5 {
            assert forall|k: int| 0 <= k < chunks.len() implies #[trigger] chunks[k] == 0 by {
                assert(0 <= chunks[k] <= 0);
            }
            lemma_sum_of_none(chunks);
        }
        let data = found->Ok_0;
        assert(counts(data.role_count@) =~= counted(hands));
    }
}

/// Runs one simulation: deals and judges `num` hands, or `MAX_TRIALS` if `num`
/// is more, from the pool, and reports how often each role came and what the
/// hands score together.
///
/// The hands are cut into one chunk for each logical processor and the chunks
/// are worked through one after the other on the calling thread. A caller who
/// wants them side by side hands each chunk to `run_trials` on a thread of its
/// own and folds what comes back with `collect_results`.
pub fn run_simulation(use_cards: &Vec<u32>, num: u32) -> (found: Result<ResultData, PorkerError>)
    ensures
        simulated(use_cards@, clamped(num as int), found),
        found matches Ok(data) ==> {
            &&& data.total_num_of_atempt == (if num > MAX_TRIALS { MAX_TRIALS } else { num })
            &&& hands_counted(data.role_count@) == data.total_num_of_atempt
            &&& data.score == score_of(data.role_count@)
        },
{
    let thread_num: usize = num_cpus::get();
    let loop_num: u32 = clamp_trials(num);
    let v = split_trials(loop_num, thread_num);
    let ghost chunks = chunk_sizes(loop_num as int, thread_num as int);
    let mut parts: Vec<Counted> = Vec::new();
    let mut i: usize = 0;
    while i < v.len()
        invariant
            i <= v.len(),
            counts(v@) == chunks,
            parts@.len() == i,
            forall|k: int| 0 <= k < i ==> tried(use_cards@, chunks[k], #[trigger] parts@[k]),
        decreases v.len() - i,
    {
        let part = run_trials(use_cards, v[i]);
        assert(chunks[i as int] == v@[i as int]);
        parts.push(part);
        i += 1;
    }
    let found = collect_results(loop_num, &parts);
    proof {
        lemma_fold_simulates(use_cards@, loop_num as int, thread_num as int, parts@, found);
    }
    found
}

/// Runs one simulation for a number of hands given in any integer width.
///
/// Fails with `ConversionError` when the number does not convert to the
/// working width; otherwise it is `run_simulation` on the converted number.
/// The answer is stated over what the conversion gave, and over the number
/// itself for the widths whose conversion is known.
pub fn million_porker_parallel<T>(use_cards: Arc<Vec<u32>>, num: T) -> (found: Result<
    ResultData,
    PorkerError,
>)
    where T: TryInto<u32>
    ensures
        exists|converted: Result<u32, <T as TryInto<u32>>::Error>|
            call_ensures(<T as TryInto<u32>>::try_into, (num,), converted)
                && #[trigger] simulated_from(use_cards@, converted, found),
        <T as TryIntoSpec<u32>>::obeys_try_into_spec() ==> simulated_from(
            use_cards@,
            num.try_into_spec(),
            found,
        ),
        found matches Ok(data) ==> {
            &&& data.total_num_of_atempt <= MAX_TRIALS
            &&& hands_counted(data.role_count@) == data.total_num_of_atempt
            &&& data.score == score_of(data.role_count@)
        },
        found matches Err(e) ==> e == PorkerError::InvalidCardPool || e
            == PorkerError::ConversionError,
{
    let converted = num.try_into();
    assert(call_ensures(<T as TryInto<u32>>::try_into, (num,), converted));
    let found = match converted {
        Ok(n) => run_simulation(&use_cards, n),
        Err(_) => Err(PorkerError::ConversionError),
    };
    assert(simulated_from(use_cards@, converted, found));
    found
}

} // verus!
