//! The work of one worker: dealing and judging the hands of its chunk.

use vstd::prelude::*;

use crate::card::{card_of, make_cards_from_id, Card, DECK_SIZE};
use crate::counters::{counts, hands_counted, lemma_hands_counted};
use crate::deal::{deals, distinct_cards, handout_cards};
use crate::error::PorkerError;
use crate::hand::{count_judge_role, judge};
use crate::role::ROLE_COUNT;

verus! {

/// The cards that five identifiers of the deck name, place by place.
pub open spec fn hand_cards(ids: Seq<u32>) -> Seq<Card> {
    Seq::new(ids.len(), |i: int| card_of(ids[i] as int))
}

/// Every hand of the row is one that the pool can deal, made of cards of the deck.
pub open spec fn dealt_hands(pool: Seq<u32>, hands: Seq<Seq<u32>>) -> bool {
    forall|k: int|
        0 <= k < hands.len() ==> deals(pool, #[trigger] hands[k]) && forall|i: int|
            0 <= i < 5 ==> hands[k][i] < DECK_SIZE
}

/// The counters after a row of hands was judged: for each role, the number
/// of hands of the row that have it.
pub open spec fn counted(hands: Seq<Seq<u32>>) -> Seq<int>
    decreases hands.len(),
{
    if hands.len() == 0 {
        Seq::new(ROLE_COUNT as nat, |i: int| 0int)
    } else {
        let before = counted(hands.drop_last());
        let slot = judge(hand_cards(hands.last())).index();
        before.update(slot, before[slot] + 1)
    }
}

/// Ten counters whose sum is the number of hands judged.
pub proof fn lemma_counted(hands: Seq<Seq<u32>>)
    ensures
        counted(hands).len() == ROLE_COUNT,
        forall|role: int| 0 <= role < ROLE_COUNT ==> 0 <= #[trigger] counted(hands)[role],
        counted(hands)[0] + counted(hands)[1] + counted(hands)[2] + counted(hands)[3] + counted(
            hands,
        )[4] + counted(hands)[5] + counted(hands)[6] + counted(hands)[7] + counted(hands)[8]
            + counted(hands)[9] == hands.len(),
    decreases hands.len(),
{
    if hands.len() > 0 {
        lemma_counted(hands.drop_last());
    }
}

/// Judging one row of hands after another counts, role by role, what the two
/// rows count together.
pub proof fn lemma_counted_joined(first: Seq<Seq<u32>>, second: Seq<Seq<u32>>)
    ensures
        forall|role: int|
            0 <= role < ROLE_COUNT ==> #[trigger] counted(first + second)[role] == counted(
                first,
            )[role] + counted(second)[role],
    decreases second.len(),
{
    if second.len() == 0 {
        assert(first + second =~= first);
    } else {
        lemma_counted_joined(first, second.drop_last());
        lemma_counted(second.drop_last());
        lemma_counted(first + second.drop_last());
        assert((first + second).drop_last() =~= first + second.drop_last());
        assert((first + second).last() == second.last());
    }
}

/// What one worker hands back: its counters, or why it stopped.
pub type Counted = Result<[u32; 10], PorkerError>;

/// What a worker may hand back for a pool and a number of hands to deal.
///
/// Counters count exactly that many hands, each one that the pool can deal
/// and each under the role that `judge` gives it. A failure says that a hand
/// could not be dealt, or that the pool holds an identifier which names no
/// card. With no hand to deal the worker succeeds; with hands to deal and
/// fewer than five different cards in the pool it fails.
pub open spec fn tried(use_cards: Seq<u32>, trials: int, part: Counted) -> bool {
    &&& part matches Ok(role_count) ==> {
        &&& hands_counted(role_count@) == trials
        &&& exists|hands: Seq<Seq<u32>>|
            hands.len() == trials && dealt_hands(use_cards, hands) && counts(role_count@)
                == #[trigger] counted(hands)
    }
    &&& part matches Err(e) ==> trials > 0 && (e == PorkerError::InvalidCardPool || (e
        == PorkerError::ConversionError && exists|i: int|
        0 <= i < use_cards.len() && #[trigger] use_cards[i] >= DECK_SIZE))
    &&& trials == 0 ==> part is Ok
    &&& trials > 0 && distinct_cards(use_cards) < 5 ==> part == Counted::Err(
        PorkerError::InvalidCardPool,
    )
}

/// Deals and judges `trials` hands from the pool and counts their roles.
///
/// Stops at the first hand that cannot be dealt (`InvalidCardPool`) or that
/// holds an identifier which names no card (`ConversionError`). With no hand
/// to deal it looks at no card and succeeds.
pub fn run_trials(use_cards: &Vec<u32>, trials: u32) -> (part: Counted)
    ensures
        tried(use_cards@, trials as int, part),
{
    let mut role_counter: [u32; 10] = [0; 10];
    proof {
        lemma_hands_counted(role_counter@);
    }
    let mut done: u32 = 0;
    let ghost mut hands: Seq<Seq<u32>> = Seq::empty();
    assert(counts(role_counter@) =~= counted(hands));
    while done < trials
        invariant
            done <= trials,
            hands_counted(role_counter@) == done,
            done > 0 ==> distinct_cards(use_cards@) >= 5,
            hands.len() == done,
            dealt_hands(use_cards@, hands),
            counts(role_counter@) == counted(hands),
        decreases trials - done,
    {
        let ids = match handout_cards(use_cards) {
            Ok(ids) => ids,
            Err(e) => {
                return Err(e);
            },
        };
        let mut cards = match make_cards_from_id(&ids) {
            Ok(cards) => cards,
            Err(e) => {
                proof {
                    let k = choose|k: int| 0 <= k < 5 && #[trigger] ids@[k] >= DECK_SIZE;
                    assert(use_cards@.contains(ids@[k]));
                }
                return Err(e);
            },
        };
        proof {
            lemma_counted(hands);
            assert(cards@ =~= hand_cards(ids@));
            assert forall|i: int| 0 <= i < 5 implies ids@[i] < DECK_SIZE by {
                assert(cards@[i] == card_of(ids@[i] as int));
            }
        }
        count_judge_role(&mut cards, &mut role_counter);
        proof {
            let before = hands;
            hands = hands.push(ids@);
            assert(hands.drop_last() =~= before);
            assert(counts(role_counter@) =~= counted(hands));
        }
        done += 1;
    }
    Ok(role_counter)
}

} // verus!
