//! Judging a hand of five cards.
//!
//! The predicates that look at positions (`is_strait`, `is_fulhouse`) expect
//! the hand in ascending order of rank; `judge_role` puts it in that order
//! before it asks them.

use vstd::prelude::*;
use vstd::relations::*;
use vstd::seq_lib::*;

use crate::card::Card;
use crate::counters::{hands_counted, lemma_hands_counted};
use crate::role::Role;

verus! {

/// The ranks of the cards, position by position.
pub open spec fn ranks(cards: Seq<Card>) -> Seq<int> {
    Seq::new(cards.len(), |i: int| cards[i].rank as int)
}

/// How many of the cards have rank `r`.
pub open spec fn same_rank_count(cards: Seq<Card>, r: int) -> nat {
    ranks(cards).to_multiset().count(r)
}

/// Some rank is shared by at least `n` of the cards.
pub open spec fn has_group(cards: Seq<Card>, n: nat) -> bool {
    exists|r: int| #[trigger] same_rank_count(cards, r) >= n
}

/// Two different ranks are each shared by at least two of the cards.
pub open spec fn two_pairs(cards: Seq<Card>) -> bool {
    exists|a: int, b: int|
        a != b && #[trigger] same_rank_count(cards, a) >= 2 && #[trigger] same_rank_count(cards, b)
            >= 2
}

/// Every card has the suit of the first one.
pub open spec fn same_suit(cards: Seq<Card>) -> bool {
    forall|i: int| 0 <= i < cards.len() ==> (#[trigger] cards[i]).suit == cards[0].suit
}

/// A rank of the run from ten up to the ace.
pub open spec fn royal_rank(r: int) -> bool {
    r == 1 || 10 <= r <= 13
}

/// Every card has a rank of the run from ten up to the ace.
pub open spec fn royal_ranks(cards: Seq<Card>) -> bool {
    forall|i: int| 0 <= i < cards.len() ==> royal_rank(#[trigger] ranks(cards)[i])
}

/// Ascending ranks of the run from ten up to the ace, the ace counted as one.
pub open spec fn ace_high() -> Seq<int> {
    seq![1, 10, 11, 12, 13]
}

/// Five ranks in which each is one more than the one before it.
pub open spec fn consecutive(rs: Seq<int>) -> bool {
    &&& rs.len() == 5
    &&& rs[0] + 1 == rs[1]
    &&& rs[1] + 1 == rs[2]
    &&& rs[2] + 1 == rs[3]
    &&& rs[3] + 1 == rs[4]
}

/// Ascending ranks that make a straight: a run of five, or ten up to the ace.
pub open spec fn is_run(rs: Seq<int>) -> bool {
    rs =~= ace_high() || consecutive(rs)
}

/// Ascending ranks that split into a group of two and a group of three.
pub open spec fn two_and_three(rs: Seq<int>) -> bool {
    &&& rs.len() == 5
    &&& {
        ||| rs[1] == rs[0] && rs[3] == rs[2] && rs[4] == rs[2]
        ||| rs[1] == rs[0] && rs[2] == rs[0] && rs[4] == rs[3]
    }
}

/// The role that the groups of equal rank give, when nothing stronger applies.
/// Five cards of one rank give none.
pub open spec fn pair_role(cards: Seq<Card>) -> Option<Role> {
    if has_group(cards, 5) {
        None
    } else if has_group(cards, 4) {
        Some(Role::FourCard)
    } else if has_group(cards, 3) {
        Some(Role::ThreeCard)
    } else if two_pairs(cards) {
        Some(Role::TwoPair)
    } else if has_group(cards, 2) {
        Some(Role::OnePair)
    } else {
        Some(Role::NoPair)
    }
}

/// The ranks of a hand of five, card by card.
pub proof fn lemma_ranks_of_five(cards: Seq<Card>)
    requires
        cards.len() == 5,
    ensures
        ranks(cards).len() == 5,
        ranks(cards)[0] == cards[0].rank,
        ranks(cards)[1] == cards[1].rank,
        ranks(cards)[2] == cards[2].rank,
        ranks(cards)[3] == cards[3].rank,
        ranks(cards)[4] == cards[4].rank,
{
}

/// The count of one rank in a hand of five, card by card.
pub proof fn lemma_same_rank_count(cards: Seq<Card>, r: int)
    requires
        cards.len() == 5,
    ensures
        same_rank_count(cards, r) == (if cards[0].rank == r { 1nat } else { 0 })
            + (if cards[1].rank == r { 1nat } else { 0 })
            + (if cards[2].rank == r { 1nat } else { 0 })
            + (if cards[3].rank == r { 1nat } else { 0 })
            + (if cards[4].rank == r { 1nat } else { 0 }),
{
    broadcast use group_to_multiset_ensures;
    let rs = ranks(cards);
    let s0 = Seq::<int>::empty();
    let s1 = s0.push(rs[0]);
    let s2 = s1.push(rs[1]);
    let s3 = s2.push(rs[2]);
    let s4 = s3.push(rs[3]);
    let s5 = s4.push(rs[4]);
    assert(s5 =~= rs);
}

/// `Flush` when all five cards have one suit.
pub fn is_flush(cards: &[Card; 5]) -> (role: Option<Role>)
    ensures
        role == (if same_suit(cards@) {
            Some(Role::Flush)
        } else {
            None
        }),
{
    let mut i: usize = 1;
    while i < 5
        invariant
            1 <= i <= 5,
            forall|k: int| 0 <= k < i ==> (#[trigger] cards@[k]).suit == cards@[0].suit,
        decreases 5 - i,
    {
        if cards[i].suit != cards[0].suit {
            return None;
        }
        i += 1;
    }
    Some(Role::Flush)
}

/// Whether rank `b` is the one after rank `a`.
fn follows(a: u32, b: u32) -> (yes: bool)
    ensures
        yes == (a + 1 == b),
{
    a < b && b - a == 1
}

/// `Straight` when the ranks, read in the order given, are a run of five or
/// the run from ten up to the ace.
pub fn is_strait(cards: &mut [Card; 5]) -> (role: Option<Role>)
    ensures
        *final(cards) == *old(cards),
        role == (if is_run(ranks(old(cards)@)) {
            Some(Role::Straight)
        } else {
            None
        }),
{
    let is_strait_1 = cards[0].rank == 1 && cards[1].rank == 10 && cards[2].rank == 11
        && cards[3].rank == 12 && cards[4].rank == 13;
    let is_strait_2 = follows(cards[0].rank, cards[1].rank) && follows(cards[1].rank, cards[2].rank)
        && follows(cards[2].rank, cards[3].rank) && follows(cards[3].rank, cards[4].rank);
    proof {
        lemma_ranks_of_five(cards@);
    }
    if is_strait_1 || is_strait_2 {
        Some(Role::Straight)
    } else {
        None
    }
}

/// `RoyalStraightFlush` when all five cards have one suit and every rank is
/// of the run from ten up to the ace.
pub fn is_royalflush(cards: &[Card; 5]) -> (role: Option<Role>)
    ensures
        role == (if same_suit(cards@) && royal_ranks(cards@) {
            Some(Role::RoyalStraightFlush)
        } else {
            None
        }),
{
    if is_flush(cards).is_none() {
        return None;
    }
    let mut i: usize = 0;
    while i < 5
        invariant
            i <= 5,
            forall|k: int| 0 <= k < i ==> royal_rank(#[trigger] ranks(cards@)[k]),
        decreases 5 - i,
    {
        let rank = cards[i].rank;
        if !(rank == 1 || (10 <= rank && rank <= 13)) {
            assert(!royal_rank(ranks(cards@)[i as int]));
            return None;
        }
        i += 1;
    }
    Some(Role::RoyalStraightFlush)
}

/// `StraightFlush` when the hand is both a straight and a flush.
pub fn is_straitflush(cards: &mut [Card; 5]) -> (role: Option<Role>)
    ensures
        *final(cards) == *old(cards),
        role == (if is_run(ranks(old(cards)@)) && same_suit(old(cards)@) {
            Some(Role::StraightFlush)
        } else {
            None
        }),
{
    if is_strait(cards).is_some() && is_flush(cards).is_some() {
        Some(Role::StraightFlush)
    } else {
        None
    }
}

/// `FullHouse` when the ranks, read in the order given, are two of one rank
/// next to three of one rank.
pub fn is_fulhouse(cards: &mut [Card; 5]) -> (role: Option<Role>)
    ensures
        *final(cards) == *old(cards),
        role == (if two_and_three(ranks(old(cards)@)) {
            Some(Role::FullHouse)
        } else {
            None
        }),
{
    let is_fulhouse_1 = cards[1].rank == cards[0].rank && cards[3].rank == cards[2].rank
        && cards[4].rank == cards[2].rank;
    let is_fulhouse_2 = cards[1].rank == cards[0].rank && cards[2].rank == cards[0].rank
        && cards[4].rank == cards[3].rank;
    proof {
        lemma_ranks_of_five(cards@);
    }
    if is_fulhouse_1 || is_fulhouse_2 {
        Some(Role::FullHouse)
    } else {
        None
    }
}

/// How many of the five cards have the given rank.
fn count_rank(cards: &[Card; 5], rank: u32) -> (n: usize)
    ensures
        n == same_rank_count(cards@, rank as int),
        n <= 5,
{
    let mut n: usize = 0;
    let mut i: usize = 0;
    proof {
        broadcast use group_to_multiset_ensures;
        assert(ranks(cards@).take(0) =~= Seq::<int>::empty());
    }
    while i < 5
        invariant
            i <= 5,
            n <= i,
            n == ranks(cards@).take(i as int).to_multiset().count(rank as int),
        decreases 5 - i,
    {
        proof {
            broadcast use group_to_multiset_ensures;
            let rs = ranks(cards@);
            assert(rs.take(i + 1) =~= rs.take(i as int).push(rs[i as int]));
        }
        if cards[i].rank == rank {
            n += 1;
        }
        i += 1;
    }
    assert(ranks(cards@).take(5) =~= ranks(cards@));
    n
}

/// The role that the groups of equal rank give: four or three of a kind, two
/// pairs, one pair, or no pair. Five cards of one rank give `None`.
pub fn is_pair(cards: &[Card; 5]) -> (role: Option<Role>)
    ensures
        role == pair_role(cards@),
{
    let mut pair_count: usize = 0;
    let mut i: usize = 0;
    while i < 5
        invariant
            i <= 5,
            pair_count <= 5,
            forall|k: int|
                0 <= k < i ==> same_rank_count(cards@, #[trigger] ranks(cards@)[k]) <= pair_count,
            i == 0 ==> pair_count == 0,
            i > 0 ==> exists|k: int|
                0 <= k < i && same_rank_count(cards@, #[trigger] ranks(cards@)[k]) == pair_count,
        decreases 5 - i,
    {
        let n = count_rank(cards, cards[i].rank);
        assert(ranks(cards@)[i as int] == cards[i as int].rank);
        if n > pair_count {
            pair_count = n;
        }
        i += 1;
    }
    proof {
        assert forall|r: int| same_rank_count(cards@, r) <= pair_count by {
            lemma_same_rank_count(cards@, r);
            lemma_ranks_of_five(cards@);
        }
        let k = choose|k: int|
            0 <= k < 5 && same_rank_count(cards@, #[trigger] ranks(cards@)[k]) == pair_count;
        lemma_same_rank_count(cards@, ranks(cards@)[k]);
    }
    if pair_count == 4 {
        Some(Role::FourCard)
    } else if pair_count == 3 {
        Some(Role::ThreeCard)
    } else if pair_count == 2 {
        if is_twopair(cards).is_some() {
            Some(Role::TwoPair)
        } else {
            Some(Role::OnePair)
        }
    } else if pair_count == 1 {
        Some(Role::NoPair)
    } else {
        None
    }
}

/// Whether a card after position `i` has the rank of the card at `i`.
fn pairs_later(cards: &[Card; 5], i: usize) -> (found: bool)
    requires
        i < 5,
    ensures
        found == exists|j: int| i < j < 5 && (#[trigger] cards@[j]).rank == cards@[i as int].rank,
{
    let mut j: usize = i + 1;
    while j < 5
        invariant
            i < j <= 5,
            forall|k: int| i < k < j ==> (#[trigger] cards@[k]).rank != cards@[i as int].rank,
        decreases 5 - j,
    {
        if cards[i].rank == cards[j].rank {
            return true;
        }
        j += 1;
    }
    false
}

/// `TwoPair` when two different ranks each occur at least twice.
pub fn is_twopair(cards: &[Card; 5]) -> (role: Option<Role>)
    ensures
        role == (if two_pairs(cards@) {
            Some(Role::TwoPair)
        } else {
            None
        }),
{
    let mut count1 = false;
    let mut counted: u32 = 999;
    let mut i: usize = 0;
    while i < 5 && !count1
        invariant
            i <= 5,
            !count1 ==> forall|a: int, b: int|
                0 <= a < i && a < b < 5 ==> (#[trigger] cards@[a]).rank
                    != (#[trigger] cards@[b]).rank,
            count1 ==> exists|a: int, b: int|
                0 <= a < b < 5 && (#[trigger] cards@[a]).rank == counted
                    && (#[trigger] cards@[b]).rank == counted,
        decreases 5 - i + (if count1 { 0int } else { 1 }),
    {
        counted = cards[i].rank;
        if pairs_later(cards, i) {
            count1 = true;
        } else {
            i += 1;
        }
    }
    if !count1 {
        proof {
            assert forall|r: int| same_rank_count(cards@, r) < 2 by {
                lemma_same_rank_count(cards@, r);
            }
        }
        return None;
    }
    let mut count2 = false;
    let mut k: usize = 0;
    while k < 5 && !count2
        invariant
            k <= 5,
            !count2 ==> forall|a: int, b: int|
                0 <= a < k && a < b < 5 && (#[trigger] cards@[a]).rank != counted ==> cards@[a].rank
                    != (#[trigger] cards@[b]).rank,
            count2 ==> exists|a: int, b: int|
                0 <= a < b < 5 && (#[trigger] cards@[a]).rank != counted && cards@[a].rank
                    == (#[trigger] cards@[b]).rank,
        decreases 5 - k + (if count2 { 0int } else { 1 }),
    {
        if cards[k].rank != counted && pairs_later(cards, k) {
            count2 = true;
        } else {
            k += 1;
        }
    }
    proof {
        assert forall|r: int| #![auto] same_rank_count(cards@, r) >= 2 <==> exists|a: int, b: int|
            0 <= a < b < 5 && (#[trigger] cards@[a]).rank == r && (#[trigger] cards@[b]).rank
                == r by {
            lemma_same_rank_count(cards@, r);
        }
        if count2 {
            let (a, b) = choose|a: int, b: int|
                0 <= a < b < 5 && (#[trigger] cards@[a]).rank != counted && cards@[a].rank
                    == (#[trigger] cards@[b]).rank;
            assert(same_rank_count(cards@, counted as int) >= 2);
            assert(same_rank_count(cards@, cards@[a].rank as int) >= 2);
        }
    }
    if count1 && count2 {
        Some(Role::TwoPair)
    } else {
        None
    }
}

/// The order of ranks: smaller or equal.
pub open spec fn rank_order() -> spec_fn(int, int) -> bool {
    |a: int, b: int| a <= b
}

/// The ranks of the cards in ascending order.
pub open spec fn sorted_ranks(cards: Seq<Card>) -> Seq<int> {
    ranks(cards).sort_by(rank_order())
}

/// The cards stand in ascending order of rank.
pub open spec fn in_rank_order(cards: Seq<Card>) -> bool {
    forall|i: int, j: int| 0 <= i < j < cards.len() ==> cards[i].rank <= cards[j].rank
}

/// The role of a hand of five cards, whatever the order in which they are held.
///
/// The first of these that applies names the role: the royal flush, the
/// straight flush, the straight, the flush, the full house, and then the
/// groups of equal rank. Straight and full house are read off the ranks in
/// ascending order.
pub open spec fn judge(cards: Seq<Card>) -> Role {
    let sorted = sorted_ranks(cards);
    if same_suit(cards) && royal_ranks(cards) {
        Role::RoyalStraightFlush
    } else if is_run(sorted) && same_suit(cards) {
        Role::StraightFlush
    } else if is_run(sorted) {
        Role::Straight
    } else if same_suit(cards) {
        Role::Flush
    } else if two_and_three(sorted) {
        Role::FullHouse
    } else if has_group(cards, 4) {
        Role::FourCard
    } else if has_group(cards, 3) {
        Role::ThreeCard
    } else if two_pairs(cards) {
        Role::TwoPair
    } else if has_group(cards, 2) {
        Role::OnePair
    } else {
        Role::NoPair
    }
}

/// Two hands that hold the same cards hold the same ranks.
pub proof fn lemma_ranks_of_same_cards(a: Seq<Card>, b: Seq<Card>)
    requires
        a.to_multiset() == b.to_multiset(),
    ensures
        ranks(a).to_multiset() == ranks(b).to_multiset(),
    decreases a.len(),
{
    broadcast use group_to_multiset_ensures;
    b.to_multiset_ensures();
    if a.len() > 0 {
        let x = a.last();
        assert(a.to_multiset().count(x) > 0);
        let i = choose|i: int| 0 <= i < b.len() && b[i] == x;
        let a1 = a.drop_last();
        let b1 = b.remove(i);
        assert(a1 =~= a.remove(a.len() - 1));
        lemma_ranks_of_same_cards(a1, b1);
        assert(ranks(a) =~= ranks(a1).push(x.rank as int));
        assert(ranks(b) =~= ranks(b1).insert(i, x.rank as int));
    }
}

/// What `judge` reads of a hand, other than its ranks, does not depend on the
/// order of the cards.
pub proof fn lemma_suits_of_same_cards(a: Seq<Card>, b: Seq<Card>)
    requires
        a.to_multiset() == b.to_multiset(),
    ensures
        same_suit(a) == same_suit(b),
        royal_ranks(a) == royal_ranks(b),
{
    a.to_multiset_ensures();
    b.to_multiset_ensures();
    assert forall|x: Card| a.contains(x) <==> b.contains(x) by {
        assert(b.contains(x) <==> b.to_multiset().count(x) > 0);
    }
    if same_suit(a) {
        lemma_same_suit_by_contains(a, b);
    }
    if same_suit(b) {
        lemma_same_suit_by_contains(b, a);
    }
    if royal_ranks(a) {
        lemma_royal_by_contains(a, b);
    }
    if royal_ranks(b) {
        lemma_royal_by_contains(b, a);
    }
}

proof fn lemma_same_suit_by_contains(a: Seq<Card>, b: Seq<Card>)
    requires
        forall|x: Card| a.contains(x) <==> b.contains(x),
        same_suit(a),
    ensures
        same_suit(b),
{
    assert forall|i: int| 0 <= i < b.len() implies (#[trigger] b[i]).suit == b[0].suit by {
        assert(a.contains(b[i]) && a.contains(b[0]));
        let p = choose|p: int| 0 <= p < a.len() && a[p] == b[i];
        let q = choose|q: int| 0 <= q < a.len() && a[q] == b[0];
        assert(a[p].suit == a[0].suit && a[q].suit == a[0].suit);
    }
}

proof fn lemma_royal_by_contains(a: Seq<Card>, b: Seq<Card>)
    requires
        forall|x: Card| a.contains(x) <==> b.contains(x),
        royal_ranks(a),
    ensures
        royal_ranks(b),
{
    assert forall|i: int| 0 <= i < b.len() implies royal_rank(#[trigger] ranks(b)[i]) by {
        assert(a.contains(b[i]));
        let p = choose|p: int| 0 <= p < a.len() && a[p] == b[i];
        assert(royal_rank(ranks(a)[p]));
    }
}

/// The role of a hand does not depend on the order in which its cards are held:
/// two hands that hold the same cards have the same role.
pub proof fn lemma_judge_ignores_order(a: Seq<Card>, b: Seq<Card>)
    requires
        a.to_multiset() == b.to_multiset(),
    ensures
        judge(a) == judge(b),
{
    lemma_ranks_of_same_cards(a, b);
    lemma_suits_of_same_cards(a, b);
    lemma_sorted_ranks_unique(ranks(a), ranks(b));
    assert(forall|r: int| same_rank_count(a, r) == same_rank_count(b, r));
}

/// Rank sequences with the same ranks are the same once sorted.
pub proof fn lemma_sorted_ranks_unique(x: Seq<int>, y: Seq<int>)
    requires
        x.to_multiset() == y.to_multiset(),
    ensures
        x.sort_by(rank_order()) == y.sort_by(rank_order()),
{
    x.lemma_sort_by_ensures(rank_order());
    y.lemma_sort_by_ensures(rank_order());
    lemma_sorted_unique(x.sort_by(rank_order()), y.sort_by(rank_order()), rank_order());
}

/// Puts the five cards in ascending order of rank. Cards of equal rank may
/// end in any order.
pub fn sort_by_rank(cards: &mut [Card; 5])
    ensures
        in_rank_order(final(cards)@),
        final(cards)@.to_multiset() == old(cards)@.to_multiset(),
{
    let mut i: usize = 1;
    while i < 5
        invariant
            1 <= i <= 5,
            cards@.to_multiset() == old(cards)@.to_multiset(),
            forall|a: int, b: int| 0 <= a < b < i ==> cards@[a].rank <= cards@[b].rank,
        decreases 5 - i,
    {
        let mut j: usize = i;
        while j > 0 && cards[j - 1].rank > cards[j].rank
            invariant
                j <= i < 5,
                cards@.to_multiset() == old(cards)@.to_multiset(),
                forall|a: int, b: int|
                    0 <= a < b <= i && a != j && b != j ==> cards@[a].rank <= cards@[b].rank,
                forall|b: int| j < b <= i ==> cards@[j as int].rank <= cards@[b].rank,
            decreases j,
        {
            let ghost before = cards@;
            let lower = cards[j - 1];
            cards[j - 1] = cards[j];
            cards[j] = lower;
            proof {
                broadcast use group_to_multiset_ensures;
                assert(cards@ =~= before.update(j - 1, before[j as int]).update(
                    j as int,
                    before[j - 1],
                ));
            }
            j -= 1;
        }
        i += 1;
    }
}

/// Names the role of the hand, and leaves the hand in ascending order of rank.
pub fn judge_role(cards: &mut [Card; 5]) -> (role: Role)
    ensures
        role == judge(old(cards)@),
        in_rank_order(final(cards)@),
        final(cards)@.to_multiset() == old(cards)@.to_multiset(),
{
    sort_by_rank(cards);
    proof {
        lemma_ranks_of_same_cards(cards@, old(cards)@);
        lemma_suits_of_same_cards(cards@, old(cards)@);
        ranks(old(cards)@).lemma_sort_by_ensures(rank_order());
        lemma_sorted_unique(ranks(cards@), sorted_ranks(old(cards)@), rank_order());
        assert(forall|r: int| same_rank_count(cards@, r) == same_rank_count(old(cards)@, r));
    }
    if is_royalflush(cards).is_some() {
        Role::RoyalStraightFlush
    } else if is_straitflush(cards).is_some() {
        Role::StraightFlush
    } else if is_strait(cards).is_some() {
        Role::Straight
    } else if is_flush(cards).is_some() {
        Role::Flush
    } else if is_fulhouse(cards).is_some() {
        Role::FullHouse
    } else {
        match is_pair(cards) {
            Some(role) => role,
            None => {
                proof {
                    lemma_five_of_a_rank(cards@);
                }
                unreached()
            },
        }
    }
}

/// Five cards of one rank read, in any order, as two next to three.
proof fn lemma_five_of_a_rank(cards: Seq<Card>)
    requires
        cards.len() == 5,
        has_group(cards, 5),
    ensures
        two_and_three(ranks(cards)),
{
    let r = choose|r: int| #[trigger] same_rank_count(cards, r) >= 5;
    lemma_same_rank_count(cards, r);
}

/// Judges the hand and adds one to the counter of its role. The hand is left
/// in ascending order of rank.
pub fn count_judge_role(cards: &mut [Card; 5], role_count: &mut [u32; 10])
    requires
        old(role_count)@[judge(old(cards)@).index()] < u32::MAX,
    ensures
        final(role_count)@ == old(role_count)@.update(
            judge(old(cards)@).index(),
            (old(role_count)@[judge(old(cards)@).index()] + 1) as u32,
        ),
        hands_counted(final(role_count)@) == hands_counted(old(role_count)@) + 1,
        in_rank_order(final(cards)@),
        final(cards)@.to_multiset() == old(cards)@.to_multiset(),
{
    let role = judge_role(cards);
    let slot = role.slot();
    proof {
        lemma_hands_counted(role_count@);
    }
    role_count[slot] = role_count[slot] + 1;
    proof {
        lemma_hands_counted(role_count@);
    }
}

} // verus!
