//! Dealing a hand: five different cards drawn at random from a pool.

use rand::rngs::ThreadRng;
use rand::Rng;
use rustc_hash::FxHashMap;
use vstd::prelude::*;

use crate::error::PorkerError;

verus! {

/// Number of draws after which the dealer gives up.
pub const MAX_DRAWS: usize = 20;

/// `rustc_hash::FxBuildHasher`, the hasher that the table of held cards uses.
/// Nothing is known of its inside.
#[verifier::external_type_specification]
#[verifier::external_body]
pub struct ExFxBuildHasher(rustc_hash::FxBuildHasher);

/// `rand::rngs::ThreadRng`, the random source of the calling thread.
/// Nothing is known of its inside.
#[verifier::external_type_specification]
#[verifier::external_body]
pub struct ExThreadRng(rand::rngs::ThreadRng);

/// `rand::thread_rng` hands out the random source of the calling thread.
/// Nothing is claimed of it. It panics if the system has no entropy to seed
/// the source with; no argument decides that.
pub assume_specification[ rand::thread_rng ]() -> (rng: rand::rngs::ThreadRng);

/// `Rng::gen_range` on `0..len`: some index below `len`. Which one is not
/// known. The range must not be empty. Like `rand::thread_rng` it panics if
/// the system has no entropy when the source reseeds.
#[verifier::external_body]
fn random_index(rng: &mut ThreadRng, len: usize) -> (index: usize)
    requires
        len > 0,
    ensures
        index < len,
{
    rng.gen_range(0..len)
}

/// What a table of held cards holds: for each card in it, the slot it was given.
pub uninterp spec fn slots_of(held: FxHashMap<u32, usize>) -> Map<u32, usize>;

/// `FxHashMap::default`: a table that holds nothing.
#[verifier::external_body]
fn slots_new() -> (table: FxHashMap<u32, usize>)
    ensures
        slots_of(table).dom() == Set::<u32>::empty(),
{
    FxHashMap::default()
}

/// `HashMap::len`: the number of cards in the table.
#[verifier::external_body]
fn slots_len(held: &FxHashMap<u32, usize>) -> (len: usize)
    ensures
        len == slots_of(*held).dom().len(),
{
    held.len()
}

/// `HashMap::contains_key`: whether the card is in the table.
#[verifier::external_body]
fn slots_contains(held: &FxHashMap<u32, usize>, id: u32) -> (yes: bool)
    ensures
        yes == slots_of(*held).contains_key(id),
{
    held.contains_key(&id)
}

/// `HashMap::insert`: afterwards the card has the given slot, and every other
/// card the slot it had.
#[verifier::external_body]
fn slots_insert(held: &mut FxHashMap<u32, usize>, id: u32, slot: usize)
    ensures
        slots_of(*final(held)) == slots_of(*old(held)).insert(id, slot),
{
    held.insert(id, slot);
}

/// `HashMap::iter`: the cards of the table, each with its slot, in an order
/// that is not known.
#[verifier::external_body]
fn slots_pairs(held: &FxHashMap<u32, usize>) -> (pairs: Vec<(u32, usize)>)
    ensures
        forall|id: u32, slot: usize|
            pairs@.contains((id, slot)) <==> slots_of(*held).contains_pair(id, slot),
{
    held.iter().map(|(id, slot)| (*id, *slot)).collect()
}

/// A hand after one more card was drawn: a card already held changes nothing,
/// a new one goes to the end.
pub open spec fn pick(held: Seq<u32>, id: u32) -> Seq<u32> {
    if held.contains(id) {
        held
    } else {
        held.push(id)
    }
}

/// The slots are numbered from zero without gaps, one card to a slot.
spec fn slots_wf(slots: Map<u32, usize>) -> bool {
    &&& slots.dom().finite()
    &&& forall|id: u32| #[trigger] slots.contains_key(id) ==> slots[id] < slots.dom().len()
    &&& forall|a: u32, b: u32|
        #[trigger] slots.contains_key(a) && #[trigger] slots.contains_key(b) && slots[a]
            == slots[b] ==> a == b
    &&& forall|slot: int|
        0 <= slot < slots.dom().len() ==> has_slot(slots, #[trigger] id_at(slots, slot), slot)
}

/// The card is in the table and has the given slot.
spec fn has_slot(slots: Map<u32, usize>, id: u32, slot: int) -> bool {
    slots.contains_key(id) && slots[id] == slot
}

/// The card that has the given slot.
spec fn id_at(slots: Map<u32, usize>, slot: int) -> u32 {
    choose|id: u32| has_slot(slots, id, slot)
}

/// The cards in the order of their slots.
spec fn in_slot_order(slots: Map<u32, usize>) -> Seq<u32> {
    Seq::new(slots.dom().len(), |slot: int| id_at(slots, slot))
}

/// A card of the table stands at its slot in the order of slots.
proof fn lemma_id_at_slot(slots: Map<u32, usize>, id: u32)
    requires
        slots_wf(slots),
        slots.contains_key(id),
    ensures
        0 <= slots[id] < slots.dom().len(),
        in_slot_order(slots)[slots[id] as int] == id,
{
}

/// The order of slots lists exactly the cards of the table, each once.
proof fn lemma_slot_order(slots: Map<u32, usize>)
    requires
        slots_wf(slots),
    ensures
        in_slot_order(slots).no_duplicates(),
        forall|id: u32| in_slot_order(slots).contains(id) <==> slots.contains_key(id),
{
    let order = in_slot_order(slots);
    assert forall|id: u32| slots.contains_key(id) implies order.contains(id) by {
        lemma_id_at_slot(slots, id);
    }
}

/// A new card that takes the next free slot goes to the end of the order.
proof fn lemma_next_slot(slots: Map<u32, usize>, id: u32)
    requires
        slots_wf(slots),
        !slots.contains_key(id),
        slots.dom().len() <= usize::MAX,
    ensures
        slots_wf(slots.insert(id, slots.dom().len() as usize)),
        in_slot_order(slots.insert(id, slots.dom().len() as usize)) == in_slot_order(slots).push(
            id,
        ),
{
    let n = slots.dom().len();
    let after = slots.insert(id, n as usize);
    assert forall|slot: int| 0 <= slot < after.dom().len() implies has_slot(
        after,
        #[trigger] id_at(after, slot),
        slot,
    ) by {
        if slot < n {
            assert(has_slot(after, id_at(slots, slot), slot));
        } else {
            assert(has_slot(after, id, slot));
        }
    }
    assert(in_slot_order(after) =~= in_slot_order(slots).push(id));
}

/// The cards drawn so far for one hand: no card twice, in the order in which
/// each was first drawn.
pub struct Handout {
    slots: FxHashMap<u32, usize>,
}

impl Handout {
    /// The slots are numbered from zero in the order in which the cards came.
    pub closed spec fn wf(&self) -> bool {
        slots_wf(slots_of(self.slots))
    }

    /// The cards held, in the order in which each was first drawn.
    pub closed spec fn view(&self) -> Seq<u32> {
        in_slot_order(slots_of(self.slots))
    }

    /// A hand with no card in it yet.
    pub fn new() -> (hand: Handout)
        ensures
            hand.wf(),
            hand@ == Seq::<u32>::empty(),
    {
        Handout { slots: slots_new() }
    }

    /// Number of cards held.
    pub fn len(&self) -> (len: usize)
        ensures
            len == self@.len(),
    {
        slots_len(&self.slots)
    }

    /// Takes a drawn card into the hand, unless the hand holds it already.
    pub fn take(&mut self, id: u32)
        requires
            old(self).wf(),
        ensures
            final(self).wf(),
            final(self)@ == pick(old(self)@, id),
    {
        proof {
            lemma_slot_order(slots_of(self.slots));
        }
        if !slots_contains(&self.slots, id) {
            let len = slots_len(&self.slots);
            proof {
                lemma_next_slot(slots_of(self.slots), id);
            }
            slots_insert(&mut self.slots, id, len);
        }
    }

    /// The five cards of a full hand, in the order in which each was first drawn.
    pub fn ids(&self) -> (ids: [u32; 5])
        requires
            self.wf(),
            self@.len() == 5,
        ensures
            ids@ == self@,
    {
        let ghost slots = slots_of(self.slots);
        let pairs = slots_pairs(&self.slots);
        let mut handout_id: [u32; 5] = [0; 5];
        let mut i: usize = 0;
        while i < pairs.len()
            invariant
                i <= pairs.len(),
                slots == slots_of(self.slots),
                slots_wf(slots),
                slots.dom().len() == 5,
                forall|id: u32, slot: usize|
                    pairs@.contains((id, slot)) <==> slots.contains_pair(id, slot),
                forall|k: int|
                    0 <= k < i ==> handout_id@[(#[trigger] pairs@[k]).1 as int] == pairs@[k].0,
            decreases pairs.len() - i,
        {
            let (id, slot) = pairs[i];
            assert(slots.contains_pair(id, slot));
            handout_id[slot] = id;
            proof {
                assert forall|k: int| 0 <= k < i + 1 implies handout_id@[(#[trigger] pairs@[
                    k
                ]).1 as int] == pairs@[k].0 by {
                    assert(slots.contains_pair(pairs@[k].0, pairs@[k].1));
                }
            }
            i += 1;
        }
        proof {
            assert forall|slot: int| 0 <= slot < 5 implies handout_id@[slot] == self@[slot] by {
                let id = id_at(slots, slot);
                assert(has_slot(slots, id, slot));
                assert(slots.contains_pair(id, slot as usize));
                let k = choose|k: int| 0 <= k < pairs@.len() && pairs@[k] == (id, slot as usize);
                assert(handout_id@[pairs@[k].1 as int] == pairs@[k].0);
            }
        }
        handout_id
    }
}

/// The hand that a row of draws gives: the cards at the drawn places of the
/// pool, each kept at its first draw.
pub open spec fn dealt(pool: Seq<u32>, draws: Seq<usize>) -> Seq<u32>
    decreases draws.len(),
{
    if draws.len() == 0 {
        Seq::empty()
    } else {
        pick(dealt(pool, draws.drop_last()), pool[draws.last() as int])
    }
}

/// Every draw is a place of the pool.
pub open spec fn draws_in(pool: Seq<u32>, draws: Seq<usize>) -> bool {
    forall|k: int| 0 <= k < draws.len() ==> #[trigger] draws[k] < pool.len()
}

/// What the dealer does when it holds `held` after `count` draws: with five
/// cards it hands them out, with fewer and `MAX_DRAWS` draws made it gives
/// up, and otherwise it draws again (`None`).
pub open spec fn decided(held: Seq<u32>, count: int) -> Option<Result<Seq<u32>, PorkerError>> {
    if held.len() == 5 {
        Some(Ok(held))
    } else if count >= MAX_DRAWS {
        Some(Err(PorkerError::InvalidCardPool))
    } else {
        None
    }
}

/// What a row of draws comes to: the first five different cards among the
/// first `MAX_DRAWS` draws, in the order in which each was first drawn, or
/// `InvalidCardPool` if those draws do not hold five different cards.
pub open spec fn hand_of_draws(pool: Seq<u32>, draws: Seq<usize>) -> Result<
    Seq<u32>,
    PorkerError,
> {
    let counted = if draws.len() > MAX_DRAWS {
        draws.take(MAX_DRAWS as int)
    } else {
        draws
    };
    if dealt(pool, counted).len() >= 5 {
        Ok(dealt(pool, counted).take(5))
    } else {
        Err(PorkerError::InvalidCardPool)
    }
}

/// The dealer's answer with the hand read as a sequence.
pub open spec fn answer(hand: Result<[u32; 5], PorkerError>) -> Result<Seq<u32>, PorkerError> {
    match hand {
        Ok(ids) => Ok(ids@),
        Err(e) => Err(e),
    }
}

/// The pool can deal these five cards in this order: some row of at most
/// `MAX_DRAWS` draws gives them.
pub open spec fn deals(pool: Seq<u32>, ids: Seq<u32>) -> bool {
    ids.len() == 5 && exists|draws: Seq<usize>|
        draws.len() <= MAX_DRAWS && draws_in(pool, draws) && #[trigger] dealt(pool, draws) == ids
}

/// Number of different cards in the pool.
pub open spec fn distinct_cards(pool: Seq<u32>) -> nat {
    pool.to_set().len()
}

/// A hand dealt from the pool holds no card twice and only cards of the pool.
pub proof fn lemma_dealt(pool: Seq<u32>, draws: Seq<usize>)
    requires
        draws_in(pool, draws),
    ensures
        dealt(pool, draws).no_duplicates(),
        dealt(pool, draws).len() <= draws.len(),
        forall|i: int|
            0 <= i < dealt(pool, draws).len() ==> pool.contains(#[trigger] dealt(pool, draws)[i]),
    decreases draws.len(),
{
    if draws.len() > 0 {
        lemma_dealt(pool, draws.drop_last());
    }
}

/// A pool gives no hand with more different cards than it has.
pub proof fn lemma_dealt_within_pool(pool: Seq<u32>, draws: Seq<usize>)
    requires
        draws_in(pool, draws),
    ensures
        dealt(pool, draws).len() <= distinct_cards(pool),
{
    lemma_dealt(pool, draws);
    let hand = dealt(pool, draws);
    hand.unique_seq_to_set();
    assert(hand.to_set().subset_of(pool.to_set())) by {
        assert forall|id: u32| hand.to_set().contains(id) implies pool.to_set().contains(id) by {
        }
    }
    vstd::set_lib::lemma_len_subset(hand.to_set(), pool.to_set());
}

/// More draws only add cards at the end: what the first `k` draws gave stays
/// where it is.
pub proof fn lemma_dealt_grows(pool: Seq<u32>, draws: Seq<usize>, k: int)
    requires
        0 <= k <= draws.len(),
    ensures
        dealt(pool, draws.take(k)).len() <= dealt(pool, draws).len(),
        dealt(pool, draws).take(dealt(pool, draws.take(k)).len() as int) == dealt(
            pool,
            draws.take(k),
        ),
    decreases draws.len() - k,
{
    if k < draws.len() {
        lemma_dealt_grows(pool, draws, k + 1);
        assert(draws.take(k + 1).drop_last() =~= draws.take(k));
        let fewer = dealt(pool, draws.take(k));
        let more = dealt(pool, draws.take(k + 1));
        assert(more.take(fewer.len() as int) =~= fewer);
        assert(dealt(pool, draws).take(fewer.len() as int) =~= dealt(pool, draws).take(
            more.len() as int,
        ).take(fewer.len() as int));
    } else {
        assert(draws.take(k) =~= draws);
        assert(dealt(pool, draws).take(dealt(pool, draws).len() as int) =~= dealt(pool, draws));
    }
}

/// Decides what the dealer does next, holding `handout` after `count` draws:
/// with five cards it hands them out, with fewer and `MAX_DRAWS` draws made
/// it gives up with `InvalidCardPool`, and otherwise (`None`) it draws again.
pub fn next_move(handout: &Handout, count: usize) -> (next: Option<Result<[u32; 5], PorkerError>>)
    requires
        handout.wf(),
    ensures
        match next {
            Some(hand) => decided(handout@, count as int) == Some(answer(hand)),
            None => decided(handout@, count as int) is None,
        },
{
    if handout.len() == 5 {
        Some(Ok(handout.ids()))
    } else if count >= MAX_DRAWS {
        Some(Err(PorkerError::InvalidCardPool))
    } else {
        None
    }
}

/// Deals a hand from a given row of draws, each draw a place of the pool:
/// takes the drawn cards one after the other and asks `next_move` before
/// every draw. A row that ends before the dealer has decided gives
/// `InvalidCardPool`.
pub fn hand_from_draws(use_cards: &Vec<u32>, draws: &Vec<usize>) -> (hand: Result<
    [u32; 5],
    PorkerError,
>)
    requires
        draws_in(use_cards@, draws@),
    ensures
        answer(hand) == hand_of_draws(use_cards@, draws@),
{
    let mut handout = Handout::new();
    let mut count: usize = 0;
    assert(draws@.take(0) =~= Seq::<usize>::empty());
    loop
        invariant
            draws_in(use_cards@, draws@),
            handout.wf(),
            count <= draws@.len(),
            count <= MAX_DRAWS,
            handout@ == dealt(use_cards@, draws@.take(count as int)),
            handout@.len() <= 5,
        decreases MAX_DRAWS - count,
    {
        let ghost counted = if draws@.len() > MAX_DRAWS {
            draws@.take(MAX_DRAWS as int)
        } else {
            draws@
        };
        proof {
            lemma_dealt_grows(use_cards@, counted, count as int);
            assert(counted.take(count as int) =~= draws@.take(count as int));
        }
        match next_move(&handout, count) {
            Some(hand) => {
                proof {
                    if handout@.len() < 5 {
                        assert(counted =~= draws@.take(count as int));
                    }
                }
                return hand;
            },
            None => {},
        }
        if count >= draws.len() {
            proof {
                assert(counted =~= draws@.take(count as int));
            }
            return Err(PorkerError::InvalidCardPool);
        }
        handout.take(use_cards[draws[count]]);
        proof {
            assert(draws@.take(count + 1).drop_last() =~= draws@.take(count as int));
        }
        count += 1;
    }
}

/// Deals a hand: draws cards of the pool at random until five different ones
/// are held, and gives them in the order in which each was first drawn.
///
/// The dealer gives up with `InvalidCardPool` when twenty draws have not
/// brought five different cards, and at once when the pool is empty. A pool
/// with fewer than five different cards therefore always fails.
///
/// Which places are drawn is not known; the answer is what `hand_of_draws`
/// gives for the row that was drawn, and `next_move` alone decides when the
/// drawing ends.
pub fn handout_cards(use_cards: &Vec<u32>) -> (hand: Result<[u32; 5], PorkerError>)
    ensures
        use_cards@.len() == 0 ==> hand == Err::<[u32; 5], PorkerError>(
            PorkerError::InvalidCardPool,
        ),
        use_cards@.len() > 0 ==> exists|draws: Seq<usize>|
            draws.len() <= MAX_DRAWS && draws_in(use_cards@, draws) && answer(hand)
                == #[trigger] hand_of_draws(use_cards@, draws) && (hand is Err ==> draws.len()
                == MAX_DRAWS),
        hand matches Ok(ids) ==> deals(use_cards@, ids@) && ids@.no_duplicates() && forall|i: int|
            0 <= i < 5 ==> use_cards@.contains(#[trigger] ids@[i]),
        hand matches Err(e) ==> e == PorkerError::InvalidCardPool,
        distinct_cards(use_cards@) < 5 ==> hand is Err,
{
    if use_cards.len() == 0 {
        return Err(PorkerError::InvalidCardPool);
    }
    let mut handout = Handout::new();
    let mut rng = rand::thread_rng();
    let mut count: usize = 0;
    let ghost mut draws: Seq<usize> = Seq::empty();
    loop
        invariant
            use_cards@.len() > 0,
            handout.wf(),
            count == draws.len(),
            count <= MAX_DRAWS,
            draws_in(use_cards@, draws),
            handout@ == dealt(use_cards@, draws),
            handout@.len() <= 5,
        decreases MAX_DRAWS - count,
    {
        match next_move(&handout, count) {
            Some(hand) => {
                proof {
                    lemma_dealt(use_cards@, draws);
                    lemma_dealt_within_pool(use_cards@, draws);
                    if handout@.len() == 5 {
                        assert(handout@.take(5) =~= handout@);
                    }
                    assert(answer(hand) == hand_of_draws(use_cards@, draws));
                }
                return hand;
            },
            None => {},
        }
        let num = random_index(&mut rng, use_cards.len());
        handout.take(use_cards[num]);
        proof {
            let before = draws;
            draws = draws.push(num);
            assert(draws.drop_last() =~= before);
        }
        count += 1;
    }
}

} // verus!
