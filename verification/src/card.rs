//! Cards, suits and the deck.

use vstd::prelude::*;
use vstd::std_specs::convert::TryIntoSpec;

use crate::error::PorkerError;

verus! {

/// The four suits, in the order in which the deck lists them.
#[derive(Debug, Clone, Copy, PartialEq, Eq, PartialOrd, Ord, Default, Structural)]
pub enum Suit {
    #[default]
    Spade,
    Heart,
    Diamond,
    Club,
}

/// Number of cards in the deck.
pub const DECK_SIZE: u32 = 52;

/// Number of ranks in one suit.
pub const SUIT_SIZE: u32 = 13;

/// The suit that stands at position `n` of the deck's suit order, if there is one.
pub open spec fn suit_at(n: int) -> Option<Suit> {
    if n == 0 {
        Some(Suit::Spade)
    } else if n == 1 {
        Some(Suit::Heart)
    } else if n == 2 {
        Some(Suit::Diamond)
    } else if n == 3 {
        Some(Suit::Club)
    } else {
        None
    }
}

impl Suit {
    /// The suit numbered `n`, or `None` when `n` is not below four.
    pub fn from_u32(n: u32) -> (suit: Option<Suit>)
        ensures
            suit == suit_at(n as int),
    {
        if n == 0 {
            Some(Suit::Spade)
        } else if n == 1 {
            Some(Suit::Heart)
        } else if n == 2 {
            Some(Suit::Diamond)
        } else if n == 3 {
            Some(Suit::Club)
        } else {
            None
        }
    }
}

/// One card: its identifier, and the suit and rank that follow from it.
#[derive(Debug, Clone, Copy, PartialEq, Eq, PartialOrd, Ord, Default, Structural)]
pub struct Card {
    /// The identifier: 0 to 51 for the cards of the deck.
    pub id: u32,
    /// The suit: the identifier divided by thirteen.
    pub suit: Suit,
    /// The rank, 1 to 13, the ace being 1: the rest of that division, plus one.
    pub rank: u32,
}

/// The card that the identifier `id` names. Meaningful for `0 <= id < 52`.
pub open spec fn card_of(id: int) -> Card {
    Card {
        id: id as u32,
        suit: suit_at(id / SUIT_SIZE as int).unwrap(),
        rank: (id % SUIT_SIZE as int + 1) as u32,
    }
}

/// What `Card::new` answers for an identifier that converted, or failed to
/// convert, to the working width.
pub open spec fn card_from<E>(converted: Result<u32, E>) -> Result<Card, PorkerError> {
    match converted {
        Ok(id) => if id < DECK_SIZE {
            Ok(card_of(id as int))
        } else {
            Err(PorkerError::ConversionError)
        },
        Err(_) => Err(PorkerError::ConversionError),
    }
}

impl Card {
    /// A card is well formed when its suit and rank are those of its identifier.
    pub open spec fn wf(self) -> bool {
        self.id < DECK_SIZE && self == card_of(self.id as int)
    }

    /// The card named by an identifier that is already in the working width.
    pub fn from_id(id: u32) -> (card: Result<Card, PorkerError>)
        ensures
            card == card_from::<()>(Ok(id)),
            card matches Ok(c) ==> c.wf(),
    {
        match Suit::from_u32(id / SUIT_SIZE) {
            Some(suit) => Ok(Card { id, suit, rank: id % SUIT_SIZE + 1 }),
            None => Err(PorkerError::ConversionError),
        }
    }

    /// Builds the card that `id` names.
    ///
    /// Fails with `ConversionError` when `id` does not convert to the working
    /// width or is not one of the 52 identifiers of the deck. The answer is
    /// stated over what the conversion gave, and over `id` itself for the
    /// widths whose conversion is known.
    pub fn new<T>(id: T) -> (card: Result<Card, PorkerError>)
        where T: TryInto<u32>
        ensures
            exists|converted: Result<u32, <T as TryInto<u32>>::Error>|
                call_ensures(<T as TryInto<u32>>::try_into, (id,), converted) && card
                    == #[trigger] card_from(converted),
            <T as TryIntoSpec<u32>>::obeys_try_into_spec() ==> card == card_from(
                id.try_into_spec(),
            ),
            card matches Ok(c) ==> c.wf(),
            card matches Err(e) ==> e == PorkerError::ConversionError,
    {
        let converted = id.try_into();
        assert(call_ensures(<T as TryInto<u32>>::try_into, (id,), converted));
        let card = match converted {
            Ok(n) => Card::from_id(n),
            Err(_) => Err(PorkerError::ConversionError),
        };
        assert(card == card_from(converted));
        card
    }

    /// The identifiers of the whole deck, in ascending order.
    pub fn all_cards_id() -> (ids: Vec<u32>)
        ensures
            ids@ == Seq::new(DECK_SIZE as nat, |i: int| i as u32),
    {
        let mut cards: Vec<u32> = Vec::new();
        let mut i: u32 = 0;
        while i < DECK_SIZE
            invariant
                i <= DECK_SIZE,
                cards@ == Seq::new(i as nat, |k: int| k as u32),
            decreases DECK_SIZE - i,
        {
            cards.push(i);
            i += 1;
        }
        cards
    }
}

/// Builds the five cards that the five identifiers name, place by place.
///
/// Fails with `ConversionError` when one of them is not an identifier of the deck.
pub fn make_cards_from_id(cards_id: &[u32; 5]) -> (cards: Result<[Card; 5], PorkerError>)
    ensures
        match cards {
            Ok(hand) => forall|i: int|
                0 <= i < 5 ==> cards_id@[i] < DECK_SIZE && #[trigger] hand@[i] == card_of(
                    cards_id@[i] as int,
                ),
            Err(e) => e == PorkerError::ConversionError && exists|i: int|
                0 <= i < 5 && #[trigger] cards_id@[i] >= DECK_SIZE,
        },
{
    let mut cards = [Card { id: 0, suit: Suit::Spade, rank: 0 }; 5];
    let mut i: usize = 0;
    while i < 5
        invariant
            i <= 5,
            forall|k: int|
                0 <= k < i ==> cards_id@[k] < DECK_SIZE && #[trigger] cards@[k] == card_of(
                    cards_id@[k] as int,
                ),
        decreases 5 - i,
    {
        match Card::from_id(cards_id[i]) {
            Ok(card) => {
                cards[i] = card;
            },
            Err(e) => {
                return Err(e);
            },
        }
        i += 1;
    }
    Ok(cards)
}

} // verus!
