use porker::card::DECK_SIZE;
use porker::{make_cards_from_id, Card, PorkerError, Suit};

#[test]
fn new_gives_suit_and_rank_of_the_identifier() {
    assert_eq!(Card::new(0u32), Ok(Card { id: 0, suit: Suit::Spade, rank: 1 }));
    assert_eq!(Card::new(12u32), Ok(Card { id: 12, suit: Suit::Spade, rank: 13 }));
    assert_eq!(Card::new(13u32), Ok(Card { id: 13, suit: Suit::Heart, rank: 1 }));
    assert_eq!(Card::new(30u32), Ok(Card { id: 30, suit: Suit::Diamond, rank: 5 }));
    assert_eq!(Card::new(51u32), Ok(Card { id: 51, suit: Suit::Club, rank: 13 }));
}

#[test]
fn new_takes_other_integer_widths() {
    assert_eq!(Card::new(25u8), Ok(Card { id: 25, suit: Suit::Heart, rank: 13 }));
    assert_eq!(Card::new(26i64), Ok(Card { id: 26, suit: Suit::Diamond, rank: 1 }));
    assert_eq!(Card::new(39usize), Ok(Card { id: 39, suit: Suit::Club, rank: 1 }));
}

#[test]
fn new_fails_on_a_number_that_does_not_fit() {
    assert_eq!(Card::new(-1i32), Err(PorkerError::ConversionError));
    assert_eq!(Card::new(1u64 << 40), Err(PorkerError::ConversionError));
    assert_eq!(Card::new(i64::MIN), Err(PorkerError::ConversionError));
}

#[test]
fn new_fails_on_a_number_that_names_no_card() {
    assert_eq!(Card::new(52u32), Err(PorkerError::ConversionError));
    assert_eq!(Card::new(u32::MAX), Err(PorkerError::ConversionError));
}

#[test]
fn from_id_agrees_with_new() {
    for id in 0u32..60 {
        assert_eq!(Card::from_id(id), Card::new(id));
    }
}

#[test]
fn every_card_of_the_deck_is_decoded() {
    for id in 0u32..52 {
        let card = Card::new(id).unwrap();
        assert_eq!(card.id, id);
        assert_eq!(card.rank, id % 13 + 1);
        assert_eq!(Some(card.suit), Suit::from_u32(id / 13));
    }
}

#[test]
fn suit_from_u32_knows_four_suits() {
    assert_eq!(Suit::from_u32(0), Some(Suit::Spade));
    assert_eq!(Suit::from_u32(1), Some(Suit::Heart));
    assert_eq!(Suit::from_u32(2), Some(Suit::Diamond));
    assert_eq!(Suit::from_u32(3), Some(Suit::Club));
    assert_eq!(Suit::from_u32(4), None);
    assert_eq!(Suit::from_u32(u32::MAX), None);
}

#[test]
fn default_card_and_suit() {
    assert_eq!(Suit::default(), Suit::Spade);
    assert_eq!(Card::default(), Card { id: 0, suit: Suit::Spade, rank: 0 });
}

#[test]
fn all_cards_id_lists_the_deck_in_order() {
    let ids = Card::all_cards_id();
    assert_eq!(ids.len(), 52);
    assert_eq!(DECK_SIZE, 52);
    for (i, id) in ids.iter().enumerate() {
        assert_eq!(*id as usize, i);
    }
    assert_eq!(ids, Card::all_cards_id());
}

#[test]
fn make_cards_from_id_keeps_the_places() {
    let cards = make_cards_from_id(&[51, 0, 14, 27, 40]).unwrap();
    assert_eq!(cards[0], Card { id: 51, suit: Suit::Club, rank: 13 });
    assert_eq!(cards[1], Card { id: 0, suit: Suit::Spade, rank: 1 });
    assert_eq!(cards[2], Card { id: 14, suit: Suit::Heart, rank: 2 });
    assert_eq!(cards[3], Card { id: 27, suit: Suit::Diamond, rank: 2 });
    assert_eq!(cards[4], Card { id: 40, suit: Suit::Club, rank: 2 });
}

#[test]
fn make_cards_from_id_fails_on_a_number_that_names_no_card() {
    assert_eq!(make_cards_from_id(&[0, 1, 2, 3, 52]), Err(PorkerError::ConversionError));
    assert_eq!(make_cards_from_id(&[99, 1, 2, 3, 4]), Err(PorkerError::ConversionError));
}

#[test]
fn error_messages() {
    assert_eq!(PorkerError::InvalidCardPool.message(), "Error: Invalid useCards");
    assert_eq!(PorkerError::ConversionError.message(), "Error: number out of range");
}
