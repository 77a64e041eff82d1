use porker::{hand_from_draws, handout_cards, next_move, Card, Handout, PorkerError, MAX_DRAWS};

fn distinct(ids: &[u32; 5]) -> bool {
    for i in 0..5 {
        for j in (i + 1)..5 {
            if ids[i] == ids[j] {
                return false;
            }
        }
    }
    true
}

#[test]
fn a_hand_from_the_deck_has_five_different_cards_of_the_pool() {
    let pool = Card::all_cards_id();
    for _ in 0..2000 {
        let ids = handout_cards(&pool).unwrap();
        assert!(distinct(&ids));
        for id in ids {
            assert!(pool.contains(&id));
        }
    }
}

#[test]
fn a_hand_never_repeats_a_card_of_a_pool_with_repeats() {
    let pool = vec![3, 3, 3, 8, 8, 21, 21, 21, 21, 40, 41, 41, 50, 50, 50];
    let mut dealt = 0;
    for _ in 0..2000 {
        match handout_cards(&pool) {
            Ok(ids) => {
                dealt += 1;
                assert!(distinct(&ids));
                for id in ids {
                    assert!(pool.contains(&id));
                }
            }
            Err(e) => assert_eq!(e, PorkerError::InvalidCardPool),
        }
    }
    assert!(dealt > 0);
}

#[test]
fn four_sevens_cannot_be_dealt() {
    let pool = vec![7, 7, 7, 7];
    for _ in 0..100 {
        assert_eq!(handout_cards(&pool), Err(PorkerError::InvalidCardPool));
    }
}

#[test]
fn four_different_cards_cannot_be_dealt() {
    let pool = vec![1, 2, 3, 4, 4, 3, 2, 1, 1, 1];
    for _ in 0..100 {
        assert_eq!(handout_cards(&pool), Err(PorkerError::InvalidCardPool));
    }
}

#[test]
fn an_empty_pool_cannot_be_dealt() {
    assert_eq!(handout_cards(&Vec::new()), Err(PorkerError::InvalidCardPool));
}

#[test]
fn five_cards_are_dealt_whole_or_not_at_all() {
    let pool = vec![10, 20, 30, 40, 50];
    let mut dealt = 0;
    for _ in 0..500 {
        match handout_cards(&pool) {
            Ok(ids) => {
                dealt += 1;
                let mut sorted = ids;
                sorted.sort();
                assert_eq!(sorted, [10, 20, 30, 40, 50]);
            }
            Err(e) => assert_eq!(e, PorkerError::InvalidCardPool),
        }
    }
    assert!(dealt > 0);
}

#[test]
fn the_pool_may_hold_numbers_that_name_no_card() {
    let pool = vec![100, 200, 300, 400, 500, 600];
    let mut dealt = 0;
    for _ in 0..200 {
        if let Ok(ids) = handout_cards(&pool) {
            dealt += 1;
            assert!(distinct(&ids));
        }
    }
    assert!(dealt > 0);
}

#[test]
fn the_deals_differ() {
    let pool = Card::all_cards_id();
    let first = handout_cards(&pool).unwrap();
    let mut other = false;
    for _ in 0..200 {
        if handout_cards(&pool).unwrap() != first {
            other = true;
        }
    }
    assert!(other);
}

#[test]
fn a_handout_keeps_each_card_at_its_first_draw() {
    let mut handout = Handout::new();
    assert_eq!(handout.len(), 0);
    handout.take(30);
    assert_eq!(handout.len(), 1);
    handout.take(30);
    assert_eq!(handout.len(), 1);
    handout.take(2);
    handout.take(51);
    handout.take(2);
    assert_eq!(handout.len(), 3);
    handout.take(0);
    handout.take(30);
    handout.take(17);
    assert_eq!(handout.len(), 5);
    assert_eq!(handout.ids(), [30, 2, 51, 0, 17]);
}

#[test]
fn a_handout_of_five_hands_out_in_draw_order() {
    let mut handout = Handout::new();
    for id in [5u32, 4, 3, 2, 1] {
        handout.take(id);
    }
    assert_eq!(handout.ids(), [5, 4, 3, 2, 1]);
}

#[test]
fn the_dealer_gives_up_after_twenty_draws() {
    assert_eq!(MAX_DRAWS, 20);
}

#[test]
fn next_move_hands_out_five_cards() {
    let mut handout = Handout::new();
    for id in [40u32, 3, 17, 3, 22, 51] {
        handout.take(id);
    }
    assert_eq!(next_move(&handout, 6), Some(Ok([40, 3, 17, 22, 51])));
    assert_eq!(next_move(&handout, 0), Some(Ok([40, 3, 17, 22, 51])));
    assert_eq!(next_move(&handout, 20), Some(Ok([40, 3, 17, 22, 51])));
    assert_eq!(next_move(&handout, 21), Some(Ok([40, 3, 17, 22, 51])));
}

#[test]
fn next_move_draws_again_below_twenty_draws() {
    let mut handout = Handout::new();
    assert_eq!(next_move(&handout, 0), None);
    handout.take(1);
    handout.take(2);
    handout.take(3);
    handout.take(4);
    assert_eq!(next_move(&handout, 4), None);
    assert_eq!(next_move(&handout, 19), None);
}

#[test]
fn next_move_gives_up_at_twenty_draws() {
    let mut handout = Handout::new();
    assert_eq!(next_move(&handout, 20), Some(Err(PorkerError::InvalidCardPool)));
    handout.take(1);
    handout.take(2);
    handout.take(3);
    handout.take(4);
    assert_eq!(next_move(&handout, 20), Some(Err(PorkerError::InvalidCardPool)));
    assert_eq!(next_move(&handout, 21), Some(Err(PorkerError::InvalidCardPool)));
    assert_eq!(next_move(&handout, usize::MAX), Some(Err(PorkerError::InvalidCardPool)));
}

#[test]
fn a_row_of_draws_gives_the_first_five_different_cards() {
    let pool = vec![10, 20, 30, 40, 50, 60, 20];
    assert_eq!(hand_from_draws(&pool, &vec![0, 1, 2, 3, 4]), Ok([10, 20, 30, 40, 50]));
    assert_eq!(
        hand_from_draws(&pool, &vec![5, 5, 3, 5, 3, 0, 1, 6, 2, 4]),
        Ok([60, 40, 10, 20, 30])
    );
    assert_eq!(hand_from_draws(&pool, &vec![6, 1, 6, 1, 0, 2, 3, 4, 5]), Ok([20, 10, 30, 40, 50]));
}

#[test]
fn a_row_of_draws_stops_at_the_fifth_card() {
    let pool = vec![10, 20, 30, 40, 50, 60];
    assert_eq!(hand_from_draws(&pool, &vec![4, 3, 2, 1, 0, 5, 5, 5]), Ok([50, 40, 30, 20, 10]));
    let mut long = vec![0, 1, 2, 3, 4];
    long.extend([5; 40]);
    assert_eq!(hand_from_draws(&pool, &long), Ok([10, 20, 30, 40, 50]));
}

#[test]
fn a_row_of_draws_counts_only_the_first_twenty() {
    let pool = vec![10, 20, 30, 40, 50];
    let mut draws = vec![0; 16];
    draws.extend([1, 2, 3, 4]);
    assert_eq!(draws.len(), 20);
    assert_eq!(hand_from_draws(&pool, &draws), Ok([10, 20, 30, 40, 50]));
    let mut draws = vec![0; 17];
    draws.extend([1, 2, 3, 4]);
    assert_eq!(draws.len(), 21);
    assert_eq!(hand_from_draws(&pool, &draws), Err(PorkerError::InvalidCardPool));
    let mut draws = vec![2; 20];
    draws.extend([0, 1, 2, 3, 4]);
    assert_eq!(hand_from_draws(&pool, &draws), Err(PorkerError::InvalidCardPool));
}

#[test]
fn a_row_that_ends_early_gives_no_hand() {
    let pool = vec![10, 20, 30, 40, 50];
    assert_eq!(hand_from_draws(&pool, &Vec::new()), Err(PorkerError::InvalidCardPool));
    assert_eq!(hand_from_draws(&pool, &vec![0, 1, 2, 3]), Err(PorkerError::InvalidCardPool));
    assert_eq!(
        hand_from_draws(&pool, &vec![0, 1, 2, 3, 3, 2, 1, 0]),
        Err(PorkerError::InvalidCardPool)
    );
    assert_eq!(hand_from_draws(&Vec::new(), &Vec::new()), Err(PorkerError::InvalidCardPool));
}

#[test]
fn a_row_over_four_sevens_gives_no_hand() {
    let pool = vec![7, 7, 7, 7];
    let draws: Vec<usize> = (0..20).map(|k| k % 4).collect();
    assert_eq!(hand_from_draws(&pool, &draws), Err(PorkerError::InvalidCardPool));
}
