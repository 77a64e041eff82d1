use porker::{
    count_judge_role, is_flush, is_fulhouse, is_pair, is_royalflush, is_strait, is_straitflush,
    is_twopair, judge_role, make_cards_from_id, sort_by_rank, Card, Role, Suit,
};

fn hand(ids: [u32; 5]) -> [Card; 5] {
    make_cards_from_id(&ids).unwrap()
}

/// The card of the given suit (0 to 3) and rank (1 to 13).
fn id_of(suit: u32, rank: u32) -> u32 {
    suit * 13 + rank - 1
}

fn permutations() -> Vec<[usize; 5]> {
    let mut all = Vec::new();
    for a in 0..5 {
        for b in 0..5 {
            for c in 0..5 {
                for d in 0..5 {
                    for e in 0..5 {
                        let p = [a, b, c, d, e];
                        let mut seen = [false; 5];
                        for x in p {
                            seen[x] = true;
                        }
                        if seen.iter().all(|s| *s) {
                            all.push(p);
                        }
                    }
                }
            }
        }
    }
    all
}

fn role_in_every_order(ids: [u32; 5]) -> Role {
    let first = judge_role(&mut hand(ids));
    let orders = permutations();
    assert_eq!(orders.len(), 120);
    for p in orders {
        let shuffled = [ids[p[0]], ids[p[1]], ids[p[2]], ids[p[3]], ids[p[4]]];
        assert_eq!(judge_role(&mut hand(shuffled)), first);
    }
    first
}

#[test]
fn spade_ten_to_ace_is_a_royal_flush() {
    let ids = [id_of(0, 10), id_of(0, 11), id_of(0, 12), id_of(0, 13), id_of(0, 1)];
    assert_eq!(ids, [9, 10, 11, 12, 0]);
    assert_eq!(judge_role(&mut hand(ids)), Role::RoyalStraightFlush);
    assert_eq!(role_in_every_order(ids), Role::RoyalStraightFlush);
}

#[test]
fn three_to_seven_in_mixed_suits_is_a_straight() {
    let ids = [id_of(0, 3), id_of(1, 4), id_of(2, 5), id_of(3, 6), id_of(0, 7)];
    let mut cards = hand(ids);
    assert_eq!(judge_role(&mut cards), Role::Straight);
    assert_eq!(is_flush(&cards), None);
    assert_eq!(is_straitflush(&mut cards), None);
    assert_eq!(role_in_every_order(ids), Role::Straight);
}

#[test]
fn two_twos_and_three_fives_are_a_full_house_in_every_order() {
    let ids = [id_of(0, 2), id_of(1, 2), id_of(0, 5), id_of(2, 5), id_of(3, 5)];
    assert_eq!(role_in_every_order(ids), Role::FullHouse);
}

#[test]
fn the_role_does_not_depend_on_the_order() {
    assert_eq!(role_in_every_order([0, 1, 2, 3, 4]), Role::StraightFlush);
    assert_eq!(role_in_every_order([0, 13, 26, 39, 5]), Role::FourCard);
    assert_eq!(role_in_every_order([0, 13, 26, 4, 5]), Role::ThreeCard);
    assert_eq!(role_in_every_order([0, 13, 3, 16, 5]), Role::TwoPair);
    assert_eq!(role_in_every_order([0, 13, 3, 17, 5]), Role::OnePair);
    assert_eq!(role_in_every_order([0, 15, 30, 45, 8]), Role::NoPair);
    assert_eq!(role_in_every_order([0, 2, 4, 6, 8]), Role::Flush);
}

#[test]
fn each_role_has_a_hand() {
    assert_eq!(judge_role(&mut hand([0, 15, 30, 45, 8])), Role::NoPair);
    assert_eq!(judge_role(&mut hand([0, 13, 3, 17, 5])), Role::OnePair);
    assert_eq!(judge_role(&mut hand([0, 13, 3, 16, 5])), Role::TwoPair);
    assert_eq!(judge_role(&mut hand([0, 13, 26, 4, 5])), Role::ThreeCard);
    assert_eq!(judge_role(&mut hand([0, 13, 26, 39, 5])), Role::FourCard);
    assert_eq!(judge_role(&mut hand([1, 14, 4, 17, 30])), Role::FullHouse);
    assert_eq!(judge_role(&mut hand([13, 15, 17, 19, 21])), Role::Flush);
    assert_eq!(judge_role(&mut hand([2, 16, 30, 44, 6])), Role::Straight);
    assert_eq!(judge_role(&mut hand([14, 15, 16, 17, 18])), Role::StraightFlush);
    assert_eq!(judge_role(&mut hand([22, 23, 24, 25, 13])), Role::RoyalStraightFlush);
}

#[test]
fn ten_to_ace_in_mixed_suits_is_a_straight() {
    let ids = [id_of(0, 10), id_of(1, 11), id_of(2, 12), id_of(3, 13), id_of(0, 1)];
    assert_eq!(role_in_every_order(ids), Role::Straight);
}

#[test]
fn ace_to_five_counts_as_consecutive() {
    let ids = [id_of(0, 1), id_of(1, 2), id_of(2, 3), id_of(3, 4), id_of(0, 5)];
    assert_eq!(role_in_every_order(ids), Role::Straight);
}

#[test]
fn a_run_does_not_wrap_around_the_king() {
    let ids = [id_of(0, 11), id_of(1, 12), id_of(2, 13), id_of(3, 1), id_of(0, 2)];
    assert_eq!(role_in_every_order(ids), Role::NoPair);
    let ids = [id_of(0, 9), id_of(1, 10), id_of(2, 11), id_of(3, 12), id_of(0, 1)];
    assert_eq!(role_in_every_order(ids), Role::NoPair);
}

#[test]
fn a_flush_of_ten_to_ace_ranks_with_a_pair_is_not_reached_in_one_deck() {
    // Five cards of one suit have five different ranks, so a flush whose ranks
    // all lie in ten to ace is the royal flush.
    let ids = [id_of(3, 10), id_of(3, 11), id_of(3, 12), id_of(3, 13), id_of(3, 1)];
    assert_eq!(role_in_every_order(ids), Role::RoyalStraightFlush);
    let ids = [id_of(3, 9), id_of(3, 11), id_of(3, 12), id_of(3, 13), id_of(3, 1)];
    assert_eq!(role_in_every_order(ids), Role::Flush);
}

#[test]
fn judge_role_leaves_the_hand_in_rank_order() {
    let mut cards = hand([12, 0, 30, 16, 5]);
    let before = cards;
    judge_role(&mut cards);
    for i in 0..4 {
        assert!(cards[i].rank <= cards[i + 1].rank);
    }
    for card in before {
        assert!(cards.contains(&card));
    }
}

#[test]
fn sort_by_rank_orders_by_rank_and_keeps_the_cards() {
    let mut cards = hand([51, 38, 25, 12, 0]);
    sort_by_rank(&mut cards);
    assert_eq!(cards[0], Card { id: 0, suit: Suit::Spade, rank: 1 });
    for i in 1..5 {
        assert_eq!(cards[i].rank, 13);
    }
    let mut ids: Vec<u32> = cards.iter().map(|c| c.id).collect();
    ids.sort();
    assert_eq!(ids, vec![0, 12, 25, 38, 51]);

    let mut cards = hand([4, 3, 2, 1, 0]);
    sort_by_rank(&mut cards);
    assert_eq!(cards, hand([0, 1, 2, 3, 4]));
}

#[test]
fn is_flush_wants_one_suit() {
    assert_eq!(is_flush(&hand([0, 2, 4, 6, 8])), Some(Role::Flush));
    assert_eq!(is_flush(&hand([39, 40, 41, 42, 51])), Some(Role::Flush));
    assert_eq!(is_flush(&hand([0, 2, 4, 6, 13])), None);
    assert_eq!(is_flush(&hand([13, 2, 4, 6, 8])), None);
}

#[test]
fn is_strait_reads_the_ranks_as_they_stand() {
    assert_eq!(is_strait(&mut hand([2, 16, 30, 44, 6])), Some(Role::Straight));
    assert_eq!(is_strait(&mut hand([0, 9, 23, 37, 51])), Some(Role::Straight));
    assert_eq!(is_strait(&mut hand([6, 44, 30, 16, 2])), None);
    assert_eq!(is_strait(&mut hand([2, 16, 30, 44, 7])), None);
    assert_eq!(is_strait(&mut hand([9, 23, 37, 51, 0])), None);
    let mut cards = hand([2, 16, 30, 44, 6]);
    let before = cards;
    is_strait(&mut cards);
    assert_eq!(cards, before);
}

#[test]
fn is_strait_takes_any_rank_without_overflow() {
    let mut cards = hand([0, 1, 2, 3, 4]);
    cards[4].rank = u32::MAX;
    assert_eq!(is_strait(&mut cards), None);
    cards[0].rank = u32::MAX - 4;
    cards[1].rank = u32::MAX - 3;
    cards[2].rank = u32::MAX - 2;
    cards[3].rank = u32::MAX - 1;
    assert_eq!(is_strait(&mut cards), Some(Role::Straight));
}

#[test]
fn is_royalflush_wants_one_suit_and_ten_to_ace() {
    assert_eq!(is_royalflush(&hand([9, 10, 11, 12, 0])), Some(Role::RoyalStraightFlush));
    assert_eq!(is_royalflush(&hand([0, 12, 11, 10, 9])), Some(Role::RoyalStraightFlush));
    assert_eq!(is_royalflush(&hand([8, 10, 11, 12, 0])), None);
    assert_eq!(is_royalflush(&hand([9, 10, 11, 12, 13])), None);
    assert_eq!(is_royalflush(&hand([1, 10, 11, 12, 0])), None);
}

#[test]
fn is_royalflush_refuses_ranks_outside_the_deck() {
    let mut cards = hand([9, 10, 11, 12, 0]);
    cards[0].rank = 14;
    assert_eq!(is_royalflush(&cards), None);
    cards[0].rank = 0;
    assert_eq!(is_royalflush(&cards), None);
}

#[test]
fn is_straitflush_wants_both() {
    assert_eq!(is_straitflush(&mut hand([14, 15, 16, 17, 18])), Some(Role::StraightFlush));
    assert_eq!(is_straitflush(&mut hand([14, 15, 16, 17, 32])), None);
    assert_eq!(is_straitflush(&mut hand([14, 15, 16, 17, 19])), None);
}

#[test]
fn is_fulhouse_reads_two_next_to_three() {
    assert_eq!(is_fulhouse(&mut hand([1, 14, 4, 17, 30])), Some(Role::FullHouse));
    assert_eq!(is_fulhouse(&mut hand([1, 14, 27, 4, 17])), Some(Role::FullHouse));
    assert_eq!(is_fulhouse(&mut hand([1, 4, 14, 17, 30])), None);
    assert_eq!(is_fulhouse(&mut hand([1, 14, 27, 40, 17])), None);
    assert_eq!(is_fulhouse(&mut hand([1, 14, 4, 17, 5])), None);
}

#[test]
fn is_pair_counts_the_largest_group() {
    assert_eq!(is_pair(&hand([0, 13, 26, 39, 5])), Some(Role::FourCard));
    assert_eq!(is_pair(&hand([5, 0, 13, 26, 39])), Some(Role::FourCard));
    assert_eq!(is_pair(&hand([0, 13, 26, 4, 5])), Some(Role::ThreeCard));
    assert_eq!(is_pair(&hand([1, 14, 4, 17, 30])), Some(Role::ThreeCard));
    assert_eq!(is_pair(&hand([0, 13, 3, 16, 5])), Some(Role::TwoPair));
    assert_eq!(is_pair(&hand([0, 3, 13, 5, 16])), Some(Role::TwoPair));
    assert_eq!(is_pair(&hand([0, 13, 3, 17, 5])), Some(Role::OnePair));
    assert_eq!(is_pair(&hand([0, 15, 30, 45, 8])), Some(Role::NoPair));
}

#[test]
fn is_pair_gives_nothing_for_five_of_a_rank() {
    let mut cards = hand([0, 13, 26, 39, 5]);
    cards[4].rank = 1;
    assert_eq!(is_pair(&cards), None);
    assert_eq!(judge_role(&mut cards), Role::FullHouse);
}

#[test]
fn is_twopair_wants_two_ranks_twice() {
    assert_eq!(is_twopair(&hand([0, 13, 3, 16, 5])), Some(Role::TwoPair));
    assert_eq!(is_twopair(&hand([5, 3, 0, 16, 13])), Some(Role::TwoPair));
    assert_eq!(is_twopair(&hand([1, 14, 4, 17, 30])), Some(Role::TwoPair));
    assert_eq!(is_twopair(&hand([0, 13, 3, 17, 5])), None);
    assert_eq!(is_twopair(&hand([0, 13, 26, 39, 5])), None);
    assert_eq!(is_twopair(&hand([0, 13, 26, 4, 5])), None);
    assert_eq!(is_twopair(&hand([0, 15, 30, 45, 8])), None);
}

#[test]
fn count_judge_role_adds_one_to_the_slot_of_the_role() {
    let mut role_count = [0u32; 10];
    let hands: [[u32; 5]; 10] = [
        [0, 15, 30, 45, 8],
        [0, 13, 3, 17, 5],
        [0, 13, 3, 16, 5],
        [0, 13, 26, 4, 5],
        [0, 13, 26, 39, 5],
        [1, 14, 4, 17, 30],
        [13, 15, 17, 19, 21],
        [2, 16, 30, 44, 6],
        [14, 15, 16, 17, 18],
        [22, 23, 24, 25, 13],
    ];
    for (slot, ids) in hands.iter().enumerate() {
        let before = role_count;
        count_judge_role(&mut hand(*ids), &mut role_count);
        for i in 0..10 {
            let expected = if i == slot { before[i] + 1 } else { before[i] };
            assert_eq!(role_count[i], expected);
        }
    }
    assert_eq!(role_count, [1; 10]);
    count_judge_role(&mut hand([9, 10, 11, 12, 0]), &mut role_count);
    assert_eq!(role_count, [1, 1, 1, 1, 1, 1, 1, 1, 1, 2]);
}

#[test]
fn the_deck_has_the_known_number_of_hands_of_each_role() {
    let mut role_count = [0u32; 10];
    for a in 0u32..52 {
        for b in (a + 1)..52 {
            for c in (b + 1)..52 {
                for d in (c + 1)..52 {
                    for e in (d + 1)..52 {
                        count_judge_role(&mut hand([e, c, a, d, b]), &mut role_count);
                    }
                }
            }
        }
    }
    assert_eq!(
        role_count,
        [1_302_540, 1_098_240, 123_552, 54_912, 624, 3_744, 5_108, 10_200, 36, 4]
    );
    assert_eq!(role_count.iter().sum::<u32>(), 2_598_960);
}

#[test]
fn role_slots_follow_the_order_of_strength() {
    let roles = [
        Role::NoPair,
        Role::OnePair,
        Role::TwoPair,
        Role::ThreeCard,
        Role::FourCard,
        Role::FullHouse,
        Role::Flush,
        Role::Straight,
        Role::StraightFlush,
        Role::RoyalStraightFlush,
    ];
    for (i, role) in roles.iter().enumerate() {
        assert_eq!(role.slot(), i);
    }
}
