use poker_core::card::Card;
use poker_core::evaluator::{
    evaluate_5_cards, evaluate_7_cards, get_hand_rank_name, init_lookup_tables, HandRank,
};
use poker_core::masks::{count_bits, generate_flush_table, generate_unique5_table};
use poker_core::products::generate_prime_product_table;

fn cards_from_str(s: &str) -> Vec<Card> {
    s.split_whitespace()
        .map(|cs| Card::from_str(cs).expect(&format!("Invalid card: {}", cs)))
        .collect()
}

fn eval_hand(s: &str) -> u16 {
    let tables = init_lookup_tables();
    let cards = cards_from_str(s);
    evaluate_7_cards(&tables, &cards)
}

#[test]
fn test_royal_flush() {
    let score = eval_hand("As Ks Qs Js Ts");
    assert_eq!(score, 1, "Royal flush should be score 1");
}

#[test]
fn test_straight_flush() {
    let score = eval_hand("9h 8h 7h 6h 5h");
    assert!(score >= 2 && score <= 10, "Straight flush score: {}", score);
}

#[test]
fn test_four_of_a_kind() {
    let score = eval_hand("As Ah Ad Ac Ks");
    assert!(score >= 11 && score <= 166, "Quads score: {}", score);
}

#[test]
fn test_full_house() {
    let score = eval_hand("As Ah Ad Ks Kh");
    assert!(score >= 167 && score <= 322, "Full house score: {}", score);
}

#[test]
fn test_flush() {
    let score = eval_hand("As Ks Qs Js 9s");
    assert!(score >= 323 && score <= 1599, "Flush score: {}", score);
}

#[test]
fn test_straight() {
    let score = eval_hand("Ah Ks Qd Jc Th");
    assert!(score >= 1600 && score <= 1609, "Straight score: {}", score);
}

#[test]
fn test_three_of_a_kind() {
    let score = eval_hand("As Ah Ad Ks Qh");
    assert!(score >= 1610 && score <= 2467, "Trips score: {}", score);
}

#[test]
fn test_two_pair() {
    let score = eval_hand("As Ah Ks Kh Qd");
    assert!(score >= 2468 && score <= 3325, "Two pair score: {}", score);
}

#[test]
fn test_one_pair() {
    let score = eval_hand("As Ah Ks Qh Jd");
    assert!(score >= 3326 && score <= 6185, "One pair score: {}", score);
}

#[test]
fn test_high_card() {
    let score = eval_hand("As Ks Qd Jc 9h");
    assert!(score >= 6186 && score <= 7462, "High card score: {}", score);
}

#[test]
fn test_quads_beats_full_house() {
    let quads = eval_hand("As Ah Ad Ac Ks");
    let full_house = eval_hand("As Ah Ad Ks Kh");
    assert!(quads < full_house, "Quads ({}) should beat Full House ({})", quads, full_house);
}

#[test]
fn test_full_house_beats_flush() {
    let full_house = eval_hand("As Ah Ad Ks Kh");
    let flush = eval_hand("As Ks Qs Js 9s");
    assert!(full_house < flush, "Full House ({}) should beat Flush ({})", full_house, flush);
}

#[test]
fn test_7_card_evaluation() {
    let score = eval_hand("As Ks Qs Js Ts 2c 3d");
    assert_eq!(score, 1, "7-card royal flush should be score 1");
}

#[test]
fn test_wheel_straight() {
    let score = eval_hand("Ah 2s 3d 4c 5h");
    assert!(score >= 1600 && score <= 1609, "Wheel should be a straight: {}", score);
}

#[test]
fn test_wheel_straight_flush() {
    let score = eval_hand("Ah 2h 3h 4h 5h");
    assert!(score >= 2 && score <= 10, "Wheel flush should be straight flush: {}", score);
}

#[test]
fn names_of_the_best_hands() {
    assert_eq!(get_hand_rank_name(1), "Royal Flush");
    assert_eq!(get_hand_rank_name(5), "Straight Flush");
    assert_eq!(get_hand_rank_name(100), "Four of a Kind");
    assert_eq!(get_hand_rank_name(200), "Full House");
}

#[test]
fn first_and_last_score_of_each_category() {
    assert_eq!(eval_hand("As Ks Qs Js Ts"), 1);
    assert_eq!(eval_hand("Ah 2h 3h 4h 5h"), 10);
    assert_eq!(eval_hand("As Ah Ad Ac Ks"), 11);
    assert_eq!(eval_hand("2s 2h 2d 2c 3s"), 166);
    assert_eq!(eval_hand("As Ah Ad Ks Kh"), 167);
    assert_eq!(eval_hand("2s 2h 2d 3s 3h"), 322);
    assert_eq!(eval_hand("As Ks Qs Js 9s"), 323);
    assert_eq!(eval_hand("7s 5s 4s 3s 2s"), 1599);
    assert_eq!(eval_hand("Ah Ks Qd Jc Th"), 1600);
    assert_eq!(eval_hand("Ah 2s 3d 4c 5h"), 1609);
    assert_eq!(eval_hand("As Ah Ad Ks Qh"), 1610);
    assert_eq!(eval_hand("2s 2h 2d 4s 3h"), 2467);
    assert_eq!(eval_hand("As Ah Ks Kh Qd"), 2468);
    assert_eq!(eval_hand("3s 3h 2s 2h 4d"), 3325);
    assert_eq!(eval_hand("As Ah Ks Qh Jd"), 3326);
    assert_eq!(eval_hand("2s 2h 5s 4h 3d"), 6185);
    assert_eq!(eval_hand("As Ks Qd Jc 9h"), 6186);
    assert_eq!(eval_hand("7s 5s 4d 3c 2h"), 7462);
}

#[test]
fn scores_inside_a_category() {
    // Four kings with an ace: the second block of twelve, its first hand.
    assert_eq!(eval_hand("Ks Kh Kd Kc As"), 23);
    // Four aces with a deuce: the last of the first block.
    assert_eq!(eval_hand("As Ah Ad Ac 2s"), 22);
    // Three aces, king and jack: one behind king and queen.
    assert_eq!(eval_hand("As Ah Ad Ks Jh"), 1611);
    // Aces and kings with a jack kicker.
    assert_eq!(eval_hand("As Ah Ks Kh Jd"), 2469);
    // Aces and queens with a king kicker: the second pairing, first kicker.
    assert_eq!(eval_hand("As Ah Qs Qh Kd"), 2479);
    // A pair of aces with king, queen and ten.
    assert_eq!(eval_hand("As Ah Ks Qh Td"), 3327);
    // A pair of kings with ace, queen, jack: the second block of 220.
    assert_eq!(eval_hand("Ks Kh As Qh Jd"), 3546);
    // King-high straight flush and king-high straight.
    assert_eq!(eval_hand("Kh Qh Jh Th 9h"), 2);
    assert_eq!(eval_hand("Kh Qs Jd Tc 9h"), 1601);
    // The second flush and the second high-card hand.
    assert_eq!(eval_hand("As Ks Qs Js 8s"), 324);
    assert_eq!(eval_hand("As Ks Qd Jc 8h"), 6187);
}

#[test]
fn categories_are_ordered() {
    let quads = eval_hand("2s 2h 2d 2c 3s");
    let full_house = eval_hand("As Ah Ad Ks Kh");
    let flush = eval_hand("As Ks Qs Js 9s");
    let straight = eval_hand("Ah Ks Qd Jc Th");
    let trips = eval_hand("As Ah Ad Ks Qh");
    let two_pair = eval_hand("As Ah Ks Kh Qd");
    let pair = eval_hand("As Ah Ks Qh Jd");
    let high = eval_hand("As Ks Qd Jc 9h");
    assert!(quads < full_house);
    assert!(full_house < flush);
    assert!(flush < straight);
    assert!(straight < trips);
    assert!(trips < two_pair);
    assert!(two_pair < pair);
    assert!(pair < high);
}

#[test]
fn fewer_than_five_cards_score_worst() {
    assert_eq!(eval_hand(""), 7462);
    assert_eq!(eval_hand("As Ks Qs Js"), 7462);
}

#[test]
fn the_best_five_of_six_and_seven_count() {
    assert_eq!(eval_hand("2c As Ah Ad Ac Ks"), 11);
    assert_eq!(eval_hand("As Ah 7s 6s 4d 3c 2h"), eval_hand("As Ah 7s 6s 4d"));
    assert_eq!(eval_hand("2c 3d Ah Ks Qd Jc Th"), 1600);
}

#[test]
fn five_cards_score_the_same_in_any_order() {
    let tables = init_lookup_tables();
    let a = cards_from_str("As Ah Ks Kh Qd");
    let b = cards_from_str("Qd Kh As Ks Ah");
    let hand_a = [a[0], a[1], a[2], a[3], a[4]];
    let hand_b = [b[0], b[1], b[2], b[3], b[4]];
    assert_eq!(evaluate_5_cards(&tables, &hand_a), 2468);
    assert_eq!(evaluate_5_cards(&tables, &hand_b), 2468);
}

#[test]
fn five_cards_that_are_no_hand_score_worst() {
    let tables = init_lookup_tables();
    let ace = Card::from_str("As").unwrap();
    assert_eq!(evaluate_5_cards(&tables, &[ace, ace, ace, ace, ace]), 7462);
}

#[test]
fn category_of_a_score() {
    assert_eq!(HandRank::from_score(1), HandRank::StraightFlush);
    assert_eq!(HandRank::from_score(10), HandRank::StraightFlush);
    assert_eq!(HandRank::from_score(11), HandRank::FourOfAKind);
    assert_eq!(HandRank::from_score(166), HandRank::FourOfAKind);
    assert_eq!(HandRank::from_score(167), HandRank::FullHouse);
    assert_eq!(HandRank::from_score(322), HandRank::FullHouse);
    assert_eq!(HandRank::from_score(323), HandRank::Flush);
    assert_eq!(HandRank::from_score(1599), HandRank::Flush);
    assert_eq!(HandRank::from_score(1600), HandRank::Straight);
    assert_eq!(HandRank::from_score(1609), HandRank::Straight);
    assert_eq!(HandRank::from_score(1610), HandRank::ThreeOfAKind);
    assert_eq!(HandRank::from_score(2467), HandRank::ThreeOfAKind);
    assert_eq!(HandRank::from_score(2468), HandRank::TwoPair);
    assert_eq!(HandRank::from_score(3325), HandRank::TwoPair);
    assert_eq!(HandRank::from_score(3326), HandRank::OnePair);
    assert_eq!(HandRank::from_score(6185), HandRank::OnePair);
    assert_eq!(HandRank::from_score(6186), HandRank::HighCard);
    assert_eq!(HandRank::from_score(7462), HandRank::HighCard);
    assert_eq!(HandRank::from_score(0), HandRank::HighCard);
    assert!(HandRank::StraightFlush < HandRank::HighCard);
}

#[test]
fn names_of_all_categories() {
    assert_eq!(get_hand_rank_name(2), "Straight Flush");
    assert_eq!(get_hand_rank_name(323), "Flush");
    assert_eq!(get_hand_rank_name(1600), "Straight");
    assert_eq!(get_hand_rank_name(1610), "Three of a Kind");
    assert_eq!(get_hand_rank_name(2468), "Two Pair");
    assert_eq!(get_hand_rank_name(3326), "One Pair");
    assert_eq!(get_hand_rank_name(7462), "High Card");
    assert_eq!(get_hand_rank_name(0), "High Card");
}

#[test]
fn flush_table_entries() {
    let table = generate_flush_table();
    assert_eq!(table.len(), 8192);
    assert_eq!(table[0b1111100000000], 1);
    assert_eq!(table[0b0000000011111], 9);
    assert_eq!(table[0b1000000001111], 10);
    assert_eq!(table[0b1111010000000], 323);
    assert_eq!(table[0b0000000101111], 1599);
    assert_eq!(table[0], 0);
    assert_eq!(table[0b111111], 0);
    let filled = table.iter().filter(|&&score| score != 0).count();
    assert_eq!(filled, 1287);
}

#[test]
fn unique5_table_entries() {
    let table = generate_unique5_table();
    assert_eq!(table.len(), 8192);
    assert_eq!(table[0b1111100000000], 1600);
    assert_eq!(table[0b1000000001111], 1609);
    assert_eq!(table[0b1111010000000], 6186);
    assert_eq!(table[0b0000000101111], 7462);
    assert_eq!(table[0b11], 0);
    let largest = table.iter().copied().max().unwrap();
    assert_eq!(largest, 7462);
}

#[test]
fn product_table_entries() {
    let table = generate_prime_product_table();
    assert_eq!(table.len(), 156 + 156 + 858 + 858 + 2860);
    // Four aces and a king: 41^4 * 37.
    assert_eq!(table.get(&(41u32 * 41 * 41 * 41 * 37)), Some(&11));
    // Three deuces and two threes: 2^3 * 3^2.
    assert_eq!(table.get(&72), Some(&322));
    // A pair of deuces with five, four and three: 2^2 * 7 * 5 * 3.
    assert_eq!(table.get(&420), Some(&6185));
    // Five aces are no hand.
    assert_eq!(table.get(&(41u32 * 41 * 41 * 41 * 41)), None);
    // Five different ranks are not in this table.
    assert_eq!(table.get(&(2u32 * 3 * 5 * 7 * 11)), None);
    let mut scores: Vec<u16> = table.values().copied().collect();
    scores.sort();
    scores.dedup();
    assert_eq!(scores.len(), table.len());
}

#[test]
fn bits_are_counted() {
    assert_eq!(count_bits(0), 0);
    assert_eq!(count_bits(0b1000000001111), 5);
    assert_eq!(count_bits(0xFFFF), 16);
}
