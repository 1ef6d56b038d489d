use poker_core::card::{
    card_bitmask, card_rank, card_suit, card_to_string, parse_card, Card, INVALID, RANK_2, RANK_A,
    RANK_T, SUIT_CLUBS, SUIT_HEARTS, SUIT_SPADES,
};

#[test]
fn test_card_new() {
    let card = Card::new(RANK_A, SUIT_SPADES);
    assert_eq!(card.rank(), RANK_A);
    assert_eq!(card.suit(), SUIT_SPADES);
}

#[test]
fn test_parse_ace_of_spades() {
    let card = Card::from_str("As").expect("Should parse As");
    assert_eq!(card.rank(), RANK_A);
    assert_eq!(card.suit(), SUIT_SPADES);
    assert_eq!(card.to_string(), "As");
}

#[test]
fn test_parse_ten_of_hearts() {
    let card = Card::from_str("Th").expect("Should parse Th");
    assert_eq!(card.rank(), RANK_T);
    assert_eq!(card.suit(), SUIT_HEARTS);
    assert_eq!(card.to_string(), "Th");
}

#[test]
fn test_parse_two_of_clubs() {
    let card = Card::from_str("2c").expect("Should parse 2c");
    assert_eq!(card.rank(), RANK_2);
    assert_eq!(card.suit(), SUIT_CLUBS);
    assert_eq!(card.to_string(), "2c");
}

#[test]
fn test_parse_case_insensitive_suit() {
    let card1 = Card::from_str("As").expect("Should parse As");
    let card2 = Card::from_str("AS").expect("Should parse AS");
    assert_eq!(card1, card2);
}

#[test]
fn test_parse_invalid() {
    assert!(Card::from_str("Xx").is_none());
    assert!(Card::from_str("A").is_none());
    assert!(Card::from_str("Asd").is_none());
    assert!(Card::from_str("").is_none());
}

#[test]
fn test_bitmask_unique() {
    let mut seen: u64 = 0;
    for i in 0..52u8 {
        let card = Card::from_index(i);
        let mask = card.bitmask();
        assert_eq!(seen & mask, 0, "Bitmask collision for card {}", i);
        seen |= mask;
    }
    assert_eq!(seen, (1u64 << 52) - 1);
}

#[test]
fn test_bitmask_specific_cards() {
    let two_clubs = Card::from_str("2c").unwrap();
    assert_eq!(two_clubs.bitmask(), 1u64 << 0);

    let ace_spades = Card::from_str("As").unwrap();
    assert_eq!(ace_spades.bitmask(), 1u64 << 51);

    let ten_hearts = Card::from_str("Th").unwrap();
    assert_eq!(ten_hearts.index(), 8 * 4 + 2);
    assert_eq!(ten_hearts.bitmask(), 1u64 << 34);
}

#[test]
fn test_wasm_parse_card() {
    assert_eq!(parse_card("As"), 51);
    assert_eq!(parse_card("2c"), 0);
    assert_eq!(parse_card("Xx"), 255);
}

#[test]
fn test_wasm_card_to_string() {
    assert_eq!(card_to_string(51), "As");
    assert_eq!(card_to_string(0), "2c");
    assert_eq!(card_to_string(255), "??");
}

#[test]
fn test_roundtrip_all_cards() {
    for i in 0..52u8 {
        let card = Card::from_index(i);
        let string = card.to_string();
        let parsed = Card::from_str(&string).expect("Should parse");
        assert_eq!(card, parsed, "Roundtrip failed for index {}", i);
    }
}

#[test]
fn bitmask_is_a_power_of_two_in_range() {
    for i in 0..52u8 {
        let mask = Card::from_index(i).bitmask();
        assert_eq!(mask.count_ones(), 1);
        assert!(mask >= 1 && mask <= 1u64 << 51);
    }
}

#[test]
fn parse_accepts_either_case_of_the_rank() {
    assert_eq!(Card::from_str("th"), Card::from_str("Th"));
    assert_eq!(Card::from_str("kD").map(|c| c.index()), Some(11 * 4 + 1));
}

#[test]
fn parse_rejects_two_bytes_that_are_one_character() {
    assert!(Card::from_str("\u{e9}").is_none());
    assert!(Card::from_str("A\u{e9}").is_none());
}

#[test]
fn every_card_prints_rank_then_suit() {
    let ranks = ['2', '3', '4', '5', '6', '7', '8', '9', 'T', 'J', 'Q', 'K', 'A'];
    let suits = ['c', 'd', 'h', 's'];
    for rank in 0..13u8 {
        for suit in 0..4u8 {
            let text = Card::new(rank, suit).to_string();
            let expected: String = vec![ranks[rank as usize], suits[suit as usize]].into_iter().collect();
            assert_eq!(text, expected);
        }
    }
}

#[test]
fn index_functions_answer_for_cards_and_reject_the_rest() {
    assert_eq!(card_bitmask(34), 1u64 << 34);
    assert_eq!(card_bitmask(52), 0);
    assert_eq!(card_rank(34), 8);
    assert_eq!(card_rank(52), INVALID);
    assert_eq!(card_suit(34), 2);
    assert_eq!(card_suit(200), INVALID);
    assert_eq!(card_to_string(52), "??");
    assert_eq!(parse_card("zz"), INVALID);
}
