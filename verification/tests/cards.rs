use durak_core::card::{hand_fmt, sort_cards, transfer_card, Card, Rank, Suit};

fn card(rank: Rank, suit: Suit) -> Card {
    Card { rank, suit }
}

#[test]
fn card_ordinal_roundtrip_all_36() {
    for i in 0..36usize {
        let c = Card::from_ordinal(i).expect("index below 36 must decode");
        assert_eq!(c.ordinal(), i);
    }
}

#[test]
fn card_ordinal_rejects_out_of_range() {
    assert!(Card::from_ordinal(36).is_none());
    assert!(Card::from_ordinal(37).is_none());
    assert!(Card::from_ordinal(1000).is_none());
}

#[test]
fn suit_and_rank_ordinals_roundtrip() {
    for i in 0..4usize {
        assert_eq!(Suit::from_ordinal(i).unwrap().ordinal(), i);
    }
    assert!(Suit::from_ordinal(4).is_none());
    for i in 1..=9usize {
        assert_eq!(Rank::from_ordinal(i).unwrap().ordinal(), i);
    }
    assert!(Rank::from_ordinal(0).is_none());
    assert!(Rank::from_ordinal(10).is_none());
}

#[test]
fn card_encoding_formula() {
    // index = (rank ordinal - 1) + suit ordinal * 9
    let c = card(Rank::Ace, Suit::Clubs);
    assert_eq!(c.ordinal(), 8 + 3 * 9);
    let c = card(Rank::Six, Suit::Spades);
    assert_eq!(c.ordinal(), 0);
    let c = card(Rank::Ten, Suit::Hearts);
    assert_eq!(c.ordinal(), 4 + 2 * 9);
}

#[test]
fn hand_fmt_pads_each_card_to_four_columns() {
    let hand = vec![
        card(Rank::Six, Suit::Spades),
        card(Rank::Ten, Suit::Hearts),
        card(Rank::Ace, Suit::Clubs),
    ];
    assert_eq!(hand_fmt(&hand), "  6\u{2660} 10\u{2665}  A\u{2663}");
}

#[test]
fn hand_fmt_empty_hand_is_empty() {
    let hand: Vec<Card> = Vec::new();
    assert_eq!(hand_fmt(&hand), "");
}

#[test]
fn sort_cards_orders_by_index_with_trump_last() {
    let mut cards = vec![
        card(Rank::Ace, Suit::Clubs),
        card(Rank::Six, Suit::Hearts),
        card(Rank::Seven, Suit::Spades),
        card(Rank::King, Suit::Hearts),
        card(Rank::Six, Suit::Spades),
    ];
    sort_cards(&mut cards, Suit::Hearts);
    assert_eq!(
        cards,
        vec![
            card(Rank::Six, Suit::Spades),
            card(Rank::Seven, Suit::Spades),
            card(Rank::Ace, Suit::Clubs),
            card(Rank::Six, Suit::Hearts),
            card(Rank::King, Suit::Hearts),
        ]
    );
}

#[test]
fn sort_cards_without_trump_present_uses_canonical_order() {
    let mut cards = vec![
        card(Rank::Queen, Suit::Diamonds),
        card(Rank::Six, Suit::Diamonds),
        card(Rank::Nine, Suit::Spades),
    ];
    sort_cards(&mut cards, Suit::Clubs);
    assert_eq!(
        cards,
        vec![
            card(Rank::Nine, Suit::Spades),
            card(Rank::Six, Suit::Diamonds),
            card(Rank::Queen, Suit::Diamonds),
        ]
    );
}

#[test]
fn transfer_card_moves_first_occurrence() {
    let mut from = vec![
        card(Rank::Six, Suit::Spades),
        card(Rank::Seven, Suit::Hearts),
        card(Rank::Eight, Suit::Clubs),
    ];
    let mut to: Vec<Card> = Vec::new();
    transfer_card(&mut from, &mut to, &card(Rank::Seven, Suit::Hearts));
    assert_eq!(
        from,
        vec![card(Rank::Six, Suit::Spades), card(Rank::Eight, Suit::Clubs)]
    );
    assert_eq!(to, vec![card(Rank::Seven, Suit::Hearts)]);
}

#[test]
fn transfer_card_absent_card_changes_nothing() {
    let mut from = vec![card(Rank::Six, Suit::Spades)];
    let mut to = vec![card(Rank::Ace, Suit::Clubs)];
    transfer_card(&mut from, &mut to, &card(Rank::King, Suit::Diamonds));
    assert_eq!(from, vec![card(Rank::Six, Suit::Spades)]);
    assert_eq!(to, vec![card(Rank::Ace, Suit::Clubs)]);
}
