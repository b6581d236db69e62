use durak_core::card::{Card, Rank, Suit};
use durak_core::game::Action;
use durak_core::toplaystate::{beats_card, PlayerInfo, ToPlayState, ValidationError};

fn card(rank: Rank, suit: Suit) -> Card {
    Card { rank, suit }
}

fn view(
    trump: Suit,
    attack_cards: Vec<Card>,
    defense_cards: Vec<Card>,
    hand: Vec<Card>,
    defender: usize,
    to_play: usize,
) -> ToPlayState {
    ToPlayState {
        trump,
        attack_cards,
        defense_cards,
        hand,
        player_info: vec![
            PlayerInfo { id: 1, hand_len: 6 },
            PlayerInfo { id: 2, hand_len: 6 },
        ],
        last_attacker: 0,
        defender,
        to_play,
    }
}

#[test]
fn beats_card_is_irreflexive() {
    for i in 0..36usize {
        let c = Card::from_ordinal(i).unwrap();
        for t in 0..4usize {
            let trump = Suit::from_ordinal(t).unwrap();
            assert!(!beats_card(&c, &c, &trump));
        }
    }
}

#[test]
fn beats_card_same_nontrump_suit_exactly_one_wins() {
    let lo = card(Rank::Seven, Suit::Spades);
    let hi = card(Rank::Jack, Suit::Spades);
    let trump = Suit::Hearts;
    assert!(beats_card(&hi, &lo, &trump));
    assert!(!beats_card(&lo, &hi, &trump));
}

#[test]
fn trump_beats_any_nontrump_attack() {
    let trump = Suit::Diamonds;
    let low_trump = card(Rank::Six, Suit::Diamonds);
    let high_attack = card(Rank::Ace, Suit::Spades);
    assert!(beats_card(&low_trump, &high_attack, &trump));
}

#[test]
fn nontrump_never_beats_trump_attack() {
    let trump = Suit::Diamonds;
    let attack = card(Rank::Six, Suit::Diamonds);
    let defense = card(Rank::Ace, Suit::Spades);
    assert!(!beats_card(&defense, &attack, &trump));
}

#[test]
fn trump_hierarchy_by_rank() {
    let trump = Suit::Clubs;
    let lo = card(Rank::Ten, Suit::Clubs);
    let hi = card(Rank::Queen, Suit::Clubs);
    assert!(beats_card(&hi, &lo, &trump));
    assert!(!beats_card(&lo, &hi, &trump));
}

#[test]
fn different_nontrump_suits_never_beat() {
    let trump = Suit::Hearts;
    let a = card(Rank::Six, Suit::Spades);
    let d = card(Rank::Ace, Suit::Clubs);
    assert!(!beats_card(&d, &a, &trump));
}

#[test]
fn validate_attack_first_card_unrestricted() {
    let c = card(Rank::Nine, Suit::Clubs);
    let v = view(Suit::Hearts, vec![], vec![], vec![c], 1, 0);
    assert!(v.validate_attack(&Action::Play(c)).is_ok());
}

#[test]
fn validate_attack_requires_rank_on_table() {
    let table = card(Rank::Nine, Suit::Clubs);
    let same_rank = card(Rank::Nine, Suit::Spades);
    let other_rank = card(Rank::King, Suit::Spades);
    let v = view(
        Suit::Hearts,
        vec![table],
        vec![],
        vec![same_rank, other_rank],
        1,
        0,
    );
    assert!(v.validate_attack(&Action::Play(same_rank)).is_ok());
    assert_eq!(
        v.validate_attack(&Action::Play(other_rank)),
        Err(ValidationError::InvalidAttack(other_rank))
    );
}

#[test]
fn validate_attack_rank_on_defense_row_counts() {
    let a = card(Rank::Nine, Suit::Clubs);
    let d = card(Rank::Jack, Suit::Clubs);
    let add = card(Rank::Jack, Suit::Spades);
    let v = view(Suit::Hearts, vec![a], vec![d], vec![add], 1, 0);
    assert!(v.validate_attack(&Action::Play(add)).is_ok());
}

#[test]
fn validate_attack_card_not_in_hand() {
    let held = card(Rank::Nine, Suit::Clubs);
    let missing = card(Rank::Nine, Suit::Spades);
    let v = view(Suit::Hearts, vec![], vec![], vec![held], 1, 0);
    assert_eq!(
        v.validate_attack(&Action::Play(missing)),
        Err(ValidationError::CardNotInHand(missing))
    );
}

#[test]
fn validate_attack_wrong_turn_for_defender() {
    let c = card(Rank::Nine, Suit::Clubs);
    let v = view(Suit::Hearts, vec![], vec![], vec![c], 0, 0);
    assert_eq!(
        v.validate_attack(&Action::Play(c)),
        Err(ValidationError::WrongTurnType)
    );
    assert_eq!(
        v.validate_attack(&Action::Pass),
        Err(ValidationError::WrongTurnType)
    );
}

#[test]
fn validate_attack_pass_is_always_fine_for_attacker() {
    let v = view(Suit::Hearts, vec![], vec![], vec![], 1, 0);
    assert!(v.validate_attack(&Action::Pass).is_ok());
}

#[test]
fn validate_defense_must_beat_last_attack() {
    let trump = Suit::Hearts;
    let first = card(Rank::Six, Suit::Clubs);
    let live = card(Rank::Ten, Suit::Clubs);
    let strong = card(Rank::King, Suit::Clubs);
    let weak = card(Rank::Seven, Suit::Clubs);
    let v = view(
        trump,
        vec![first, live],
        vec![card(Rank::Nine, Suit::Clubs)],
        vec![strong, weak],
        0,
        0,
    );
    // The defense is checked against the most recent attack card only.
    assert!(v.validate_defense(&Action::Play(strong)).is_ok());
    assert_eq!(
        v.validate_defense(&Action::Play(weak)),
        Err(ValidationError::InvalidDefense(weak, live))
    );
}

#[test]
fn validate_defense_wrong_turn_and_no_attack() {
    let c = card(Rank::Ace, Suit::Hearts);
    let not_defender = view(Suit::Hearts, vec![], vec![], vec![c], 1, 0);
    assert_eq!(
        not_defender.validate_defense(&Action::Play(c)),
        Err(ValidationError::WrongTurnType)
    );
    // No live attack card: nothing to defend against.
    let no_attack = view(Suit::Hearts, vec![], vec![], vec![c], 0, 0);
    assert_eq!(
        no_attack.validate_defense(&Action::Play(c)),
        Err(ValidationError::WrongTurnType)
    );
}

#[test]
fn validate_defense_card_not_in_hand() {
    let live = card(Rank::Six, Suit::Clubs);
    let missing = card(Rank::Ace, Suit::Clubs);
    let v = view(Suit::Hearts, vec![live], vec![], vec![], 0, 0);
    assert_eq!(
        v.validate_defense(&Action::Play(missing)),
        Err(ValidationError::CardNotInHand(missing))
    );
}

#[test]
fn validate_pile_on_checks_every_card() {
    let table = card(Rank::Nine, Suit::Clubs);
    let good = card(Rank::Nine, Suit::Spades);
    let bad = card(Rank::King, Suit::Spades);
    let v = view(Suit::Hearts, vec![table], vec![], vec![good, bad], 1, 0);
    assert!(v.validate_pile_on(&[good]).is_ok());
    assert!(v.validate_pile_on(&[]).is_ok());
    assert_eq!(
        v.validate_pile_on(&[good, bad]),
        Err(ValidationError::InvalidAttack(bad))
    );
}

#[test]
fn validate_pile_on_rejects_defender() {
    let v = view(Suit::Hearts, vec![], vec![], vec![], 0, 0);
    assert_eq!(
        v.validate_pile_on(&[]),
        Err(ValidationError::WrongTurnType)
    );
}

#[test]
fn validate_pile_on_single_requires_hand_and_rank() {
    let table = card(Rank::Nine, Suit::Clubs);
    let good = card(Rank::Nine, Suit::Spades);
    let missing = card(Rank::Nine, Suit::Hearts);
    let bad_rank = card(Rank::Six, Suit::Spades);
    let v = view(Suit::Hearts, vec![table], vec![], vec![good, bad_rank], 1, 0);
    assert!(v.validate_pile_on_single(&good).is_ok());
    assert_eq!(
        v.validate_pile_on_single(&missing),
        Err(ValidationError::CardNotInHand(missing))
    );
    assert_eq!(
        v.validate_pile_on_single(&bad_rank),
        Err(ValidationError::InvalidAttack(bad_rank))
    );
}

#[test]
fn to_static_copies_every_field() {
    let a = card(Rank::Nine, Suit::Clubs);
    let d = card(Rank::Jack, Suit::Clubs);
    let h = card(Rank::Six, Suit::Spades);
    let v = view(Suit::Hearts, vec![a], vec![d], vec![h], 1, 0);
    let copy = v.to_static();
    assert_eq!(copy.trump, v.trump);
    assert_eq!(copy.attack_cards, v.attack_cards);
    assert_eq!(copy.defense_cards, v.defense_cards);
    assert_eq!(copy.hand, v.hand);
    assert_eq!(copy.player_info.len(), v.player_info.len());
    assert_eq!(copy.last_attacker, v.last_attacker);
    assert_eq!(copy.defender, v.defender);
    assert_eq!(copy.to_play, v.to_play);
}

#[test]
fn same_nontrump_suit_pairs_exhaustive() {
    // For every trump, every non-trump suit, and every pair of distinct
    // ranks, exactly one card of the pair beats the other: the higher one.
    for t in 0..4usize {
        let trump = Suit::from_ordinal(t).unwrap();
        for s in 0..4usize {
            let suit = Suit::from_ordinal(s).unwrap();
            if suit == trump {
                continue;
            }
            for ra in 1..=9usize {
                for rb in 1..=9usize {
                    if ra == rb {
                        continue;
                    }
                    let a = card(Rank::from_ordinal(ra).unwrap(), suit);
                    let b = card(Rank::from_ordinal(rb).unwrap(), suit);
                    let a_beats_b = beats_card(&a, &b, &trump);
                    let b_beats_a = beats_card(&b, &a, &trump);
                    assert_ne!(a_beats_b, b_beats_a);
                    assert_eq!(a_beats_b, ra > rb);
                }
            }
        }
    }
}

#[test]
fn validate_pile_on_refuses_to_push_table_past_six() {
    // Five attack cards already on the table: one more six fits, two do not.
    let table = vec![
        card(Rank::Six, Suit::Spades),
        card(Rank::Seven, Suit::Spades),
        card(Rank::Eight, Suit::Spades),
        card(Rank::Nine, Suit::Spades),
        card(Rank::Ten, Suit::Spades),
    ];
    let a = card(Rank::Six, Suit::Diamonds);
    let b = card(Rank::Six, Suit::Clubs);
    let v = view(Suit::Hearts, table, vec![], vec![a, b], 1, 0);
    assert!(v.validate_pile_on(&[a]).is_ok());
    assert_eq!(
        v.validate_pile_on(&[a, b]),
        Err(ValidationError::InvalidAttack(b))
    );
}
