use durak_core::bot::DummyDurakPlayer;
use durak_core::card::{Card, Rank, Suit};
use durak_core::game::{
    gen_to_play_state, Action, DurakGame, DurakPlayer, GameError, GameState, GameTurnType, Player,
    PlayerError,
};
use durak_core::toplaystate::{ToPlayState, ValidationError};
use rand::SeedableRng;

fn card(rank: Rank, suit: Suit) -> Card {
    Card { rank, suit }
}

fn rng(seed: u64) -> rand::rngs::StdRng {
    rand::rngs::StdRng::seed_from_u64(seed)
}

/// Collects every card in the state and checks the 36-card population is
/// intact: every canonical index present exactly once.
fn assert_deck_intact(state: &GameState) {
    let mut seen = [0usize; 36];
    let mut total = 0usize;
    let mut note = |cards: &Vec<Card>| {
        for c in cards {
            seen[c.ordinal()] += 1;
            total += 1;
        }
    };
    for p in &state.players {
        note(&p.hand);
    }
    note(&state.draw_pile);
    note(&state.attack_cards);
    note(&state.defense_cards);
    note(&state.discarded_cards);
    assert_eq!(total, 36);
    for (i, n) in seen.iter().enumerate() {
        assert_eq!(*n, 1, "card index {} present {} times", i, n);
    }
}

#[test]
fn add_player_duplicate_id_rejected() {
    let mut st = GameState::new();
    assert!(st.add_player(7).is_ok());
    assert_eq!(st.players.len(), 1);
    let second = st.add_player(7);
    assert!(matches!(second, Err(GameError::DuplicateId)));
    assert_eq!(st.players.len(), 1);
}

#[test]
fn add_player_seventh_rejected() {
    let mut st = GameState::new();
    for id in 0..6u64 {
        assert!(st.add_player(id).is_ok());
    }
    assert!(matches!(st.add_player(6), Err(GameError::TooManyPlayers)));
    assert_eq!(st.players.len(), 6);
}

#[test]
fn init_needs_two_players() {
    let mut st = GameState::new();
    st.add_player(1).unwrap();
    assert!(matches!(
        st.init(&mut rng(1)),
        Err(GameError::NotEnoughPlayers)
    ));
}

#[test]
fn init_deals_six_sorted_cards_each_and_keeps_the_deck_whole() {
    for n in 2..=6usize {
        let mut st = GameState::new();
        for id in 0..n as u64 {
            st.add_player(id).unwrap();
        }
        st.init(&mut rng(42 + n as u64)).unwrap();
        assert_eq!(st.players.len(), n);
        for p in &st.players {
            assert_eq!(p.hand.len(), 6);
        }
        assert_eq!(st.draw_pile.len(), 36 - 6 * n);
        assert_eq!(st.to_play, 0);
        assert_eq!(st.defender, 1);
        assert_eq!(st.turn_type, GameTurnType::Attack);
        assert_eq!(st.attackers.len(), n - 1);
        assert!(!st.attackers.contains(&1));
        assert_deck_intact(&st);
    }
}

#[test]
fn full_game_of_bots_conserves_cards_and_terminates() {
    for seed in [3u64, 17, 99] {
        for n in [2usize, 3, 6] {
            let mut st = GameState::new();
            let mut engines: Vec<DummyDurakPlayer> = Vec::new();
            for id in 0..n as u64 {
                st.add_player(id).unwrap();
                engines.push(DummyDurakPlayer::new());
            }
            st.init(&mut rng(seed)).unwrap();
            let mut turns = 0usize;
            while st.turn_type != GameTurnType::GameEnd {
                st.play_turn(&mut engines).unwrap();
                assert_deck_intact(&st);
                turns += 1;
                assert!(turns < 20_000, "game did not terminate");
            }
            let holding = st.players.iter().filter(|p| !p.hand.is_empty()).count();
            assert!(holding <= 1, "more than one player left holding cards");
        }
    }
}

#[test]
fn durak_game_wrapper_runs_a_whole_game() {
    let mut game: DurakGame<DummyDurakPlayer> = DurakGame::new();
    for _ in 0..3 {
        game.add_player(DummyDurakPlayer::new()).unwrap();
    }
    // The bots pick distinct ids.
    let ids: Vec<u64> = game.state.players.iter().map(|p| p.id).collect();
    assert_eq!(ids.len(), 3);
    for i in 0..ids.len() {
        for j in (i + 1)..ids.len() {
            assert_ne!(ids[i], ids[j]);
        }
    }
    game.init(&mut rng(5)).unwrap();
    let mut turns = 0usize;
    while !game.game_over() {
        game.play_turn().unwrap();
        turns += 1;
        assert!(turns < 20_000, "game did not terminate");
    }
    let outcomes = game.into_outcomes();
    assert_eq!(outcomes.len(), 3);
    let losers = outcomes.iter().filter(|(_, won)| !won).count();
    assert!(losers <= 1);
}

/// An agent that claims a card it does not hold.
struct CheatingPlayer {
    bogus: Card,
}

impl DurakPlayer for CheatingPlayer {
    fn attack(&mut self, _state: &ToPlayState) -> Result<Action, PlayerError> {
        Ok(Action::Play(self.bogus))
    }

    fn defend(&mut self, _state: &ToPlayState) -> Result<Action, PlayerError> {
        Ok(Action::Pass)
    }

    fn pile_on(&mut self, _state: &ToPlayState) -> Result<Vec<Card>, PlayerError> {
        Ok(Vec::new())
    }

    fn get_id(&mut self, _player_info: &Vec<durak_core::toplaystate::PlayerInfo>) -> Result<u64, PlayerError> {
        Ok(99)
    }
}

#[test]
fn cheating_attacker_aborts_without_mutating_piles() {
    // Two players; the attacker submits a card that is not in its hand.
    let bogus = card(Rank::Ace, Suit::Hearts);
    let mut st = GameState {
        trump: Suit::Clubs,
        players: vec![
            Player {
                id: 1,
                hand: vec![card(Rank::Six, Suit::Spades), card(Rank::Seven, Suit::Spades)],
            },
            Player {
                id: 2,
                hand: vec![card(Rank::Six, Suit::Diamonds), card(Rank::Seven, Suit::Diamonds)],
            },
        ],
        attackers: vec![0],
        attackers_passed: vec![],
        draw_pile: vec![],
        attack_cards: vec![],
        defense_cards: vec![],
        discarded_cards: vec![],
        defender: 1,
        last_attacker: 0,
        to_play: 0,
        turn_type: GameTurnType::Attack,
    };
    let mut engines = vec![
        CheatingPlayer { bogus },
        CheatingPlayer { bogus },
    ];
    let before_hand0 = st.players[0].hand.clone();
    let before_hand1 = st.players[1].hand.clone();
    let result = st.play_turn(&mut engines);
    match result {
        Err(GameError::InvalidMove(ValidationError::CardNotInHand(c))) => assert_eq!(c, bogus),
        other => panic!("expected CardNotInHand, got {:?}", other.is_ok()),
    }
    assert!(st.attack_cards.is_empty());
    assert!(st.defense_cards.is_empty());
    assert!(st.discarded_cards.is_empty());
    assert_eq!(st.players[0].hand, before_hand0);
    assert_eq!(st.players[1].hand, before_hand1);
}

#[test]
fn helpless_defender_forces_pile_on_then_absorbs() {
    // The attacker opens with a six of a non-trump suit; the defender holds
    // only sixes of other non-trump suits, so no card beats the attack.
    let mut st = GameState {
        trump: Suit::Hearts,
        players: vec![
            Player {
                id: 1,
                hand: vec![card(Rank::Six, Suit::Spades), card(Rank::King, Suit::Spades)],
            },
            Player {
                id: 2,
                hand: vec![card(Rank::Six, Suit::Diamonds), card(Rank::Six, Suit::Clubs)],
            },
        ],
        attackers: vec![0],
        attackers_passed: vec![],
        draw_pile: vec![],
        attack_cards: vec![],
        defense_cards: vec![],
        discarded_cards: vec![],
        defender: 1,
        last_attacker: 0,
        to_play: 0,
        turn_type: GameTurnType::Attack,
    };
    let mut engines = vec![DummyDurakPlayer::new(), DummyDurakPlayer::new()];

    // Attack turn: the bot plays its first card, the six of spades.
    st.play_turn(&mut engines).unwrap();
    assert_eq!(st.turn_type, GameTurnType::Defense);
    assert_eq!(st.attack_cards, vec![card(Rank::Six, Suit::Spades)]);

    // Defense turn: every card in the defender's hand fails validation, so
    // the bot passes and the round moves to pile-on.
    let view = gen_to_play_state(&st);
    for c in view.hand.iter() {
        assert!(view.validate_defense(&Action::Play(*c)).is_err());
    }
    st.play_turn(&mut engines).unwrap();
    assert_eq!(st.turn_type, GameTurnType::PileOn);

    // Pile-on turn: the bots add nothing; the round ends.
    st.play_turn(&mut engines).unwrap();
    assert_eq!(st.turn_type, GameTurnType::EndRound);
    assert_ne!(st.to_play, st.defender);

    // Settlement: the defender absorbs the lone attack card.
    st.play_turn(&mut engines).unwrap();
    assert_eq!(st.players[1].hand.len(), 3);
    assert!(st.players[1]
        .hand
        .contains(&card(Rank::Six, Suit::Spades)));
    assert!(st.discarded_cards.is_empty());
}

#[test]
fn lone_remaining_player_triggers_game_end() {
    // At the end-of-round evaluation exactly one player still holds cards:
    // the machine must go straight to GameEnd without another attack turn.
    let mut st = GameState {
        trump: Suit::Hearts,
        players: vec![
            Player { id: 1, hand: vec![] },
            Player {
                id: 2,
                hand: vec![card(Rank::Six, Suit::Diamonds)],
            },
        ],
        attackers: vec![0],
        attackers_passed: vec![],
        draw_pile: vec![],
        attack_cards: vec![],
        defense_cards: vec![],
        discarded_cards: vec![],
        defender: 1,
        last_attacker: 0,
        to_play: 1,
        turn_type: GameTurnType::EndRound,
    };
    let mut engines = vec![DummyDurakPlayer::new(), DummyDurakPlayer::new()];
    st.play_turn(&mut engines).unwrap();
    assert_eq!(st.turn_type, GameTurnType::GameEnd);
}

#[test]
fn successful_defense_discards_the_table() {
    // EndRound with to_play == defender: the whole table is discarded and no
    // hand changes except by refill.
    let a1 = card(Rank::Six, Suit::Spades);
    let d1 = card(Rank::Ten, Suit::Spades);
    let mut st = GameState {
        trump: Suit::Hearts,
        players: vec![
            Player {
                id: 1,
                hand: vec![card(Rank::King, Suit::Clubs)],
            },
            Player {
                id: 2,
                hand: vec![card(Rank::Queen, Suit::Clubs)],
            },
        ],
        attackers: vec![0],
        attackers_passed: vec![0],
        draw_pile: vec![],
        attack_cards: vec![a1],
        defense_cards: vec![d1],
        discarded_cards: vec![],
        defender: 1,
        last_attacker: 0,
        to_play: 1,
        turn_type: GameTurnType::EndRound,
    };
    let mut engines = vec![DummyDurakPlayer::new(), DummyDurakPlayer::new()];
    st.play_turn(&mut engines).unwrap();
    assert_eq!(st.discarded_cards, vec![a1, d1]);
    assert_eq!(st.players[0].hand.len(), 1);
    assert_eq!(st.players[1].hand.len(), 1);
    assert!(st.attack_cards.is_empty());
    assert!(st.defense_cards.is_empty());
}

#[test]
fn abandoned_defense_grows_defender_hand_by_table_size() {
    // EndRound with to_play != defender: the defender's hand absorbs exactly
    // the table (two cards here), before any refill.
    let a1 = card(Rank::Six, Suit::Spades);
    let d1 = card(Rank::Ten, Suit::Spades);
    let mut st = GameState {
        trump: Suit::Hearts,
        players: vec![
            Player {
                id: 1,
                hand: vec![card(Rank::King, Suit::Clubs)],
            },
            Player {
                id: 2,
                hand: vec![card(Rank::Queen, Suit::Clubs)],
            },
        ],
        attackers: vec![0],
        attackers_passed: vec![],
        draw_pile: vec![],
        attack_cards: vec![a1],
        defense_cards: vec![d1],
        discarded_cards: vec![],
        defender: 1,
        last_attacker: 0,
        to_play: 0,
        turn_type: GameTurnType::EndRound,
    };
    let mut engines = vec![DummyDurakPlayer::new(), DummyDurakPlayer::new()];
    st.play_turn(&mut engines).unwrap();
    assert_eq!(st.players[1].hand.len(), 3);
    assert!(st.discarded_cards.is_empty());
    assert_eq!(st.players[0].hand.len(), 1);
}

#[test]
fn refill_draws_back_to_six_from_the_talon() {
    let mut st = GameState::new();
    st.add_player(1).unwrap();
    st.add_player(2).unwrap();
    st.init(&mut rng(11)).unwrap();
    // Move two cards from player 0's hand into the discard pile by hand and
    // refill: the hand must come back to six and the pile shrink by two.
    let c1 = st.players[0].hand.pop().unwrap();
    let c2 = st.players[0].hand.pop().unwrap();
    st.discarded_cards.push(c1);
    st.discarded_cards.push(c2);
    let pile_before = st.draw_pile.len();
    st.refill_from_talon(0);
    assert_eq!(st.players[0].hand.len(), 6);
    assert_eq!(st.draw_pile.len(), pile_before - 2);
    assert_deck_intact(&st);
}

#[test]
fn bot_picks_an_unused_id() {
    let mut game: DurakGame<DummyDurakPlayer> = DurakGame::new();
    game.add_player(DummyDurakPlayer::new()).unwrap();
    game.add_player(DummyDurakPlayer::new()).unwrap();
    game.add_player(DummyDurakPlayer::new().with_wait(250)).unwrap();
    let ids: Vec<u64> = game.state.players.iter().map(|p| p.id).collect();
    assert_eq!(ids, vec![1, 2, 3]);
}

/// An agent that piles on every hand card whose rank is already on the
/// table, and otherwise plays like a passive defender.
struct PilingPlayer;

impl DurakPlayer for PilingPlayer {
    fn attack(&mut self, state: &ToPlayState) -> Result<Action, PlayerError> {
        for &c in state.hand.iter() {
            if state.validate_attack(&Action::Play(c)).is_ok() {
                return Ok(Action::Play(c));
            }
        }
        Ok(Action::Pass)
    }

    fn defend(&mut self, _state: &ToPlayState) -> Result<Action, PlayerError> {
        Ok(Action::Pass)
    }

    fn pile_on(&mut self, state: &ToPlayState) -> Result<Vec<Card>, PlayerError> {
        let mut cards = Vec::new();
        for &c in state.hand.iter() {
            if state.validate_pile_on_single(&c).is_ok() {
                cards.push(c);
            }
        }
        Ok(cards)
    }

    fn get_id(&mut self, _player_info: &Vec<durak_core::toplaystate::PlayerInfo>) -> Result<u64, PlayerError> {
        Ok(50)
    }
}

#[test]
fn pile_on_moves_matching_cards_onto_the_attack() {
    let mut st = GameState {
        trump: Suit::Hearts,
        players: vec![
            Player {
                id: 1,
                hand: vec![card(Rank::Six, Suit::Spades), card(Rank::Nine, Suit::Clubs)],
            },
            Player {
                id: 2,
                hand: vec![card(Rank::Six, Suit::Diamonds)],
            },
            Player {
                id: 3,
                hand: vec![card(Rank::Six, Suit::Clubs)],
            },
        ],
        attackers: vec![0, 2],
        attackers_passed: vec![],
        draw_pile: vec![],
        attack_cards: vec![],
        defense_cards: vec![],
        discarded_cards: vec![],
        defender: 1,
        last_attacker: 0,
        to_play: 0,
        turn_type: GameTurnType::Attack,
    };
    let mut engines = vec![PilingPlayer, PilingPlayer, PilingPlayer];

    // Attack: player 0 opens with the six of spades.
    st.play_turn(&mut engines).unwrap();
    assert_eq!(st.attack_cards, vec![card(Rank::Six, Suit::Spades)]);
    // Defense: the defender gives up.
    st.play_turn(&mut engines).unwrap();
    assert_eq!(st.turn_type, GameTurnType::PileOn);
    // Pile-on: player 0 has no matching rank left, player 2 adds its six.
    st.play_turn(&mut engines).unwrap();
    assert_eq!(
        st.attack_cards,
        vec![card(Rank::Six, Suit::Spades), card(Rank::Six, Suit::Clubs)]
    );
    assert!(st.players[2].hand.is_empty());
    assert_eq!(st.turn_type, GameTurnType::EndRound);
    assert_eq!(st.to_play, 2); // (defender + 1) % 3
    // Settlement: the defender absorbs all three sixes.
    st.play_turn(&mut engines).unwrap();
    assert_eq!(st.players[1].hand.len(), 3);
    assert!(st.discarded_cards.is_empty());
}

#[test]
fn attack_pass_moves_priority_to_the_next_unpassed_attacker() {
    // Player 0 has no cards, so its attack turn is an automatic pass and
    // priority moves to the other attacker, player 2.
    let mut st = GameState {
        trump: Suit::Hearts,
        players: vec![
            Player { id: 1, hand: vec![] },
            Player {
                id: 2,
                hand: vec![card(Rank::Ten, Suit::Diamonds)],
            },
            Player {
                id: 3,
                hand: vec![card(Rank::Six, Suit::Clubs)],
            },
        ],
        attackers: vec![0, 2],
        attackers_passed: vec![],
        draw_pile: vec![],
        attack_cards: vec![],
        defense_cards: vec![],
        discarded_cards: vec![],
        defender: 1,
        last_attacker: 0,
        to_play: 0,
        turn_type: GameTurnType::Attack,
    };
    let mut engines = vec![
        DummyDurakPlayer::new(),
        DummyDurakPlayer::new(),
        DummyDurakPlayer::new(),
    ];
    st.play_turn(&mut engines).unwrap();
    assert_eq!(st.turn_type, GameTurnType::Attack);
    assert_eq!(st.to_play, 2);
    assert!(st.attackers_passed.contains(&0));
    // Player 2 holds a card, so it attacks; the pass record clears.
    st.play_turn(&mut engines).unwrap();
    assert_eq!(st.turn_type, GameTurnType::Defense);
    assert_eq!(st.attack_cards, vec![card(Rank::Six, Suit::Clubs)]);
    assert!(st.attackers_passed.is_empty());
    assert_eq!(st.last_attacker, 2);
    assert_eq!(st.to_play, st.defender);
}

#[test]
fn bot_id_skips_past_taken_ids_but_never_overflows() {
    let mut bot = DummyDurakPlayer::new();
    let infos = vec![
        durak_core::toplaystate::PlayerInfo { id: 5, hand_len: 0 },
        durak_core::toplaystate::PlayerInfo { id: u64::MAX, hand_len: 0 },
    ];
    // The id climbs past 5; the unexceedable maximum id is left alone.
    assert_eq!(bot.get_id(&infos).unwrap(), 6);
}

#[test]
fn init_with_seven_players_rejected() {
    // `add_player` never admits a seventh player, so build the roster
    // directly: `init` itself must refuse it.
    let mut st = GameState::new();
    for id in 0..7u64 {
        st.players.push(Player { id, hand: vec![] });
    }
    assert!(matches!(st.init(&mut rng(1)), Err(GameError::TooManyPlayers)));
    assert_eq!(st.players.len(), 7);
    assert!(st.draw_pile.is_empty());
}
