//! The game engine: authoritative state, the turn state machine, and the
//! player-agent interface it drives.

use vstd::prelude::*;

verus! {

use vstd::multiset::Multiset;
use crate::card::{Card, Suit, sort_cards};
use crate::toplaystate::{PlayerInfo, ToPlayState, ValidationError};

/// The actions available to a player on attack and defense turns.
#[derive(PartialEq, Eq, Structural, Copy, Clone, Debug)]
pub enum Action {
    /// Put the given card into play.
    Play(Card),
    /// Decline to play a card.
    Pass,
}

/// Whether the player is ready for another game.
#[derive(PartialEq, Eq, Structural, Copy, Clone, Debug)]
pub enum Ready {
    Yes,
    No,
}

/// A failure reported by a player agent (an input error, a broken
/// connection); the engine treats it as fatal for the whole game.
#[derive(Clone, Debug)]
pub struct PlayerError {
    /// A human-readable description of the failure.
    pub message: String,
}

impl PlayerError {
    /// Wraps a description of an agent failure.
    pub fn new(message: String) -> (r: PlayerError)
        ensures
            r.message == message,
    {
        PlayerError { message }
    }
}

/// The ways a game can fail.
#[derive(Clone, Debug)]
pub enum GameError {
    /// `add_player` was given an id that is already registered.
    DuplicateId,
    /// More than six players.
    TooManyPlayers,
    /// `init` needs at least two registered players.
    NotEnoughPlayers,
    /// The draw pile ran out where the rules promise cards.
    NotEnoughCards,
    /// A submitted move failed re-validation; the game aborts.
    InvalidMove(ValidationError),
    /// A player agent failed; the game aborts.
    Agent(PlayerError),
}

/// The turn state machine's discriminant; `GameEnd` is terminal.
#[derive(PartialEq, Eq, Structural, Copy, Clone, Debug)]
pub enum GameTurnType {
    Attack,
    Defense,
    PileOn,
    EndRound,
    GameEnd,
}

/// One registered player: a stable id and the hand it currently holds.
pub struct Player {
    /// The externally supplied id, unique within a game.
    pub id: u64,
    /// The player's hand.
    pub hand: Vec<Card>,
}

/// The multiset of cards held by the players of `players`.
pub open spec fn hands_multiset(players: Seq<Player>) -> Multiset<Card>
    decreases players.len(),
{
    if players.len() == 0 {
        Multiset::empty()
    } else {
        hands_multiset(players.drop_last()).add(players.last().hand@.to_multiset())
    }
}

/// The multiset holding each of the 36 distinct cards exactly once.
pub open spec fn full_deck() -> Multiset<Card> {
    Seq::new(36, |i: int| crate::card::card_of_ordinal(i)).to_multiset()
}

/// Replacing one player's record exchanges exactly that player's hand in the
/// combined multiset.
proof fn lemma_hands_multiset_update(players: Seq<Player>, i: int, p: Player)
    requires
        0 <= i < players.len(),
    ensures
        hands_multiset(players.update(i, p)).add(players[i].hand@.to_multiset())
            == hands_multiset(players).add(p.hand@.to_multiset()),
    decreases players.len(),
{
    broadcast use vstd::multiset::group_multiset_axioms;

    let upd = players.update(i, p);
    if i == players.len() - 1 {
        assert(upd.drop_last() =~= players.drop_last());
        assert(upd.last() == p);
        assert(hands_multiset(upd) == hands_multiset(players.drop_last()).add(
            p.hand@.to_multiset(),
        ));
        assert(players.last() == players[i]);
        assert(hands_multiset(players) == hands_multiset(players.drop_last()).add(
            players[i].hand@.to_multiset(),
        ));
        let lhs = hands_multiset(upd).add(players[i].hand@.to_multiset());
        let rhs = hands_multiset(players).add(p.hand@.to_multiset());
        assert forall|v: Card| lhs.count(v) == rhs.count(v) by {
            assert(hands_multiset(upd).count(v) == hands_multiset(players.drop_last()).count(v)
                + p.hand@.to_multiset().count(v));
            assert(hands_multiset(players).count(v) == hands_multiset(players.drop_last()).count(
                v,
            ) + players[i].hand@.to_multiset().count(v));
        }
        assert(lhs =~= rhs);
    } else {
        lemma_hands_multiset_update(players.drop_last(), i, p);
        assert(upd.drop_last() =~= players.drop_last().update(i, p));
        assert(upd.last() == players.last());
        assert(players.drop_last()[i] == players[i]);
        assert(hands_multiset(upd) == hands_multiset(players.drop_last().update(i, p)).add(
            players.last().hand@.to_multiset(),
        ));
        assert(hands_multiset(players) == hands_multiset(players.drop_last()).add(
            players.last().hand@.to_multiset(),
        ));
        let lhs = hands_multiset(upd).add(players[i].hand@.to_multiset());
        let rhs = hands_multiset(players).add(p.hand@.to_multiset());
        assert forall|v: Card| lhs.count(v) == rhs.count(v) by {
            assert(hands_multiset(players.drop_last().update(i, p)).add(
                players.drop_last()[i].hand@.to_multiset(),
            ).count(v) == hands_multiset(players.drop_last()).add(
                p.hand@.to_multiset(),
            ).count(v));
            assert(hands_multiset(players.drop_last().update(i, p)).count(v)
                + players[i].hand@.to_multiset().count(v) == hands_multiset(
                players.drop_last(),
            ).count(v) + p.hand@.to_multiset().count(v));
        }
        assert(lhs =~= rhs);
    }
}

/// How many cards a refill draws: up to six in the hand, no more than the
/// pile holds.
pub open spec fn refill_take(hand_len: int, pile_len: int) -> int {
    if hand_len >= 6 {
        0
    } else if pile_len < 6 - hand_len {
        pile_len
    } else {
        6 - hand_len
    }
}

/// The talon size left after the first `k` players of `order` (each
/// appearing at most once) have drawn in turn, starting from `pile_len`
/// cards: each draws up to six in hand, and a short talon serves earlier
/// players first.
pub open spec fn pile_len_after(
    players: Seq<Player>,
    order: Seq<usize>,
    pile_len: int,
    k: int,
) -> int
    decreases k,
{
    if k <= 0 {
        pile_len
    } else {
        let prev = pile_len_after(players, order, pile_len, k - 1);
        prev - refill_take(players[order[k - 1] as int].hand@.len() as int, prev)
    }
}

/// Whether the cards on and off the table are the same in both states.
pub open spec fn same_table(a: GameState, b: GameState) -> bool {
    &&& a.attack_cards@ == b.attack_cards@
    &&& a.defense_cards@ == b.defense_cards@
    &&& a.discarded_cards@ == b.discarded_cards@
}

/// Whether the trump, the role indices, the turn type and the attacker
/// bookkeeping are the same in both states.
pub open spec fn same_roles(a: GameState, b: GameState) -> bool {
    &&& a.trump == b.trump
    &&& a.defender == b.defender
    &&& a.to_play == b.to_play
    &&& a.last_attacker == b.last_attacker
    &&& a.turn_type == b.turn_type
    &&& a.attackers@ == b.attackers@
    &&& a.attackers_passed@ == b.attackers_passed@
}

/// Whether every player record is the same in both states.
pub open spec fn same_players(a: GameState, b: GameState) -> bool {
    a.players@ == b.players@
}

/// The authoritative, mutable game record.
pub struct GameState {
    /// The trump suit, fixed for the whole game once `init` has run.
    pub trump: Suit,
    /// Every registered player, in registration order; indices into this
    /// vector identify players everywhere else.
    pub players: Vec<Player>,
    /// Indices of the players eligible to attack this round.
    pub attackers: Vec<usize>,
    /// The attackers that have passed since the last successful attack card.
    pub attackers_passed: Vec<usize>,
    /// The talon, consumed from its end.
    pub draw_pile: Vec<Card>,
    /// The attack cards in play this round.
    pub attack_cards: Vec<Card>,
    /// The defense cards in play this round, parallel to `attack_cards`.
    pub defense_cards: Vec<Card>,
    /// Cards permanently out of play.
    pub discarded_cards: Vec<Card>,
    /// The index of this round's defender.
    pub defender: usize,
    /// The attacker whose card most recently opened the live exchange.
    pub last_attacker: usize,
    /// The player whose decision is awaited.
    pub to_play: usize,
    /// The state machine's discriminant.
    pub turn_type: GameTurnType,
}

impl GameState {
    /// Whether some registered player carries `id`.
    pub open spec fn has_player_id(self, id: u64) -> bool {
        exists|i: int| 0 <= i < self.players@.len() && self.players@[i].id == id
    }

    /// No two registered players share an id.
    pub open spec fn ids_unique(self) -> bool {
        forall|i: int, j: int|
            0 <= i < j < self.players@.len() ==> self.players@[i].id != self.players@[j].id
    }

    /// Every card of the game, wherever it currently lies.
    pub open spec fn cards_multiset(self) -> Multiset<Card> {
        hands_multiset(self.players@).add(self.draw_pile@.to_multiset()).add(
            self.attack_cards@.to_multiset(),
        ).add(self.defense_cards@.to_multiset()).add(self.discarded_cards@.to_multiset())
    }

    /// The number of players still holding cards.
    pub open spec fn count_nonempty(self) -> int {
        count_nonempty_upto(self.players@, self.players@.len() as int)
    }

    /// Well-formedness of an initialized, running game: player count and
    /// role indices in range, unique ids, the defender outside the attacker
    /// set, the table shaped as the turn type demands, and the 36-card
    /// population intact.
    pub open spec fn wf(self) -> bool {
        &&& 2 <= self.players@.len() <= 6
        &&& self.ids_unique()
        &&& self.defender < self.players@.len()
        &&& self.to_play < self.players@.len()
        &&& self.last_attacker < self.players@.len()
        &&& forall|i: int|
            0 <= i < self.attackers@.len() ==> self.attackers@[i] < self.players@.len()
                && self.attackers@[i] != self.defender
        &&& forall|i: int, j: int|
            0 <= i < j < self.attackers@.len() ==> self.attackers@[i] != self.attackers@[j]
        &&& self.defense_cards@.len() <= self.attack_cards@.len()
        &&& self.attack_cards@.len() <= 6
        &&& self.turn_type is Attack ==> self.attack_cards@.len() == self.defense_cards@.len()
            && self.attack_cards@.len() <= 5 && self.to_play != self.defender
        &&& self.turn_type is Defense ==> self.attack_cards@.len() == self.defense_cards@.len()
            + 1 && self.attack_cards@.len() <= 6 && self.to_play == self.defender
            && self.last_attacker != self.defender
        &&& self.turn_type is GameEnd ==> self.attack_cards@.len() == 0
            && self.defense_cards@.len() == 0
        &&& self.cards_multiset() == full_deck()
    }

    /// Whether no card has been dealt or played yet: the registration stage.
    pub open spec fn is_fresh(self) -> bool {
        &&& forall|i: int| 0 <= i < self.players@.len() ==> self.players@[i].hand@.len() == 0
        &&& self.draw_pile@.len() == 0
        &&& self.attack_cards@.len() == 0
        &&& self.defense_cards@.len() == 0
        &&& self.discarded_cards@.len() == 0
        &&& self.attackers@.len() == 0
        &&& self.attackers_passed@.len() == 0
    }

    /// Creates an empty game record, ready for player registration.
    pub fn new() -> (r: GameState)
        ensures
            r.players@.len() == 0,
            r.is_fresh(),
            r.ids_unique(),
            r.turn_type == GameTurnType::Attack,
            r.trump == Suit::Hearts,
            r.defender == 0,
            r.last_attacker == 0,
            r.to_play == 0,
    {
        GameState {
            trump: Suit::Hearts,
            players: Vec::new(),
            attackers: Vec::new(),
            attackers_passed: Vec::new(),
            draw_pile: Vec::new(),
            attack_cards: Vec::new(),
            defense_cards: Vec::new(),
            discarded_cards: Vec::new(),
            defender: 0usize,
            last_attacker: 0usize,
            to_play: 0usize,
            turn_type: GameTurnType::Attack,
        }
    }

    /// Registers a player.  Fails with `DuplicateId` when the id is taken
    /// and with `TooManyPlayers` when six players are already registered;
    /// in both cases the state is left unchanged.
    pub fn add_player(&mut self, id: u64) -> (r: Result<(), GameError>)
        ensures
            old(self).has_player_id(id) ==> {
                &&& r matches Err(e) && e is DuplicateId
                &&& *final(self) == *old(self)
            },
            !old(self).has_player_id(id) && old(self).players@.len() >= 6 ==> {
                &&& r matches Err(e) && e is TooManyPlayers
                &&& *final(self) == *old(self)
            },
            !old(self).has_player_id(id) && old(self).players@.len() < 6 ==> {
                &&& r is Ok
                &&& final(self).players@.len() == old(self).players@.len() + 1
                &&& final(self).players@.last().id == id
                &&& final(self).players@.last().hand@.len() == 0
                &&& final(self).players@.take(old(self).players@.len() as int) == old(self).players@
            },
            final(self).players@.len() >= old(self).players@.len(),
            old(self).ids_unique() ==> final(self).ids_unique(),
            old(self).is_fresh() ==> final(self).is_fresh(),
            same_table(*final(self), *old(self)),
            same_roles(*final(self), *old(self)),
            final(self).draw_pile@ == old(self).draw_pile@,
    {
        let mut i: usize = 0;
        while i < self.players.len()
            invariant
                i <= self.players@.len(),
                forall|j: int| 0 <= j < i ==> self.players@[j].id != id,
        decreases self.players@.len() - i,
        {
            if self.players[i].id == id {
                assert(self.has_player_id(id));
                return Err(GameError::DuplicateId);
            }
            i += 1;
        }
        if self.players.len() >= 6 {
            return Err(GameError::TooManyPlayers);
        }
        self.players.push(Player { id, hand: Vec::new() });
        proof {
            assert(final(self).players@.take(old(self).players@.len() as int) =~= old(self).players@);
        }
        Ok(())
    }

    /// Refills one player's hand from the talon up to six cards (fewer when
    /// the pile runs dry), then re-sorts the hand trump-last.  No card is
    /// created or lost: the hand gains exactly the cards the pile gives up.
    pub fn refill_from_talon(&mut self, player_ind: usize)
        requires
            player_ind < old(self).players@.len(),
        ensures
            ({
                let orig_hand = old(self).players@[player_ind as int].hand@;
                let orig_pile = old(self).draw_pile@;
                let take = refill_take(orig_hand.len() as int, orig_pile.len() as int);
                let new_hand = final(self).players@[player_ind as int].hand@;
                &&& final(self).draw_pile@ == orig_pile.take(orig_pile.len() - take)
                &&& new_hand.len() == orig_hand.len() + take
                &&& new_hand.to_multiset() == orig_hand.to_multiset().add(
                    orig_pile.skip(orig_pile.len() - take).to_multiset(),
                )
                &&& crate::card::sorted_by_trump(new_hand, old(self).trump)
                &&& orig_hand.len() < 6 ==> new_hand.len() == 6 || final(self).draw_pile@.len()
                    == 0
            }),
            final(self).players@.len() == old(self).players@.len(),
            forall|j: int|
                0 <= j < old(self).players@.len() && j != player_ind ==> final(self).players@[j]
                    == old(self).players@[j],
            final(self).players@[player_ind as int].id == old(self).players@[player_ind as int].id,
            hands_multiset(final(self).players@).add(final(self).draw_pile@.to_multiset())
                == hands_multiset(old(self).players@).add(old(self).draw_pile@.to_multiset()),
            same_table(*final(self), *old(self)),
            same_roles(*final(self), *old(self)),
    {
        broadcast use vstd::seq_lib::group_to_multiset_ensures;

        let ghost orig = *self;
        let ghost orig_hand = old(self).players@[player_ind as int].hand@;
        let ghost orig_pile = old(self).draw_pile@;
        let ghost take = refill_take(orig_hand.len() as int, orig_pile.len() as int);
        let mut drawn: usize = 0;
        while self.players[player_ind].hand.len() < 6 && self.draw_pile.len() > 0
            invariant
                player_ind < self.players@.len(),
                self.players@.len() == orig.players@.len(),
                forall|j: int|
                    0 <= j < self.players@.len() && j != player_ind ==> self.players@[j]
                        == orig.players@[j],
                self.players@[player_ind as int].id == orig.players@[player_ind as int].id,
                orig_hand == orig.players@[player_ind as int].hand@,
                orig_pile == orig.draw_pile@,
                drawn <= orig_pile.len(),
                self.draw_pile@ == orig_pile.take(orig_pile.len() - drawn),
                self.players@[player_ind as int].hand@.len() == orig_hand.len() + drawn,
                self.players@[player_ind as int].hand@.to_multiset() == orig_hand.to_multiset()
                    .add(orig_pile.skip(orig_pile.len() - drawn).to_multiset()),
                orig_hand.len() + drawn <= 6 || drawn == 0,
                drawn > 0 ==> orig_hand.len() + drawn <= 6,
                same_table(*self, orig),
                same_roles(*self, orig),
            decreases self.draw_pile@.len(),
        {
            let ghost pile_before = self.draw_pile@;
            let ghost hand_before = self.players@[player_ind as int].hand@;
            let c = self.draw_pile.pop().unwrap();
            self.players[player_ind].hand.push(c);
            drawn += 1;
            proof {
                broadcast use vstd::seq_lib::group_to_multiset_ensures;
                broadcast use vstd::seq_lib::lemma_multiset_commutative;

                let n = orig_pile.len() as int;
                let d = drawn as int;
                assert(pile_before == orig_pile.take(n - (d - 1)));
                assert(c == orig_pile[n - d]);
                assert(self.draw_pile@ =~= orig_pile.take(n - d));
                assert(orig_pile.skip(n - d) =~= Seq::empty().push(c) + orig_pile.skip(n - (d
                    - 1)));
                assert(Seq::<Card>::empty().push(c).to_multiset() =~= Multiset::empty().insert(
                    c,
                )) by {
                    assert(Seq::<Card>::empty().to_multiset().len() == 0);
                    assert(Seq::<Card>::empty().to_multiset() =~= Multiset::<Card>::empty());
                }
                assert(orig_pile.skip(n - d).to_multiset() =~= orig_pile.skip(
                    n - (d - 1),
                ).to_multiset().insert(c));
                assert(self.players@[player_ind as int].hand@ == hand_before.push(c));
                assert(self.players@[player_ind as int].hand@.to_multiset()
                    =~= orig_hand.to_multiset().add(orig_pile.skip(n - d).to_multiset()));
            }
        }
        proof {
            assert(drawn == take);
        }
        let trump = self.trump;
        let ghost before_sort = *self;
        sort_cards(&mut self.players[player_ind].hand, trump);
        proof {
            assert(final(self).players@ =~= before_sort.players@.update(
                player_ind as int,
                final(self).players@[player_ind as int],
            ));
            lemma_hands_multiset_update(
                before_sort.players@,
                player_ind as int,
                final(self).players@[player_ind as int],
            );
            assert(orig.players@ =~= before_sort.players@.update(
                player_ind as int,
                orig.players@[player_ind as int],
            ));
            lemma_hands_multiset_update(
                before_sort.players@,
                player_ind as int,
                orig.players@[player_ind as int],
            );
            let lhs = hands_multiset(final(self).players@).add(
                final(self).draw_pile@.to_multiset(),
            );
            let rhs = hands_multiset(orig.players@).add(orig.draw_pile@.to_multiset());
            assert forall|v: Card| lhs.count(v) == rhs.count(v) by {
                broadcast use vstd::seq_lib::group_to_multiset_ensures;

                assert(hands_multiset(
                    before_sort.players@.update(
                        player_ind as int,
                        final(self).players@[player_ind as int],
                    ),
                ).add(before_sort.players@[player_ind as int].hand@.to_multiset()).count(v)
                    == hands_multiset(before_sort.players@).add(
                    final(self).players@[player_ind as int].hand@.to_multiset(),
                ).count(v));
                assert(hands_multiset(
                    before_sort.players@.update(
                        player_ind as int,
                        orig.players@[player_ind as int],
                    ),
                ).add(before_sort.players@[player_ind as int].hand@.to_multiset()).count(v)
                    == hands_multiset(before_sort.players@).add(
                    orig.players@[player_ind as int].hand@.to_multiset(),
                ).count(v));
                let n = orig_pile.len() as int;
                let t = take as int;
                assert(orig_pile.take(n - t).to_multiset().add(
                    orig_pile.skip(n - t).to_multiset(),
                ).count(v) == orig_pile.to_multiset().count(v)) by {
                    broadcast use vstd::seq_lib::lemma_multiset_commutative;

                    assert(orig_pile.take(n - t) + orig_pile.skip(n - t) =~= orig_pile);
                }
            }
            assert(lhs =~= rhs);
        }
    }

    /// Refills every attacker's hand (in attacker order) and then the
    /// defender's, each up to six cards or until the talon is exhausted.
    #[verifier::rlimit(100)]
    pub fn refill_players_hands(&mut self)
        requires
            forall|i: int|
                0 <= i < old(self).attackers@.len() ==> old(self).attackers@[i] < old(self).players@.len(),
            forall|i: int, j: int|
                0 <= i < j < old(self).attackers@.len() ==> old(self).attackers@[i] != old(self).attackers@[j],
            forall|i: int|
                0 <= i < old(self).attackers@.len() ==> old(self).attackers@[i] != old(self).defender,
            old(self).defender < old(self).players@.len(),
        ensures
            ({
                let order = old(self).attackers@.push(old(self).defender);
                let players0 = old(self).players@;
                let pile0 = old(self).draw_pile@;
                &&& final(self).draw_pile@.len() == pile_len_after(
                    players0,
                    order,
                    pile0.len() as int,
                    order.len() as int,
                )
                &&& forall|k: int|
                    0 <= k < order.len() ==> {
                        let ind = #[trigger] order[k] as int;
                        let before = pile_len_after(players0, order, pile0.len() as int, k);
                        let take = refill_take(players0[ind].hand@.len() as int, before);
                        &&& final(self).players@[ind].hand@.len() == players0[ind].hand@.len()
                            + take
                        &&& final(self).players@[ind].hand@.to_multiset()
                            == players0[ind].hand@.to_multiset().add(
                            pile0.subrange(before - take, before).to_multiset(),
                        )
                        &&& crate::card::sorted_by_trump(
                            final(self).players@[ind].hand@,
                            old(self).trump,
                        )
                    }
                &&& forall|j: int|
                    0 <= j < players0.len() && !order.contains(j as usize) ==> final(self).players@[j] == players0[j]
            }),
            forall|j: int|
                0 <= j < old(self).players@.len() ==> old(self).players@[j].hand@.to_multiset().subset_of(
                    final(self).players@[j].hand@.to_multiset(),
                ),
            final(self).players@.len() == old(self).players@.len(),
            forall|j: int|
                0 <= j < old(self).players@.len() ==> final(self).players@[j].id == old(self).players@[j].id,
            forall|j: int|
                0 <= j < old(self).players@.len() ==> final(self).players@[j].hand@.len() >= old(self).players@[j].hand@.len(),
            hands_multiset(final(self).players@).add(final(self).draw_pile@.to_multiset())
                == hands_multiset(old(self).players@).add(old(self).draw_pile@.to_multiset()),
            final(self).draw_pile@ == old(self).draw_pile@.take(
                final(self).draw_pile@.len() as int,
            ),
            forall|k: int|
                0 <= k < old(self).attackers@.len() ==> final(self).players@[old(self).attackers@[k] as int].hand@.len() >= 6 || final(self).draw_pile@.len() == 0,
            final(self).players@[old(self).defender as int].hand@.len() >= 6 || final(self).draw_pile@.len() == 0,
            same_table(*final(self), *old(self)),
            same_roles(*final(self), *old(self)),
    {
        let ghost orig = *self;
        let ghost order = old(self).attackers@.push(old(self).defender);
        let ghost players0 = old(self).players@;
        let ghost pile0 = old(self).draw_pile@;
        let mut i: usize = 0;
        while i < self.attackers.len()
            invariant
                i <= self.attackers@.len(),
                self.attackers@ == orig.attackers@,
                forall|k: int|
                    0 <= k < orig.attackers@.len() ==> orig.attackers@[k] < orig.players@.len(),
                forall|k: int, l: int|
                    0 <= k < l < orig.attackers@.len() ==> orig.attackers@[k]
                        != orig.attackers@[l],
                forall|k: int|
                    0 <= k < orig.attackers@.len() ==> orig.attackers@[k] != orig.defender,
                orig.defender < orig.players@.len(),
                order == orig.attackers@.push(orig.defender),
                players0 == orig.players@,
                pile0 == orig.draw_pile@,
                self.players@.len() == orig.players@.len(),
                forall|j: int|
                    0 <= j < orig.players@.len() ==> self.players@[j].id == orig.players@[j].id,
                forall|j: int|
                    0 <= j < orig.players@.len() ==> self.players@[j].hand@.len()
                        >= orig.players@[j].hand@.len(),
                forall|j: int|
                    0 <= j < orig.players@.len() ==> orig.players@[j].hand@.to_multiset().subset_of(
                        self.players@[j].hand@.to_multiset(),
                    ),
                hands_multiset(self.players@).add(self.draw_pile@.to_multiset())
                    == hands_multiset(orig.players@).add(orig.draw_pile@.to_multiset()),
                self.draw_pile@.len() <= orig.draw_pile@.len(),
                self.draw_pile@ == orig.draw_pile@.take(self.draw_pile@.len() as int),
                self.draw_pile@.len() == pile_len_after(
                    players0,
                    order,
                    pile0.len() as int,
                    i as int,
                ),
                forall|k: int|
                    0 <= k < i ==> {
                        let ind = #[trigger] order[k] as int;
                        let before = pile_len_after(players0, order, pile0.len() as int, k);
                        let take = refill_take(players0[ind].hand@.len() as int, before);
                        &&& self.players@[ind].hand@.len() == players0[ind].hand@.len() + take
                        &&& self.players@[ind].hand@.to_multiset()
                            == players0[ind].hand@.to_multiset().add(
                            pile0.subrange(before - take, before).to_multiset(),
                        )
                        &&& crate::card::sorted_by_trump(self.players@[ind].hand@, orig.trump)
                    },
                forall|j: int|
                    0 <= j < orig.players@.len() && !orig.attackers@.take(i as int).contains(
                        j as usize,
                    ) ==> self.players@[j] == orig.players@[j],
                forall|k: int|
                    0 <= k < i ==> self.players@[orig.attackers@[k] as int].hand@.len() >= 6
                        || self.draw_pile@.len() == 0,
                same_table(*self, orig),
                same_roles(*self, orig),
            decreases self.attackers@.len() - i,
        {
            let ind = self.attackers[i];
            let ghost before = *self;
            proof {
                assert(!orig.attackers@.take(i as int).contains(ind)) by {
                    if orig.attackers@.take(i as int).contains(ind) {
                        let w = choose|w: int|
                            0 <= w < i && orig.attackers@.take(i as int)[w] == ind;
                        assert(orig.attackers@[w] == orig.attackers@[i as int]);
                    }
                }
                assert(before.players@[ind as int] == players0[ind as int]);
            }
            self.refill_from_talon(ind);
            proof {
                let bl = before.draw_pile@.len() as int;
                let nl = self.draw_pile@.len() as int;
                assert(self.draw_pile@ == before.draw_pile@.take(nl));
                assert(before.draw_pile@ == orig.draw_pile@.take(bl));
                assert(nl <= bl <= orig.draw_pile@.len());
                assert forall|j: int| 0 <= j < nl implies self.draw_pile@[j]
                    == orig.draw_pile@[j] by {
                    assert(self.draw_pile@[j] == before.draw_pile@.take(nl)[j]);
                    assert(before.draw_pile@[j] == orig.draw_pile@.take(bl)[j]);
                }
                assert(self.draw_pile@ =~= orig.draw_pile@.take(nl));
                // The step matches the sequential-draw recursion.
                let take = refill_take(players0[ind as int].hand@.len() as int, bl);
                assert(order[i as int] == ind);
                assert(pile_len_after(players0, order, pile0.len() as int, i + 1) == bl
                    - take);
                assert(self.draw_pile@.len() == bl - take);
                // The drawn cards are the top `take` cards of the old talon.
                assert(before.draw_pile@.skip(bl - take) =~= pile0.subrange(bl - take, bl));
                assert(self.players@[ind as int].hand@.to_multiset()
                    == players0[ind as int].hand@.to_multiset().add(
                    pile0.subrange(bl - take, bl).to_multiset(),
                ));
                assert(orig.attackers@.take(i + 1) =~= orig.attackers@.take(i as int).push(
                    ind,
                ));
                assert(orig.attackers@.take(i + 1)[i as int] == ind);
                assert forall|j: int|
                    0 <= j < orig.players@.len() && !orig.attackers@.take(i + 1).contains(
                        j as usize,
                    ) implies self.players@[j] == orig.players@[j] by {
                    assert(!orig.attackers@.take(i as int).contains(j as usize)) by {
                        if orig.attackers@.take(i as int).contains(j as usize) {
                            let w = choose|w: int|
                                0 <= w < i && orig.attackers@.take(i as int)[w] == j as usize;
                            assert(orig.attackers@.take(i + 1)[w] == j as usize);
                        }
                    }
                    assert(j as usize != ind) by {
                        if j as usize == ind {
                            assert(orig.attackers@.take(i + 1).contains(j as usize));
                        }
                    }
                    assert(before.players@[j] == orig.players@[j]);
                    assert(self.players@[j] == before.players@[j]);
                }
                assert forall|j: int|
                    0 <= j < orig.players@.len() implies orig.players@[j].hand@.to_multiset().subset_of(
                    self.players@[j].hand@.to_multiset(),
                ) by {
                    if j == ind as int {
                        assert(forall|v: Card|
                            self.players@[j].hand@.to_multiset().count(v)
                                >= players0[j].hand@.to_multiset().count(v));
                    } else {
                        assert(self.players@[j] == before.players@[j]);
                    }
                }
            }
            i += 1;
        }
        let def = self.defender;
        let ghost before = *self;
        proof {
            assert(!orig.attackers@.take(orig.attackers@.len() as int).contains(def)) by {
                if orig.attackers@.take(orig.attackers@.len() as int).contains(def) {
                    let w = choose|w: int|
                        0 <= w < orig.attackers@.len() && orig.attackers@.take(
                            orig.attackers@.len() as int,
                        )[w] == def;
                    assert(orig.attackers@[w] == def);
                }
            }
            assert(before.players@[def as int] == players0[def as int]);
        }
        self.refill_from_talon(def);
        proof {
            let bl = before.draw_pile@.len() as int;
            let nl = self.draw_pile@.len() as int;
            assert(self.draw_pile@ == before.draw_pile@.take(nl));
            assert(before.draw_pile@ == orig.draw_pile@.take(bl));
            assert(nl <= bl <= orig.draw_pile@.len());
            assert forall|j: int| 0 <= j < nl implies self.draw_pile@[j]
                == orig.draw_pile@[j] by {
                assert(self.draw_pile@[j] == before.draw_pile@.take(nl)[j]);
                assert(before.draw_pile@[j] == orig.draw_pile@.take(bl)[j]);
            }
            assert(self.draw_pile@ =~= orig.draw_pile@.take(nl));
            let na = orig.attackers@.len() as int;
            let take = refill_take(players0[def as int].hand@.len() as int, bl);
            assert(order[na] == def);
            assert(pile_len_after(players0, order, pile0.len() as int, na + 1) == bl - take);
            assert(before.draw_pile@.skip(bl - take) =~= pile0.subrange(bl - take, bl));
            assert(self.players@[def as int].hand@.to_multiset()
                == players0[def as int].hand@.to_multiset().add(
                pile0.subrange(bl - take, bl).to_multiset(),
            ));
            assert forall|j: int|
                0 <= j < orig.players@.len() implies orig.players@[j].hand@.to_multiset().subset_of(
                self.players@[j].hand@.to_multiset(),
            ) by {
                if j == def as int {
                    assert(forall|v: Card|
                        self.players@[j].hand@.to_multiset().count(v)
                            >= players0[j].hand@.to_multiset().count(v));
                } else {
                    assert(self.players@[j] == before.players@[j]);
                }
            }
            assert forall|k: int|
                0 <= k < order.len() implies {
                    let ind2 = #[trigger] order[k] as int;
                    let before2 = pile_len_after(players0, order, pile0.len() as int, k);
                    let take2 = refill_take(players0[ind2].hand@.len() as int, before2);
                    &&& self.players@[ind2].hand@.len() == players0[ind2].hand@.len() + take2
                    &&& self.players@[ind2].hand@.to_multiset()
                        == players0[ind2].hand@.to_multiset().add(
                        pile0.subrange(before2 - take2, before2).to_multiset(),
                    )
                    &&& crate::card::sorted_by_trump(self.players@[ind2].hand@, orig.trump)
                } by {
                if k < na {
                    assert(order[k] == orig.attackers@[k]);
                    assert(order[k] != def);
                    assert(self.players@[order[k] as int] == before.players@[order[k] as int]);
                }
            }
            assert forall|j: int|
                0 <= j < players0.len() && !order.contains(j as usize) implies self.players@[j]
                == players0[j] by {
                assert(j != def as int);
                assert(!orig.attackers@.take(na).contains(j as usize)) by {
                    if orig.attackers@.take(na).contains(j as usize) {
                        let w = choose|w: int|
                            0 <= w < na && orig.attackers@.take(na)[w] == j as usize;
                        assert(order[w] == j as usize);
                    }
                }
                assert(before.players@[j] == players0[j]);
                assert(self.players@[j] == before.players@[j]);
            }
        }
    }

    /// Initializes the game: draws the trump suit uniformly at random,
    /// shuffles all 36 cards into the talon, deals every player a sorted
    /// six-card hand, and seats player 0 as first attacker against player 1.
    /// Fails with `NotEnoughPlayers` (leaving the state untouched) when
    /// fewer than two players are registered.
    #[verifier::loop_isolation(false)]
    pub fn init(&mut self, rng: &mut rand::rngs::StdRng) -> (r: Result<(), GameError>)
        requires
            old(self).is_fresh(),
            old(self).ids_unique(),
        ensures
            old(self).players@.len() < 2 ==> {
                &&& r matches Err(e) && e is NotEnoughPlayers
                &&& *final(self) == *old(self)
            },
            old(self).players@.len() > 6 ==> {
                &&& r matches Err(e) && e is TooManyPlayers
                &&& *final(self) == *old(self)
            },
            2 <= old(self).players@.len() <= 6 ==> {
                &&& r is Ok
                &&& final(self).wf()
                &&& final(self).players@.len() == old(self).players@.len()
                &&& forall|j: int|
                    0 <= j < old(self).players@.len() ==> final(self).players@[j].id == old(self).players@[j].id
                &&& forall|j: int|
                    0 <= j < old(self).players@.len() ==> final(self).players@[j].hand@.len()
                        == 6
                &&& forall|j: int|
                    0 <= j < old(self).players@.len() ==> crate::card::sorted_by_trump(
                        final(self).players@[j].hand@,
                        final(self).trump,
                    )
                &&& final(self).draw_pile@.len() == 36 - 6 * old(self).players@.len()
                &&& final(self).turn_type == GameTurnType::Attack
                &&& final(self).to_play == 0
                &&& final(self).defender == 1
                &&& final(self).last_attacker == 0
                &&& final(self).attack_cards@.len() == 0
                &&& final(self).defense_cards@.len() == 0
                &&& final(self).discarded_cards@.len() == 0
                &&& final(self).attackers_passed@.len() == 0
                &&& final(self).attackers@.len() == old(self).players@.len() - 1
                &&& final(self).attackers@[0] == 0
                &&& forall|k: int|
                    1 <= k < final(self).attackers@.len() ==> final(self).attackers@[k] == k + 1
            },
    {
        broadcast use vstd::seq_lib::group_to_multiset_ensures;

        if self.players.len() < 2 {
            return Err(GameError::NotEnoughPlayers);
        }
        if self.players.len() > 6 {
            return Err(GameError::TooManyPlayers);
        }
        let ghost orig = *self;
        let n = self.players.len();

        // The trump suit is an independent uniform draw, not taken from a
        // dealt card.
        let t = crate::rng::rng_index(rng, 4);
        let trump = match Suit::from_ordinal(t) {
            Some(s) => s,
            None => Suit::Hearts,
        };
        self.trump = trump;

        // All 36 cards, in canonical order.
        let mut deck: Vec<Card> = Vec::new();
        let mut i: usize = 0;
        while i < 36
            invariant
                i <= 36,
                deck@.len() == i,
                forall|j: int| 0 <= j < i ==> deck@[j] == crate::card::card_of_ordinal(j),
            decreases 36 - i,
        {
            let c = match Card::from_ordinal(i) {
                Some(c) => c,
                None => Card { rank: crate::card::Rank::Six, suit: Suit::Spades },
            };
            deck.push(c);
            i += 1;
        }
        proof {
            assert(deck@ =~= Seq::new(36, |j: int| crate::card::card_of_ordinal(j)));
            assert(self.draw_pile@.to_multiset().len() == 0);
            assert(self.draw_pile@.to_multiset() =~= Multiset::<Card>::empty());
            assert(self.draw_pile@.to_multiset().add(deck@.to_multiset()) =~= full_deck());
        }

        // Shuffle: move uniformly chosen cards into the talon one by one.
        while deck.len() > 0
            invariant
                self.draw_pile@.to_multiset().add(deck@.to_multiset()) == full_deck(),
                self.draw_pile@.len() + deck@.len() == 36,
                self.players@ == orig.players@,
                self.trump == trump,
                same_table(*self, orig),
                self.attackers@ == orig.attackers@,
                self.attackers_passed@ == orig.attackers_passed@,
                self.defender == orig.defender,
                self.to_play == orig.to_play,
                self.last_attacker == orig.last_attacker,
                self.turn_type == orig.turn_type,
            decreases deck@.len(),
        {
            let ghost deck_before = deck@;
            let ghost pile_before = self.draw_pile@;
            let idx = crate::rng::rng_index(rng, deck.len());
            let c = deck.remove(idx);
            self.draw_pile.push(c);
            proof {
                broadcast use vstd::seq_lib::group_to_multiset_ensures;

                assert(deck@.to_multiset() =~= deck_before.to_multiset().remove(c));
                assert(self.draw_pile@.to_multiset() =~= pile_before.to_multiset().insert(c));
                assert(deck_before.to_multiset().count(c) > 0);
                assert forall|v: Card|
                    self.draw_pile@.to_multiset().add(deck@.to_multiset()).count(v)
                        == full_deck().count(v) by {
                    assert(pile_before.to_multiset().add(deck_before.to_multiset()).count(v)
                        == full_deck().count(v));
                }
                assert(self.draw_pile@.to_multiset().add(deck@.to_multiset()) =~= full_deck());
            }
        }

        proof {
            lemma_hands_multiset_all_empty(self.players@);
            assert(deck@.to_multiset().len() == 0);
            assert(hands_multiset(self.players@).add(self.draw_pile@.to_multiset())
                =~= full_deck());
            assert(self.draw_pile@.len() == 36);
        }

        // Deal a sorted six-card hand to every player, in registration order.
        let mut p: usize = 0;
        while p < n
            invariant
                p <= n,
                n == self.players@.len(),
                n == orig.players@.len(),
                2 <= n <= 6,
                self.trump == trump,
                forall|j: int|
                    0 <= j < n ==> self.players@[j].id == orig.players@[j].id,
                forall|j: int| 0 <= j < p ==> self.players@[j].hand@.len() == 6,
                forall|j: int|
                    0 <= j < p ==> crate::card::sorted_by_trump(
                        self.players@[j].hand@,
                        trump,
                    ),
                forall|j: int| p <= j < n ==> self.players@[j].hand@.len() == 0,
                self.draw_pile@.len() == 36 - 6 * p,
                hands_multiset(self.players@).add(self.draw_pile@.to_multiset()) == full_deck(),
                same_table(*self, orig),
                self.attackers@ == orig.attackers@,
                self.attackers_passed@ == orig.attackers_passed@,
                self.defender == orig.defender,
                self.to_play == orig.to_play,
                self.last_attacker == orig.last_attacker,
                self.turn_type == orig.turn_type,
            decreases n - p,
        {
            let ghost before = *self;
            proof {
                assert(hands_multiset(before.players@).add(
                    before.draw_pile@.to_multiset(),
                ) == full_deck());
            }
            self.refill_from_talon(p);
            p += 1;
        }
        // Player 0 opens; player 1 defends; everyone else may join the
        // attack.
        self.to_play = 0;
        self.defender = 1;
        self.last_attacker = 0;
        self.turn_type = GameTurnType::Attack;
        self.attackers_passed.clear();
        let mut att: Vec<usize> = Vec::new();
        let mut k: usize = 0;
        while k < n
            invariant
                k <= n,
                k <= 1 ==> att@.len() == k && (forall|m: int|
                    0 <= m < att@.len() ==> att@[m] == m),
                k >= 2 ==> att@.len() == k - 1 && att@[0] == 0 && (forall|m: int|
                    1 <= m < att@.len() ==> att@[m] == m + 1),
            decreases n - k,
        {
            if k != 1 {
                att.push(k);
            }
            k += 1;
        }
        self.attackers = att;
        proof {
            assert(self.cards_multiset() =~= full_deck()) by {
                assert(self.attack_cards@.to_multiset().len() == 0);
                assert(self.defense_cards@.to_multiset().len() == 0);
                assert(self.discarded_cards@.to_multiset().len() == 0);
                assert(hands_multiset(self.players@).add(self.draw_pile@.to_multiset())
                    == full_deck());
            }
            assert forall|i: int, j: int|
                0 <= i < j < self.players@.len() implies self.players@[i].id
                != self.players@[j].id by {
                assert(self.players@[i].id == orig.players@[i].id);
                assert(self.players@[j].id == orig.players@[j].id);
                assert(orig.players@[i].id != orig.players@[j].id);
            }
            assert(self.ids_unique());
            assert(self.defender < self.players@.len());
            assert(forall|i: int|
                0 <= i < self.attackers@.len() ==> self.attackers@[i] < self.players@.len()
                    && self.attackers@[i] != self.defender);
            assert(forall|i: int, j: int|
                0 <= i < j < self.attackers@.len() ==> self.attackers@[i] != self.attackers@[j]);
            assert(self.wf());
        }
        Ok(())
    }

    /// The effect of a played attack card `c` drawn from the active
    /// attacker's hand: it joins the attack row, the pass record clears,
    /// and the defender is up next.
    pub open spec fn attack_play_spec(pre: GameState, post: GameState) -> bool {
        &&& exists|c: Card|
            {
                &&& pre.players@[pre.to_play as int].hand@.contains(c)
                &&& (pre.attack_cards@.len() == 0 || crate::toplaystate::rank_on_table(
                    pre.attack_cards@,
                    pre.defense_cards@,
                    c.rank,
                ))
                &&& post.attack_cards@ == pre.attack_cards@.push(c)
                &&& post.players@[pre.to_play as int].hand@.to_multiset()
                    == pre.players@[pre.to_play as int].hand@.to_multiset().remove(c)
            }
        &&& post.turn_type == GameTurnType::Defense
        &&& post.to_play == pre.defender
        &&& post.last_attacker == pre.to_play
        &&& post.attackers_passed@.len() == 0
        &&& post.defense_cards@ == pre.defense_cards@
        &&& post.discarded_cards@ == pre.discarded_cards@
        &&& post.draw_pile@ == pre.draw_pile@
        &&& forall|j: int|
            0 <= j < pre.players@.len() && j != pre.to_play ==> (#[trigger] post.players@[j])
                == pre.players@[j]
    }

    /// The effect of an attack pass: the active attacker joins the pass
    /// record, and either another attacker is up or the round ends with the
    /// defender holding priority.
    pub open spec fn attack_pass_spec(pre: GameState, post: GameState) -> bool {
        &&& post.attackers_passed@ == pre.attackers_passed@.push(pre.to_play)
        &&& same_players(post, pre)
        &&& same_table(post, pre)
        &&& post.draw_pile@ == pre.draw_pile@
        &&& post.turn_type == GameTurnType::Attack || (post.turn_type == GameTurnType::EndRound
            && post.to_play == pre.defender)
    }

    /// The effect of a played defense card `c` drawn from the defender's
    /// hand: it joins the defense row; the round ends when six cards stand
    /// answered or the defender's hand emptied, else the last attacker may
    /// press on.
    pub open spec fn defense_play_spec(pre: GameState, post: GameState) -> bool {
        &&& exists|c: Card|
            {
                &&& pre.players@[pre.to_play as int].hand@.contains(c)
                &&& pre.attack_cards@.len() > 0
                &&& crate::toplaystate::beats(c, pre.attack_cards@.last(), pre.trump)
                &&& post.defense_cards@ == pre.defense_cards@.push(c)
                &&& post.players@[pre.to_play as int].hand@.to_multiset()
                    == pre.players@[pre.to_play as int].hand@.to_multiset().remove(c)
            }
        &&& post.attack_cards@ == pre.attack_cards@
        &&& post.discarded_cards@ == pre.discarded_cards@
        &&& post.draw_pile@ == pre.draw_pile@
        &&& forall|j: int|
            0 <= j < pre.players@.len() && j != pre.to_play ==> (#[trigger] post.players@[j])
                == pre.players@[j]
        &&& (post.turn_type == GameTurnType::EndRound && post.to_play == pre.defender) || (
        post.turn_type == GameTurnType::Attack && post.to_play == pre.last_attacker)
    }

    /// The effect of a defense pass: the round moves to pile-on and nothing
    /// else changes — no card is consumed.
    pub open spec fn defense_pass_spec(pre: GameState, post: GameState) -> bool {
        &&& post.turn_type == GameTurnType::PileOn
        &&& same_players(post, pre)
        &&& same_table(post, pre)
        &&& post.draw_pile@ == pre.draw_pile@
        &&& post.to_play == pre.to_play
        &&& post.defender == pre.defender
        &&& post.last_attacker == pre.last_attacker
        &&& post.attackers@ == pre.attackers@
        &&& post.attackers_passed@ == pre.attackers_passed@
    }

    /// The relation between a state at the start of an end-of-round turn
    /// and the state after it: settlement (discard or absorb), refill from
    /// the talon (attackers first, then the defender), and either the
    /// game's end (at most one player still holds cards) or the next
    /// round's seating, where the card-holders from the leader on become
    /// attackers and the next card-holder after the leader defends.
    pub open spec fn end_round_spec(pre: GameState, post: GameState) -> bool {
        let absorbed = pre.to_play != pre.defender;
        &&& post.turn_type == GameTurnType::Attack || post.turn_type == GameTurnType::GameEnd
        &&& (post.turn_type == GameTurnType::GameEnd <==> post.count_nonempty() <= 1)
        &&& post.attack_cards@.len() == 0
        &&& post.defense_cards@.len() == 0
        &&& (!absorbed ==> post.discarded_cards@ == pre.discarded_cards@ + pre.attack_cards@
            + pre.defense_cards@)
        &&& (absorbed ==> post.discarded_cards@ == pre.discarded_cards@)
        &&& post.players@.len() == pre.players@.len()
        &&& post.draw_pile@ == pre.draw_pile@.take(post.draw_pile@.len() as int)
        &&& forall|j: int|
            0 <= j < pre.players@.len() && j != pre.defender
                ==> pre.players@[j].hand@.to_multiset().subset_of(
                (#[trigger] post.players@[j]).hand@.to_multiset(),
            )
        &&& (!absorbed ==> pre.players@[pre.defender as int].hand@.to_multiset().subset_of(
            post.players@[pre.defender as int].hand@.to_multiset(),
        ) && hands_multiset(post.players@).add(post.draw_pile@.to_multiset())
            == hands_multiset(pre.players@).add(pre.draw_pile@.to_multiset()))
        &&& (absorbed ==> pre.players@[pre.defender as int].hand@.to_multiset().add(
            pre.attack_cards@.to_multiset(),
        ).add(pre.defense_cards@.to_multiset()).subset_of(
            post.players@[pre.defender as int].hand@.to_multiset(),
        ) && hands_multiset(post.players@).add(post.draw_pile@.to_multiset())
            == hands_multiset(pre.players@).add(pre.draw_pile@.to_multiset()).add(
            pre.attack_cards@.to_multiset(),
        ).add(pre.defense_cards@.to_multiset()))
        &&& (post.turn_type == GameTurnType::Attack ==> {
            &&& post.to_play < post.players@.len()
            &&& post.players@[post.to_play as int].hand@.len() > 0
            &&& post.to_play != post.defender
            &&& post.attackers@.len() >= 1
            &&& post.to_play == post.attackers@[0]
            &&& forall|j: int|
                0 <= j < post.players@.len() ==> ((#[trigger] post.players@[j]).hand@.len()
                    > 0 <==> (j as usize == post.defender || post.attackers@.contains(
                    j as usize,
                )))
            &&& (post.to_play >= pre.to_play ==> forall|m: int|
                pre.to_play <= m < post.to_play ==> post.players@[m].hand@.len() == 0)
            &&& (post.to_play < pre.to_play ==> (forall|m: int|
                pre.to_play <= m < post.players@.len() ==> post.players@[m].hand@.len()
                    == 0) && (forall|m: int|
                0 <= m < post.to_play ==> post.players@[m].hand@.len() == 0))
            &&& (post.defender > post.to_play ==> forall|m: int|
                post.to_play < m < post.defender ==> post.players@[m].hand@.len() == 0)
            &&& (post.defender < post.to_play ==> (forall|m: int|
                post.to_play < m < post.players@.len() ==> post.players@[m].hand@.len()
                    == 0) && (forall|m: int|
                0 <= m < post.defender ==> post.players@[m].hand@.len() == 0))
        })
        &&& (post.turn_type == GameTurnType::GameEnd ==> post.to_play == pre.to_play
            && post.defender == pre.defender && post.attackers@ == pre.attackers@)
    }

    /// Completes a finished round: settlement, refill (attackers first,
    /// then the defender), and the termination check or the next round's
    /// seating.  No player agent is consulted.
    #[verifier::loop_isolation(false)]
    #[verifier::rlimit(100)]
    pub fn end_round(&mut self)
        requires
            old(self).wf(),
            old(self).turn_type == GameTurnType::EndRound,
        ensures
            final(self).wf(),
            GameState::end_round_spec(*old(self), *final(self)),
            final(self).players@.len() == old(self).players@.len(),
            forall|j: int|
                0 <= j < old(self).players@.len() ==> final(self).players@[j].id == old(self).players@[j].id,
            final(self).trump == old(self).trump,
            final(self).last_attacker == old(self).last_attacker,
    {
        let ghost s0 = *self;
        self.settle_table();
        let ghost s1 = *self;
        proof {
            assert(forall|j: int|
                0 <= j < s0.players@.len() ==> s1.players@[j].id == s0.players@[j].id);
            lemma_ids_unique_transfer(s0.players@, s1.players@);
            assert(forall|k: int|
                0 <= k < s1.attackers@.len() ==> (#[trigger] s1.attackers@[k])
                    < s1.players@.len());
        }
        self.refill_players_hands();
        let ghost s2 = *self;
        proof {
            lemma_ids_unique_transfer(s1.players@, s2.players@);
            assert(s2.cards_multiset() =~= s1.cards_multiset()) by {
                assert(hands_multiset(s2.players@).add(s2.draw_pile@.to_multiset())
                    == hands_multiset(s1.players@).add(s1.draw_pile@.to_multiset()));
            }
        }
        self.advance_round();
        proof {
            broadcast use vstd::seq_lib::group_to_multiset_ensures;
            broadcast use vstd::seq_lib::lemma_multiset_commutative;

            lemma_ids_unique_transfer(s2.players@, self.players@);
            assert(self.cards_multiset() == full_deck());
            if s2.count_nonempty() >= 2 {
                assert(self.turn_type == GameTurnType::Attack);
                assert(self.attack_cards@.len() == 0);
                assert(self.defense_cards@.len() == 0);
                assert(self.wf());
            } else {
                assert(self.turn_type == GameTurnType::GameEnd);
                assert(self.wf());
            }
            // The talon only ever loses cards from its top.
            let nl = self.draw_pile@.len() as int;
            assert(self.draw_pile@ == s2.draw_pile@);
            assert(s2.draw_pile@ == s1.draw_pile@.take(nl));
            assert(s1.draw_pile@ == s0.draw_pile@);
            assert(self.draw_pile@ =~= s0.draw_pile@.take(nl));
            // Hands change only by settlement and refill.
            let d = s0.defender as int;
            if s0.to_play != s0.defender {
                assert(s1.players@[d].hand@.to_multiset()
                    == s0.players@[d].hand@.to_multiset().add(
                    s0.attack_cards@.to_multiset(),
                ).add(s0.defense_cards@.to_multiset())) by {
                    assert((s0.players@[d].hand@ + s0.attack_cards@) + s0.defense_cards@
                        == s1.players@[d].hand@);
                    assert(((s0.players@[d].hand@ + s0.attack_cards@)
                        + s0.defense_cards@).to_multiset() =~= s0.players@[d].hand@.to_multiset().add(
                        s0.attack_cards@.to_multiset(),
                    ).add(s0.defense_cards@.to_multiset()));
                }
            }
            assert forall|j: int|
                0 <= j < s0.players@.len() && j != s0.defender implies s0.players@[j].hand@.to_multiset().subset_of(
                (#[trigger] self.players@[j]).hand@.to_multiset(),
            ) by {
                assert(s1.players@[j] == s0.players@[j]);
                assert(s1.players@[j].hand@.to_multiset().subset_of(
                    s2.players@[j].hand@.to_multiset(),
                ));
                assert(self.players@[j] == s2.players@[j]);
            }
            assert(s1.players@[d].hand@.to_multiset().subset_of(
                self.players@[d].hand@.to_multiset(),
            )) by {
                assert(s1.players@[d].hand@.to_multiset().subset_of(
                    s2.players@[d].hand@.to_multiset(),
                ));
                assert(self.players@[d] == s2.players@[d]);
            }
            // Combined hands-plus-talon bookkeeping.
            let hp_post = hands_multiset(self.players@).add(self.draw_pile@.to_multiset());
            let hp_pre = hands_multiset(s0.players@).add(s0.draw_pile@.to_multiset());
            assert(hands_multiset(self.players@) == hands_multiset(s2.players@));
            if s0.to_play == s0.defender {
                assert forall|v: Card| hp_post.count(v) == hp_pre.count(v) by {
                    assert(hands_multiset(s2.players@).add(
                        s2.draw_pile@.to_multiset(),
                    ).count(v) == hands_multiset(s1.players@).add(
                        s1.draw_pile@.to_multiset(),
                    ).count(v));
                    assert(hands_multiset(s1.players@).count(v) == hands_multiset(
                        s0.players@,
                    ).count(v));
                }
                assert(hp_post =~= hp_pre);
            } else {
                let hp_pre_abs = hp_pre.add(s0.attack_cards@.to_multiset()).add(
                    s0.defense_cards@.to_multiset(),
                );
                assert forall|v: Card| hp_post.count(v) == hp_pre_abs.count(v) by {
                    assert(hands_multiset(s2.players@).add(
                        s2.draw_pile@.to_multiset(),
                    ).count(v) == hands_multiset(s1.players@).add(
                        s1.draw_pile@.to_multiset(),
                    ).count(v));
                    assert(hands_multiset(s1.players@).count(v) == hands_multiset(
                        s0.players@,
                    ).add(s0.attack_cards@.to_multiset()).add(
                        s0.defense_cards@.to_multiset(),
                    ).count(v));
                }
                assert(hp_post =~= hp_pre_abs);
            }
            // Next-round seating, restated over the final state.
            if self.turn_type == GameTurnType::Attack {
                assert(s2.count_nonempty() >= 2);
                assert forall|j: int|
                    0 <= j < self.players@.len() implies ((#[trigger] self.players@[j]).hand@.len()
                    > 0 <==> (j as usize == self.defender || self.attackers@.contains(
                    j as usize,
                ))) by {
                    if self.attackers@.contains(j as usize) {
                        let w = choose|w: int|
                            0 <= w < self.attackers@.len() && self.attackers@[w] == j as usize;
                        assert(s2.players@[self.attackers@[w] as int].hand@.len() > 0);
                    }
                }
            }
            assert(GameState::end_round_spec(s0, *self));
        }
    }

    /// Round settlement.  When the defender prevailed (`to_play` points at
    /// the defender) the whole table goes to the discard pile and no hand
    /// changes; otherwise the defender's hand absorbs every table card and
    /// no other hand changes.  Either way the table is left empty and the
    /// card population is untouched.
    pub fn settle_table(&mut self)
        requires
            old(self).defender < old(self).players@.len(),
        ensures
            old(self).to_play == old(self).defender ==> {
                &&& final(self).discarded_cards@ == old(self).discarded_cards@ + old(self).attack_cards@ + old(self).defense_cards@
                &&& final(self).players@ == old(self).players@
            },
            old(self).to_play != old(self).defender ==> {
                &&& final(self).discarded_cards@ == old(self).discarded_cards@
                &&& final(self).players@.len() == old(self).players@.len()
                &&& forall|j: int|
                    0 <= j < old(self).players@.len() && j != old(self).defender ==> final(self).players@[j] == old(self).players@[j]
                &&& final(self).players@[old(self).defender as int].id == old(self).players@[old(self).defender as int].id
                &&& final(self).players@[old(self).defender as int].hand@ == old(self).players@[old(self).defender as int].hand@ + old(self).attack_cards@ + old(self).defense_cards@
            },
            final(self).attack_cards@.len() == 0,
            final(self).defense_cards@.len() == 0,
            final(self).draw_pile@ == old(self).draw_pile@,
            final(self).trump == old(self).trump,
            final(self).defender == old(self).defender,
            final(self).to_play == old(self).to_play,
            final(self).last_attacker == old(self).last_attacker,
            final(self).turn_type == old(self).turn_type,
            final(self).attackers@ == old(self).attackers@,
            final(self).attackers_passed@ == old(self).attackers_passed@,
            final(self).cards_multiset() == old(self).cards_multiset(),
            old(self).to_play == old(self).defender ==> hands_multiset(final(self).players@)
                == hands_multiset(old(self).players@),
            old(self).to_play != old(self).defender ==> hands_multiset(final(self).players@)
                == hands_multiset(old(self).players@).add(
                old(self).attack_cards@.to_multiset(),
            ).add(old(self).defense_cards@.to_multiset()),
    {
        broadcast use vstd::seq_lib::group_to_multiset_ensures;
        broadcast use vstd::seq_lib::lemma_multiset_commutative;

        let ghost orig = *self;
        if self.to_play == self.defender {
            self.discarded_cards.append(&mut self.attack_cards);
            self.discarded_cards.append(&mut self.defense_cards);
            proof {
                assert(self.discarded_cards@ == orig.discarded_cards@ + orig.attack_cards@
                    + orig.defense_cards@);
                assert(self.attack_cards@.to_multiset().len() == 0);
                assert(self.defense_cards@.to_multiset().len() == 0);
                assert(self.cards_multiset() =~= orig.cards_multiset());
            }
        } else {
            let d = self.defender;
            self.players[d].hand.append(&mut self.attack_cards);
            self.players[d].hand.append(&mut self.defense_cards);
            proof {
                assert(self.players@[d as int].hand@ == orig.players@[d as int].hand@
                    + orig.attack_cards@ + orig.defense_cards@);
                assert(self.players@ =~= orig.players@.update(
                    d as int,
                    self.players@[d as int],
                ));
                lemma_hands_multiset_update(orig.players@, d as int, self.players@[d as int]);
                assert(self.attack_cards@.to_multiset().len() == 0);
                assert(self.defense_cards@.to_multiset().len() == 0);
                let lhs = self.cards_multiset();
                let rhs = orig.cards_multiset();
                assert forall|v: Card| lhs.count(v) == rhs.count(v) by {
                    assert(hands_multiset(
                        orig.players@.update(d as int, self.players@[d as int]),
                    ).add(orig.players@[d as int].hand@.to_multiset()).count(v)
                        == hands_multiset(orig.players@).add(
                        self.players@[d as int].hand@.to_multiset(),
                    ).count(v));
                    assert(self.players@[d as int].hand@.to_multiset().count(v)
                        == orig.players@[d as int].hand@.to_multiset().count(v)
                        + orig.attack_cards@.to_multiset().count(v)
                        + orig.defense_cards@.to_multiset().count(v)) by {
                        assert(self.players@[d as int].hand@.to_multiset()
                            =~= orig.players@[d as int].hand@.to_multiset().add(
                            orig.attack_cards@.to_multiset(),
                        ).add(orig.defense_cards@.to_multiset())) by {
                            assert((orig.players@[d as int].hand@ + orig.attack_cards@)
                                + orig.defense_cards@ == self.players@[d as int].hand@);
                        }
                    }
                }
                assert(lhs =~= rhs);
                let hl = hands_multiset(self.players@);
                let hr = hands_multiset(orig.players@).add(orig.attack_cards@.to_multiset()).add(
                    orig.defense_cards@.to_multiset(),
                );
                assert forall|v: Card| hl.count(v) == hr.count(v) by {
                    assert(hands_multiset(
                        orig.players@.update(d as int, self.players@[d as int]),
                    ).add(orig.players@[d as int].hand@.to_multiset()).count(v)
                        == hands_multiset(orig.players@).add(
                        self.players@[d as int].hand@.to_multiset(),
                    ).count(v));
                    assert(self.players@[d as int].hand@.to_multiset().count(v)
                        == orig.players@[d as int].hand@.to_multiset().count(v)
                        + orig.attack_cards@.to_multiset().count(v)
                        + orig.defense_cards@.to_multiset().count(v));
                }
                assert(hl =~= hr);
            }
        }
    }

    /// The post-round bookkeeping: the game ends when at most one player
    /// still holds cards; otherwise the players holding cards become the new
    /// round's participants, rotated so that the first of them at or after
    /// `to_play` (cyclically) leads the attack, the next one defends, and
    /// the rest may join the attack.
    #[verifier::loop_isolation(false)]
    #[verifier::rlimit(100)]
    pub fn advance_round(&mut self)
        requires
            2 <= old(self).players@.len() <= 6,
            old(self).to_play < old(self).players@.len(),
        ensures
            same_players(*final(self), *old(self)),
            same_table(*final(self), *old(self)),
            final(self).draw_pile@ == old(self).draw_pile@,
            final(self).trump == old(self).trump,
            final(self).last_attacker == old(self).last_attacker,
            final(self).attackers_passed@ == old(self).attackers_passed@,
            final(self).cards_multiset() == old(self).cards_multiset(),
            old(self).count_nonempty() <= 1 ==> {
                &&& final(self).turn_type == GameTurnType::GameEnd
                &&& final(self).to_play == old(self).to_play
                &&& final(self).defender == old(self).defender
                &&& final(self).attackers@ == old(self).attackers@
            },
            old(self).count_nonempty() >= 2 ==> {
                let el = elig_upto(old(self).players@, old(self).players@.len() as int);
                let tp = final(self).to_play;
                &&& final(self).turn_type == GameTurnType::Attack
                &&& tp < old(self).players@.len()
                &&& old(self).players@[tp as int].hand@.len() > 0
                &&& (tp >= old(self).to_play ==> forall|m: int|
                    old(self).to_play <= m < tp ==> old(self).players@[m].hand@.len() == 0)
                &&& (tp < old(self).to_play ==> (forall|m: int|
                    old(self).to_play <= m < old(self).players@.len() ==> old(self).players@[m].hand@.len() == 0) && (forall|m: int|
                    0 <= m < tp ==> old(self).players@[m].hand@.len() == 0))
                &&& exists|pos: int|
                    {
                        &&& 0 <= pos < el.len()
                        &&& el[pos] == tp
                        &&& (el.skip(pos) + el.take(pos)).len() >= 2
                        &&& final(self).defender == (el.skip(pos) + el.take(pos))[1]
                        &&& final(self).attackers@ == (el.skip(pos) + el.take(pos)).remove(1)
                    }
                &&& final(self).attackers@.len() >= 1
                &&& final(self).attackers@[0] == tp
                &&& final(self).defender != tp
                &&& final(self).defender < old(self).players@.len()
                &&& old(self).players@[final(self).defender as int].hand@.len() > 0
                &&& forall|i: int|
                    0 <= i < final(self).attackers@.len() ==> (#[trigger] final(self).attackers@[i]) < old(self).players@.len() && final(self).attackers@[i]
                        != final(self).defender && old(self).players@[final(self).attackers@[i] as int].hand@.len() > 0
                &&& forall|i: int, j: int|
                    0 <= i < j < final(self).attackers@.len() ==> final(self).attackers@[i]
                        != final(self).attackers@[j]
                &&& forall|j: int|
                    0 <= j < old(self).players@.len() && old(self).players@[j].hand@.len() > 0
                        ==> j as usize == final(self).defender || final(self).attackers@.contains(j as usize)
                &&& (final(self).defender > tp ==> forall|m: int|
                    tp < m < final(self).defender ==> old(self).players@[m].hand@.len() == 0)
                &&& (final(self).defender < tp ==> (forall|m: int|
                    tp < m < old(self).players@.len() ==> old(self).players@[m].hand@.len()
                        == 0) && (forall|m: int|
                    0 <= m < final(self).defender ==> old(self).players@[m].hand@.len() == 0))
            },
    {
        let ghost orig = *self;
        let n = self.players.len();
        proof {
            lemma_elig_upto(orig.players@, n as int);
        }
        let ghost el_spec = elig_upto(orig.players@, n as int);

        // The ascending list of players still holding cards.
        let mut el: Vec<usize> = Vec::new();
        let mut i: usize = 0;
        while i < n
            invariant
                i <= n,
                n == self.players@.len(),
                *self == orig,
                el@ == elig_upto(orig.players@, i as int),
            decreases n - i,
        {
            if self.players[i].hand.len() > 0 {
                el.push(i);
            }
            i += 1;
        }
        proof {
            assert(el@ == el_spec);
        }

        if el.len() <= 1 {
            self.turn_type = GameTurnType::GameEnd;
            return ;
        }

        // The first player at or after `to_play` (cyclically) who still
        // holds cards leads the next round.
        let mut sel: usize = 0;
        let mut found = false;
        let mut j = self.to_play;
        while j < n
            invariant
                *self == orig,
                n == self.players@.len(),
                orig.to_play <= j <= n,
                !found ==> forall|m: int|
                    orig.to_play <= m < j ==> orig.players@[m].hand@.len() == 0,
                found ==> {
                    &&& orig.to_play <= sel < n
                    &&& orig.players@[sel as int].hand@.len() > 0
                    &&& forall|m: int|
                        orig.to_play <= m < sel ==> orig.players@[m].hand@.len() == 0
                },
            decreases n - j,
        {
            if !found && self.players[j].hand.len() > 0 {
                sel = j;
                found = true;
            }
            j += 1;
        }
        if !found {
            let mut j2: usize = 0;
            while j2 < self.to_play
                invariant
                    *self == orig,
                    n == self.players@.len(),
                    j2 <= orig.to_play,
                    forall|m: int|
                        orig.to_play <= m < n ==> orig.players@[m].hand@.len() == 0,
                    !found ==> forall|m: int|
                        0 <= m < j2 ==> orig.players@[m].hand@.len() == 0,
                    found ==> {
                        &&& sel < orig.to_play
                        &&& orig.players@[sel as int].hand@.len() > 0
                        &&& forall|m: int|
                            0 <= m < sel ==> orig.players@[m].hand@.len() == 0
                    },
                decreases orig.to_play - j2,
            {
                if !found && self.players[j2].hand.len() > 0 {
                    sel = j2;
                    found = true;
                }
                j2 += 1;
            }
        }
        proof {
            if !found {
                assert(forall|m: int|
                    0 <= m < n ==> orig.players@[m].hand@.len() == 0);
                assert(el_spec[0] < n && orig.players@[el_spec[0] as int].hand@.len() > 0);
                assert(false);
            }
        }

        // Locate the leader in the eligible list.
        let mut pos: usize = 0;
        while pos < el.len() && el[pos] != sel
            invariant
                el@ == el_spec,
                pos <= el@.len(),
                forall|m: int| 0 <= m < pos ==> el@[m] != sel,
            decreases el@.len() - pos,
        {
            pos += 1;
        }
        proof {
            assert(el_spec.contains(sel));
            if pos >= el@.len() {
                let w = choose|w: int| 0 <= w < el_spec.len() && el_spec[w] == sel;
                assert(el_spec[w] != sel);
            }
            assert(el@[pos as int] == sel);
        }

        // Rotate the eligible list so the leader comes first; the player
        // after the leader defends, the rest join the attack.
        let mut rot: Vec<usize> = Vec::new();
        let mut a: usize = pos;
        while a < el.len()
            invariant
                el@ == el_spec,
                pos <= a <= el@.len(),
                rot@ == el@.subrange(pos as int, a as int),
            decreases el@.len() - a,
        {
            rot.push(el[a]);
            proof {
                assert(rot@ =~= el@.subrange(pos as int, a + 1));
            }
            a += 1;
        }
        let mut b: usize = 0;
        while b < pos
            invariant
                el@ == el_spec,
                b <= pos <= el@.len(),
                rot@ == el@.subrange(pos as int, el@.len() as int) + el@.subrange(0, b as int),
            decreases pos - b,
        {
            rot.push(el[b]);
            proof {
                assert(rot@ =~= el@.subrange(pos as int, el@.len() as int) + el@.subrange(
                    0,
                    b + 1,
                ));
            }
            b += 1;
        }
        proof {
            assert(rot@ == el_spec.skip(pos as int) + el_spec.take(pos as int));
            assert(rot@.len() == el_spec.len());
            assert(rot@[0] == el_spec[pos as int]);
        }

        self.to_play = sel;
        self.defender = rot[1];
        let ghost rot_full = rot@;
        rot.remove(1);
        self.attackers = rot;
        self.turn_type = GameTurnType::Attack;
        proof {
            assert(final(self).attackers@ == rot_full.remove(1));
            assert(final(self).attackers@[0] == rot_full[0]);
            assert(rot_full[0] == sel);
            assert(final(self).defender == rot_full[1]);
            assert forall|k: int, l: int|
                0 <= k < l < rot_full.len() implies rot_full[k] != rot_full[l] by {
                let kk = if k < rot_full.len() - pos {
                    k + pos
                } else {
                    k - (el_spec.len() - pos)
                };
                let ll = if l < rot_full.len() - pos {
                    l + pos
                } else {
                    l - (el_spec.len() - pos)
                };
                assert(rot_full[k] == el_spec[kk]);
                assert(rot_full[l] == el_spec[ll]);
            }
            assert(final(self).defender != final(self).to_play) by {
                assert(rot_full[1] != rot_full[0]);
            }
            assert forall|k: int|
                0 <= k < rot_full.len() implies (#[trigger] rot_full[k]) < n
                    && orig.players@[rot_full[k] as int].hand@.len() > 0 by {
                let kk = if k < rot_full.len() - pos {
                    k + pos
                } else {
                    k - (el_spec.len() - pos)
                };
                assert(rot_full[k] == el_spec[kk]);
            }
            assert forall|i: int|
                0 <= i < final(self).attackers@.len() implies (#[trigger] final(self).attackers@[i]) < n && final(self).attackers@[i] != final(self).defender
                && orig.players@[final(self).attackers@[i] as int].hand@.len() > 0 by {
                let src = if i < 1 {
                    i
                } else {
                    i + 1
                };
                assert(final(self).attackers@[i] == rot_full[src]);
                assert(rot_full[src] != rot_full[1]);
            }
            assert forall|i: int, j: int|
                0 <= i < j < final(self).attackers@.len() implies final(self).attackers@[i]
                != final(self).attackers@[j] by {
                let si = if i < 1 {
                    i
                } else {
                    i + 1
                };
                let sj = if j < 1 {
                    j
                } else {
                    j + 1
                };
                assert(final(self).attackers@[i] == rot_full[si]);
                assert(final(self).attackers@[j] == rot_full[sj]);
            }
            lemma_rotated_eligibility(orig.players@, el_spec, pos as int);
            assert(rot_full[0] == sel);
            assert(final(self).attackers@ == rot_full.remove(1));
            assert(self.cards_multiset() =~= orig.cards_multiset());
        }
    }
}

/// Whether `x` occurs in `v`.
fn contains_usize(v: &Vec<usize>, x: usize) -> (r: bool)
    ensures
        r == v@.contains(x),
{
    let mut i: usize = 0;
    while i < v.len()
        invariant
            i <= v@.len(),
            forall|j: int| 0 <= j < i ==> v@[j] != x,
        decreases v@.len() - i,
    {
        if v[i] == x {
            return true;
        }
        i += 1;
    }
    false
}

impl GameState {
    /// Applies a validated attack card: it moves from the active attacker's
    /// hand to the table, the pass record clears, and priority passes to the
    /// defender.
    #[verifier::loop_isolation(false)]
    pub fn apply_attack_play(&mut self, card: Card)
        requires
            old(self).wf(),
            old(self).turn_type == GameTurnType::Attack,
            old(self).players@[old(self).to_play as int].hand@.contains(card),
        ensures
            final(self).wf(),
            final(self).turn_type == GameTurnType::Defense,
            final(self).to_play == old(self).defender,
            final(self).last_attacker == old(self).to_play,
            final(self).attackers_passed@.len() == 0,
            final(self).attack_cards@ == old(self).attack_cards@.push(card),
            final(self).defense_cards@ == old(self).defense_cards@,
            final(self).discarded_cards@ == old(self).discarded_cards@,
            final(self).draw_pile@ == old(self).draw_pile@,
            final(self).trump == old(self).trump,
            final(self).defender == old(self).defender,
            final(self).attackers@ == old(self).attackers@,
            final(self).players@.len() == old(self).players@.len(),
            forall|j: int|
                0 <= j < old(self).players@.len() && j != old(self).to_play ==> final(self).players@[j] == old(self).players@[j],
            final(self).players@[old(self).to_play as int].id == old(self).players@[old(self).to_play as int].id,
            final(self).players@[old(self).to_play as int].hand@.len() == old(self).players@[old(self).to_play as int].hand@.len() - 1,
            final(self).players@[old(self).to_play as int].hand@.to_multiset() == old(self).players@[old(self).to_play as int].hand@.to_multiset().remove(card),
    {
        broadcast use vstd::seq_lib::group_to_multiset_ensures;

        let ghost orig = *self;
        let tp = self.to_play;
        let card_arg = card;
        crate::card::transfer_card(
            &mut self.players[tp].hand,
            &mut self.attack_cards,
            &card_arg,
        );
        self.attackers_passed.clear();
        self.last_attacker = self.to_play;
        self.to_play = self.defender;
        self.turn_type = GameTurnType::Defense;
        proof {
            assert(orig.players@[tp as int].hand@.contains(card));
            assert(self.players@[tp as int].hand@.to_multiset()
                =~= orig.players@[tp as int].hand@.to_multiset().remove(card));
            assert(self.players@ =~= orig.players@.update(
                tp as int,
                self.players@[tp as int],
            ));
            lemma_hands_multiset_update(orig.players@, tp as int, self.players@[tp as int]);
            let lhs = self.cards_multiset();
            let rhs = orig.cards_multiset();
            assert forall|v: Card| lhs.count(v) == rhs.count(v) by {
                assert(hands_multiset(
                    orig.players@.update(tp as int, self.players@[tp as int]),
                ).add(orig.players@[tp as int].hand@.to_multiset()).count(v) == hands_multiset(
                    orig.players@,
                ).add(self.players@[tp as int].hand@.to_multiset()).count(v));
                assert(self.players@[tp as int].hand@.to_multiset().add(
                    self.attack_cards@.to_multiset(),
                ).count(v) == orig.players@[tp as int].hand@.to_multiset().add(
                    orig.attack_cards@.to_multiset(),
                ).count(v));
            }
            assert(lhs =~= rhs);
        }
    }

    /// Applies an attack pass: the active attacker joins the pass record,
    /// and priority moves to the first attacker who has not passed since the
    /// last played card and still holds cards; when none is left, the round
    /// ends with the defender holding priority.
    #[verifier::loop_isolation(false)]
    pub fn apply_attack_pass(&mut self)
        requires
            old(self).wf(),
            old(self).turn_type == GameTurnType::Attack,
        ensures
            final(self).wf(),
            same_players(*final(self), *old(self)),
            same_table(*final(self), *old(self)),
            final(self).draw_pile@ == old(self).draw_pile@,
            final(self).trump == old(self).trump,
            final(self).defender == old(self).defender,
            final(self).last_attacker == old(self).last_attacker,
            final(self).attackers@ == old(self).attackers@,
            final(self).attackers_passed@ == old(self).attackers_passed@.push(old(self).to_play),
            ({
                let passed = final(self).attackers_passed@;
                let att = old(self).attackers@;
                let found = exists|k: int|
                    0 <= k < att.len() && !passed.contains(att[k]) && old(self).players@[att[k] as int].hand@.len() != 0;
                if found {
                    &&& final(self).turn_type == GameTurnType::Attack
                    &&& exists|k2: int|
                        {
                            &&& 0 <= k2 < att.len()
                            &&& final(self).to_play == att[k2]
                            &&& !passed.contains(att[k2])
                            &&& old(self).players@[att[k2] as int].hand@.len() != 0
                            &&& forall|m: int|
                                0 <= m < k2 ==> passed.contains(att[m]) || old(self).players@[att[m] as int].hand@.len() == 0
                        }
                } else {
                    &&& final(self).turn_type == GameTurnType::EndRound
                    &&& final(self).to_play == old(self).defender
                }
            }),
    {
        let ghost orig = *self;
        self.attackers_passed.push(self.to_play);
        let ghost passed = self.attackers_passed@;
        let mut i: usize = 0;
        let n = self.attackers.len();
        while i < n
            invariant
                i <= n,
                same_players(*self, orig),
                same_table(*self, orig),
                self.draw_pile@ == orig.draw_pile@,
                self.trump == orig.trump,
                self.defender == orig.defender,
                self.to_play == orig.to_play,
                self.last_attacker == orig.last_attacker,
                self.turn_type == orig.turn_type,
                self.attackers@ == orig.attackers@,
                self.attackers_passed@ == passed,
                forall|m: int|
                    0 <= m < i ==> passed.contains(orig.attackers@[m]) || orig.players@[
                        orig.attackers@[m] as int].hand@.len() == 0,
            decreases n - i,
        {
            let ind = self.attackers[i];
            if !contains_usize(&self.attackers_passed, ind) && self.players[ind].hand.len() != 0 {
                self.to_play = ind;
                proof {
                    assert(final(self).to_play == orig.attackers@[i as int]);
                }
                return ;
            }
            i += 1;
        }
        self.to_play = self.defender;
        self.turn_type = GameTurnType::EndRound;
        proof {
            assert forall|k: int|
                0 <= k < orig.attackers@.len() implies passed.contains(orig.attackers@[k])
                    || orig.players@[orig.attackers@[k] as int].hand@.len() == 0 by {}
        }
    }

    /// Applies a validated defense card: it moves from the defender's hand
    /// onto the table.  The round ends when six cards have been answered or
    /// the defender's hand is empty; otherwise the attacker who played last
    /// may press on.
    #[verifier::loop_isolation(false)]
    pub fn apply_defense_play(&mut self, card: Card)
        requires
            old(self).wf(),
            old(self).turn_type == GameTurnType::Defense,
            old(self).players@[old(self).to_play as int].hand@.contains(card),
        ensures
            final(self).wf(),
            final(self).defense_cards@ == old(self).defense_cards@.push(card),
            final(self).attack_cards@ == old(self).attack_cards@,
            final(self).discarded_cards@ == old(self).discarded_cards@,
            final(self).draw_pile@ == old(self).draw_pile@,
            final(self).trump == old(self).trump,
            final(self).defender == old(self).defender,
            final(self).last_attacker == old(self).last_attacker,
            final(self).attackers@ == old(self).attackers@,
            final(self).attackers_passed@ == old(self).attackers_passed@,
            final(self).players@.len() == old(self).players@.len(),
            forall|j: int|
                0 <= j < old(self).players@.len() && j != old(self).to_play ==> final(self).players@[j] == old(self).players@[j],
            final(self).players@[old(self).to_play as int].id == old(self).players@[old(self).to_play as int].id,
            final(self).players@[old(self).to_play as int].hand@.len() == old(self).players@[old(self).to_play as int].hand@.len() - 1,
            final(self).players@[old(self).to_play as int].hand@.to_multiset() == old(self).players@[old(self).to_play as int].hand@.to_multiset().remove(card),
            ({
                let done = final(self).defense_cards@.len() == 6 || final(self).players@[old(self).to_play as int].hand@.len() == 0;
                if done {
                    final(self).turn_type == GameTurnType::EndRound && final(self).to_play
                        == old(self).defender
                } else {
                    final(self).turn_type == GameTurnType::Attack && final(self).to_play == old(self).last_attacker
                }
            }),
    {
        broadcast use vstd::seq_lib::group_to_multiset_ensures;

        let ghost orig = *self;
        let tp = self.to_play;
        let card_arg = card;
        crate::card::transfer_card(
            &mut self.players[tp].hand,
            &mut self.defense_cards,
            &card_arg,
        );
        if self.defense_cards.len() == 6 || self.players[tp].hand.len() == 0 {
            self.to_play = self.defender;
            self.turn_type = GameTurnType::EndRound;
        } else {
            self.to_play = self.last_attacker;
            self.turn_type = GameTurnType::Attack;
        }
        proof {
            assert(orig.players@[tp as int].hand@.contains(card));
            assert(self.players@[tp as int].hand@.to_multiset()
                =~= orig.players@[tp as int].hand@.to_multiset().remove(card));
            assert(self.players@ =~= orig.players@.update(
                tp as int,
                self.players@[tp as int],
            ));
            lemma_hands_multiset_update(orig.players@, tp as int, self.players@[tp as int]);
            let lhs = self.cards_multiset();
            let rhs = orig.cards_multiset();
            assert forall|v: Card| lhs.count(v) == rhs.count(v) by {
                assert(hands_multiset(
                    orig.players@.update(tp as int, self.players@[tp as int]),
                ).add(orig.players@[tp as int].hand@.to_multiset()).count(v) == hands_multiset(
                    orig.players@,
                ).add(self.players@[tp as int].hand@.to_multiset()).count(v));
                assert(self.players@[tp as int].hand@.to_multiset().add(
                    self.defense_cards@.to_multiset(),
                ).count(v) == orig.players@[tp as int].hand@.to_multiset().add(
                    orig.defense_cards@.to_multiset(),
                ).count(v));
            }
            assert(lhs =~= rhs);
        }
    }
}

impl GameState {
    /// Moves a batch of validated pile-on cards from one player's hand onto
    /// the attack.  Cards not in the hand are skipped (a repeated listing of
    /// one card moves it once); for a duplicate-free batch drawn from the
    /// hand, the attack gains exactly the batch, in order.
    #[verifier::loop_isolation(false)]
    pub fn apply_pile_on(&mut self, ind: usize, cards: &Vec<Card>)
        requires
            ind < old(self).players@.len(),
        ensures
            final(self).players@.len() == old(self).players@.len(),
            forall|j: int|
                0 <= j < old(self).players@.len() && j != ind ==> final(self).players@[j] == old(self).players@[j],
            final(self).players@[ind as int].id == old(self).players@[ind as int].id,
            final(self).players@[ind as int].hand@.to_multiset().add(
                final(self).attack_cards@.to_multiset(),
            ) == old(self).players@[ind as int].hand@.to_multiset().add(
                old(self).attack_cards@.to_multiset(),
            ),
            final(self).players@[ind as int].hand@.len() + final(self).attack_cards@.len() == old(self).players@[ind as int].hand@.len() + old(self).attack_cards@.len(),
            final(self).attack_cards@.len() >= old(self).attack_cards@.len(),
            final(self).attack_cards@.len() <= old(self).attack_cards@.len() + cards@.len(),
            final(self).defense_cards@ == old(self).defense_cards@,
            final(self).discarded_cards@ == old(self).discarded_cards@,
            final(self).draw_pile@ == old(self).draw_pile@,
            final(self).trump == old(self).trump,
            final(self).defender == old(self).defender,
            final(self).to_play == old(self).to_play,
            final(self).last_attacker == old(self).last_attacker,
            final(self).turn_type == old(self).turn_type,
            final(self).attackers@ == old(self).attackers@,
            final(self).attackers_passed@ == old(self).attackers_passed@,
            final(self).cards_multiset() == old(self).cards_multiset(),
            cards@.no_duplicates() && (forall|k: int|
                0 <= k < cards@.len() ==> old(self).players@[ind as int].hand@.contains(
                    #[trigger] cards@[k],
                )) ==> {
                &&& final(self).attack_cards@ == old(self).attack_cards@ + cards@
                &&& final(self).players@[ind as int].hand@.to_multiset().add(
                    cards@.to_multiset(),
                ) == old(self).players@[ind as int].hand@.to_multiset()
            },
    {
        broadcast use vstd::seq_lib::group_to_multiset_ensures;

        let ghost orig = *self;
        let ghost orig_hand = old(self).players@[ind as int].hand@;
        let ghost clean = cards@.no_duplicates() && (forall|k: int|
            0 <= k < cards@.len() ==> orig_hand.contains(#[trigger] cards@[k]));
        let mut i: usize = 0;
        while i < cards.len()
            invariant
                i <= cards@.len(),
                self.players@.len() == orig.players@.len(),
                forall|j: int|
                    0 <= j < orig.players@.len() && j != ind ==> self.players@[j]
                        == orig.players@[j],
                self.players@[ind as int].id == orig.players@[ind as int].id,
                self.players@[ind as int].hand@.to_multiset().add(
                    self.attack_cards@.to_multiset(),
                ) == orig_hand.to_multiset().add(orig.attack_cards@.to_multiset()),
                self.players@[ind as int].hand@.len() + self.attack_cards@.len()
                    == orig_hand.len() + orig.attack_cards@.len(),
                self.attack_cards@.len() >= orig.attack_cards@.len(),
                self.attack_cards@.len() <= orig.attack_cards@.len() + i,
                self.defense_cards@ == orig.defense_cards@,
                self.discarded_cards@ == orig.discarded_cards@,
                self.draw_pile@ == orig.draw_pile@,
                self.trump == orig.trump,
                self.defender == orig.defender,
                self.to_play == orig.to_play,
                self.last_attacker == orig.last_attacker,
                self.turn_type == orig.turn_type,
                self.attackers@ == orig.attackers@,
                self.attackers_passed@ == orig.attackers_passed@,
                clean ==> self.attack_cards@ == orig.attack_cards@ + cards@.take(i as int),
                clean ==> self.players@[ind as int].hand@.to_multiset().add(
                    cards@.take(i as int).to_multiset(),
                ) == orig_hand.to_multiset(),
            decreases cards@.len() - i,
        {
            let c = cards[i];
            let ghost hand_before = self.players@[ind as int].hand@;
            let ghost attack_before = self.attack_cards@;
            crate::card::transfer_card(&mut self.players[ind].hand, &mut self.attack_cards, &c);
            proof {
                broadcast use vstd::seq_lib::group_to_multiset_ensures;
                broadcast use vstd::seq_lib::lemma_multiset_commutative;

                assert(self.players@[ind as int].hand@.to_multiset().add(
                    self.attack_cards@.to_multiset(),
                ) =~= hand_before.to_multiset().add(attack_before.to_multiset()));
                if clean {
                    assert(cards@.take(i as int).to_multiset().count(c) == 0) by {
                        if cards@.take(i as int).to_multiset().count(c) > 0 {
                            assert(cards@.take(i as int).contains(c));
                            let m = choose|m: int|
                                0 <= m < i && cards@.take(i as int)[m] == c;
                            assert(cards@[m] == cards@[i as int]);
                            assert(false);
                        }
                    }
                    assert(orig_hand.to_multiset().count(c) > 0);
                    assert(hand_before.to_multiset().count(c) > 0);
                    assert(hand_before.contains(c));
                    assert(self.attack_cards@ == attack_before.push(c));
                    assert(self.attack_cards@ =~= orig.attack_cards@ + cards@.take(i + 1)) by {
                        assert(cards@.take(i + 1) =~= cards@.take(i as int).push(c));
                    }
                    assert(self.players@[ind as int].hand@.to_multiset()
                        == hand_before.to_multiset().remove(c));
                    assert(cards@.take(i + 1).to_multiset() =~= cards@.take(
                        i as int,
                    ).to_multiset().insert(c)) by {
                        assert(cards@.take(i + 1) =~= cards@.take(i as int).push(c));
                    }
                    assert(self.players@[ind as int].hand@.to_multiset().add(
                        cards@.take(i + 1).to_multiset(),
                    ) =~= orig_hand.to_multiset());
                }
            }
            i += 1;
        }
        proof {
            assert(self.players@ =~= orig.players@.update(
                ind as int,
                self.players@[ind as int],
            ));
            lemma_hands_multiset_update(orig.players@, ind as int, self.players@[ind as int]);
            let lhs = self.cards_multiset();
            let rhs = orig.cards_multiset();
            assert forall|v: Card| lhs.count(v) == rhs.count(v) by {
                assert(hands_multiset(
                    orig.players@.update(ind as int, self.players@[ind as int]),
                ).add(orig.players@[ind as int].hand@.to_multiset()).count(v) == hands_multiset(
                    orig.players@,
                ).add(self.players@[ind as int].hand@.to_multiset()).count(v));
                assert(self.players@[ind as int].hand@.to_multiset().add(
                    self.attack_cards@.to_multiset(),
                ).count(v) == orig_hand.to_multiset().add(
                    orig.attack_cards@.to_multiset(),
                ).count(v));
            }
            assert(lhs =~= rhs);
            if clean {
                assert(cards@.take(cards@.len() as int) =~= cards@);
            }
        }
    }
}

/// The behavior a player agent must implement.  The engine queries exactly
/// one agent at a time and re-validates every submitted move itself, so an
/// implementation may be interactive, networked or scripted; a returned
/// error aborts the whole game.
pub trait DurakPlayer: Send + Sync {
    /// Plays an attack turn.
    fn attack(&mut self, state: &ToPlayState) -> Result<Action, PlayerError>;

    /// Plays a defense turn.
    fn defend(&mut self, state: &ToPlayState) -> Result<Action, PlayerError>;

    /// Plays a pile-on turn: the cards (possibly none) to add to the attack.
    fn pile_on(&mut self, state: &ToPlayState) -> Result<Vec<Card>, PlayerError>;

    /// Sent to every agent after any state-changing turn; no effect on
    /// state.
    fn observe_move(&mut self, state: &ToPlayState) -> Result<(), PlayerError> {
        let _ = state;
        Ok(())
    }

    /// Returns a unique id for the player; `player_info` lists the ids
    /// already taken.
    fn get_id(&mut self, player_info: &Vec<PlayerInfo>) -> Result<u64, PlayerError>;

    /// A notification that the player has lost the game.
    fn lost(&mut self) -> Result<Ready, PlayerError> {
        Ok(Ready::Yes)
    }

    /// A notification that the player has not lost the game.
    fn won(&mut self) -> Result<Ready, PlayerError> {
        Ok(Ready::Yes)
    }

    /// An advisory message from the engine.
    fn message(&mut self, msg: &str) -> Result<(), PlayerError> {
        let _ = msg;
        Ok(())
    }

    /// A notice that the game is shutting down on a fatal error.
    fn error(&mut self, error: &str) -> Result<(), PlayerError> {
        let _ = error;
        Ok(())
    }
}

/// The id and hand size of every player, in registration order.
pub fn get_player_info(state: &GameState) -> (r: Vec<PlayerInfo>)
    ensures
        r@.len() == state.players@.len(),
        forall|i: int|
            0 <= i < r@.len() ==> (#[trigger] r@[i]).id == state.players@[i].id && r@[i].hand_len
                == state.players@[i].hand@.len(),
{
    let mut r: Vec<PlayerInfo> = Vec::new();
    let mut i: usize = 0;
    while i < state.players.len()
        invariant
            i <= state.players@.len(),
            r@.len() == i,
            forall|j: int|
                0 <= j < i ==> (#[trigger] r@[j]).id == state.players@[j].id && r@[j].hand_len
                    == state.players@[j].hand@.len(),
        decreases state.players@.len() - i,
    {
        r.push(PlayerInfo { id: state.players[i].id, hand_len: state.players[i].hand.len() });
        i += 1;
    }
    r
}

/// The per-turn view shown to the player at `hand_ind`.
pub fn gen_to_play_state_w_hand(state: &GameState, hand_ind: usize) -> (r: ToPlayState)
    requires
        hand_ind < state.players@.len(),
    ensures
        r.trump == state.trump,
        r.attack_cards@ == state.attack_cards@,
        r.defense_cards@ == state.defense_cards@,
        r.hand@ == state.players@[hand_ind as int].hand@,
        r.player_info@.len() == state.players@.len(),
        forall|i: int|
            0 <= i < r.player_info@.len() ==> (#[trigger] r.player_info@[i]).id
                == state.players@[i].id && r.player_info@[i].hand_len
                == state.players@[i].hand@.len(),
        r.last_attacker == state.last_attacker,
        r.defender == state.defender,
        r.to_play == state.to_play,
{
    ToPlayState {
        trump: state.trump,
        attack_cards: crate::toplaystate::copy_cards(&state.attack_cards),
        defense_cards: crate::toplaystate::copy_cards(&state.defense_cards),
        hand: crate::toplaystate::copy_cards(&state.players[hand_ind].hand),
        player_info: get_player_info(state),
        last_attacker: state.last_attacker,
        defender: state.defender,
        to_play: state.to_play,
    }
}

/// The per-turn view shown to the player whose decision is awaited.
pub fn gen_to_play_state(state: &GameState) -> (r: ToPlayState)
    requires
        state.to_play < state.players@.len(),
    ensures
        r.trump == state.trump,
        r.attack_cards@ == state.attack_cards@,
        r.defense_cards@ == state.defense_cards@,
        r.hand@ == state.players@[state.to_play as int].hand@,
        r.player_info@.len() == state.players@.len(),
        forall|i: int|
            0 <= i < r.player_info@.len() ==> (#[trigger] r.player_info@[i]).id
                == state.players@[i].id && r.player_info@[i].hand_len
                == state.players@[i].hand@.len(),
        r.last_attacker == state.last_attacker,
        r.defender == state.defender,
        r.to_play == state.to_play,
{
    gen_to_play_state_w_hand(state, state.to_play)
}

/// A mutable reference to one engine of the roster.
fn engine_at<P: DurakPlayer>(engines: &mut Vec<P>, i: usize) -> (r: &mut P)
    requires
        i < old(engines).len(),
    ensures
        *r == old(engines)@[i as int],
        final(engines)@ == old(engines)@.update(i as int, *final(r)),
{
    &mut engines[i]
}

/// Pointwise-equal ids keep uniqueness.
proof fn lemma_ids_unique_transfer(a: Seq<Player>, b: Seq<Player>)
    requires
        a.len() == b.len(),
        forall|j: int| 0 <= j < a.len() ==> a[j].id == b[j].id,
        forall|i: int, j: int| 0 <= i < j < a.len() ==> a[i].id != a[j].id,
    ensures
        forall|i: int, j: int| 0 <= i < j < b.len() ==> b[i].id != b[j].id,
{
    assert forall|i: int, j: int| 0 <= i < j < b.len() implies b[i].id != b[j].id by {
        assert(a[i].id == b[i].id);
        assert(a[j].id == b[j].id);
        assert(a[i].id != a[j].id);
    }
}

impl GameState {
    /// Plays one step of the state machine: queries the active player (or
    /// players, for a pile-on), re-validates the submitted move, applies it,
    /// and computes the successor state.  A move that fails re-validation or
    /// an agent failure aborts with an error.  Whatever the agents answer,
    /// well-formedness — including the intactness of the whole 36-card
    /// population — is preserved, and no player joins, leaves, or changes
    /// id.
    #[verifier::loop_isolation(false)]
    #[verifier::rlimit(60)]
    pub fn play_turn<P: DurakPlayer>(&mut self, engines: &mut Vec<P>) -> (r: Result<
        (),
        GameError,
    >)
        requires
            old(self).wf(),
            old(engines).len() == old(self).players@.len(),
        ensures
            final(self).wf(),
            final(engines).len() == old(engines).len(),
            final(self).players@.len() == old(self).players@.len(),
            forall|j: int|
                0 <= j < old(self).players@.len() ==> final(self).players@[j].id == old(self).players@[j].id,
            final(self).trump == old(self).trump,
            old(self).turn_type == GameTurnType::GameEnd ==> *final(self) == *old(self) && r
                is Ok,
            old(self).turn_type == GameTurnType::Attack && r is Err ==> *final(self) == *old(self),
            old(self).turn_type == GameTurnType::Defense && r is Err ==> *final(self) == *old(self),
            old(self).turn_type == GameTurnType::Attack || old(self).turn_type
                == GameTurnType::Defense ==> final(self).discarded_cards@ == old(self).discarded_cards@ && final(self).draw_pile@ == old(self).draw_pile@,
            old(self).turn_type == GameTurnType::Attack ==> final(self).defense_cards@ == old(self).defense_cards@,
            old(self).turn_type == GameTurnType::Defense ==> final(self).attack_cards@ == old(self).attack_cards@,
            old(self).turn_type == GameTurnType::Attack && (old(self).players@[old(self).to_play as int].hand@.len() == 0 || old(self).players@[old(self).defender as int].hand@.len() == 0) ==> r is Ok && GameState::attack_pass_spec(*old(self), *final(self)),
            old(self).turn_type == GameTurnType::Attack && r is Ok ==> GameState::attack_play_spec(*old(self), *final(self)) || GameState::attack_pass_spec(*old(self), *final(self)),
            old(self).turn_type == GameTurnType::Defense && r is Ok ==> GameState::defense_pass_spec(*old(self), *final(self)) || GameState::defense_play_spec(*old(self), *final(self)),
            old(self).turn_type == GameTurnType::PileOn && r is Err ==> final(self).turn_type == GameTurnType::PileOn,
            old(self).turn_type == GameTurnType::PileOn ==> {
                &&& final(self).defense_cards@ == old(self).defense_cards@
                &&& final(self).discarded_cards@ == old(self).discarded_cards@
                &&& final(self).draw_pile@ == old(self).draw_pile@
                &&& final(self).attack_cards@.len() >= old(self).attack_cards@.len()
            },
            old(self).turn_type == GameTurnType::PileOn && r is Ok ==> {
                &&& final(self).turn_type == GameTurnType::EndRound
                &&& final(self).to_play == (old(self).defender + 1) % old(self).players@.len() as int
            },
            old(self).turn_type == GameTurnType::EndRound ==> r is Ok
                && GameState::end_round_spec(*old(self), *final(self)),
    {
        let ghost orig = *self;
        match self.turn_type {
            GameTurnType::Attack => {
                let action = if self.players[self.to_play].hand.len() == 0 {
                    // A player with no cards cannot act.
                    Action::Pass
                } else if self.players[self.defender].hand.len() == 0 {
                    // Nothing left to attack.
                    Action::Pass
                } else {
                    let view = gen_to_play_state(self);
                    let tp = self.to_play;
                    match engine_at(engines, tp).attack(&view) {
                        Ok(a) => a,
                        Err(e) => {
                            return Err(GameError::Agent(e));
                        },
                    }
                };
                match action {
                    Action::Play(attack_card) => {
                        let view = gen_to_play_state(self);
                        match view.validate_attack(&Action::Play(attack_card)) {
                            Ok(()) => {},
                            Err(e) => {
                                return Err(GameError::InvalidMove(e));
                            },
                        }
                        proof {
                            assert(self.players@[self.to_play as int].hand@.contains(
                                attack_card,
                            ));
                            assert(self.attack_cards@.len() == 0
                                || crate::toplaystate::rank_on_table(
                                self.attack_cards@,
                                self.defense_cards@,
                                attack_card.rank,
                            ));
                        }
                        self.apply_attack_play(attack_card);
                    },
                    Action::Pass => {
                        self.apply_attack_pass();
                    },
                }
            },
            GameTurnType::Defense => {
                let view = gen_to_play_state(self);
                let tp = self.to_play;
                let action = match engine_at(engines, tp).defend(&view) {
                    Ok(a) => a,
                    Err(e) => {
                        return Err(GameError::Agent(e));
                    },
                };
                match action {
                    Action::Play(defense_card) => {
                        match view.validate_defense(&Action::Play(defense_card)) {
                            Ok(()) => {},
                            Err(e) => {
                                return Err(GameError::InvalidMove(e));
                            },
                        }
                        proof {
                            assert(self.players@[self.to_play as int].hand@.contains(
                                defense_card,
                            ));
                            assert(self.attack_cards@.len() > 0);
                            assert(crate::toplaystate::beats(
                                defense_card,
                                self.attack_cards@.last(),
                                self.trump,
                            ));
                        }
                        self.apply_defense_play(defense_card);
                    },
                    Action::Pass => {
                        // The defender gives up; everyone else may pile on.
                        self.turn_type = GameTurnType::PileOn;
                    },
                }
            },
            GameTurnType::PileOn => {
                let n = self.players.len();
                let mut ind: usize = 0;
                while ind < n
                    invariant
                        ind <= n,
                        n == self.players@.len(),
                        engines@.len() == n,
                        self.players@.len() == orig.players@.len(),
                        forall|j: int|
                            0 <= j < orig.players@.len() ==> self.players@[j].id
                                == orig.players@[j].id,
                        self.ids_unique(),
                        self.cards_multiset() == full_deck(),
                        self.defense_cards@.len() <= self.attack_cards@.len(),
                        self.attack_cards@.len() <= 6,
                        self.defense_cards@ == orig.defense_cards@,
                        self.discarded_cards@ == orig.discarded_cards@,
                        self.attack_cards@.len() >= orig.attack_cards@.len(),
                        self.turn_type == GameTurnType::PileOn,
                        self.trump == orig.trump,
                        self.defender == orig.defender,
                        self.last_attacker == orig.last_attacker,
                        self.attackers@ == orig.attackers@,
                        self.attackers_passed@ == orig.attackers_passed@,
                        self.draw_pile@ == orig.draw_pile@,
                    decreases n - ind,
                {
                    if ind != self.defender {
                        self.to_play = ind;
                        let view = gen_to_play_state(self);
                        let cards = match engine_at(engines, ind).pile_on(&view) {
                            Ok(c) => c,
                            Err(e) => {
                                return Err(GameError::Agent(e));
                            },
                        };
                        match view.validate_pile_on(cards.as_slice()) {
                            Ok(()) => {},
                            Err(e) => {
                                return Err(GameError::InvalidMove(e));
                            },
                        }
                        let ghost before = *self;
                        self.apply_pile_on(ind, &cards);
                        proof {
                            lemma_ids_unique_transfer(before.players@, self.players@);
                        }
                    }
                    ind += 1;
                }
                // The player after the defender opens the next round.
                self.to_play = (self.defender + 1) % n;
                self.turn_type = GameTurnType::EndRound;
            },
            GameTurnType::EndRound => {
                self.end_round();
            },
            GameTurnType::GameEnd => {},
        }
        Ok(())
    }
}

/// The full deck holds each of the 36 cards exactly once: the canonical
/// decoding is injective on `[0, 36)` and covers every card.
pub proof fn lemma_full_deck_each_card_once()
    ensures
        forall|c: Card| #[trigger] full_deck().count(c) == 1,
{
    broadcast use vstd::seq_lib::group_to_multiset_ensures;

    let s = Seq::new(36, |i: int| crate::card::card_of_ordinal(i));
    crate::card::lemma_card_ordinal_roundtrip();
    assert(s.no_duplicates()) by {
        assert forall|i: int, j: int| 0 <= i < j < 36 implies s[i] != s[j] by {
            assert(crate::card::card_ordinal(s[i]) == i);
            assert(crate::card::card_ordinal(s[j]) == j);
        }
    }
    s.lemma_multiset_has_no_duplicates();
    assert forall|c: Card| #[trigger] full_deck().count(c) == 1 by {
        let i = crate::card::card_ordinal(c);
        assert(0 <= i < 36);
        assert(s[i] == c);
        assert(s.contains(c));
        assert(s.to_multiset().contains(c));
    }
}

/// In every well-formed game state, each of the 36 cards lies in exactly one
/// place: some hand, the talon, the attack or defense row, or the discard
/// pile.  This holds after `init` and is preserved by every turn.
pub proof fn lemma_wf_conserves_deck(s: GameState)
    requires
        s.wf(),
    ensures
        s.cards_multiset() == full_deck(),
        forall|c: Card| #[trigger] s.cards_multiset().count(c) == 1,
{
    lemma_full_deck_each_card_once();
}

/// The results of a finished game: every player whose hand emptied won, and
/// the player left holding cards (if any) is the loser.  Each engine is
/// paired with its readiness for another game.
pub struct DurakGameResult<P: DurakPlayer> {
    /// An engine whose player did not lose, with its readiness.
    pub winner: Option<(P, Ready)>,
    /// The engines whose players lost, with their readiness.
    pub losers: Vec<(P, Ready)>,
}

/// A game together with the player agents that drive it.
pub struct DurakGame<P: DurakPlayer> {
    /// The authoritative state.
    pub state: GameState,
    /// One agent per registered player, in registration order.
    pub engines: Vec<P>,
}

impl<P: DurakPlayer> DurakGame<P> {
    /// Creates a new game with no players.
    pub fn new() -> (r: DurakGame<P>)
        ensures
            r.state.players@.len() == 0,
            r.state.is_fresh(),
            r.state.ids_unique(),
            r.state.turn_type == GameTurnType::Attack,
            r.engines@.len() == 0,
    {
        DurakGame { state: GameState::new(), engines: Vec::new() }
    }

    /// Registers a player agent: asks it for an id (showing it the ids
    /// already taken) and registers that id.  Fails when the agent fails or
    /// the id is rejected; the roster is unchanged on failure.
    pub fn add_player(&mut self, engine: P) -> (r: Result<(), GameError>)
        requires
            old(self).engines@.len() == old(self).state.players@.len(),
        ensures
            final(self).engines@.len() == final(self).state.players@.len(),
            final(self).state.players@.len() >= old(self).state.players@.len(),
            old(self).state.ids_unique() ==> final(self).state.ids_unique(),
            old(self).state.is_fresh() ==> final(self).state.is_fresh(),
            final(self).state.trump == old(self).state.trump,
            final(self).state.turn_type == old(self).state.turn_type,
            r is Err ==> final(self).state.players@ == old(self).state.players@,
            r is Ok ==> final(self).state.players@.len() == old(self).state.players@.len() + 1
                && !old(self).state.has_player_id(final(self).state.players@.last().id),
    {
        let info = get_player_info(&self.state);
        let mut engine = engine;
        let id = match engine.get_id(&info) {
            Ok(id) => id,
            Err(e) => {
                return Err(GameError::Agent(e));
            },
        };
        match self.state.add_player(id) {
            Ok(()) => {
                self.engines.push(engine);
                Ok(())
            },
            Err(e) => Err(e),
        }
    }

    /// Initializes the dealt game; see [`GameState::init`].
    pub fn init(&mut self, rng: &mut rand::rngs::StdRng) -> (r: Result<(), GameError>)
        requires
            old(self).state.is_fresh(),
            old(self).state.ids_unique(),
            old(self).engines@.len() == old(self).state.players@.len(),
        ensures
            final(self).engines@.len() == final(self).state.players@.len(),
            r is Ok <==> 2 <= old(self).state.players@.len() <= 6,
            r is Ok ==> final(self).state.wf(),
    {
        self.state.init(rng)
    }

    /// Whether the game has reached its terminal state.
    pub fn game_over(&self) -> (r: bool)
        ensures
            r == (self.state.turn_type == GameTurnType::GameEnd),
    {
        self.state.turn_type == GameTurnType::GameEnd
    }

    /// Plays one turn of the state machine and then shows every agent the
    /// new state.  The turn semantics of [`GameState::play_turn`] carry
    /// over; a failed observe notification can turn the result into an
    /// agent error after the turn itself completed.
    #[verifier::loop_isolation(false)]
    pub fn play_turn(&mut self) -> (r: Result<(), GameError>)
        requires
            old(self).state.wf(),
            old(self).engines@.len() == old(self).state.players@.len(),
        ensures
            final(self).state.wf(),
            final(self).engines@.len() == final(self).state.players@.len(),
            final(self).state.players@.len() == old(self).state.players@.len(),
            forall|j: int|
                0 <= j < old(self).state.players@.len() ==> final(self).state.players@[j].id
                    == old(self).state.players@[j].id,
            final(self).state.trump == old(self).state.trump,
            old(self).state.turn_type == GameTurnType::GameEnd ==> final(self).state == old(self).state,
            old(self).state.turn_type == GameTurnType::Attack && (old(self).state.players@[old(self).state.to_play as int].hand@.len() == 0 || old(self).state.players@[old(self).state.defender as int].hand@.len() == 0) ==> {
                &&& GameState::attack_pass_spec(old(self).state, final(self).state)
                &&& (r is Err ==> {
                    r matches Err(e) && e is Agent
                })
            },
            old(self).state.turn_type == GameTurnType::Attack ==> final(self).state == old(self).state || GameState::attack_play_spec(old(self).state, final(self).state) || GameState::attack_pass_spec(old(self).state, final(self).state),
            old(self).state.turn_type == GameTurnType::Defense ==> final(self).state == old(self).state || GameState::defense_pass_spec(old(self).state, final(self).state) || GameState::defense_play_spec(old(self).state, final(self).state),
            old(self).state.turn_type == GameTurnType::PileOn ==> {
                &&& final(self).state.defense_cards@ == old(self).state.defense_cards@
                &&& final(self).state.discarded_cards@ == old(self).state.discarded_cards@
                &&& final(self).state.draw_pile@ == old(self).state.draw_pile@
                &&& final(self).state.attack_cards@.len() >= old(self).state.attack_cards@.len()
                &&& final(self).state.turn_type == GameTurnType::PileOn || (final(self).state.turn_type == GameTurnType::EndRound && final(self).state.to_play == (old(self).state.defender + 1) % old(self).state.players@.len() as int)
            },
            old(self).state.turn_type == GameTurnType::EndRound ==> {
                &&& GameState::end_round_spec(old(self).state, final(self).state)
                &&& (r is Err ==> {
                    r matches Err(e) && e is Agent
                })
            },
    {
        match self.state.play_turn(&mut self.engines) {
            Ok(()) => {},
            Err(e) => {
                return Err(e);
            },
        }
        let mut i: usize = 0;
        let ghost st = self.state;
        while i < self.engines.len()
            invariant
                self.state == st,
                i <= self.engines@.len(),
                self.engines@.len() == self.state.players@.len(),
            decreases self.engines@.len() - i,
        {
            let view = gen_to_play_state_w_hand(&self.state, i);
            match engine_at(&mut self.engines, i).observe_move(&view) {
                Ok(()) => {},
                Err(e) => {
                    return Err(GameError::Agent(e));
                },
            }
            i += 1;
        }
        Ok(())
    }

    /// Consumes the game and pairs every agent with whether its player ended
    /// the game with an empty hand (an empty hand means the player did not
    /// lose).
    #[verifier::loop_isolation(false)]
    pub fn into_outcomes(self) -> (r: Vec<(P, bool)>)
        requires
            self.engines@.len() == self.state.players@.len(),
        ensures
            r@.len() == self.engines@.len(),
            forall|i: int|
                0 <= i < r@.len() ==> (#[trigger] r@[i]).1 == (
                self.state.players@[i].hand@.len() == 0) && r@[i].0 == self.engines@[i],
    {
        let DurakGame { state, engines } = self;
        let mut engines = engines;
        let ghost orig_engines = engines@;
        let ghost n = orig_engines.len() as int;
        proof {
            assert(engines@ =~= orig_engines.take(engines@.len() as int));
        }
        let mut rev: Vec<(P, bool)> = Vec::new();
        while engines.len() > 0
            invariant
                state.players@.len() == n,
                engines@.len() + rev@.len() == n,
                engines@ == orig_engines.take(engines@.len() as int),
                forall|k: int|
                    0 <= k < rev@.len() ==> (#[trigger] rev@[k]).1 == (state.players@[n - 1
                        - k].hand@.len() == 0) && rev@[k].0 == orig_engines[n - 1 - k],
            decreases engines@.len(),
        {
            let ghost before = engines@;
            let e = match engines.pop() {
                Some(e) => e,
                None => {
                    break ;
                },
            };
            let idx = engines.len();
            proof {
                assert(e == before[before.len() - 1]);
                assert(before[before.len() - 1] == orig_engines[idx as int]);
                assert(engines@ =~= orig_engines.take(idx as int));
            }
            let won_game = state.players[idx].hand.len() == 0;
            rev.push((e, won_game));
        }
        let mut out: Vec<(P, bool)> = Vec::new();
        while rev.len() > 0
            invariant
                state.players@.len() == n,
                rev@.len() + out@.len() == n,
                forall|k: int|
                    0 <= k < rev@.len() ==> (#[trigger] rev@[k]).1 == (state.players@[n - 1
                        - k].hand@.len() == 0) && rev@[k].0 == orig_engines[n - 1 - k],
                forall|i: int|
                    0 <= i < out@.len() ==> (#[trigger] out@[i]).1 == (
                    state.players@[i].hand@.len() == 0) && out@[i].0 == orig_engines[i],
            decreases rev@.len(),
        {
            let e = match rev.pop() {
                Some(e) => e,
                None => {
                    break ;
                },
            };
            out.push(e);
        }
        out
    }
}

/// The number of players among the first `n` whose hands are non-empty.
pub open spec fn count_nonempty_upto(players: Seq<Player>, n: int) -> int
    decreases n,
{
    if n <= 0 {
        0
    } else {
        count_nonempty_upto(players, n - 1) + if players[n - 1].hand@.len() > 0 {
            1int
        } else {
            0int
        }
    }
}

/// The ascending list of indices below `n` of players still holding cards.
pub open spec fn elig_upto(players: Seq<Player>, n: int) -> Seq<usize>
    decreases n,
{
    if n <= 0 {
        Seq::empty()
    } else {
        let prev = elig_upto(players, n - 1);
        if players[n - 1].hand@.len() > 0 {
            prev.push((n - 1) as usize)
        } else {
            prev
        }
    }
}

/// `elig_upto` lists exactly the indices of non-empty hands, in strictly
/// ascending order.
proof fn lemma_elig_upto(players: Seq<Player>, n: int)
    requires
        0 <= n <= players.len(),
        players.len() <= usize::MAX,
    ensures
        forall|k: int|
            0 <= k < elig_upto(players, n).len() ==> (#[trigger] elig_upto(players, n)[k]) < n
                && players[elig_upto(players, n)[k] as int].hand@.len() > 0,
        forall|k: int, l: int|
            0 <= k < l < elig_upto(players, n).len() ==> elig_upto(players, n)[k] < elig_upto(
                players,
                n,
            )[l],
        forall|j: int|
            0 <= j < n && players[j].hand@.len() > 0 ==> elig_upto(players, n).contains(
                j as usize,
            ),
        elig_upto(players, n).len() == count_nonempty_upto(players, n),
    decreases n,
{
    if n > 0 {
        lemma_elig_upto(players, n - 1);
        let prev = elig_upto(players, n - 1);
        let cur = elig_upto(players, n);
        if players[n - 1].hand@.len() > 0 {
            assert(cur == prev.push((n - 1) as usize));
        } else {
            assert(cur == prev);
        }
        assert forall|k: int|
            0 <= k < cur.len() implies cur[k] < n && players[cur[k] as int].hand@.len() > 0 by {
            if k < prev.len() {
                assert(cur[k] == prev[k]);
                assert(prev[k] < n - 1);
                assert(players[prev[k] as int].hand@.len() > 0);
            } else {
                assert(players[n - 1].hand@.len() > 0);
                assert(cur[k] == (n - 1) as usize);
            }
        }
        assert forall|k: int, l: int| 0 <= k < l < cur.len() implies cur[k] < cur[l] by {
            if l < prev.len() {
                assert(cur[k] == prev[k] && cur[l] == prev[l]);
            } else {
                assert(cur[l] == (n - 1) as usize);
                assert(cur[k] == prev[k]);
                assert(prev[k] < n - 1);
            }
        }
        assert forall|j: int|
            0 <= j < n && players[j].hand@.len() > 0 implies cur.contains(j as usize) by {
            if j == n - 1 {
                assert(players[n - 1].hand@.len() > 0);
                assert(cur[cur.len() - 1] == (n - 1) as usize);
            } else {
                assert(prev.contains(j as usize));
                let w = choose|w: int| 0 <= w < prev.len() && prev[w] == j as usize;
                assert(cur[w] == j as usize);
            }
        }
    }
}

/// For an ascending, complete list `el` of card-holders rotated at `pos`:
/// every card-holder is the rotated list's second entry (the new defender)
/// or among the rest (the new attackers), and no index strictly between the
/// leader and that second entry (cyclically) holds cards.
proof fn lemma_rotated_eligibility(players: Seq<Player>, el: Seq<usize>, pos: int)
    requires
        players.len() <= usize::MAX,
        2 <= el.len(),
        0 <= pos < el.len(),
        forall|k: int|
            0 <= k < el.len() ==> (#[trigger] el[k]) < players.len() && players[el[k] as int].hand@.len() > 0,
        forall|k: int, l: int| 0 <= k < l < el.len() ==> el[k] < el[l],
        forall|j: int|
            0 <= j < players.len() && players[j].hand@.len() > 0 ==> el.contains(j as usize),
    ensures
        ({
            let rot = el.skip(pos) + el.take(pos);
            let sel = rot[0];
            let defv = rot[1];
            &&& forall|j: int|
                0 <= j < players.len() && players[j].hand@.len() > 0 ==> j as usize == defv
                    || rot.remove(1).contains(j as usize)
            &&& (defv > sel ==> forall|m: int|
                sel < m < defv ==> players[m].hand@.len() == 0)
            &&& (defv < sel ==> (forall|m: int|
                sel < m < players.len() ==> players[m].hand@.len() == 0) && (forall|m: int|
                0 <= m < defv ==> players[m].hand@.len() == 0))
        }),
{
    let rot = el.skip(pos) + el.take(pos);
    let sel = rot[0];
    let defv = rot[1];
    assert(sel == el[pos]);
    assert forall|j: int|
        0 <= j < players.len() && players[j].hand@.len() > 0 implies j as usize == defv
        || rot.remove(1).contains(j as usize) by {
        assert(el.contains(j as usize));
        let w = choose|w: int| 0 <= w < el.len() && el[w] == j as usize;
        let wr = if w >= pos {
            w - pos
        } else {
            w + (el.len() - pos)
        };
        assert(rot[wr] == el[w]);
        if wr != 1 {
            let wa = if wr < 1 {
                wr
            } else {
                wr - 1
            };
            assert(rot.remove(1)[wa] == rot[wr]);
            assert(rot.remove(1).contains(j as usize));
        }
    }
    if pos + 1 < el.len() {
        assert(defv == el[pos + 1]);
        assert(defv > sel);
        assert forall|m: int| sel < m < defv implies players[m].hand@.len() == 0 by {
            if players[m].hand@.len() > 0 {
                assert(el.contains(m as usize));
                let w = choose|w: int| 0 <= w < el.len() && el[w] == m as usize;
                if w <= pos {
                    assert(el[w] <= el[pos]);
                } else {
                    assert(el[pos + 1] <= el[w]);
                }
            }
        }
    } else {
        assert(defv == el[0]);
        assert(pos >= 1);
        assert(defv < sel);
        assert forall|m: int|
            sel < m < players.len() implies players[m].hand@.len() == 0 by {
            if players[m].hand@.len() > 0 {
                assert(el.contains(m as usize));
                let w = choose|w: int| 0 <= w < el.len() && el[w] == m as usize;
                assert(w <= pos);
                if w < pos {
                    assert(el[w] < el[pos]);
                }
                assert(el[w] <= el[pos]);
            }
        }
        assert forall|m: int| 0 <= m < defv implies players[m].hand@.len() == 0 by {
            if players[m].hand@.len() > 0 {
                assert(el.contains(m as usize));
                let w = choose|w: int| 0 <= w < el.len() && el[w] == m as usize;
                assert(el[0] <= el[w]);
            }
        }
    }
}

/// A game's combined hands hold nothing when every hand is empty.
proof fn lemma_hands_multiset_all_empty(players: Seq<Player>)
    requires
        forall|i: int| 0 <= i < players.len() ==> players[i].hand@.len() == 0,
    ensures
        hands_multiset(players).len() == 0,
        hands_multiset(players) == Multiset::<Card>::empty(),
    decreases players.len(),
{
    broadcast use vstd::seq_lib::group_to_multiset_ensures;

    if players.len() > 0 {
        lemma_hands_multiset_all_empty(players.drop_last());
        assert(players.last().hand@.to_multiset().len() == 0);
    }
    assert(hands_multiset(players) =~= Multiset::<Card>::empty());
}

} // verus!
