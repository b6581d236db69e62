//! The per-turn view handed to a player on their turn, and the
//! move-legality rules: the beats relation and the three validators.

use vstd::prelude::*;

verus! {

use crate::card::{Card, Rank, Suit, rank_ordinal};
use crate::game::Action;

/// The information about one player that every other player may see.
#[derive(PartialEq, Eq, Structural, Copy, Clone, Debug)]
pub struct PlayerInfo {
    /// The player's unique id.
    pub id: u64,
    /// The number of cards in the player's hand.
    pub hand_len: usize,
}

/// The limited, read-only game state a player is shown on their turn.
pub struct ToPlayState {
    /// The trump suit.
    pub trump: Suit,
    /// The attack cards in play this round.
    pub attack_cards: Vec<Card>,
    /// The defense cards in play this round; `defense_cards[i]` answers
    /// `attack_cards[i]`.
    pub defense_cards: Vec<Card>,
    /// The queried player's own hand.
    pub hand: Vec<Card>,
    /// Every player's id and hand size, in registration order.
    pub player_info: Vec<PlayerInfo>,
    /// Index into `player_info` of the attacker whose card most recently
    /// opened the live exchange.
    pub last_attacker: usize,
    /// Index into `player_info` of this round's defender.
    pub defender: usize,
    /// Index into `player_info` of the player whose decision is awaited.
    pub to_play: usize,
}

/// Whether `defense` beats `attack` under trump suit `trump`:
/// a trump card beats every non-trump card and any lower trump;
/// a non-trump card beats only a lower card of its own suit.
pub open spec fn beats(defense: Card, attack: Card, trump: Suit) -> bool {
    if defense.suit == trump {
        attack.suit != trump || rank_ordinal(defense.rank) > rank_ordinal(attack.rank)
    } else {
        attack.suit != trump && attack.suit == defense.suit && rank_ordinal(defense.rank)
            > rank_ordinal(attack.rank)
    }
}

/// Checks whether a defense card beats an attack card under the given trump.
pub fn beats_card(defense: &Card, attack: &Card, trump: &Suit) -> (r: bool)
    ensures
        r == beats(*defense, *attack, *trump),
{
    if defense.suit == *trump {
        if attack.suit == *trump {
            if attack.rank.ordinal() >= defense.rank.ordinal() {
                return false;
            }
        }
    } else {
        if attack.suit == *trump {
            return false;
        }
        if attack.suit != defense.suit {
            return false;
        }
        if attack.rank.ordinal() >= defense.rank.ordinal() {
            return false;
        }
    }
    true
}

/// No card beats itself, whatever the trump suit.
pub proof fn lemma_beats_irreflexive(c: Card, trump: Suit)
    ensures
        !beats(c, c, trump),
{
}

/// Of two distinct cards of the same non-trump suit, exactly one beats the
/// other: the one with the higher rank.
pub proof fn lemma_beats_same_suit(a: Card, b: Card, trump: Suit)
    requires
        a.suit == b.suit,
        a.suit != trump,
        a != b,
    ensures
        beats(a, b, trump) <==> !beats(b, a, trump),
        beats(a, b, trump) <==> rank_ordinal(a.rank) > rank_ordinal(b.rank),
{
    assert(rank_ordinal(a.rank) != rank_ordinal(b.rank)) by {
        if rank_ordinal(a.rank) == rank_ordinal(b.rank) {
            assert(a.rank == b.rank);
        }
    }
}

/// Every trump card beats every non-trump attack card.
pub proof fn lemma_trump_beats_nontrump(d: Card, a: Card, trump: Suit)
    requires
        d.suit == trump,
        a.suit != trump,
    ensures
        beats(d, a, trump),
{
}

/// No non-trump card ever beats a trump attack card.
pub proof fn lemma_nontrump_never_beats_trump(d: Card, a: Card, trump: Suit)
    requires
        d.suit != trump,
        a.suit == trump,
    ensures
        !beats(d, a, trump),
{
}

/// The reasons a submitted move is rejected.
#[derive(PartialEq, Eq, Structural, Copy, Clone, Debug)]
pub enum ValidationError {
    /// The move was submitted by or for the wrong role.
    WrongTurnType,
    /// The named card is not in the submitting player's hand.
    CardNotInHand(Card),
    /// The named card's rank is not in play (or no attack exists where one
    /// is required).
    InvalidAttack(Card),
    /// The first card does not beat the live attack card (the second).
    InvalidDefense(Card, Card),
}

/// Whether some card of rank `r` already lies on the table, among either the
/// attack cards or the defense cards.
pub open spec fn rank_on_table(attack: Seq<Card>, defense: Seq<Card>, r: Rank) -> bool {
    (exists|i: int| 0 <= i < attack.len() && attack[i].rank == r) || (exists|i: int|
        0 <= i < defense.len() && defense[i].rank == r)
}

/// Checks whether some card in `cards` has rank `rank`.
fn any_rank_matches(cards: &Vec<Card>, rank: Rank) -> (r: bool)
    ensures
        r == exists|i: int| 0 <= i < cards@.len() && cards@[i].rank == rank,
{
    let mut ind: usize = 0;
    while ind < cards.len()
        invariant
            ind <= cards@.len(),
            forall|j: int| 0 <= j < ind ==> cards@[j].rank != rank,
        decreases cards@.len() - ind,
    {
        if cards[ind].rank == rank {
            return true;
        }
        ind += 1;
    }
    false
}

impl ToPlayState {
    /// The verdict `validate_attack` returns on `action`.
    pub open spec fn spec_validate_attack(&self, action: Action) -> Result<(), ValidationError> {
        if self.to_play == self.defender {
            Err(ValidationError::WrongTurnType)
        } else {
            match action {
                Action::Play(card) => if !self.hand@.contains(card) {
                    Err(ValidationError::CardNotInHand(card))
                } else if self.attack_cards@.len() == 0 {
                    Ok(())
                } else if rank_on_table(self.attack_cards@, self.defense_cards@, card.rank) {
                    Ok(())
                } else {
                    Err(ValidationError::InvalidAttack(card))
                },
                Action::Pass => Ok(()),
            }
        }
    }

    /// The verdict `validate_defense` returns on `action`.
    pub open spec fn spec_validate_defense(&self, action: Action) -> Result<(), ValidationError> {
        if self.to_play != self.defender {
            Err(ValidationError::WrongTurnType)
        } else {
            match action {
                Action::Play(card) => if !self.hand@.contains(card) {
                    Err(ValidationError::CardNotInHand(card))
                } else if self.attack_cards@.len() == 0 {
                    Err(ValidationError::WrongTurnType)
                } else if !beats(card, self.attack_cards@.last(), self.trump) {
                    Err(ValidationError::InvalidDefense(card, self.attack_cards@.last()))
                } else {
                    Ok(())
                },
                Action::Pass => Ok(()),
            }
        }
    }

    /// The verdict `validate_pile_on_single` returns on `card`.
    pub open spec fn spec_validate_pile_on_single(&self, card: Card) -> Result<
        (),
        ValidationError,
    > {
        if !self.hand@.contains(card) {
            Err(ValidationError::CardNotInHand(card))
        } else if rank_on_table(self.attack_cards@, self.defense_cards@, card.rank) {
            Ok(())
        } else {
            Err(ValidationError::InvalidAttack(card))
        }
    }

    /// The first rejection among `cards`, checked left to right.
    pub open spec fn spec_pile_on_batch(&self, cards: Seq<Card>) -> Result<(), ValidationError>
        decreases cards.len(),
    {
        if cards.len() == 0 {
            Ok(())
        } else {
            match self.spec_validate_pile_on_single(cards.first()) {
                Err(e) => Err(e),
                Ok(()) => self.spec_pile_on_batch(cards.drop_first()),
            }
        }
    }

    /// How many more attack cards the table can accept before reaching the
    /// six-card limit.
    pub open spec fn pile_on_capacity(&self) -> int {
        if self.attack_cards@.len() >= 6 {
            0
        } else {
            6 - self.attack_cards@.len()
        }
    }

    /// The verdict `validate_pile_on` returns on `cards`: the per-card
    /// checks, then the six-card table limit.
    pub open spec fn spec_validate_pile_on(&self, cards: Seq<Card>) -> Result<
        (),
        ValidationError,
    > {
        if self.to_play == self.defender {
            Err(ValidationError::WrongTurnType)
        } else {
            match self.spec_pile_on_batch(cards) {
                Err(e) => Err(e),
                Ok(()) => if cards.len() > self.pile_on_capacity() {
                    Err(ValidationError::InvalidAttack(cards[self.pile_on_capacity()]))
                } else {
                    Ok(())
                },
            }
        }
    }

    /// Returns an owned copy of this view.
    pub fn to_static(&self) -> (r: ToPlayState)
        ensures
            r.trump == self.trump,
            r.attack_cards@ == self.attack_cards@,
            r.defense_cards@ == self.defense_cards@,
            r.hand@ == self.hand@,
            r.player_info@ == self.player_info@,
            r.last_attacker == self.last_attacker,
            r.defender == self.defender,
            r.to_play == self.to_play,
    {
        ToPlayState {
            trump: self.trump,
            attack_cards: copy_cards(&self.attack_cards),
            defense_cards: copy_cards(&self.defense_cards),
            hand: copy_cards(&self.hand),
            player_info: copy_infos(&self.player_info),
            last_attacker: self.last_attacker,
            defender: self.defender,
            to_play: self.to_play,
        }
    }

    /// Validates an attack move: the submitting player must not be the
    /// defender, the card must come from their hand, and after the round's
    /// first card its rank must already be on the table.
    pub fn validate_attack(&self, action: &Action) -> (r: Result<(), ValidationError>)
        ensures
            r == self.spec_validate_attack(*action),
    {
        if self.to_play == self.defender {
            return Err(ValidationError::WrongTurnType);
        }
        match action {
            Action::Play(attack_card) => {
                if !crate::card::hand_contains(&self.hand, attack_card) {
                    return Err(ValidationError::CardNotInHand(*attack_card));
                }
                if self.attack_cards.len() == 0 {
                    return Ok(());
                }
                if any_rank_matches(&self.attack_cards, attack_card.rank) {
                    return Ok(());
                }
                if any_rank_matches(&self.defense_cards, attack_card.rank) {
                    return Ok(());
                }
                Err(ValidationError::InvalidAttack(*attack_card))
            },
            Action::Pass => Ok(()),
        }
    }

    /// Validates a defense move: only the defender may defend, the card must
    /// come from their hand, and it must beat the most recent still-uncovered
    /// attack card.
    pub fn validate_defense(&self, action: &Action) -> (r: Result<(), ValidationError>)
        ensures
            r == self.spec_validate_defense(*action),
    {
        if self.to_play != self.defender {
            return Err(ValidationError::WrongTurnType);
        }
        match action {
            Action::Play(defense_card) => {
                if !crate::card::hand_contains(&self.hand, defense_card) {
                    return Err(ValidationError::CardNotInHand(*defense_card));
                }
                if self.attack_cards.len() == 0 {
                    return Err(ValidationError::WrongTurnType);
                }
                let attack_card = self.attack_cards[self.attack_cards.len() - 1];
                if !beats_card(defense_card, &attack_card, &self.trump) {
                    return Err(ValidationError::InvalidDefense(*defense_card, attack_card));
                }
                Ok(())
            },
            Action::Pass => Ok(()),
        }
    }

    /// Validates a single card for pile on: it must come from the submitting
    /// player's hand and its rank must already be on the table.  Does not
    /// check the turn type.
    pub fn validate_pile_on_single(&self, pile_on_card: &Card) -> (r: Result<
        (),
        ValidationError,
    >)
        ensures
            r == self.spec_validate_pile_on_single(*pile_on_card),
    {
        if !crate::card::hand_contains(&self.hand, pile_on_card) {
            return Err(ValidationError::CardNotInHand(*pile_on_card));
        }
        if any_rank_matches(&self.attack_cards, pile_on_card.rank) {
            return Ok(());
        }
        if any_rank_matches(&self.defense_cards, pile_on_card.rank) {
            return Ok(());
        }
        Err(ValidationError::InvalidAttack(*pile_on_card))
    }

    /// Validates a pile-on batch: the submitting player must not be the
    /// defender, every card must pass the single-card check, and the batch
    /// must not push the table past six attack cards.  The first rejection
    /// (in submission order) is returned; the card that would cross the
    /// limit names the overflow rejection.
    pub fn validate_pile_on(&self, cards: &[Card]) -> (r: Result<(), ValidationError>)
        ensures
            r == self.spec_validate_pile_on(cards@),
            r is Ok <==> (self.to_play != self.defender && cards@.len()
                <= self.pile_on_capacity() && forall|i: int|
                0 <= i < cards@.len() ==> self.spec_validate_pile_on_single(cards@[i]) is Ok),
    {
        if self.to_play == self.defender {
            return Err(ValidationError::WrongTurnType);
        }
        let mut ind: usize = 0;
        while ind < cards.len()
            invariant
                self.to_play != self.defender,
                ind <= cards@.len(),
                forall|j: int|
                    0 <= j < ind ==> self.spec_validate_pile_on_single(cards@[j]) is Ok,
            decreases cards@.len() - ind,
        {
            let verdict = self.validate_pile_on_single(&cards[ind]);
            match verdict {
                Err(e) => {
                    proof {
                        self.lemma_pile_on_batch_skip(cards@, ind as int);
                        assert(cards@.skip(ind as int).first() == cards@[ind as int]);
                        assert(cards@.skip(ind as int).len() > 0);
                        assert(self.spec_pile_on_batch(cards@.skip(ind as int)) == Err::<
                            (),
                            ValidationError,
                        >(e));
                    }
                    return Err(e);
                },
                Ok(()) => {},
            }
            ind += 1;
        }
        proof {
            self.lemma_pile_on_batch_skip(cards@, cards@.len() as int);
            assert(cards@.skip(cards@.len() as int).len() == 0);
        }
        let cap_left: usize = if self.attack_cards.len() >= 6 {
            0
        } else {
            6 - self.attack_cards.len()
        };
        if cards.len() > cap_left {
            return Err(ValidationError::InvalidAttack(cards[cap_left]));
        }
        Ok(())
    }

    /// When every card before position `i` passes the single-card check, the
    /// batch verdict is decided by the cards from position `i` on.
    proof fn lemma_pile_on_batch_skip(&self, cards: Seq<Card>, i: int)
        requires
            0 <= i <= cards.len(),
            forall|j: int| 0 <= j < i ==> self.spec_validate_pile_on_single(cards[j]) is Ok,
        ensures
            self.spec_pile_on_batch(cards) == self.spec_pile_on_batch(cards.skip(i)),
        decreases i,
    {
        if i > 0 {
            assert(self.spec_validate_pile_on_single(cards.first()) is Ok);
            assert(forall|j: int|
                0 <= j < i - 1 ==> self.spec_validate_pile_on_single(
                    #[trigger] cards.drop_first()[j],
                ) is Ok);
            self.lemma_pile_on_batch_skip(cards.drop_first(), i - 1);
            assert(cards.drop_first().skip(i - 1) =~= cards.skip(i));
        } else {
            assert(cards.skip(0) =~= cards);
        }
    }
}

/// Returns a vector holding the same cards in the same order.
pub(crate) fn copy_cards(v: &Vec<Card>) -> (r: Vec<Card>)
    ensures
        r@ == v@,
{
    let mut r: Vec<Card> = Vec::new();
    let mut i: usize = 0;
    while i < v.len()
        invariant
            i <= v@.len(),
            r@ == v@.take(i as int),
        decreases v@.len() - i,
    {
        r.push(v[i]);
        proof {
            assert(v@.take(i + 1) =~= v@.take(i as int).push(v@[i as int]));
        }
        i += 1;
    }
    proof {
        assert(v@.take(v@.len() as int) =~= v@);
    }
    r
}

/// Returns a vector holding the same player records in the same order.
pub(crate) fn copy_infos(v: &Vec<PlayerInfo>) -> (r: Vec<PlayerInfo>)
    ensures
        r@ == v@,
{
    let mut r: Vec<PlayerInfo> = Vec::new();
    let mut i: usize = 0;
    while i < v.len()
        invariant
            i <= v@.len(),
            r@ == v@.take(i as int),
        decreases v@.len() - i,
    {
        r.push(v[i]);
        proof {
            assert(v@.take(i + 1) =~= v@.take(i as int).push(v@[i as int]));
        }
        i += 1;
    }
    proof {
        assert(v@.take(v@.len() as int) =~= v@);
    }
    r
}

} // verus!
