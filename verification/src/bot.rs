//! A scripted player agent: it attacks and defends with the first card of
//! its hand that passes validation, never piles on, and picks the lowest
//! free id.  Useful for exercising the engine without a human.

use vstd::prelude::*;

verus! {

use crate::card::Card;
use crate::game::{Action, DurakPlayer, PlayerError};
use crate::toplaystate::{PlayerInfo, ToPlayState};

/// The id the bot settles on: starting from `start`, each listed id (below
/// the numeric maximum) at or above the running value pushes the value just
/// past that id; ids at the maximum are skipped.
pub open spec fn picked_id(infos: Seq<PlayerInfo>, start: u64) -> u64
    decreases infos.len(),
{
    if infos.len() == 0 {
        start
    } else {
        let prev = picked_id(infos.drop_last(), start);
        if prev <= infos.last().id && infos.last().id < u64::MAX {
            (infos.last().id + 1) as u64
        } else {
            prev
        }
    }
}

/// A bot that plays the first legal card it finds.  `wait` is an advisory
/// pacing delay in milliseconds: the engine never blocks, so a host that
/// wants a human-watchable pace applies the delay itself between turns.
pub struct DummyDurakPlayer {
    /// The id this bot will report (it raises it past every taken id).
    pub id: u64,
    /// The advisory pacing delay, in milliseconds.
    pub wait: u64,
}

impl DummyDurakPlayer {
    /// A bot with id 1 and no pacing delay.
    pub fn new() -> (r: DummyDurakPlayer)
        ensures
            r.id == 1,
            r.wait == 0,
    {
        DummyDurakPlayer { id: 1, wait: 0 }
    }

    /// Sets the advisory pacing delay, in milliseconds.
    pub fn with_wait(self, wait: u64) -> (r: DummyDurakPlayer)
        ensures
            r.id == self.id,
            r.wait == wait,
    {
        DummyDurakPlayer { id: self.id, wait }
    }

    /// The advisory pacing delay, in milliseconds.
    pub fn wait_millis(&self) -> (r: u64)
        ensures
            r == self.wait,
    {
        self.wait
    }

    /// The first card of the hand that is a valid attack, or a pass when
    /// none is.
    pub fn choose_attack(state: &ToPlayState) -> (r: Action)
        ensures
            ({
                let hand = state.hand@;
                let found = exists|k: int|
                    0 <= k < hand.len() && state.spec_validate_attack(Action::Play(hand[k]))
                        is Ok;
                if found {
                    exists|k: int|
                        {
                            &&& 0 <= k < hand.len()
                            &&& state.spec_validate_attack(Action::Play(hand[k])) is Ok
                            &&& r == Action::Play(hand[k])
                            &&& forall|m: int|
                                0 <= m < k ==> !(state.spec_validate_attack(
                                    Action::Play(hand[m]),
                                ) is Ok)
                        }
                } else {
                    r == Action::Pass
                }
            }),
    {
        let mut i: usize = 0;
        while i < state.hand.len()
            invariant
                i <= state.hand@.len(),
                forall|m: int|
                    0 <= m < i ==> !(state.spec_validate_attack(
                        Action::Play(state.hand@[m]),
                    ) is Ok),
            decreases state.hand@.len() - i,
        {
            let card = state.hand[i];
            if state.validate_attack(&Action::Play(card)).is_ok() {
                return Action::Play(card);
            }
            i += 1;
        }
        Action::Pass
    }

    /// The first card of the hand that is a valid defense, or a pass when
    /// none is.
    pub fn choose_defense(state: &ToPlayState) -> (r: Action)
        ensures
            ({
                let hand = state.hand@;
                let found = exists|k: int|
                    0 <= k < hand.len() && state.spec_validate_defense(Action::Play(hand[k]))
                        is Ok;
                if found {
                    exists|k: int|
                        {
                            &&& 0 <= k < hand.len()
                            &&& state.spec_validate_defense(Action::Play(hand[k])) is Ok
                            &&& r == Action::Play(hand[k])
                            &&& forall|m: int|
                                0 <= m < k ==> !(state.spec_validate_defense(
                                    Action::Play(hand[m]),
                                ) is Ok)
                        }
                } else {
                    r == Action::Pass
                }
            }),
    {
        let mut i: usize = 0;
        while i < state.hand.len()
            invariant
                i <= state.hand@.len(),
                forall|m: int|
                    0 <= m < i ==> !(state.spec_validate_defense(
                        Action::Play(state.hand@[m]),
                    ) is Ok),
            decreases state.hand@.len() - i,
        {
            let card = state.hand[i];
            if state.validate_defense(&Action::Play(card)).is_ok() {
                return Action::Play(card);
            }
            i += 1;
        }
        Action::Pass
    }

    /// An id exceeding every id in `player_info` (starting from this bot's
    /// current id); ids at the numeric maximum are left unexceeded.  The
    /// result is exactly the left-to-right fold `picked_id`.
    pub fn pick_id(&mut self, player_info: &Vec<PlayerInfo>) -> (r: u64)
        ensures
            r == picked_id(player_info@, old(self).id),
            r == final(self).id,
            final(self).wait == old(self).wait,
            r >= old(self).id,
            forall|k: int|
                0 <= k < player_info@.len() && player_info@[k].id < u64::MAX ==> r
                    != player_info@[k].id,
    {
        let mut i: usize = 0;
        while i < player_info.len()
            invariant
                i <= player_info@.len(),
                self.id == picked_id(player_info@.take(i as int), old(self).id),
                self.id >= old(self).id,
                self.wait == old(self).wait,
                forall|k: int|
                    0 <= k < i && player_info@[k].id < u64::MAX ==> self.id
                        > player_info@[k].id,
            decreases player_info@.len() - i,
        {
            let info_id = player_info[i].id;
            if self.id <= info_id && info_id < u64::MAX {
                self.id = info_id + 1;
            }
            proof {
                let t = player_info@.take(i + 1);
                assert(t.drop_last() =~= player_info@.take(i as int));
                assert(t.last() == player_info@[i as int]);
                assert(self.id == picked_id(player_info@.take(i + 1), old(self).id));
            }
            i += 1;
        }
        proof {
            assert(player_info@.take(player_info@.len() as int) =~= player_info@);
        }
        self.id
    }
}

impl DurakPlayer for DummyDurakPlayer {
    fn attack(&mut self, state: &ToPlayState) -> Result<Action, PlayerError> {
        Ok(DummyDurakPlayer::choose_attack(state))
    }

    fn defend(&mut self, state: &ToPlayState) -> Result<Action, PlayerError> {
        Ok(DummyDurakPlayer::choose_defense(state))
    }

    fn pile_on(&mut self, state: &ToPlayState) -> Result<Vec<Card>, PlayerError> {
        let _ = state;
        Ok(Vec::new())
    }

    fn get_id(&mut self, player_info: &Vec<PlayerInfo>) -> Result<u64, PlayerError> {
        Ok(self.pick_id(player_info))
    }
}

} // verus!
