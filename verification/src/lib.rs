//! A verified rules engine for Durak, the Russian trick-elimination card game.
//!
//! The crate owns the authoritative game state for 2 to 6 players, validates
//! every submitted move against the canonical ruleset (attack, defense,
//! pile-on, round settlement, refill, termination), and proves that the
//! 36-card population is conserved across every transition.  Player decisions
//! are supplied through the [`game::DurakPlayer`] trait; how a decision is
//! produced (console, network, bot) is outside the engine's concern.

pub mod bot;
pub mod card;
pub mod game;
pub mod rng;
pub mod toplaystate;

pub use card::{Card, Rank, Suit, hand_fmt, sort_cards};
pub use game::{Action, DurakGame, DurakGameResult, DurakPlayer, GameError, GameState, Ready};
pub use toplaystate::{PlayerInfo, ToPlayState, ValidationError};
