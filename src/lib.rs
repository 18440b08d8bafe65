//! Connect four: the rules of the board and the players that choose moves.

pub mod behaviour;
pub mod board_state;
mod chance;
pub mod game;
pub mod random;
pub mod rollout;

pub use behaviour::{Human, Intent};
pub use board_state::BoardState;
pub use game::{Game, GameView, PlayResult, Player};
pub use random::Random;
pub use rollout::Rollout;
