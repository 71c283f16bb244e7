//! Simulation core of a falling-block puzzle game.
//!
//! The library maintains a bounded 21x12 grid ([`Piles`]), an actively
//! falling piece ([`Block`]), a queued next piece and tick/lock-delay
//! counters ([`Game`]), and advances one discrete game tick per call of
//! [`Game::update`] in response to a player [`Command`]. Geometry and
//! rotation, collision detection, timed locking and row-clear compaction
//! are stated as contracts over a mathematical model of the state and
//! proved; the pseudo-random shape generator and the TOML reader of the
//! startup override are called through trusted declarations.

pub mod block;
pub mod board;
pub mod config;
pub mod game;
pub mod rng;
pub mod shape;

pub use block::Block;
pub use block::PosInCell;
pub use board::Piles;
pub use board::BOARD_X_LEN;
pub use board::BOARD_X_MAX;
pub use board::BOARD_X_MIN;
pub use board::BOARD_Y_LEN;
pub use board::BOARD_Y_MAX;
pub use board::BOARD_Y_MIN;
pub use config::parse_pattern;
pub use game::Command;
pub use game::Game;
pub use shape::Pattern;
pub use shape::Shape;
