//! The simulation core of a brick-breaking arcade game.
//!
//! Everything is laid out on an integer grid: positions, sizes and speeds are
//! whole numbers of one arbitrary unit of resolution, and one call of the
//! per-tick functions advances the game by one fixed step.
//!
//! `geometry` tests boxes for overlap. `paddle` and `ball` move the two
//! things that move, `bricks` holds the field, and `ledger` keeps score and
//! lives. `session` runs them tick by tick as one game, and `rounds` states
//! what holds of a game over any run of ticks.

pub mod ball;
pub mod bricks;
pub mod config;
pub mod events;
pub mod geometry;
pub mod ledger;
pub mod paddle;
pub mod rounds;
pub mod session;
