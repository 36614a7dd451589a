//! The states of a game, its outcome, and what a tick reports.

use vstd::prelude::*;

verus! {

/// How a round ended.
#[derive(Clone, Copy, Debug, PartialEq, Eq, Structural)]
pub enum GameResult {
    /// Every brick was destroyed.
    Victory,
    /// The last life was lost.
    GameOver,
}

/// The four states a game cycles through.
#[derive(Clone, Copy, Debug, PartialEq, Eq, Hash, Structural)]
pub enum BreakoutState {
    /// A fresh brick field stands; the game waits for the confirm control to
    /// be let go.
    Start,
    /// The ball rides the paddle until it is launched.
    Serve,
    /// The ball is in flight.
    Playing,
    /// The round is over and its result stands.
    Finished,
}

impl Default for BreakoutState {
    fn default() -> (state: BreakoutState)
        ensures
            state == BreakoutState::Start,
    {
        BreakoutState::Start
    }
}

/// One message of a tick, in the order in which things happened.
#[derive(Clone, Copy, Debug, PartialEq, Eq, Structural)]
pub enum Event {
    /// The ball overlapped the brick with this index in the field.
    BrickHit { brick_id: usize },
    /// The ball crossed the bottom of the court.
    BottomCollision,
    /// The game entered `Serve`.
    EnteredServe,
    /// The game entered `Playing`.
    EnteredPlaying,
    /// The game entered `Finished` with this result.
    EnteredFinished { result: GameResult },
    /// The game entered `Start`.
    EnteredStart,
}

} // verus!
