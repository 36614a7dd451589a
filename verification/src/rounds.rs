//! What holds of a game over one tick and over any run of ticks.
//!
//! Every statement here is about `step`, the function that `Session::tick`
//! carries out, and holds whatever the inputs and aims.

use crate::ball::{
    approached, bounced, brick_hits, collisions, falls, keeps_speed, lemma_moved_inside_walls,
    lemma_moved_keeps_speed, lemma_struck, strikes, struck,
};
use crate::bricks::{cleared, destroyed_points, grid};
use crate::config::BreakoutConfig;
use crate::events::{BreakoutState, Event, GameResult};
use crate::geometry::{inside_walls, Point};
use crate::ledger::{lemma_credited, same_bricks};
use crate::paddle::{steered, PaddleInput};
use crate::session::{
    last_life_lost, lemma_step_keeps_inv, reported, step, SessionView,
};
use vstd::prelude::*;

verus! {

/// What comes from outside in one tick.
pub struct Tick {
    pub input: PaddleInput,
    pub aim: Option<Point>,
}

/// The session after the ticks, taken one by one in their order.
pub open spec fn run(s: SessionView, ticks: Seq<Tick>) -> SessionView
    decreases ticks.len(),
{
    if ticks.len() == 0 {
        s
    } else {
        step(run(s, ticks.drop_last()), ticks.last().input, ticks.last().aim)
    }
}

/// The tick leaves `Finished` for a fresh round.
pub open spec fn restarts(s: SessionView, tick: Tick) -> bool {
    s.state == BreakoutState::Finished && tick.input.confirm_just_pressed
}

/// None of the ticks begins a fresh round.
pub open spec fn one_round(s: SessionView, ticks: Seq<Tick>) -> bool
    decreases ticks.len(),
{
    if ticks.len() == 0 {
        true
    } else {
        one_round(s, ticks.drop_last()) && !restarts(run(s, ticks.drop_last()), ticks.last())
    }
}

// ---------------------------------------------------------------------------
// One tick
// ---------------------------------------------------------------------------
/// While play goes on, the ball lies between the side walls and under the
/// top wall after every tick.
pub proof fn lemma_ball_stays_in_court(s: SessionView, input: PaddleInput, aim: Option<Point>)
    requires
        s.inv(),
        s.state == BreakoutState::Playing,
        step(s, input, aim).state == BreakoutState::Playing,
    ensures
        step(s, input, aim).ball matches Some(ball) && inside_walls(
            ball.position,
            ball.size,
            s.config.court_size,
        ),
{
    let paddle = steered(s.config, s.paddle, input.move_intent as int);
    lemma_moved_inside_walls(s.ball->0, s.config.court_size, paddle, s.bricks, aim);
}

/// While play goes on, the ball keeps its speed from tick to tick as nearly
/// as the grid allows, whatever it bounces off; and it is never faster than
/// it was served.
pub proof fn lemma_ball_keeps_speed(s: SessionView, input: PaddleInput, aim: Option<Point>)
    requires
        s.inv(),
        s.state == BreakoutState::Playing,
        step(s, input, aim).state == BreakoutState::Playing,
    ensures
        s.ball matches Some(before) && step(s, input, aim).ball matches Some(after) && keeps_speed(
            before.velocity,
            after.velocity,
        ) && after.velocity.length_squared() <= s.config.serve_speed * s.config.serve_speed,
{
    let paddle = steered(s.config, s.paddle, input.move_intent as int);
    lemma_moved_keeps_speed(s.ball->0, s.config.court_size, paddle, s.bricks, aim);
}

/// A tick that does not begin a fresh round lowers the score by nothing,
/// adds no life, and leaves every brick in its place, the destroyed ones
/// destroyed.
pub proof fn lemma_step_in_round(s: SessionView, input: PaddleInput, aim: Option<Point>)
    requires
        s.inv(),
        !(s.state == BreakoutState::Finished && input.confirm_just_pressed),
    ensures
        step(s, input, aim).score >= s.score,
        step(s, input, aim).lives <= s.lives,
        same_bricks(s.bricks, step(s, input, aim).bricks),
        forall|id: int|
            0 <= id < s.bricks.len() && !(#[trigger] s.bricks[id]).live ==> !step(
                s,
                input,
                aim,
            ).bricks[id].live,
{
    if s.state == BreakoutState::Playing {
        let paddle = steered(s.config, s.paddle, input.move_intent as int);
        let events = collisions(s.ball->0, s.config.court_size, paddle, s.bricks, aim);
        lemma_credited(s.score, s.bricks, events);
    }
}

/// The score is the points of the destroyed bricks, after every tick.
pub proof fn lemma_score_is_destroyed_points(
    s: SessionView,
    input: PaddleInput,
    aim: Option<Point>,
)
    requires
        s.inv(),
    ensures
        step(s, input, aim).score == destroyed_points(step(s, input, aim).bricks),
{
    lemma_step_keeps_inv(s, input, aim);
}

/// A tick loses at most one life, and only when the ball crosses the bottom;
/// with no life left there is none to lose.
pub proof fn lemma_lives_floor(s: SessionView, input: PaddleInput, aim: Option<Point>)
    requires
        s.inv(),
        s.state == BreakoutState::Playing,
    ensures
        s.ball matches Some(ball) && step(s, input, aim).lives == if falls(
            ball,
            s.config.court_size,
        ) && s.lives > 0 {
            s.lives - 1
        } else {
            s.lives as int
        },
        step(s, input, aim).lives >= 0,
{
}

/// Every brick that a tick reports as hit stood when the tick began and is
/// destroyed when it ends, and no brick is reported twice.
pub proof fn lemma_hit_bricks_are_destroyed(
    s: SessionView,
    input: PaddleInput,
    aim: Option<Point>,
)
    requires
        s.inv(),
    ensures
        forall|k: int|
            0 <= k < reported(s, input, aim).len() ==> (#[trigger] reported(
                s,
                input,
                aim,
            )[k] matches Event::BrickHit { brick_id } ==> brick_id < s.bricks.len()
                && s.bricks[brick_id as int].live && !step(s, input, aim).bricks[brick_id as int].live),
        forall|j: int, k: int|
            0 <= j < k < reported(s, input, aim).len() && reported(s, input, aim)[j] is BrickHit
                ==> reported(s, input, aim)[j] != reported(s, input, aim)[k],
{
    let all = reported(s, input, aim);
    let after = step(s, input, aim);
    if s.state == BreakoutState::Playing {
        let ball = s.ball->0;
        let court = s.config.court_size;
        let paddle = steered(s.config, s.paddle, input.move_intent as int);
        let met = collisions(ball, court, paddle, s.bricks, aim);
        let at_bricks = bounced(approached(ball, court), paddle, aim);
        let ids = struck(at_bricks, s.bricks);
        let head: Seq<Event> = if falls(ball, court) {
            seq![Event::BottomCollision]
        } else {
            Seq::empty()
        };
        assert(met == head + brick_hits(ids));
        lemma_struck(at_bricks, s.bricks);
        lemma_credited(s.score, s.bricks, met);
        assert forall|k: int| 0 <= k < all.len() implies (#[trigger] all[k] matches Event::BrickHit {
            brick_id,
        } ==> brick_id < s.bricks.len() && s.bricks[brick_id as int].live
            && !after.bricks[brick_id as int].live) by {
            if all[k] is BrickHit {
                assert(head.len() <= k < met.len());
                let j = k - head.len();
                assert(all[k] == met[k]);
                assert(met[k] == brick_hits(ids)[j]);
                assert(0 <= ids[j] < s.bricks.len());
                assert(strikes(at_bricks, s.bricks[ids[j]]) is Some);
            }
        }
        assert forall|j: int, k: int|
            0 <= j < k < all.len() && all[j] is BrickHit implies all[j] != all[k] by {
            assert(head.len() <= j < met.len());
            if k < met.len() {
                let a = j - head.len();
                let b = k - head.len();
                assert(all[j] == brick_hits(ids)[a]);
                assert(all[k] == brick_hits(ids)[b]);
                assert(0 <= ids[a] < s.bricks.len());
                assert(0 <= ids[b] < s.bricks.len());
                assert(ids[a] < ids[b]);
            }
        }
    }
}

/// From `Finished`, pressing the confirm control always leads to `Start`
/// with nothing scored, all lives, no result and the grid whole.
pub proof fn lemma_restart(s: SessionView, input: PaddleInput, aim: Option<Point>)
    requires
        s.state == BreakoutState::Finished,
        input.confirm_just_pressed,
    ensures
        step(s, input, aim).state == BreakoutState::Start,
        step(s, input, aim).score == 0,
        step(s, input, aim).lives == s.config.starting_lives,
        step(s, input, aim).result is None,
        step(s, input, aim).ball is None,
        step(s, input, aim).bricks == grid(s.config),
        s.config == BreakoutConfig::standard() ==> step(s, input, aim).lives == 3,
{
}

/// How a round ends. A ball that crosses the bottom and takes the last life
/// ends it as lost in that very tick. Failing that, a field that had no
/// standing brick when the tick began ends it as won. Nothing else ends it.
pub proof fn lemma_round_ends(s: SessionView, input: PaddleInput, aim: Option<Point>)
    requires
        s.inv(),
        s.state == BreakoutState::Playing,
    ensures
        s.ball matches Some(ball) && ({
            let fell = falls(ball, s.config.court_size);
            let after = step(s, input, aim);
            &&& fell && after.lives == 0 ==> after.state == BreakoutState::Finished && after.result
                == Some(GameResult::GameOver)
            &&& !last_life_lost(s.lives, fell) && cleared(s.bricks) ==> after.state
                == BreakoutState::Finished && after.result == Some(GameResult::Victory)
            &&& after.state == BreakoutState::Finished ==> last_life_lost(s.lives, fell) || cleared(
                s.bricks,
            )
            &&& fell && after.state != BreakoutState::Finished ==> after.state
                == BreakoutState::Serve
            &&& !fell ==> after.state != BreakoutState::Serve
        }),
{
}

// ---------------------------------------------------------------------------
// Any run of ticks
// ---------------------------------------------------------------------------
/// What holds between ticks holds after any run of ticks.
pub proof fn lemma_run_keeps_inv(s: SessionView, ticks: Seq<Tick>)
    requires
        s.inv(),
    ensures
        run(s, ticks).inv(),
    decreases ticks.len(),
{
    if ticks.len() > 0 {
        lemma_run_keeps_inv(s, ticks.drop_last());
        lemma_step_keeps_inv(run(s, ticks.drop_last()), ticks.last().input, ticks.last().aim);
    }
}

/// Within one round the score never falls, over any run of ticks.
pub proof fn lemma_score_never_falls(s: SessionView, ticks: Seq<Tick>)
    requires
        s.inv(),
        one_round(s, ticks),
    ensures
        run(s, ticks).score >= s.score,
    decreases ticks.len(),
{
    if ticks.len() > 0 {
        let before = run(s, ticks.drop_last());
        lemma_score_never_falls(s, ticks.drop_last());
        lemma_run_keeps_inv(s, ticks.drop_last());
        lemma_step_in_round(before, ticks.last().input, ticks.last().aim);
    }
}

/// Within one round the lives never rise, and they never fall below none,
/// over any run of ticks.
pub proof fn lemma_lives_never_rise(s: SessionView, ticks: Seq<Tick>)
    requires
        s.inv(),
        one_round(s, ticks),
    ensures
        0 <= run(s, ticks).lives <= s.lives,
    decreases ticks.len(),
{
    if ticks.len() > 0 {
        let before = run(s, ticks.drop_last());
        lemma_lives_never_rise(s, ticks.drop_last());
        lemma_run_keeps_inv(s, ticks.drop_last());
        lemma_step_in_round(before, ticks.last().input, ticks.last().aim);
    }
}

/// Within one round a destroyed brick stays destroyed, over any run of
/// ticks: the field keeps its bricks in their places, and none comes back.
pub proof fn lemma_destroyed_bricks_stay(s: SessionView, ticks: Seq<Tick>, id: int)
    requires
        s.inv(),
        one_round(s, ticks),
        0 <= id < s.bricks.len(),
        !s.bricks[id].live,
    ensures
        run(s, ticks).bricks.len() == s.bricks.len(),
        !run(s, ticks).bricks[id].live,
    decreases ticks.len(),
{
    if ticks.len() > 0 {
        let before = run(s, ticks.drop_last());
        lemma_destroyed_bricks_stay(s, ticks.drop_last(), id);
        lemma_run_keeps_inv(s, ticks.drop_last());
        lemma_step_in_round(before, ticks.last().input, ticks.last().aim);
        assert(!before.bricks[id].live);
    }
}

} // verus!
