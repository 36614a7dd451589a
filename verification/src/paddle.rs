//! The paddle and what steers it.

use crate::config::BreakoutConfig;
use crate::geometry::{limit_x, Collider, Point, Vec2};
use vstd::prelude::*;

verus! {

/// What the player asks for in one tick, sampled once when the tick begins.
#[derive(Clone, Copy, Debug, PartialEq, Eq, Structural)]
pub struct PaddleInput {
    /// The displacement wished for in this tick, before the paddle's speed
    /// scales it. Negative is left.
    pub move_intent: i64,
    /// The confirm control is down.
    pub confirm_held: bool,
    /// The confirm control went down in this tick.
    pub confirm_just_pressed: bool,
}

impl Default for PaddleInput {
    fn default() -> (input: PaddleInput)
        ensures
            input == (PaddleInput {
                move_intent: 0,
                confirm_held: false,
                confirm_just_pressed: false,
            }),
    {
        PaddleInput { move_intent: 0, confirm_held: false, confirm_just_pressed: false }
    }
}

/// The paddle: a box that moves along the bottom of the court.
#[derive(Clone, Copy, Debug, PartialEq, Eq, Structural)]
pub struct Paddle {
    pub position: Vec2,
    pub size: Collider,
}

/// What a `Paddle` stands for in contracts.
pub struct PaddleView {
    pub position: Point,
    pub size: Collider,
}

impl View for Paddle {
    type V = PaddleView;

    open spec fn view(&self) -> PaddleView {
        PaddleView { position: self.position@, size: self.size }
    }
}

impl PaddleView {
    /// The paddle lies within reach.
    pub open spec fn wf(self) -> bool {
        self.position.within_reach()
    }
}

/// `v`, or the nearer bound where it lies outside them.
pub open spec fn clamp(v: int, lo: int, hi: int) -> int {
    if v < lo {
        lo
    } else if v > hi {
        hi
    } else {
        v
    }
}

/// The paddle as a round begins: on the centre line, at its configured height.
pub open spec fn home_paddle(config: BreakoutConfig) -> PaddleView {
    PaddleView { position: Point { x: 0, y: config.paddle_y() }, size: config.paddle_size }
}

/// The paddle after one tick under the given intent: moved sideways by the
/// intent times the configured speed, then brought back between the side
/// walls. Its height does not change.
pub open spec fn steered(config: BreakoutConfig, paddle: PaddleView, intent: int) -> PaddleView {
    PaddleView {
        position: Point {
            x: clamp(
                paddle.position.x + intent * config.paddle_speed,
                -limit_x(config.court_size, paddle.size),
                limit_x(config.court_size, paddle.size),
            ),
            y: paddle.position.y,
        },
        size: paddle.size,
    }
}

/// Hands out the court and the paddle at its home position.
pub fn setup_court(config: &BreakoutConfig) -> (made: (Collider, Paddle))
    ensures
        made.0 == config.court_size,
        made.1@ == home_paddle(*config),
        made.1@.wf(),
{
    let y: i64 = config.paddle_offset as i64 - (config.court_size.height / 2) as i64;
    (config.court_size, Paddle { position: Vec2 { x: 0, y }, size: config.paddle_size })
}

/// Moves the paddle by one tick.
pub fn paddle_movement(config: &BreakoutConfig, paddle: &mut Paddle, input: &PaddleInput)
    requires
        old(paddle)@.wf(),
        old(paddle).size.width <= config.court_size.width,
    ensures
        final(paddle)@ == steered(*config, old(paddle)@, input.move_intent as int),
        final(paddle)@.wf(),
        -limit_x(config.court_size, old(paddle).size) <= final(paddle).position.x <= limit_x(
            config.court_size,
            old(paddle).size,
        ),
{
    let limit: i64 = ((config.court_size.width - paddle.size.width) / 2) as i64;
    let intent: i128 = input.move_intent as i128;
    let speed: i128 = config.paddle_speed as i128;
    assert(-0x8000_0000_0000_0000 * 0x1_0000_0000 <= intent * speed <= 0x8000_0000_0000_0000
        * 0x1_0000_0000) by (nonlinear_arith)
        requires
            -0x8000_0000_0000_0000 <= intent <= 0x8000_0000_0000_0000,
            0 <= speed <= 0x1_0000_0000,
    ;
    let target: i128 = paddle.position.x as i128 + intent * speed;
    let x: i64 = if target < -(limit as i128) {
        -limit
    } else if target > limit as i128 {
        limit
    } else {
        target as i64
    };
    paddle.position.x = x;
}

} // verus!
