//! The ball and its flight: one tick of movement against the walls, the
//! paddle and the bricks.
//!
//! A tick moves the ball by its velocity and then resolves, in this order,
//! the walls of the court, the paddle, and the bricks. The ball comes off the
//! paddle in a direction that depends on where it struck. That direction
//! takes trigonometry, which the grid does not have: the caller works it out
//! and hands it in as an aim, and the ball takes it only if it is a direction
//! the paddle can give. Without such an aim the ball is reflected.

use crate::bricks::{BrickField, BrickView};
use crate::config::{BreakoutConfig, EPSILON};
use crate::events::Event;
use crate::geometry::{
    bottom2, collide, collision, fits, inside_walls, left2, limit_x, limit_y, overlaps, right2,
    top2, Axis, Collider, Point, Vec2, REACH,
};
use crate::paddle::{Paddle, PaddleView};
use vstd::prelude::*;

verus! {

/// The greatest speed, in units per tick, that a ball may have.
pub const TOP_SPEED: i64 = 0xFFFF_FFFF;

/// The ball: a box that moves by its velocity once a tick.
#[derive(Clone, Copy, Debug, PartialEq, Eq, Structural)]
pub struct Ball {
    pub position: Vec2,
    /// The displacement of one tick.
    pub velocity: Vec2,
    pub size: Collider,
}

/// What a `Ball` stands for in contracts.
pub struct BallView {
    pub position: Point,
    pub velocity: Point,
    pub size: Collider,
}

impl View for Ball {
    type V = BallView;

    open spec fn view(&self) -> BallView {
        BallView { position: self.position@, velocity: self.velocity@, size: self.size }
    }
}

impl BallView {
    /// The ball lies within reach and is no faster than `TOP_SPEED`.
    pub open spec fn wf(self) -> bool {
        &&& self.position.within_reach()
        &&& self.velocity.length_squared() <= TOP_SPEED * TOP_SPEED
    }
}

/// What an aim handed in by the caller stands for in contracts.
pub open spec fn aim_of(aim: Option<Vec2>) -> Option<Point> {
    match aim {
        Some(v) => Some(v@),
        None => None,
    }
}

/// The distance of a number from zero.
pub open spec fn abs_int(a: int) -> int {
    if a < 0 {
        -a
    } else {
        a
    }
}

// ---------------------------------------------------------------------------
// Waiting and serving
// ---------------------------------------------------------------------------
/// A ball that waits on the paddle: at rest, the configured offset above the
/// paddle's centre.
pub open spec fn waiting_ball(config: BreakoutConfig, paddle: PaddleView) -> BallView {
    BallView {
        position: Point { x: paddle.position.x, y: paddle.position.y + config.serve_offset },
        velocity: Point { x: 0, y: 0 },
        size: config.ball_collider(),
    }
}

/// The ball as it leaves the paddle when served: where a waiting ball lies,
/// moving straight up at the configured speed.
pub open spec fn served_ball(config: BreakoutConfig, ball: BallView, paddle: PaddleView)
    -> BallView {
    BallView {
        position: Point { x: paddle.position.x, y: paddle.position.y + config.serve_offset },
        velocity: Point { x: 0, y: config.serve_speed as int },
        size: ball.size,
    }
}

/// Makes the ball that waits on the paddle.
pub fn spawn_ball(config: &BreakoutConfig, paddle: &Paddle) -> (ball: Ball)
    requires
        paddle@.wf(),
        paddle.position.y + config.serve_offset <= REACH,
    ensures
        ball@ == waiting_ball(*config, paddle@),
        ball@.wf(),
{
    Ball {
        position: Vec2 { x: paddle.position.x, y: paddle.position.y + config.serve_offset as i64 },
        velocity: Vec2 { x: 0, y: 0 },
        size: Collider { width: config.ball_size, height: config.ball_size },
    }
}

/// Launches the ball from the paddle.
pub fn serve(config: &BreakoutConfig, ball: &mut Ball, paddle: &Paddle)
    requires
        paddle@.wf(),
        paddle.position.y + config.serve_offset <= REACH,
    ensures
        final(ball)@ == served_ball(*config, old(ball)@, paddle@),
        final(ball)@.wf(),
{
    ball.position = Vec2 {
        x: paddle.position.x,
        y: paddle.position.y + config.serve_offset as i64,
    };
    ball.velocity = Vec2 { x: 0, y: config.serve_speed as i64 };
    proof {
        let s = config.serve_speed as int;
        assert(s * s <= TOP_SPEED * TOP_SPEED) by (nonlinear_arith)
            requires
                0 <= s <= TOP_SPEED,
        ;
    }
}

// ---------------------------------------------------------------------------
// The walls
// ---------------------------------------------------------------------------
/// The box reaches beyond the right wall.
pub open spec fn hits_right(pos: Point, size: Collider, court: Collider) -> bool {
    right2(pos, size) > court.width
}

/// The box reaches beyond the left wall.
pub open spec fn hits_left(pos: Point, size: Collider, court: Collider) -> bool {
    left2(pos, size) < -court.width
}

/// The box reaches beyond the top wall.
pub open spec fn hits_top(pos: Point, size: Collider, court: Collider) -> bool {
    top2(pos, size) > court.height
}

/// The box reaches below the bottom of the court.
pub open spec fn hits_bottom(pos: Point, size: Collider, court: Collider) -> bool {
    bottom2(pos, size) < -court.height
}

/// The ball one step further along its velocity.
pub open spec fn advanced(ball: BallView) -> BallView {
    BallView { position: ball.position.plus(ball.velocity), ..ball }
}

/// The ball after the walls have been resolved. Where it reaches beyond a
/// side wall it is set back against that wall and its horizontal velocity
/// changes sign; likewise with the top wall and its vertical velocity. The
/// bottom does not hold it.
pub open spec fn walled(ball: BallView, court: Collider) -> BallView {
    let right = hits_right(ball.position, ball.size, court);
    let left = hits_left(ball.position, ball.size, court);
    let top = hits_top(ball.position, ball.size, court);
    BallView {
        position: Point {
            x: if right {
                limit_x(court, ball.size)
            } else if left {
                -limit_x(court, ball.size)
            } else {
                ball.position.x
            },
            y: if top {
                limit_y(court, ball.size)
            } else {
                ball.position.y
            },
        },
        velocity: Point {
            x: if left || right {
                -ball.velocity.x
            } else {
                ball.velocity.x
            },
            y: if top {
                -ball.velocity.y
            } else {
                ball.velocity.y
            },
        },
        size: ball.size,
    }
}

/// The ball crosses the bottom of the court in this tick.
pub open spec fn falls(ball: BallView, court: Collider) -> bool {
    hits_bottom(advanced(ball).position, ball.size, court)
}

// ---------------------------------------------------------------------------
// The paddle
// ---------------------------------------------------------------------------
/// Where and how the ball met the paddle: what the caller needs to work out
/// the direction in which it leaves.
#[derive(Clone, Copy, Debug, PartialEq, Eq, Structural)]
pub struct PaddleStrike {
    /// How far right of the paddle's centre the ball's centre lies.
    pub offset: i64,
    /// The widths of paddle and ball together: twice the offset at which the
    /// two would only just touch.
    pub span: i64,
    /// The velocity of the ball after the paddle has reflected it.
    pub velocity: Vec2,
}

/// What a `PaddleStrike` stands for in contracts.
pub struct StrikeView {
    pub offset: int,
    pub span: int,
    pub velocity: Point,
}

impl View for PaddleStrike {
    type V = StrikeView;

    open spec fn view(&self) -> StrikeView {
        StrikeView {
            offset: self.offset as int,
            span: self.span as int,
            velocity: self.velocity@,
        }
    }
}

impl StrikeView {
    /// The aim is a direction that the paddle can give the ball.
    ///
    /// It points upwards and leans no further than half a right angle.
    ///
    /// It leans to the side on which the ball struck, and by as much as the
    /// offset has it. Let `d` be the offset as a fraction of the greatest
    /// there can be, half the span. The ball is to leave at `d` eighths of a
    /// turn from the vertical, and the tangent of that angle lies between
    /// three quarters of `d` and `d`: so must the slope of the aim, give or
    /// take the one unit by which rounding to the grid may shorten either
    /// coordinate.
    ///
    /// It keeps the speed of the ball, as nearly as the grid allows: it is no
    /// longer than the velocity of the ball, and one unit more in each
    /// coordinate would make it longer.
    pub open spec fn admits(self, aim: Point) -> bool {
        let lean = abs_int(aim.x);
        let reach = abs_int(self.offset);
        &&& aim.y > 0
        &&& lean <= aim.y
        &&& self.offset > 0 ==> aim.x >= 0
        &&& self.offset < 0 ==> aim.x <= 0
        &&& lean * self.span <= 2 * reach * (aim.y + 1)
        &&& 3 * reach * aim.y <= 2 * (lean + 1) * self.span
        &&& aim.length_squared() <= self.velocity.length_squared()
        &&& self.velocity.length_squared() < (lean + 1) * (lean + 1) + (aim.y + 1) * (aim.y + 1)
    }

    /// The velocity with which the ball leaves: the aim where there is one
    /// that the paddle can give, and the reflected velocity otherwise.
    pub open spec fn departure(self, aim: Option<Point>) -> Point {
        match aim {
            Some(a) => if self.admits(a) {
                a
            } else {
                self.velocity
            },
            None => self.velocity,
        }
    }
}

/// The meeting of ball and paddle, if their boxes overlap.
pub open spec fn strike(ball: BallView, paddle: PaddleView) -> Option<StrikeView> {
    if overlaps(ball.position, ball.size, paddle.position, paddle.size) {
        Some(
            StrikeView {
                offset: ball.position.x - paddle.position.x,
                span: paddle.size.width + ball.size.width,
                velocity: Point { x: ball.velocity.x, y: -ball.velocity.y },
            },
        )
    } else {
        None
    }
}

/// The y coordinate at which a ball of the given size is set down after it
/// bounced off the paddle: its lower edge `EPSILON` above the paddle's upper
/// edge, rounded up to the grid.
pub open spec fn rest_y(size: Collider, paddle: PaddleView) -> int {
    paddle.position.y + (paddle.size.height + size.height + 1) / 2 + EPSILON
}

/// The ball after the paddle has been resolved. Where the two overlap, the
/// ball is set down just above the paddle and leaves with the velocity of
/// `departure`; otherwise nothing changes.
pub open spec fn bounced(ball: BallView, paddle: PaddleView, aim: Option<Point>) -> BallView {
    match strike(ball, paddle) {
        Some(s) => BallView {
            position: Point { x: ball.position.x, y: rest_y(ball.size, paddle) },
            velocity: s.departure(aim),
            size: ball.size,
        },
        None => ball,
    }
}

/// A ball set down on the paddle lies under the top wall.
pub open spec fn clear_of_top(court: Collider, paddle: PaddleView, size: Collider) -> bool {
    2 * rest_y(size, paddle) + size.height <= court.height
}

// ---------------------------------------------------------------------------
// The bricks
// ---------------------------------------------------------------------------
/// The axis on which the ball meets the brick, if the brick stands and their
/// boxes overlap.
pub open spec fn strikes(ball: BallView, brick: BrickView) -> Option<Axis> {
    if brick.live {
        collision(ball.position, ball.size, brick.position, brick.size)
    } else {
        None
    }
}

/// The indices of the bricks that the ball meets, in rising order.
pub open spec fn struck(ball: BallView, bricks: Seq<BrickView>) -> Seq<int>
    decreases bricks.len(),
{
    if bricks.len() == 0 {
        Seq::empty()
    } else {
        let before = struck(ball, bricks.drop_last());
        if strikes(ball, bricks.last()) is Some {
            before.push(bricks.len() - 1)
        } else {
            before
        }
    }
}

/// The ball meets some brick on the given axis.
pub open spec fn turned(ball: BallView, bricks: Seq<BrickView>, axis: Axis) -> bool {
    exists|i: int| 0 <= i < bricks.len() && strikes(ball, #[trigger] bricks[i]) == Some(axis)
}

/// The ball after the bricks have been resolved: its horizontal velocity
/// changes sign once if it meets any brick on the horizontal axis, however
/// many, and likewise its vertical velocity. Its position stays.
pub open spec fn deflected(ball: BallView, bricks: Seq<BrickView>) -> BallView {
    BallView {
        velocity: Point {
            x: if turned(ball, bricks, Axis::Horizontal) {
                -ball.velocity.x
            } else {
                ball.velocity.x
            },
            y: if turned(ball, bricks, Axis::Vertical) {
                -ball.velocity.y
            } else {
                ball.velocity.y
            },
        },
        ..ball
    }
}

/// One `BrickHit` for each index, in the same order.
pub open spec fn brick_hits(ids: Seq<int>) -> Seq<Event> {
    Seq::new(ids.len(), |k: int| Event::BrickHit { brick_id: ids[k] as usize })
}

// ---------------------------------------------------------------------------
// One tick
// ---------------------------------------------------------------------------
/// The ball as it comes to the paddle in this tick: moved, and set back from
/// the walls.
pub open spec fn approached(ball: BallView, court: Collider) -> BallView {
    walled(advanced(ball), court)
}

/// The ball after one tick.
pub open spec fn moved(
    ball: BallView,
    court: Collider,
    paddle: PaddleView,
    bricks: Seq<BrickView>,
    aim: Option<Point>,
) -> BallView {
    deflected(bounced(approached(ball, court), paddle, aim), bricks)
}

/// What one tick of the ball reports: first that it crossed the bottom, if it
/// did, then each brick it met.
pub open spec fn collisions(
    ball: BallView,
    court: Collider,
    paddle: PaddleView,
    bricks: Seq<BrickView>,
    aim: Option<Point>,
) -> Seq<Event> {
    let bottom = if falls(ball, court) {
        seq![Event::BottomCollision]
    } else {
        Seq::empty()
    };
    bottom + brick_hits(struck(bounced(approached(ball, court), paddle, aim), bricks))
}

/// The ball lies inside the walls and is fit for another tick.
pub open spec fn in_play(ball: BallView, court: Collider) -> bool {
    &&& inside_walls(ball.position, ball.size, court)
    &&& ball.wf()
}

/// A velocity keeps its length when its components change sign.
pub proof fn lemma_turn_keeps_speed(v: Point, w: Point)
    requires
        w.x == v.x || w.x == -v.x,
        w.y == v.y || w.y == -v.y,
    ensures
        w.length_squared() == v.length_squared(),
{
    assert(w.x * w.x == v.x * v.x) by (nonlinear_arith)
        requires
            w.x == v.x || w.x == -v.x,
    ;
    assert(w.y * w.y == v.y * v.y) by (nonlinear_arith)
        requires
            w.y == v.y || w.y == -v.y,
    ;
}

/// The speed after the tick is the speed before it, as nearly as the grid
/// allows: `after` is no longer than `before`, and one unit more in each
/// coordinate would make it longer.
pub open spec fn keeps_speed(before: Point, after: Point) -> bool {
    &&& after.length_squared() <= before.length_squared()
    &&& before.length_squared() < (abs_int(after.x) + 1) * (abs_int(after.x) + 1) + (abs_int(
        after.y,
    ) + 1) * (abs_int(after.y) + 1)
}

/// A velocity keeps its own speed.
pub proof fn lemma_keeps_own_speed(v: Point)
    ensures
        keeps_speed(v, v),
{
    let ax = abs_int(v.x);
    let ay = abs_int(v.y);
    assert(v.x * v.x + v.y * v.y < (ax + 1) * (ax + 1) + (ay + 1) * (ay + 1))
        by (nonlinear_arith)
        requires
            ax == v.x || ax == -v.x,
            ay == v.y || ay == -v.y,
            ax >= 0,
            ay >= 0,
    ;
}

/// The ball comes off the paddle as fast as it went in, as nearly as the grid
/// allows, whatever aim is handed in; with no aim, exactly as fast.
pub proof fn lemma_bounce_keeps_speed(ball: BallView, paddle: PaddleView, aim: Option<Point>)
    ensures
        keeps_speed(ball.velocity, bounced(ball, paddle, aim).velocity),
        aim is None ==> bounced(ball, paddle, aim).velocity.length_squared()
            == ball.velocity.length_squared(),
{
    let after = bounced(ball, paddle, aim).velocity;
    lemma_keeps_own_speed(after);
    match strike(ball, paddle) {
        Some(s) => {
            lemma_turn_keeps_speed(ball.velocity, s.velocity);
            if after != s.velocity {
                assert(s.admits(after));
                assert(abs_int(after.y) == after.y);
            }
        },
        None => {},
    }
}

/// Whatever the ball meets in a tick, and whatever aim is handed in, it
/// keeps its speed: walls and bricks only change the sign of a component, and
/// the paddle gives the reflected velocity or an aim that it admits.
pub proof fn lemma_moved_keeps_speed(
    ball: BallView,
    court: Collider,
    paddle: PaddleView,
    bricks: Seq<BrickView>,
    aim: Option<Point>,
)
    ensures
        keeps_speed(ball.velocity, moved(ball, court, paddle, bricks, aim).velocity),
{
    let a = approached(ball, court);
    let b = bounced(a, paddle, aim);
    let c = deflected(b, bricks);
    lemma_turn_keeps_speed(ball.velocity, a.velocity);
    lemma_bounce_keeps_speed(a, paddle, aim);
    lemma_turn_keeps_speed(b.velocity, c.velocity);
    assert(abs_int(c.velocity.x) == abs_int(b.velocity.x));
    assert(abs_int(c.velocity.y) == abs_int(b.velocity.y));
}

/// After a tick the ball lies between the side walls and under the top wall,
/// provided that it fits in the court and that a ball set down on the paddle
/// lies under the top wall.
pub proof fn lemma_moved_inside_walls(
    ball: BallView,
    court: Collider,
    paddle: PaddleView,
    bricks: Seq<BrickView>,
    aim: Option<Point>,
)
    requires
        fits(court, ball.size),
        clear_of_top(court, paddle, ball.size),
    ensures
        inside_walls(moved(ball, court, paddle, bricks, aim).position, ball.size, court),
        moved(ball, court, paddle, bricks, aim).size == ball.size,
{
}

/// Where the ball meets the paddle, its centre lies less than half their
/// widths together from the paddle's centre.
pub proof fn lemma_strike_offset(ball: BallView, paddle: PaddleView)
    ensures
        strike(ball, paddle) matches Some(s) ==> -s.span < 2 * s.offset < s.span,
{
}

/// The components of a velocity are no greater than its length.
pub proof fn lemma_speed_bounds(v: Point)
    requires
        v.length_squared() <= TOP_SPEED * TOP_SPEED,
    ensures
        -TOP_SPEED <= v.x <= TOP_SPEED,
        -TOP_SPEED <= v.y <= TOP_SPEED,
{
    let t = TOP_SPEED as int;
    assert(-t <= v.x <= t && -t <= v.y <= t) by (nonlinear_arith)
        requires
            v.x * v.x + v.y * v.y <= t * t,
            t >= 0,
    ;
}

/// The indices that `struck` gives are those of the bricks that the ball
/// meets: each lies in the field and names a standing brick that overlaps the
/// ball, none is missing, and they rise strictly, so that none comes twice.
pub proof fn lemma_struck(ball: BallView, bricks: Seq<BrickView>)
    ensures
        forall|k: int|
            0 <= k < struck(ball, bricks).len() ==> 0 <= (#[trigger] struck(ball, bricks)[k])
                < bricks.len() && strikes(ball, bricks[struck(ball, bricks)[k]]) is Some,
        forall|j: int, k: int|
            0 <= j < k < struck(ball, bricks).len() ==> struck(ball, bricks)[j] < struck(
                ball,
                bricks,
            )[k],
        forall|i: int|
            0 <= i < bricks.len() && strikes(ball, #[trigger] bricks[i]) is Some ==> struck(
                ball,
                bricks,
            ).contains(i),
        struck(ball, bricks).len() <= bricks.len(),
    decreases bricks.len(),
{
    if bricks.len() > 0 {
        let init = bricks.drop_last();
        let before = struck(ball, init);
        lemma_struck(ball, init);
        let all = struck(ball, bricks);
        assert forall|i: int|
            0 <= i < bricks.len() && strikes(ball, #[trigger] bricks[i]) is Some implies all.contains(
            i,
        ) by {
            if i < bricks.len() - 1 {
                assert(bricks[i] == init[i]);
                assert(before.contains(i));
                let k = choose|k: int| 0 <= k < before.len() && before[k] == i;
                assert(all[k] == i);
            } else {
                assert(all[all.len() - 1] == i);
            }
        }
        assert forall|k: int| 0 <= k < all.len() implies 0 <= (#[trigger] all[k]) < bricks.len()
            && strikes(ball, bricks[all[k]]) is Some by {
            if k < before.len() {
                assert(all[k] == before[k]);
                assert(bricks[before[k]] == init[before[k]]);
            }
        }
    }
}

// ---------------------------------------------------------------------------
// Executable code
// ---------------------------------------------------------------------------
/// Half of `n`, rounded down.
fn half_floor(n: i64) -> (h: i64)
    requires
        -0x2_0000_0000 <= n <= 0x2_0000_0000,
    ensures
        h == n as int / 2,
{
    if n >= 0 {
        n / 2
    } else {
        -((1 - n) / 2)
    }
}

/// Moves the ball one step and resolves the walls. Says whether the ball
/// crossed the bottom.
fn wall_collision(court: Collider, ball: &mut Ball) -> (bottom: bool)
    requires
        old(ball)@.wf(),
    ensures
        final(ball)@ == approached(old(ball)@, court),
        bottom == falls(old(ball)@, court),
{
    proof {
        lemma_speed_bounds(ball@.velocity);
    }
    let width: i64 = ball.size.width as i64;
    let height: i64 = ball.size.height as i64;
    let court_width: i64 = court.width as i64;
    let court_height: i64 = court.height as i64;
    let mut x: i64 = ball.position.x + ball.velocity.x;
    let mut y: i64 = ball.position.y + ball.velocity.y;
    let right: bool = 2 * x + width > court_width;
    let left: bool = 2 * x - width < -court_width;
    let top: bool = 2 * y + height > court_height;
    let bottom: bool = 2 * y - height < -court_height;
    if right {
        x = half_floor(court_width - width);
    } else if left {
        x = -half_floor(court_width - width);
    }
    if left || right {
        ball.velocity.x = -ball.velocity.x;
    }
    if top {
        y = half_floor(court_height - height);
        ball.velocity.y = -ball.velocity.y;
    }
    ball.position = Vec2 { x, y };
    bottom
}

impl PaddleStrike {
    /// The strike is one of a ball no faster than `TOP_SPEED`.
    pub open spec fn wf(self) -> bool {
        self@.velocity.length_squared() <= TOP_SPEED * TOP_SPEED
    }

    /// Decides whether the paddle can give the ball this aim.
    pub fn admits(&self, aim: Vec2) -> (ok: bool)
        requires
            self.wf(),
        ensures
            ok == self@.admits(aim@),
    {
        proof {
            lemma_speed_bounds(self@.velocity);
        }
        if aim.y <= 0 || aim.x > aim.y || aim.x < -aim.y {
            return false;
        }
        if aim.y > TOP_SPEED {
            assert(aim@.length_squared() > TOP_SPEED * TOP_SPEED) by (nonlinear_arith)
                requires
                    aim@.length_squared() == aim.x * aim.x + aim.y * aim.y,
                    aim.y > TOP_SPEED,
                    TOP_SPEED > 0,
            ;
            return false;
        }
        if (self.offset > 0 && aim.x < 0) || (self.offset < 0 && aim.x > 0) {
            return false;
        }
        let lean: i128 = if aim.x < 0 {
            -(aim.x as i128)
        } else {
            aim.x as i128
        };
        let reach: i128 = if self.offset < 0 {
            -(self.offset as i128)
        } else {
            self.offset as i128
        };
        let span: i128 = self.span as i128;
        let ay: i128 = aim.y as i128;
        let vx: i128 = self.velocity.x as i128;
        let vy: i128 = self.velocity.y as i128;
        assert(lean * lean == aim.x * aim.x) by (nonlinear_arith)
            requires
                lean == aim.x || lean == -aim.x,
        ;
        assert(0 <= lean * lean <= 0x1_0000_0000 * 0x1_0000_0000 && 0 <= (lean + 1) * (lean + 1)
            <= 0x1_0000_0000 * 0x1_0000_0000) by (nonlinear_arith)
            requires
                0 <= lean < 0x1_0000_0000,
        ;
        assert(0 <= ay * ay <= 0x1_0000_0000 * 0x1_0000_0000 && 0 <= (ay + 1) * (ay + 1)
            <= 0x1_0000_0000 * 0x1_0000_0000) by (nonlinear_arith)
            requires
                0 <= ay < 0x1_0000_0000,
        ;
        assert(0 <= vx * vx <= 0x1_0000_0000 * 0x1_0000_0000) by (nonlinear_arith)
            requires
                -0x1_0000_0000 < vx < 0x1_0000_0000,
        ;
        assert(0 <= vy * vy <= 0x1_0000_0000 * 0x1_0000_0000) by (nonlinear_arith)
            requires
                -0x1_0000_0000 < vy < 0x1_0000_0000,
        ;
        assert(-0x1_0000_0000 * 0x8000_0000_0000_0000 <= lean * span <= 0x1_0000_0000
            * 0x8000_0000_0000_0000 && -0x1_0000_0000 * 0x8000_0000_0000_0000 <= (lean + 1) * span
            <= 0x1_0000_0000 * 0x8000_0000_0000_0000) by (nonlinear_arith)
            requires
                0 <= lean < 0x1_0000_0000,
                -0x8000_0000_0000_0000 <= span <= 0x8000_0000_0000_0000,
        ;
        assert(0 <= reach * (ay + 1) <= 0x1_0000_0000 * 0x8000_0000_0000_0000 && 0 <= reach * ay
            <= 0x1_0000_0000 * 0x8000_0000_0000_0000) by (nonlinear_arith)
            requires
                0 <= ay < 0x1_0000_0000,
                0 <= reach <= 0x8000_0000_0000_0000,
        ;
        let aim_sq: i128 = lean * lean + ay * ay;
        let speed_sq: i128 = vx * vx + vy * vy;
        let next_sq: i128 = (lean + 1) * (lean + 1) + (ay + 1) * (ay + 1);
        let leans_enough: bool = 3 * (reach * ay) <= 2 * ((lean + 1) * span);
        let leans_no_more: bool = lean * span <= 2 * (reach * (ay + 1));
        assert(3 * (reach * ay) == 3 * reach * ay && 2 * ((lean + 1) * span) == 2 * (lean + 1)
            * span && 2 * (reach * (ay + 1)) == 2 * reach * (ay + 1)) by (nonlinear_arith);
        leans_enough && leans_no_more && aim_sq <= speed_sq && speed_sq < next_sq
    }
}

/// Resolves the paddle.
fn paddle_collision(ball: &mut Ball, paddle: &Paddle, aim: Option<Vec2>)
    requires
        -2 * REACH <= old(ball).position.x <= 2 * REACH,
        -2 * REACH <= old(ball).position.y <= 2 * REACH,
        old(ball)@.velocity.length_squared() <= TOP_SPEED * TOP_SPEED,
        paddle@.wf(),
    ensures
        final(ball)@ == bounced(old(ball)@, paddle@, aim_of(aim)),
{
    match meets_paddle(ball, paddle) {
        Some(met) => {
            ball.position.y = paddle.position.y + (paddle.size.height as i64
                + ball.size.height as i64 + 1) / 2 + EPSILON;
            ball.velocity = met.velocity;
            if let Some(a) = aim {
                if met.admits(a) {
                    ball.velocity = a;
                }
            }
        },
        None => {},
    }
}

/// The meeting of ball and paddle as they stand.
fn meets_paddle(ball: &Ball, paddle: &Paddle) -> (met: Option<PaddleStrike>)
    requires
        -2 * REACH <= ball.position.x <= 2 * REACH,
        -2 * REACH <= ball.position.y <= 2 * REACH,
        ball@.velocity.length_squared() <= TOP_SPEED * TOP_SPEED,
        paddle@.wf(),
    ensures
        aim_strike(met) == strike(ball@, paddle@),
        met matches Some(s) ==> s.wf(),
{
    proof {
        lemma_speed_bounds(ball@.velocity);
    }
    if collide(ball.position, ball.size, paddle.position, paddle.size).is_some() {
        let reflected = Vec2 { x: ball.velocity.x, y: -ball.velocity.y };
        assert(reflected@.length_squared() == ball@.velocity.length_squared())
            by (nonlinear_arith)
            requires
                reflected@.x == ball@.velocity.x,
                reflected@.y == -ball@.velocity.y,
                reflected@.length_squared() == reflected@.x * reflected@.x + reflected@.y
                    * reflected@.y,
                ball@.velocity.length_squared() == ball@.velocity.x * ball@.velocity.x
                    + ball@.velocity.y * ball@.velocity.y,
        ;
        Some(
            PaddleStrike {
                offset: ball.position.x - paddle.position.x,
                span: paddle.size.width as i64 + ball.size.width as i64,
                velocity: reflected,
            },
        )
    } else {
        None
    }
}

/// One tick of the ball: moves it by its velocity, resolves the walls, the
/// paddle and the bricks, and reports what it met. The bricks are left as
/// they are.
pub fn ball_movement(
    court: Collider,
    ball: &mut Ball,
    paddle: &Paddle,
    bricks: &BrickField,
    aim: Option<Vec2>,
) -> (events: Vec<Event>)
    requires
        old(ball)@.wf(),
        paddle@.wf(),
    ensures
        final(ball)@ == moved(old(ball)@, court, paddle@, bricks@, aim_of(aim)),
        events@ == collisions(old(ball)@, court, paddle@, bricks@, aim_of(aim)),
        keeps_speed(old(ball)@.velocity, final(ball)@.velocity),
        fits(court, old(ball).size) && clear_of_top(court, paddle@, old(ball).size)
            ==> inside_walls(final(ball)@.position, final(ball).size, court),
        fits(court, old(ball).size) && clear_of_top(court, paddle@, old(ball).size) && !falls(
            old(ball)@,
            court,
        ) ==> in_play(final(ball)@, court),
{
    proof {
        lemma_moved_keeps_speed(old(ball)@, court, paddle@, bricks@, aim_of(aim));
        lemma_speed_bounds(ball@.velocity);
    }
    let mut events: Vec<Event> = Vec::new();
    let bottom = wall_collision(court, ball);
    if bottom {
        events.push(Event::BottomCollision);
    }
    proof {
        lemma_turn_keeps_speed(old(ball)@.velocity, ball@.velocity);
    }
    let ghost heading = events@;
    paddle_collision(ball, paddle, aim);
    proof {
        let a = approached(old(ball)@, court);
        match strike(a, paddle@) {
            Some(s) => {
                lemma_turn_keeps_speed(a.velocity, s.velocity);
            },
            None => {},
        }
    }
    brick_collisions(ball, bricks, &mut events);
    events
}

/// Whether the ball will meet the paddle in the coming tick, and how: what
/// `ball_movement` will find when it has moved the ball and resolved the
/// walls. Nothing is changed.
pub fn paddle_strike(court: Collider, ball: &Ball, paddle: &Paddle) -> (met: Option<PaddleStrike>)
    requires
        ball@.wf(),
        paddle@.wf(),
    ensures
        aim_strike(met) == strike(approached(ball@, court), paddle@),
        met matches Some(s) ==> s.wf() && -s.span < 2 * s.offset < s.span,
{
    let mut probe = *ball;
    let _ = wall_collision(court, &mut probe);
    proof {
        lemma_turn_keeps_speed(ball@.velocity, probe@.velocity);
        lemma_speed_bounds(ball@.velocity);
    }
    meets_paddle(&probe, paddle)
}

/// What a strike handed out stands for in contracts.
pub open spec fn aim_strike(met: Option<PaddleStrike>) -> Option<StrikeView> {
    match met {
        Some(s) => Some(s@),
        None => None,
    }
}

/// Resolves the bricks, and adds a `BrickHit` to the events for each brick
/// that the ball meets.
fn brick_collisions(ball: &mut Ball, bricks: &BrickField, events: &mut Vec<Event>)
    requires
        old(ball)@.velocity.length_squared() <= TOP_SPEED * TOP_SPEED,
    ensures
        final(ball)@ == deflected(old(ball)@, bricks@),
        final(events)@ == old(events)@ + brick_hits(struck(old(ball)@, bricks@)),
{
    let n = bricks.len();
    let mut turn_x: bool = false;
    let mut turn_y: bool = false;
    let mut i: usize = 0;
    while i < n
        invariant
            i <= n,
            n == bricks@.len(),
            *ball == *old(ball),
            events@ == old(events)@ + brick_hits(struck(ball@, bricks@.take(i as int))),
            turn_x == turned(ball@, bricks@.take(i as int), Axis::Horizontal),
            turn_y == turned(ball@, bricks@.take(i as int), Axis::Vertical),
        decreases n - i,
    {
        let brick = bricks.get(i);
        let ghost done = bricks@.take(i as int);
        let ghost next = bricks@.take(i as int + 1);
        assert(next.drop_last() =~= done);
        assert(next.last() == bricks@[i as int]);
        let mut hit: Option<Axis> = None;
        if brick.live {
            hit = collide(ball.position, ball.size, brick.position, brick.size);
        }
        assert(hit == strikes(ball@, next.last()));
        proof {
            lemma_turned_step(ball@, next, Axis::Horizontal);
            lemma_turned_step(ball@, next, Axis::Vertical);
        }
        match hit {
            Some(axis) => {
                events.push(Event::BrickHit { brick_id: i });
                match axis {
                    Axis::Horizontal => {
                        turn_x = true;
                    },
                    Axis::Vertical => {
                        turn_y = true;
                    },
                }
                assert(brick_hits(struck(ball@, next)) =~= brick_hits(struck(ball@, done)).push(
                    Event::BrickHit { brick_id: i },
                ));
            },
            None => {},
        }
        i += 1;
    }
    assert(bricks@.take(n as int) =~= bricks@);
    proof {
        lemma_speed_bounds(ball@.velocity);
    }
    if turn_x {
        ball.velocity.x = -ball.velocity.x;
    }
    if turn_y {
        ball.velocity.y = -ball.velocity.y;
    }
}

/// A field with one more brick turns the ball on an axis exactly if the field
/// without it does or the last brick does.
proof fn lemma_turned_step(ball: BallView, bricks: Seq<BrickView>, axis: Axis)
    requires
        bricks.len() > 0,
    ensures
        turned(ball, bricks, axis) == (turned(ball, bricks.drop_last(), axis) || strikes(
            ball,
            bricks.last(),
        ) == Some(axis)),
{
    let init = bricks.drop_last();
    if turned(ball, init, axis) {
        let i = choose|i: int| 0 <= i < init.len() && strikes(ball, #[trigger] init[i]) == Some(axis);
        assert(bricks[i] == init[i]);
    }
    if strikes(ball, bricks.last()) == Some(axis) {
        assert(bricks[bricks.len() - 1] == bricks.last());
    }
    if turned(ball, bricks, axis) {
        let i = choose|i: int|
            0 <= i < bricks.len() && strikes(ball, #[trigger] bricks[i]) == Some(axis);
        if i < bricks.len() - 1 {
            assert(bricks[i] == init[i]);
        }
    }
}

} // verus!
