//! A game from tick to tick: the state machine that runs paddle, ball and
//! ledger in their order and moves between `Start`, `Serve`, `Playing` and
//! `Finished`.
//!
//! What a tick does is the function `step` on the view of a session; `tick`
//! is the code that carries it out.

use crate::ball::{
    aim_of, aim_strike, approached, ball_movement, collisions, falls, lemma_moved_inside_walls,
    lemma_moved_keeps_speed, moved, paddle_strike, serve, served_ball, spawn_ball, strike,
    waiting_ball, Ball, BallView, PaddleStrike, StrikeView,
};
use crate::bricks::{
    bricks_cleared, cleared, destroyed_points, field_wf, grid, lemma_grid, lemma_points_bounded,
    spawn_bricks, BrickField, BrickView,
};
use crate::config::BreakoutConfig;
use crate::events::{BreakoutState, Event, GameResult};
use crate::geometry::{limit_x, Point, Vec2};
use crate::ledger::{
    brick_collision, credited, lemma_collisions_bottoms, lemma_credited, lives, same_bricks,
    Lives, Score,
};
use crate::paddle::{
    home_paddle, paddle_movement, setup_court, steered, Paddle, PaddleInput, PaddleView,
};
use vstd::prelude::*;

verus! {

/// What a `Session` stands for in contracts.
pub struct SessionView {
    pub config: BreakoutConfig,
    pub state: BreakoutState,
    /// How the round ended; only `Finished` has one.
    pub result: Option<GameResult>,
    pub score: nat,
    pub lives: nat,
    pub paddle: PaddleView,
    /// The ball; only `Serve` and `Playing` have one.
    pub ball: Option<BallView>,
    pub bricks: Seq<BrickView>,
}

impl SessionView {
    /// What holds of a session between any two ticks.
    pub open spec fn inv(self) -> bool {
        &&& self.config.valid()
        &&& self.paddle.size == self.config.paddle_size
        &&& self.paddle.position.y == self.config.paddle_y()
        &&& -limit_x(self.config.court_size, self.config.paddle_size) <= self.paddle.position.x
            <= limit_x(self.config.court_size, self.config.paddle_size)
        &&& self.ball is Some <==> self.state == BreakoutState::Serve || self.state
            == BreakoutState::Playing
        &&& self.result is Some <==> self.state == BreakoutState::Finished
        &&& self.state == BreakoutState::Serve ==> self.ball == Some(
            waiting_ball(self.config, self.paddle),
        )
        &&& self.state == BreakoutState::Playing ==> (self.ball matches Some(b) && b.size
            == self.config.ball_collider() && b.position.within_reach()
            && b.velocity.length_squared() <= self.config.serve_speed * self.config.serve_speed)
        &&& same_bricks(self.bricks, grid(self.config))
        &&& field_wf(self.bricks)
        &&& self.score == destroyed_points(self.bricks)
        &&& self.lives <= self.config.starting_lives
    }
}

/// A round about to begin, with the paddle where it is: the state is
/// `Start`, the grid stands whole, nothing is scored and no life is lost.
pub open spec fn fresh(config: BreakoutConfig, paddle: PaddleView) -> SessionView {
    SessionView {
        config,
        state: BreakoutState::Start,
        result: None,
        score: 0,
        lives: config.starting_lives as nat,
        paddle,
        ball: None,
        bricks: grid(config),
    }
}

/// A tick in `Start`. The paddle moves. Once the confirm control is let go,
/// the game enters `Serve` with a ball waiting on the paddle.
pub open spec fn start_step(s: SessionView, input: PaddleInput) -> SessionView {
    let paddle = steered(s.config, s.paddle, input.move_intent as int);
    if input.confirm_held {
        SessionView { paddle, ..s }
    } else {
        SessionView {
            state: BreakoutState::Serve,
            paddle,
            ball: Some(waiting_ball(s.config, paddle)),
            ..s
        }
    }
}

/// A tick in `Serve`. The paddle moves and the ball rides on it. Once the
/// confirm control is down, the ball is launched and the game enters
/// `Playing`.
pub open spec fn serve_step(s: SessionView, input: PaddleInput) -> SessionView {
    let paddle = steered(s.config, s.paddle, input.move_intent as int);
    let waiting = waiting_ball(s.config, paddle);
    if input.confirm_held {
        SessionView {
            state: BreakoutState::Playing,
            paddle,
            ball: Some(served_ball(s.config, waiting, paddle)),
            ..s
        }
    } else {
        SessionView { paddle, ball: Some(waiting), ..s }
    }
}

/// A ball crossed the bottom and took the last life with it.
pub open spec fn last_life_lost(lives: nat, fell: bool) -> bool {
    fell && lives <= 1
}

/// A tick in `Playing`. The paddle moves, the ball flies, and the ledger
/// books what the ball met: bricks that were hit are destroyed and scored,
/// and a ball that crossed the bottom costs a life, of which there are never
/// fewer than none. Then the round goes on or ends, by the first of these
/// that holds:
/// the last life was lost, and the game is over;
/// the field had no standing brick when the tick began, and the game is won;
/// the ball was lost with lives to spare, and a new one waits on the paddle;
/// otherwise play continues.
pub open spec fn playing_step(s: SessionView, input: PaddleInput, aim: Option<Point>)
    -> SessionView {
    let paddle = steered(s.config, s.paddle, input.move_intent as int);
    match s.ball {
        None => SessionView { paddle, ..s },
        Some(ball) => {
            let court = s.config.court_size;
            let fell = falls(ball, court);
            let booked = credited(s.score, s.bricks, collisions(ball, court, paddle, s.bricks, aim));
            let lives = if fell && s.lives > 0 {
                (s.lives - 1) as nat
            } else {
                s.lives
            };
            let after = SessionView { paddle, score: booked.0, bricks: booked.1, lives, ..s };
            if last_life_lost(s.lives, fell) {
                SessionView {
                    state: BreakoutState::Finished,
                    result: Some(GameResult::GameOver),
                    ball: None,
                    ..after
                }
            } else if cleared(s.bricks) {
                SessionView {
                    state: BreakoutState::Finished,
                    result: Some(GameResult::Victory),
                    ball: None,
                    ..after
                }
            } else if fell {
                SessionView {
                    state: BreakoutState::Serve,
                    ball: Some(waiting_ball(s.config, paddle)),
                    ..after
                }
            } else {
                SessionView { ball: Some(moved(ball, court, paddle, s.bricks, aim)), ..after }
            }
        },
    }
}

/// A tick in `Finished`. Nothing moves. When the confirm control goes down,
/// a fresh round begins.
pub open spec fn finished_step(s: SessionView, input: PaddleInput) -> SessionView {
    if input.confirm_just_pressed {
        fresh(s.config, s.paddle)
    } else {
        s
    }
}

/// The session after one tick.
pub open spec fn step(s: SessionView, input: PaddleInput, aim: Option<Point>) -> SessionView {
    match s.state {
        BreakoutState::Start => start_step(s, input),
        BreakoutState::Serve => serve_step(s, input),
        BreakoutState::Playing => playing_step(s, input, aim),
        BreakoutState::Finished => finished_step(s, input),
    }
}

/// The notice of the state entered in a tick, if the state changed.
pub open spec fn entered(before: SessionView, after: SessionView) -> Seq<Event> {
    if after.state == before.state {
        Seq::empty()
    } else {
        match after.state {
            BreakoutState::Start => seq![Event::EnteredStart],
            BreakoutState::Serve => seq![Event::EnteredServe],
            BreakoutState::Playing => seq![Event::EnteredPlaying],
            BreakoutState::Finished => match after.result {
                Some(result) => seq![Event::EnteredFinished { result }],
                None => Seq::empty(),
            },
        }
    }
}

/// What a tick reports: in `Playing`, what the ball met; then, whatever the
/// state, the notice of the state entered, if the state changed.
pub open spec fn reported(s: SessionView, input: PaddleInput, aim: Option<Point>) -> Seq<Event> {
    let met = match (s.state, s.ball) {
        (BreakoutState::Playing, Some(ball)) => collisions(
            ball,
            s.config.court_size,
            steered(s.config, s.paddle, input.move_intent as int),
            s.bricks,
            aim,
        ),
        _ => Seq::empty(),
    };
    met + entered(s, step(s, input, aim))
}

/// The meeting of ball and paddle that the coming tick will find, if it will
/// find one: what the aim for that tick is to be worked out from.
pub open spec fn pending_strike(s: SessionView, input: PaddleInput) -> Option<StrikeView> {
    match (s.state, s.ball) {
        (BreakoutState::Playing, Some(ball)) => strike(
            approached(ball, s.config.court_size),
            steered(s.config, s.paddle, input.move_intent as int),
        ),
        _ => None,
    }
}

// ---------------------------------------------------------------------------
// What every tick keeps
// ---------------------------------------------------------------------------
/// Two fields that each hold the bricks of a third hold the same bricks.
proof fn lemma_same_bricks_chain(a: Seq<BrickView>, b: Seq<BrickView>, c: Seq<BrickView>)
    requires
        same_bricks(a, b),
        same_bricks(a, c),
    ensures
        same_bricks(b, c),
{
    assert forall|i: int| 0 <= i < b.len() implies (#[trigger] b[i]).destroyed()
        == c[i].destroyed() by {
        assert(a[i].destroyed() == b[i].destroyed());
    }
}

/// A tick keeps what holds between ticks.
pub proof fn lemma_step_keeps_inv(s: SessionView, input: PaddleInput, aim: Option<Point>)
    requires
        s.inv(),
    ensures
        step(s, input, aim).inv(),
{
    let paddle = steered(s.config, s.paddle, input.move_intent as int);
    let speed = s.config.serve_speed as int;
    match s.state {
        BreakoutState::Start => {},
        BreakoutState::Serve => {
            assert(0 * 0 + speed * speed <= speed * speed);
        },
        BreakoutState::Playing => {
            let ball = s.ball->0;
            let court = s.config.court_size;
            let events = collisions(ball, court, paddle, s.bricks, aim);
            lemma_credited(s.score, s.bricks, events);
            lemma_same_bricks_chain(s.bricks, credited(s.score, s.bricks, events).1, grid(s.config));
            lemma_moved_keeps_speed(ball, court, paddle, s.bricks, aim);
            lemma_moved_inside_walls(ball, court, paddle, s.bricks, aim);
        },
        BreakoutState::Finished => {
            if input.confirm_just_pressed {
                lemma_grid(s.config);
                assert(same_bricks(grid(s.config), grid(s.config)));
            }
        },
    }
}

// ---------------------------------------------------------------------------
// The session
// ---------------------------------------------------------------------------
/// One game: its configuration, its state, and everything on the court.
pub struct Session {
    config: BreakoutConfig,
    state: BreakoutState,
    result: Option<GameResult>,
    score: Score,
    lives: Lives,
    paddle: Paddle,
    ball: Option<Ball>,
    bricks: BrickField,
}

/// What a ball that may be absent stands for in contracts.
pub open spec fn ball_of(ball: Option<Ball>) -> Option<BallView> {
    match ball {
        Some(b) => Some(b@),
        None => None,
    }
}

impl View for Session {
    type V = SessionView;

    closed spec fn view(&self) -> SessionView {
        SessionView {
            config: self.config,
            state: self.state,
            result: self.result,
            score: self.score.0 as nat,
            lives: self.lives.0 as nat,
            paddle: self.paddle@,
            ball: ball_of(self.ball),
            bricks: self.bricks@,
        }
    }
}

impl Session {
    /// The session is one that `new` made and `tick` has kept.
    pub open spec fn wf(&self) -> bool {
        self@.inv()
    }

    /// Sets up a game in `Start`, the paddle at its home position.
    pub fn new(config: BreakoutConfig) -> (session: Session)
        requires
            config.valid(),
        ensures
            session@ == fresh(config, home_paddle(config)),
            session.wf(),
    {
        let made = setup_court(&config);
        let bricks = spawn_bricks(&config);
        proof {
            lemma_grid(config);
            assert(same_bricks(grid(config), grid(config)));
        }
        Session {
            config,
            state: BreakoutState::Start,
            result: None,
            score: Score(0),
            lives: Lives(config.starting_lives),
            paddle: made.1,
            ball: None,
            bricks,
        }
    }

    /// Advances the game by one tick under the given input, and reports what
    /// happened. The aim is the direction in which the ball is to leave the
    /// paddle if it meets it in this tick; see `paddle_strike`.
    pub fn tick(&mut self, input: &PaddleInput, aim: Option<Vec2>) -> (events: Vec<Event>)
        requires
            old(self).wf(),
        ensures
            final(self)@ == step(old(self)@, *input, aim_of(aim)),
            events@ == reported(old(self)@, *input, aim_of(aim)),
            final(self).wf(),
    {
        proof {
            lemma_step_keeps_inv(self@, *input, aim_of(aim));
        }
        match self.state {
            BreakoutState::Start => self.tick_start(input),
            BreakoutState::Serve => self.tick_serve(input),
            BreakoutState::Playing => self.tick_playing(input, aim),
            BreakoutState::Finished => self.tick_finished(input),
        }
    }

    /// A tick in `Start`.
    fn tick_start(&mut self, input: &PaddleInput) -> (events: Vec<Event>)
        requires
            old(self).wf(),
            old(self)@.state == BreakoutState::Start,
        ensures
            final(self)@ == start_step(old(self)@, *input),
            events@ == entered(old(self)@, final(self)@),
    {
        let config = self.config;
        let mut events: Vec<Event> = Vec::new();
        paddle_movement(&config, &mut self.paddle, input);
        if !input.confirm_held {
            self.ball = Some(spawn_ball(&config, &self.paddle));
            self.state = BreakoutState::Serve;
            events.push(Event::EnteredServe);
        }
        assert(events@ =~= entered(old(self)@, self@));
        events
    }

    /// A tick in `Serve`.
    fn tick_serve(&mut self, input: &PaddleInput) -> (events: Vec<Event>)
        requires
            old(self).wf(),
            old(self)@.state == BreakoutState::Serve,
        ensures
            final(self)@ == serve_step(old(self)@, *input),
            events@ == entered(old(self)@, final(self)@),
    {
        let config = self.config;
        let mut events: Vec<Event> = Vec::new();
        paddle_movement(&config, &mut self.paddle, input);
        let mut ball = spawn_ball(&config, &self.paddle);
        if input.confirm_held {
            serve(&config, &mut ball, &self.paddle);
            self.state = BreakoutState::Playing;
            events.push(Event::EnteredPlaying);
        }
        self.ball = Some(ball);
        assert(events@ =~= entered(old(self)@, self@));
        events
    }

    /// A tick in `Playing`: paddle, ball, ledger, and then the way on.
    fn tick_playing(&mut self, input: &PaddleInput, aim: Option<Vec2>) -> (events: Vec<Event>)
        requires
            old(self).wf(),
            old(self)@.state == BreakoutState::Playing,
        ensures
            final(self)@ == playing_step(old(self)@, *input, aim_of(aim)),
            events@ == reported(old(self)@, *input, aim_of(aim)),
    {
        let config = self.config;
        paddle_movement(&config, &mut self.paddle, input);
        let mut ball = self.ball.unwrap();
        let was_cleared = bricks_cleared(&self.bricks);
        proof {
            let speed = config.serve_speed as int;
            assert(speed * speed <= 0xFFFF_FFFF * 0xFFFF_FFFF) by (nonlinear_arith)
                requires
                    0 <= speed <= 0xFFFF_FFFF,
            ;
            lemma_points_bounded(self.bricks@);
            lemma_collisions_bottoms(
                ball@,
                config.court_size,
                self.paddle@,
                self.bricks@,
                aim_of(aim),
            );
        }
        let mut events = ball_movement(config.court_size, &mut ball, &self.paddle, &self.bricks, aim);
        let ghost met = events@;
        brick_collision(&mut self.score, &mut self.bricks, &events);
        let verdict = lives(&mut self.lives, &events);
        let game_over = match verdict {
            Some(BreakoutState::Finished) => true,
            _ => false,
        };
        if game_over {
            self.finish_game(GameResult::GameOver);
            events.push(Event::EnteredFinished { result: GameResult::GameOver });
        } else if was_cleared {
            self.finish_game(GameResult::Victory);
            events.push(Event::EnteredFinished { result: GameResult::Victory });
        } else if verdict.is_some() {
            self.ball = Some(spawn_ball(&config, &self.paddle));
            self.state = BreakoutState::Serve;
            events.push(Event::EnteredServe);
        } else {
            self.ball = Some(ball);
        }
        assert(events@ =~= met + entered(old(self)@, self@));
        events
    }

    /// A tick in `Finished`.
    fn tick_finished(&mut self, input: &PaddleInput) -> (events: Vec<Event>)
        requires
            old(self).wf(),
            old(self)@.state == BreakoutState::Finished,
        ensures
            final(self)@ == finished_step(old(self)@, *input),
            events@ == entered(old(self)@, final(self)@),
    {
        let mut events: Vec<Event> = Vec::new();
        if input.confirm_just_pressed {
            self.restart_game();
            events.push(Event::EnteredStart);
        }
        assert(events@ =~= entered(old(self)@, self@));
        events
    }

    /// Ends the round with the given result: the ball leaves the court.
    fn finish_game(&mut self, result: GameResult)
        ensures
            final(self)@ == (SessionView {
                state: BreakoutState::Finished,
                result: Some(result),
                ball: None,
                ..old(self)@
            }),
    {
        self.result = Some(result);
        self.ball = None;
        self.state = BreakoutState::Finished;
    }

    /// Leaves `Finished` for a fresh round: a new field, score and lives as
    /// at the beginning, and no result.
    fn restart_game(&mut self)
        requires
            old(self)@.config.valid(),
        ensures
            final(self)@ == fresh(old(self)@.config, old(self)@.paddle),
    {
        self.bricks = spawn_bricks(&self.config);
        self.score = Score(0);
        self.lives = Lives(self.config.starting_lives);
        self.result = None;
        self.ball = None;
        self.state = BreakoutState::Start;
    }

    /// The configuration that the session was made with.
    pub fn config(&self) -> (config: BreakoutConfig)
        ensures
            config == self@.config,
    {
        self.config
    }

    /// The state that the game is in.
    pub fn state(&self) -> (state: BreakoutState)
        ensures
            state == self@.state,
    {
        self.state
    }

    /// Whether the round is over.
    pub fn game_finished(&self) -> (over: bool)
        ensures
            over == (self@.state == BreakoutState::Finished),
    {
        match self.state {
            BreakoutState::Finished => true,
            _ => false,
        }
    }

    /// How the round ended, once it has.
    pub fn result(&self) -> (result: Option<GameResult>)
        ensures
            result == self@.result,
    {
        self.result
    }

    /// The points gained in the round so far.
    pub fn score(&self) -> (score: u64)
        ensures
            score == self@.score,
    {
        self.score.0
    }

    /// The lives that are left.
    pub fn lives(&self) -> (lives: u32)
        ensures
            lives == self@.lives,
    {
        self.lives.0
    }

    /// The paddle as it stands.
    pub fn paddle(&self) -> (paddle: Paddle)
        ensures
            paddle@ == self@.paddle,
    {
        self.paddle
    }

    /// The ball as it stands, while there is one.
    pub fn ball(&self) -> (ball: Option<Ball>)
        ensures
            ball_of(ball) == self@.ball,
    {
        self.ball
    }

    /// The field of the round.
    pub fn bricks(&self) -> (bricks: &BrickField)
        ensures
            bricks@ == self@.bricks,
    {
        &self.bricks
    }

    /// Whether the ball will meet the paddle in the coming tick under this
    /// input, and how. Nothing is changed.
    pub fn paddle_strike(&self, input: &PaddleInput) -> (met: Option<PaddleStrike>)
        requires
            self.wf(),
        ensures
            aim_strike(met) == pending_strike(self@, *input),
            met matches Some(s) ==> s.wf() && -s.span < 2 * s.offset < s.span,
    {
        match self.state {
            BreakoutState::Playing => match self.ball {
                Some(ball) => {
                    let mut paddle = self.paddle;
                    paddle_movement(&self.config, &mut paddle, input);
                    proof {
                        let speed = self.config.serve_speed as int;
                        assert(speed * speed <= 0xFFFF_FFFF * 0xFFFF_FFFF) by (nonlinear_arith)
                            requires
                                0 <= speed <= 0xFFFF_FFFF,
                        ;
                    }
                    paddle_strike(self.config.court_size, &ball, &paddle)
                },
                None => None,
            },
            _ => None,
        }
    }
}

} // verus!
