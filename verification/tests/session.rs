use breakout::ball::{Ball, PaddleStrike};
use breakout::config::BreakoutConfig;
use breakout::events::{BreakoutState, Event, GameResult};
use breakout::geometry::{Collider, Vec2};
use breakout::paddle::PaddleInput;
use breakout::session::Session;

const IDLE: PaddleInput =
    PaddleInput { move_intent: 0, confirm_held: false, confirm_just_pressed: false };
const HELD: PaddleInput =
    PaddleInput { move_intent: 0, confirm_held: true, confirm_just_pressed: false };
const PRESSED: PaddleInput =
    PaddleInput { move_intent: 0, confirm_held: true, confirm_just_pressed: true };

fn moving(move_intent: i64) -> PaddleInput {
    PaddleInput { move_intent, ..IDLE }
}

/// A court of 300 by 450 with the paddle at -205 and a ball of 8 that is
/// served at 5 a tick from 20 above the paddle.
fn small(columns: u32, rows: u32) -> BreakoutConfig {
    BreakoutConfig {
        court_size: Collider::new(300, 450),
        paddle_size: Collider::new(40, 10),
        paddle_speed: 1,
        paddle_offset: 20,
        serve_speed: 5,
        serve_offset: 20,
        brick_columns: columns,
        brick_rows: rows,
        bricks_top_offset: 50,
        brick_height: 10,
        brick_padding: 2,
        ball_size: 8,
        starting_lives: 3,
        points_base: 1,
        points_step: 1,
    }
}

/// Two bricks of 50 by 20 at x = -75 and x = 75, with a gap between them.
fn gap() -> BreakoutConfig {
    BreakoutConfig { brick_height: 120, brick_padding: 200, ..small(2, 1) }
}

fn playing(config: BreakoutConfig) -> Session {
    assert!(config.is_valid());
    let mut session = Session::new(config);
    assert_eq!(session.tick(&IDLE, None), vec![Event::EnteredServe]);
    assert_eq!(session.tick(&HELD, None), vec![Event::EnteredPlaying]);
    session
}

/// The direction in which the ball leaves the paddle: the offset, as a
/// fraction of the greatest there can be, in eighths of a turn from the
/// vertical, at the speed of the ball, cut off to the grid.
fn aim_for(strike: &PaddleStrike) -> Option<Vec2> {
    let d = 2.0 * strike.offset as f64 / strike.span as f64;
    let angle = d * std::f64::consts::FRAC_PI_4;
    let vx = strike.velocity.x as f64;
    let vy = strike.velocity.y as f64;
    let speed = (vx * vx + vy * vy).sqrt();
    let aim = Vec2::new((speed * angle.sin()) as i64, (speed * angle.cos()) as i64);
    if strike.admits(aim) {
        Some(aim)
    } else {
        None
    }
}

fn speed_squared(ball: &Ball) -> i64 {
    ball.velocity.x * ball.velocity.x + ball.velocity.y * ball.velocity.y
}

#[test]
fn new_session_waits_at_start() {
    let session = Session::new(BreakoutConfig::default());
    assert_eq!(session.state(), BreakoutState::Start);
    assert!(!session.game_finished());
    assert_eq!(session.score(), 0);
    assert_eq!(session.lives(), 3);
    assert_eq!(session.result(), None);
    assert_eq!(session.ball(), None);
    assert_eq!(session.paddle().position, Vec2::new(0, -205_000));
    assert_eq!(session.paddle().size, Collider::new(40_000, 10_000));
    assert_eq!(session.bricks().len(), 112);
    assert_eq!(session.config(), BreakoutConfig::default());
    assert_eq!(session.paddle_strike(&IDLE), None);
}

#[test]
fn start_waits_until_confirm_is_let_go() {
    let mut session = Session::new(small(1, 1));
    assert_eq!(session.tick(&HELD, None), Vec::new());
    assert_eq!(session.state(), BreakoutState::Start);
    assert_eq!(session.ball(), None);
    let held_and_moving = PaddleInput { move_intent: 7, ..HELD };
    assert_eq!(session.tick(&held_and_moving, None), Vec::new());
    assert_eq!(session.paddle().position, Vec2::new(7, -205));
    assert_eq!(session.tick(&moving(-2), None), vec![Event::EnteredServe]);
    assert_eq!(session.state(), BreakoutState::Serve);
    assert_eq!(session.paddle().position, Vec2::new(5, -205));
    let ball = session.ball().unwrap();
    assert_eq!(ball.position, Vec2::new(5, -185));
    assert_eq!(ball.velocity, Vec2::new(0, 0));
    assert_eq!(ball.size, Collider::new(8, 8));
}

#[test]
fn waiting_ball_rides_the_paddle() {
    let mut session = Session::new(small(1, 1));
    session.tick(&IDLE, None);
    assert_eq!(session.tick(&moving(4), None), Vec::new());
    assert_eq!(session.state(), BreakoutState::Serve);
    assert_eq!(session.ball().unwrap().position, Vec2::new(4, -185));
    assert_eq!(session.tick(&moving(-400), None), Vec::new());
    assert_eq!(session.paddle().position, Vec2::new(-130, -205));
    assert_eq!(session.ball().unwrap().position, Vec2::new(-130, -185));
    assert_eq!(session.ball().unwrap().velocity, Vec2::new(0, 0));
}

#[test]
fn confirm_launches_the_ball() {
    let mut session = Session::new(small(1, 1));
    session.tick(&IDLE, None);
    let launch = PaddleInput { move_intent: 3, ..HELD };
    assert_eq!(session.tick(&launch, None), vec![Event::EnteredPlaying]);
    assert_eq!(session.state(), BreakoutState::Playing);
    let ball = session.ball().unwrap();
    assert_eq!(ball.position, Vec2::new(3, -185));
    assert_eq!(ball.velocity, Vec2::new(0, 5));
    // From the next tick on it flies, held or not.
    assert_eq!(session.tick(&HELD, None), Vec::new());
    assert_eq!(session.ball().unwrap().position, Vec2::new(3, -180));
    assert_eq!(session.tick(&IDLE, None), Vec::new());
    assert_eq!(session.ball().unwrap().position, Vec2::new(3, -175));
    assert_eq!(session.state(), BreakoutState::Playing);
}

#[test]
fn last_brick_wins_the_round_in_the_next_tick() {
    let config = BreakoutConfig { points_base: 5, points_step: 0, ..small(1, 1) };
    let mut session = playing(config);
    assert_eq!(session.bricks().len(), 1);
    assert_eq!(session.bricks().get(0).points, 5);
    // The ball rises from -185 by 5 a tick and reaches the brick at 165.
    for _ in 0..69 {
        assert_eq!(session.tick(&IDLE, None), Vec::new());
    }
    assert_eq!(session.ball().unwrap().position, Vec2::new(0, 160));
    assert_eq!(session.score(), 0);
    assert_eq!(session.tick(&IDLE, None), vec![Event::BrickHit { brick_id: 0 }]);
    assert_eq!(session.score(), 5);
    assert!(!session.bricks().get(0).live);
    assert_eq!(session.state(), BreakoutState::Playing);
    assert_eq!(session.ball().unwrap().position, Vec2::new(0, 165));
    assert_eq!(session.ball().unwrap().velocity, Vec2::new(0, -5));
    assert_eq!(
        session.tick(&IDLE, None),
        vec![Event::EnteredFinished { result: GameResult::Victory }]
    );
    assert_eq!(session.state(), BreakoutState::Finished);
    assert!(session.game_finished());
    assert_eq!(session.result(), Some(GameResult::Victory));
    assert_eq!(session.ball(), None);
    assert_eq!(session.score(), 5);
    assert_eq!(session.lives(), 3);
}

/// Plays until the ball, served in the middle, has come back down past the
/// paddle, which has moved out of its way. Hands back what the last tick
/// reported.
fn lose_ball(session: &mut Session) -> Vec<Event> {
    assert_eq!(session.state(), BreakoutState::Playing);
    for _ in 0..1000 {
        let events = session.tick(&moving(4), None);
        if !events.is_empty() {
            return events;
        }
    }
    panic!("the ball did not come down");
}

#[test]
fn lost_ball_with_lives_to_spare_is_served_again() {
    let mut session = playing(gap());
    let events = lose_ball(&mut session);
    assert_eq!(events, vec![Event::BottomCollision, Event::EnteredServe]);
    assert_eq!(session.state(), BreakoutState::Serve);
    assert_eq!(session.lives(), 2);
    assert_eq!(session.result(), None);
    assert_eq!(session.paddle().position, Vec2::new(130, -205));
    let ball = session.ball().unwrap();
    assert_eq!(ball.position, Vec2::new(130, -185));
    assert_eq!(ball.velocity, Vec2::new(0, 0));
}

#[test]
fn last_life_lost_ends_the_game_in_the_same_tick() {
    let mut session = playing(BreakoutConfig { starting_lives: 1, ..gap() });
    assert_eq!(session.lives(), 1);
    let events = lose_ball(&mut session);
    assert_eq!(
        events,
        vec![Event::BottomCollision, Event::EnteredFinished { result: GameResult::GameOver }]
    );
    assert_eq!(session.lives(), 0);
    assert_eq!(session.state(), BreakoutState::Finished);
    assert_eq!(session.result(), Some(GameResult::GameOver));
    assert_eq!(session.ball(), None);
    // The bricks are left standing.
    assert!(session.bricks().get(0).live);
    assert!(session.bricks().get(1).live);
}

#[test]
fn three_lost_balls_end_the_game() {
    let mut session = playing(gap());
    assert_eq!(lose_ball(&mut session), vec![Event::BottomCollision, Event::EnteredServe]);
    assert_eq!(session.lives(), 2);
    // The ball is served from the right wall now: steer back to the middle.
    for _ in 0..130 {
        session.tick(&moving(-1), None);
    }
    assert_eq!(session.tick(&HELD, None), vec![Event::EnteredPlaying]);
    assert_eq!(lose_ball(&mut session), vec![Event::BottomCollision, Event::EnteredServe]);
    assert_eq!(session.lives(), 1);
    for _ in 0..130 {
        session.tick(&moving(-1), None);
    }
    assert_eq!(session.tick(&HELD, None), vec![Event::EnteredPlaying]);
    assert_eq!(
        lose_ball(&mut session),
        vec![Event::BottomCollision, Event::EnteredFinished { result: GameResult::GameOver }]
    );
    assert_eq!(session.lives(), 0);
}

#[test]
fn game_without_lives_is_over_with_the_first_lost_ball() {
    let mut session = playing(BreakoutConfig { starting_lives: 0, ..gap() });
    assert_eq!(session.lives(), 0);
    let events = lose_ball(&mut session);
    assert_eq!(
        events,
        vec![Event::BottomCollision, Event::EnteredFinished { result: GameResult::GameOver }]
    );
    assert_eq!(session.lives(), 0);
}

#[test]
fn empty_field_is_won_at_once() {
    let mut session = playing(small(0, 0));
    assert_eq!(
        session.tick(&IDLE, None),
        vec![Event::EnteredFinished { result: GameResult::Victory }]
    );
    assert_eq!(session.score(), 0);
}

#[test]
fn finished_game_waits_for_a_press() {
    let mut session = playing(small(0, 0));
    session.tick(&IDLE, None);
    assert_eq!(session.state(), BreakoutState::Finished);
    // Neither holding nor steering does anything.
    assert_eq!(session.tick(&HELD, None), Vec::new());
    assert_eq!(session.tick(&moving(9), None), Vec::new());
    assert_eq!(session.state(), BreakoutState::Finished);
    assert_eq!(session.result(), Some(GameResult::Victory));
    assert_eq!(session.paddle().position, Vec2::new(0, -205));
}

#[test]
fn press_in_finished_begins_a_fresh_round() {
    let config = BreakoutConfig { points_base: 5, points_step: 0, ..small(1, 1) };
    let mut session = playing(config);
    for _ in 0..71 {
        session.tick(&moving(1), None);
    }
    assert_eq!(session.state(), BreakoutState::Finished);
    assert_eq!(session.score(), 5);
    assert_eq!(session.tick(&PRESSED, None), vec![Event::EnteredStart]);
    assert_eq!(session.state(), BreakoutState::Start);
    assert_eq!(session.score(), 0);
    assert_eq!(session.lives(), 3);
    assert_eq!(session.result(), None);
    assert_eq!(session.ball(), None);
    assert_eq!(session.bricks().len(), 1);
    assert!(session.bricks().get(0).live);
    // The paddle stays where its 71 steps took it.
    assert_eq!(session.paddle().position, Vec2::new(71, -205));
    // The press is still held, so the game waits; let go, and it serves.
    assert_eq!(session.tick(&HELD, None), Vec::new());
    assert_eq!(session.tick(&IDLE, None), vec![Event::EnteredServe]);
}

#[test]
fn press_after_a_lost_game_gives_all_lives_back() {
    let mut session = playing(BreakoutConfig { starting_lives: 1, ..gap() });
    lose_ball(&mut session);
    assert_eq!(session.lives(), 0);
    assert_eq!(session.result(), Some(GameResult::GameOver));
    assert_eq!(session.tick(&PRESSED, None), vec![Event::EnteredStart]);
    assert_eq!(session.state(), BreakoutState::Start);
    assert_eq!(session.lives(), 1);
    assert_eq!(session.score(), 0);
    assert_eq!(session.result(), None);
    let mut session = playing(BreakoutConfig { brick_rows: 0, ..BreakoutConfig::default() });
    session.tick(&IDLE, None);
    assert_eq!(session.tick(&PRESSED, None), vec![Event::EnteredStart]);
    assert_eq!(session.lives(), 3);
}

#[test]
fn press_outside_finished_begins_nothing() {
    let mut session = Session::new(small(1, 1));
    assert_eq!(session.tick(&PRESSED, None), Vec::new());
    assert_eq!(session.state(), BreakoutState::Start);
    session.tick(&IDLE, None);
    assert_eq!(session.tick(&PRESSED, None), vec![Event::EnteredPlaying]);
    assert_eq!(session.tick(&PRESSED, None), Vec::new());
    assert_eq!(session.state(), BreakoutState::Playing);
}

#[test]
fn strike_is_told_before_the_tick() {
    let mut session = playing(gap());
    // Up to the top wall and back down to the paddle.
    for _ in 0..200 {
        let met = session.paddle_strike(&IDLE);
        let before = session.ball().unwrap();
        session.tick(&IDLE, met.as_ref().and_then(aim_for));
        let after = session.ball().unwrap();
        match met {
            Some(strike) => {
                assert_eq!(strike.offset, 0);
                assert_eq!(strike.span, 48);
                assert_eq!(strike.velocity, Vec2::new(0, 5));
                assert_eq!(before.velocity, Vec2::new(0, -5));
                assert_eq!(after.velocity, Vec2::new(0, 5));
                assert_eq!(after.position, Vec2::new(0, -195));
                return;
            }
            None => assert_eq!(after.position.x, 0),
        }
    }
    panic!("the ball did not come back to the paddle");
}

#[test]
fn strike_reckons_with_the_paddle_moving_first() {
    let mut session = playing(gap());
    // Bring the ball down to just above the paddle, on the centre line.
    for _ in 0..1000 {
        let ball = session.ball().unwrap();
        if ball.velocity.y < 0 && ball.position.y == -194 {
            break;
        }
        session.tick(&IDLE, None);
    }
    assert_eq!(session.ball().unwrap().position, Vec2::new(0, -194));
    // The next tick brings the ball to -199, into the paddle.
    let strike = session.paddle_strike(&moving(10)).unwrap();
    assert_eq!(strike.offset, -10);
    // A paddle that steps 24 aside only touches the ball.
    assert_eq!(session.paddle_strike(&moving(24)), None);
    let strike = session.paddle_strike(&moving(23)).unwrap();
    assert_eq!(strike.offset, -23);
    let aim = aim_for(&strike).unwrap();
    assert_eq!(aim, Vec2::new(-3, 3));
    session.tick(&moving(23), Some(aim));
    assert_eq!(session.ball().unwrap().velocity, Vec2::new(-3, 3));
    assert_eq!(session.paddle().position, Vec2::new(23, -205));
}

/// Steers the paddle under the ball, a little to one side and then to the
/// other, so that the ball comes off at changing angles.
fn follow(session: &Session, tick: u64) -> PaddleInput {
    let bias = session.config().paddle_size.width as i64 / 3;
    let side = if (tick / 4001) % 2 == 0 { bias } else { -bias };
    let target = match session.ball() {
        Some(ball) => ball.position.x + side,
        None => 0,
    };
    let reach = 4 * session.config().serve_speed as i64;
    let wish = target - session.paddle().position.x;
    PaddleInput {
        move_intent: wish.clamp(-reach, reach),
        confirm_held: session.state() == BreakoutState::Serve,
        confirm_just_pressed: false,
    }
}

/// Plays one round with the paddle following the ball and checks, tick by
/// tick, what must hold of every tick. Hands back the number of bounces off
/// the paddle.
fn play_and_watch(session: &mut Session, ticks: u64) -> u64 {
    let court = session.config().court_size;
    let serve_speed = session.config().serve_speed as i64;
    let mut bounces = 0;
    for tick in 0..ticks {
        if session.game_finished() {
            break;
        }
        let input = follow(session, tick);
        let state = session.state();
        let score = session.score();
        let lives = session.lives();
        let ball = session.ball();
        let standing: Vec<bool> =
            (0..session.bricks().len()).map(|id| session.bricks().get(id).live).collect();
        let met = session.paddle_strike(&input);
        let aim = met.as_ref().and_then(aim_for);
        if met.is_some() {
            bounces += 1;
        }
        let events = session.tick(&input, aim);

        // The score never falls, and rises by the points of the bricks hit.
        let mut gained = 0;
        for event in &events {
            if let Event::BrickHit { brick_id } = event {
                assert!(standing[*brick_id]);
                assert!(!session.bricks().get(*brick_id).live);
                gained += session.bricks().get(*brick_id).points as u64;
            }
        }
        assert_eq!(session.score(), score + gained);
        // No brick comes back, and only bricks that were hit are gone.
        for id in 0..standing.len() {
            let hit = events.contains(&Event::BrickHit { brick_id: id });
            assert_eq!(session.bricks().get(id).live, standing[id] && !hit);
        }
        // A life is lost exactly when the ball crosses the bottom.
        let fell = events.contains(&Event::BottomCollision);
        assert_eq!(session.lives(), if fell { lives.saturating_sub(1) } else { lives });
        assert!(!fell || state == BreakoutState::Playing);
        // While play goes on the ball is inside the walls and keeps its speed.
        if state == BreakoutState::Playing && session.state() == BreakoutState::Playing {
            let before = ball.unwrap();
            let after = session.ball().unwrap();
            let width = after.size.width as i64;
            let height = after.size.height as i64;
            assert!(-(court.width as i64) + width <= 2 * after.position.x);
            assert!(2 * after.position.x <= court.width as i64 - width);
            assert!(2 * after.position.y <= court.height as i64 - height);
            assert!(speed_squared(&after) <= speed_squared(&before));
            assert!(speed_squared(&after) <= serve_speed * serve_speed);
            let (ax, ay) = (after.velocity.x.abs() + 1, after.velocity.y.abs() + 1);
            assert!(speed_squared(&before) < ax * ax + ay * ay);
        }
        // There is a ball exactly in the two states that have one.
        let has_ball = matches!(session.state(), BreakoutState::Serve | BreakoutState::Playing);
        assert_eq!(session.ball().is_some(), has_ball);
        assert_eq!(session.result().is_some(), session.game_finished());
    }
    bounces
}

#[test]
fn default_game_is_played_to_victory() {
    let mut session = Session::new(BreakoutConfig::default());
    let bounces = play_and_watch(&mut session, 3_000_000);
    assert!(bounces > 10);
    assert_eq!(session.state(), BreakoutState::Finished);
    assert_eq!(session.result(), Some(GameResult::Victory));
    // Fourteen columns of 8 + 7 + 6 + 5 + 4 + 3 + 2 + 1 points.
    assert_eq!(session.score(), 504);
    assert_eq!(session.lives(), 3);
}

#[test]
fn small_game_is_played_to_victory() {
    // Hundredths of a unit: the court is 300 by 450 units.
    let config = BreakoutConfig {
        court_size: Collider::new(30_000, 45_000),
        paddle_size: Collider::new(4_000, 1_000),
        paddle_speed: 1,
        paddle_offset: 2_000,
        serve_speed: 200,
        serve_offset: 2_000,
        brick_columns: 5,
        brick_rows: 3,
        bricks_top_offset: 5_000,
        brick_height: 1_000,
        brick_padding: 200,
        ball_size: 800,
        starting_lives: 3,
        points_base: 1,
        points_step: 2,
    };
    assert!(config.is_valid());
    let mut session = Session::new(config);
    play_and_watch(&mut session, 2_000_000);
    assert_eq!(session.state(), BreakoutState::Finished);
    assert_eq!(session.result(), Some(GameResult::Victory));
    // Five columns of 5 + 3 + 1 points.
    assert_eq!(session.score(), 45);
    for id in 0..15 {
        assert!(!session.bricks().get(id).live);
    }
}
