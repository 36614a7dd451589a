use breakout::bricks::{bricks_cleared, Brick, BrickField};
use breakout::events::{BreakoutState, Event, GameResult};
use breakout::geometry::{Collider, Vec2};
use breakout::ledger::{brick_collision, lives, Lives, Score};

fn brick(points: u32, live: bool) -> Brick {
    Brick { position: Vec2::new(0, 0), size: Collider::new(10, 10), points, live }
}

fn hit(brick_id: usize) -> Event {
    Event::BrickHit { brick_id }
}

#[test]
fn counters_begin_at_their_defaults() {
    assert_eq!(Score::default(), Score(0));
    assert_eq!(Lives::default(), Lives(3));
    assert_eq!(BreakoutState::default(), BreakoutState::Start);
}

#[test]
fn hit_brick_is_scored_and_destroyed() {
    let mut field = BrickField::new(vec![brick(5, true)]);
    let mut score = Score(10);
    brick_collision(&mut score, &mut field, &vec![hit(0)]);
    assert_eq!(score, Score(15));
    assert!(!field.get(0).live);
    assert!(bricks_cleared(&field));
}

#[test]
fn brick_is_scored_once() {
    let mut field = BrickField::new(vec![brick(5, true), brick(7, true)]);
    let mut score = Score(0);
    brick_collision(&mut score, &mut field, &vec![hit(1), hit(1), hit(1)]);
    assert_eq!(score, Score(7));
    brick_collision(&mut score, &mut field, &vec![hit(1)]);
    assert_eq!(score, Score(7));
    assert!(field.get(0).live);
    assert!(!field.get(1).live);
}

#[test]
fn several_bricks_in_one_tick_are_all_scored() {
    let mut field = BrickField::new(vec![brick(1, true), brick(2, true), brick(4, true)]);
    let mut score = Score(0);
    brick_collision(&mut score, &mut field, &vec![hit(0), hit(2)]);
    assert_eq!(score, Score(5));
    assert!(!field.get(0).live);
    assert!(field.get(1).live);
    assert!(!field.get(2).live);
}

#[test]
fn other_events_do_not_score() {
    let mut field = BrickField::new(vec![brick(5, true)]);
    let mut score = Score(3);
    let events = vec![
        Event::BottomCollision,
        Event::EnteredServe,
        Event::EnteredPlaying,
        Event::EnteredStart,
        Event::EnteredFinished { result: GameResult::Victory },
        hit(1),
        hit(usize::MAX),
    ];
    brick_collision(&mut score, &mut field, &events);
    assert_eq!(score, Score(3));
    assert!(field.get(0).live);
    brick_collision(&mut score, &mut field, &Vec::new());
    assert_eq!(score, Score(3));
}

#[test]
fn score_takes_the_largest_bricks() {
    let mut field = BrickField::new(vec![brick(u32::MAX, true), brick(u32::MAX, true)]);
    let mut score = Score(0);
    brick_collision(&mut score, &mut field, &vec![hit(0), hit(1)]);
    assert_eq!(score, Score(2 * (u32::MAX as u64)));
}

#[test]
fn lost_ball_costs_a_life() {
    let mut count = Lives(3);
    let next = lives(&mut count, &vec![Event::BottomCollision]);
    assert_eq!(count, Lives(2));
    assert_eq!(next, Some(BreakoutState::Serve));
}

#[test]
fn last_life_ends_the_game() {
    let mut count = Lives(1);
    let next = lives(&mut count, &vec![Event::BottomCollision]);
    assert_eq!(count, Lives(0));
    assert_eq!(next, Some(BreakoutState::Finished));
}

#[test]
fn lives_do_not_fall_below_none() {
    let mut count = Lives(0);
    let next = lives(&mut count, &vec![Event::BottomCollision]);
    assert_eq!(count, Lives(0));
    assert_eq!(next, Some(BreakoutState::Finished));
    let mut count = Lives(2);
    let all = vec![Event::BottomCollision, Event::BottomCollision, Event::BottomCollision];
    let next = lives(&mut count, &all);
    assert_eq!(count, Lives(0));
    assert_eq!(next, Some(BreakoutState::Finished));
}

#[test]
fn no_lost_ball_costs_nothing() {
    let mut count = Lives(2);
    let next = lives(&mut count, &vec![hit(0), Event::EnteredServe]);
    assert_eq!(count, Lives(2));
    assert_eq!(next, None);
    assert_eq!(lives(&mut count, &Vec::new()), None);
}
