//! Score and lives, and the only code that changes them.
//!
//! The ball reports what it met; the ledger reads the reports of a tick and
//! does the bookkeeping: a brick that was hit is destroyed and its points are
//! added to the score, and a ball that crossed the bottom costs a life.

use crate::ball::{collisions, falls, BallView};
use crate::bricks::{
    destroyed_points, field_wf, lemma_destroy_moves_points, remaining_points, standing,
    BrickField, BrickView,
};
use crate::events::{BreakoutState, Event};
use crate::geometry::{Collider, Point};
use crate::paddle::PaddleView;
use vstd::prelude::*;

verus! {

/// The points gained in the round so far.
#[derive(Clone, Copy, Debug, PartialEq, Eq, Structural)]
pub struct Score(pub u64);

impl Default for Score {
    fn default() -> (score: Score)
        ensures
            score.0 == 0,
    {
        Score(0)
    }
}

/// The lives that are left.
#[derive(Clone, Copy, Debug, PartialEq, Eq, Structural)]
pub struct Lives(pub u32);

impl Default for Lives {
    fn default() -> (lives: Lives)
        ensures
            lives.0 == 3,
    {
        Lives(3)
    }
}

// ---------------------------------------------------------------------------
// Bricks and score
// ---------------------------------------------------------------------------
/// Score and field after one event. A `BrickHit` that names a standing brick
/// destroys it and adds its points; one that names a destroyed brick, or
/// none, changes nothing, and neither does any other event.
pub open spec fn credit(score: nat, bricks: Seq<BrickView>, event: Event) -> (
    nat,
    Seq<BrickView>,
) {
    match event {
        Event::BrickHit { brick_id } => if standing(bricks, brick_id as int) {
            (
                score + bricks[brick_id as int].points,
                bricks.update(brick_id as int, bricks[brick_id as int].destroyed()),
            )
        } else {
            (score, bricks)
        },
        _ => (score, bricks),
    }
}

/// Score and field after the events, taken one by one in their order.
pub open spec fn credited(score: nat, bricks: Seq<BrickView>, events: Seq<Event>) -> (
    nat,
    Seq<BrickView>,
)
    decreases events.len(),
{
    if events.len() == 0 {
        (score, bricks)
    } else {
        let before = credited(score, bricks, events.drop_last());
        credit(before.0, before.1, events.last())
    }
}

/// Two fields hold the same bricks in the same places, whatever has been
/// destroyed in either.
pub open spec fn same_bricks(a: Seq<BrickView>, b: Seq<BrickView>) -> bool {
    &&& a.len() == b.len()
    &&& forall|i: int| 0 <= i < a.len() ==> (#[trigger] a[i]).destroyed() == b[i].destroyed()
}

/// What the bookkeeping of bricks never does, whatever the events: it keeps
/// every brick in its place, revives none, lowers the score by nothing, and
/// adds to the score exactly the points of the bricks that it destroys. Every
/// brick that an event names is destroyed afterwards.
pub proof fn lemma_credited(score: nat, bricks: Seq<BrickView>, events: Seq<Event>)
    ensures
        same_bricks(bricks, credited(score, bricks, events).1),
        forall|i: int|
            0 <= i < bricks.len() && !(#[trigger] bricks[i]).live ==> !credited(
                score,
                bricks,
                events,
            ).1[i].live,
        credited(score, bricks, events).0 >= score,
        credited(score, bricks, events).0 - score == destroyed_points(
            credited(score, bricks, events).1,
        ) - destroyed_points(bricks),
        credited(score, bricks, events).0 + remaining_points(credited(score, bricks, events).1)
            == score + remaining_points(bricks),
        field_wf(bricks) ==> field_wf(credited(score, bricks, events).1),
        forall|k: int|
            0 <= k < events.len() ==> (#[trigger] events[k] matches Event::BrickHit { brick_id }
                ==> brick_id < bricks.len() ==> !credited(score, bricks, events).1[brick_id as int].live),
    decreases events.len(),
{
    if events.len() > 0 {
        let init = events.drop_last();
        lemma_credited(score, bricks, init);
        let before = credited(score, bricks, init);
        let after = credited(score, bricks, events);
        match events.last() {
            Event::BrickHit { brick_id } => {
                if brick_id < before.1.len() && before.1[brick_id as int].live {
                    lemma_destroy_moves_points(before.1, brick_id as int);
                }
            },
            _ => {},
        }
        assert forall|k: int| 0 <= k < events.len() implies (#[trigger] events[k] matches Event::BrickHit {
            brick_id,
        } ==> brick_id < bricks.len() ==> !after.1[brick_id as int].live) by {
            if k < init.len() {
                assert(events[k] == init[k]);
            }
        }
        if field_wf(bricks) {
            assert forall|i: int| 0 <= i < after.1.len() implies (#[trigger] after.1[i]).wf() by {
                assert(before.1[i].wf());
            }
        }
    }
}

/// Reads the events of a tick and, for each brick that was hit and still
/// stands, adds its points to the score and destroys it.
pub fn brick_collision(score: &mut Score, bricks: &mut BrickField, events: &Vec<Event>)
    requires
        old(bricks).wf(),
        old(score).0 + remaining_points(old(bricks)@) <= u64::MAX,
    ensures
        (final(score).0 as nat, final(bricks)@) == credited(
            old(score).0 as nat,
            old(bricks)@,
            events@,
        ),
        final(bricks).wf(),
        final(score).0 >= old(score).0,
{
    let n = events.len();
    let mut k: usize = 0;
    while k < n
        invariant
            k <= n,
            n == events@.len(),
            bricks.wf(),
            (score.0 as nat, bricks@) == credited(
                old(score).0 as nat,
                old(bricks)@,
                events@.take(k as int),
            ),
            score.0 + remaining_points(bricks@) == old(score).0 + remaining_points(old(bricks)@),
            old(score).0 + remaining_points(old(bricks)@) <= u64::MAX,
            score.0 >= old(score).0,
        decreases n - k,
    {
        let ghost seen = events@.take(k as int);
        let ghost next = events@.take(k as int + 1);
        assert(next.drop_last() =~= seen);
        assert(next.last() == events@[k as int]);
        match events[k] {
            Event::BrickHit { brick_id } => {
                proof {
                    if standing(bricks@, brick_id as int) {
                        lemma_destroy_moves_points(bricks@, brick_id as int);
                    }
                }
                if let Some(points) = bricks.remove(brick_id) {
                    score.0 = score.0 + points as u64;
                }
            },
            _ => {},
        }
        k += 1;
    }
    assert(events@.take(n as int) =~= events@);
}

// ---------------------------------------------------------------------------
// Lives
// ---------------------------------------------------------------------------
/// How many of the events say that the ball crossed the bottom.
pub open spec fn bottoms(events: Seq<Event>) -> nat
    decreases events.len(),
{
    if events.len() == 0 {
        0
    } else {
        bottoms(events.drop_last()) + if events.last() == Event::BottomCollision {
            1nat
        } else {
            0nat
        }
    }
}

/// The lives left after the events: one less for each ball that crossed the
/// bottom, and never less than none.
pub open spec fn lives_left(lives: nat, events: Seq<Event>) -> nat {
    if bottoms(events) >= lives {
        0
    } else {
        (lives - bottoms(events)) as nat
    }
}

/// The state that the loss of a ball asks for: none where no ball crossed the
/// bottom, `Finished` where that took the last life, and `Serve` otherwise.
pub open spec fn lives_verdict(lives: nat, events: Seq<Event>) -> Option<BreakoutState> {
    if bottoms(events) == 0 {
        None
    } else if lives_left(lives, events) == 0 {
        Some(BreakoutState::Finished)
    } else {
        Some(BreakoutState::Serve)
    }
}

/// The crossings of the bottom in two runs of events add up.
pub proof fn lemma_bottoms_add(a: Seq<Event>, b: Seq<Event>)
    ensures
        bottoms(a + b) == bottoms(a) + bottoms(b),
    decreases b.len(),
{
    if b.len() == 0 {
        assert(a + b =~= a);
    } else {
        lemma_bottoms_add(a, b.drop_last());
        assert((a + b).drop_last() =~= a + b.drop_last());
        assert((a + b).last() == b.last());
    }
}

/// What one tick of the ball reports holds one crossing of the bottom where
/// the ball fell, and none where it did not.
pub proof fn lemma_collisions_bottoms(
    ball: BallView,
    court: Collider,
    paddle: PaddleView,
    bricks: Seq<BrickView>,
    aim: Option<Point>,
)
    ensures
        bottoms(collisions(ball, court, paddle, bricks, aim)) == if falls(ball, court) {
            1nat
        } else {
            0nat
        },
{
    let all = collisions(ball, court, paddle, bricks, aim);
    let head: Seq<Event> = if falls(ball, court) {
        seq![Event::BottomCollision]
    } else {
        Seq::empty()
    };
    let tail = all.subrange(head.len() as int, all.len() as int);
    assert(all =~= head + tail);
    lemma_bottoms_add(head, tail);
    lemma_hits_hold_no_bottom(tail);
    if falls(ball, court) {
        assert(head.drop_last() =~= Seq::<Event>::empty());
        assert(bottoms(head) == 1) by {
            reveal_with_fuel(bottoms, 2);
        }
    }
}

/// A run of events that are all hits of bricks holds no crossing of the
/// bottom.
proof fn lemma_hits_hold_no_bottom(events: Seq<Event>)
    requires
        forall|k: int| 0 <= k < events.len() ==> (#[trigger] events[k]) is BrickHit,
    ensures
        bottoms(events) == 0,
    decreases events.len(),
{
    if events.len() > 0 {
        assert(events.last() == events[events.len() - 1]);
        assert forall|k: int| 0 <= k < events.drop_last().len() implies (
        #[trigger] events.drop_last()[k]) is BrickHit by {
            assert(events.drop_last()[k] == events[k]);
        }
        lemma_hits_hold_no_bottom(events.drop_last());
    }
}

/// Reads the events of a tick and takes a life for each ball that crossed the
/// bottom. Hands back the state that this asks for.
pub fn lives(count: &mut Lives, events: &Vec<Event>) -> (next: Option<BreakoutState>)
    ensures
        final(count).0 == lives_left(old(count).0 as nat, events@),
        next == lives_verdict(old(count).0 as nat, events@),
        final(count).0 <= old(count).0,
{
    let n = events.len();
    let mut next: Option<BreakoutState> = None;
    let mut k: usize = 0;
    while k < n
        invariant
            k <= n,
            n == events@.len(),
            count.0 == lives_left(old(count).0 as nat, events@.take(k as int)),
            next == lives_verdict(old(count).0 as nat, events@.take(k as int)),
        decreases n - k,
    {
        let ghost seen = events@.take(k as int);
        let ghost upto = events@.take(k as int + 1);
        assert(upto.drop_last() =~= seen);
        assert(upto.last() == events@[k as int]);
        match events[k] {
            Event::BottomCollision => {
                if count.0 > 0 {
                    count.0 = count.0 - 1;
                }
                if count.0 == 0 {
                    next = Some(BreakoutState::Finished);
                } else {
                    next = Some(BreakoutState::Serve);
                }
            },
            _ => {},
        }
        k += 1;
    }
    assert(events@.take(n as int) =~= events@);
    next
}

} // verus!
