//! The collision and possession oracle: circle overlap between a player and
//! balls, lookup of a ball by id, pickup of the first overlapping free ball,
//! release of a carried ball, and the scoring condition (an overlapping ball
//! possessed by the opposing player).
use vstd::prelude::*;

use crate::entities::PhysObject;
use crate::physics::POS_LIMIT;

verus! {

/// Magnitude bound on bounding radii accepted by the collision routines;
/// keeps the squared radius sum inside `i64`.
pub const BBOX_LIMIT: i64 = 1_000_000;

/// Squared Euclidean distance between two positions.
pub open spec fn dist_sq(a: (i64, i64), b: (i64, i64)) -> int {
    (b.0 - a.0) * (b.0 - a.0) + (b.1 - a.1) * (b.1 - a.1)
}

/// Two bodies overlap when the distance between their centers is less than
/// the sum of their bounding radii.
pub open spec fn overlaps(p: PhysObject, b: PhysObject) -> bool {
    let s = p.bbox_size + b.bbox_size;
    0 < s && dist_sq(p.pos, b.pos) < s * s
}

/// Positions and radii small enough for the overlap test's squares.
pub open spec fn obj_in_collision_range(o: PhysObject) -> bool {
    &&& -POS_LIMIT <= o.pos.0 <= POS_LIMIT
    &&& -POS_LIMIT <= o.pos.1 <= POS_LIMIT
    &&& 0 <= o.bbox_size <= BBOX_LIMIT
}

/// Every ball of the sequence is within collision range.
pub open spec fn balls_in_collision_range(balls: Seq<PhysObject>) -> bool {
    forall|i: int| 0 <= i < balls.len() ==> obj_in_collision_range(#[trigger] balls[i])
}

/// Whether `p` and `b` overlap, per `overlaps`.
pub fn objects_overlap(p: &PhysObject, b: &PhysObject) -> (r: bool)
    requires
        obj_in_collision_range(*p),
        obj_in_collision_range(*b),
    ensures
        r == overlaps(*p, *b),
{
    let dx = b.pos.0 - p.pos.0;
    let dy = b.pos.1 - p.pos.1;
    let s = p.bbox_size + b.bbox_size;
    proof {
        assert(dx * dx + dy * dy <= 0x8000_0000_0000_0000 - 2 && 0 <= dx * dx && 0 <= dy * dy)
            by (nonlinear_arith)
            requires
                -2 * POS_LIMIT <= dx <= 2 * POS_LIMIT,
                -2 * POS_LIMIT <= dy <= 2 * POS_LIMIT,
        ;
        assert(0 <= s * s <= 0x8000_0000_0000_0000 - 2) by (nonlinear_arith)
            requires
                0 <= s <= 2 * BBOX_LIMIT,
        ;
    }
    0 < s && dx * dx + dy * dy < s * s
}

/// The ids of the balls overlapping `p`, in the balls' storage order.
pub open spec fn collided_ids(p: PhysObject, balls: Seq<PhysObject>) -> Seq<u64>
    decreases balls.len(),
{
    if balls.len() == 0 {
        Seq::empty()
    } else {
        collided_ids(p, balls.drop_last()) + (if overlaps(p, balls.last()) {
            seq![balls.last().id]
        } else {
            Seq::empty()
        })
    }
}

/// The ids of every ball overlapping the player, in storage order.
pub fn collision_check(player: &PhysObject, balls: &Vec<PhysObject>) -> (r: Vec<u64>)
    requires
        obj_in_collision_range(*player),
        balls_in_collision_range(balls@),
    ensures
        r@ == collided_ids(*player, balls@),
{
    let mut out: Vec<u64> = Vec::new();
    let mut i: usize = 0;
    while i < balls.len()
        invariant
            i <= balls.len(),
            obj_in_collision_range(*player),
            balls_in_collision_range(balls@),
            out@ == collided_ids(*player, balls@.subrange(0, i as int)),
        decreases balls.len() - i,
    {
        if objects_overlap(player, &balls[i]) {
            out.push(balls[i].id);
        }
        proof {
            assert(balls@.subrange(0, i + 1).drop_last() =~= balls@.subrange(0, i as int));
            assert(balls@.subrange(0, i + 1).last() == balls@[i as int]);
        }
        i = i + 1;
    }
    proof {
        assert(balls@.subrange(0, balls@.len() as int) =~= balls@);
    }
    out
}

/// The index of the first ball carrying id `id`, if any.
pub open spec fn find_ball_index(balls: Seq<PhysObject>, id: u64) -> Option<int>
    decreases balls.len(),
{
    if balls.len() == 0 {
        None
    } else if balls[0].id == id {
        Some(0int)
    } else {
        match find_ball_index(balls.drop_first(), id) {
            Some(i) => Some(i + 1),
            None => None,
        }
    }
}

/// `find_ball_index` names the first matching index: the found entry carries
/// the id, nothing before it does, and a `None` means nothing does at all.
pub proof fn lemma_find_ball_index(balls: Seq<PhysObject>, id: u64)
    ensures
        match find_ball_index(balls, id) {
            Some(i) => 0 <= i < balls.len() && balls[i].id == id && (forall|k: int|
                0 <= k < i ==> balls[k].id != id),
            None => forall|k: int| 0 <= k < balls.len() ==> balls[k].id != id,
        },
    decreases balls.len(),
{
    if balls.len() == 0 {
    } else if balls[0].id == id {
    } else {
        let tail = balls.drop_first();
        lemma_find_ball_index(tail, id);
        assert(forall|k: int| 1 <= k < balls.len() ==> #[trigger] balls[k] == tail[k - 1]);
        match find_ball_index(tail, id) {
            Some(i) => {
                assert forall|k: int| 0 <= k < i + 1 implies balls[k].id != id by {
                    if k >= 1 {
                        assert(tail[k - 1].id != id);
                    }
                }
            },
            None => {
                assert forall|k: int| 0 <= k < balls.len() implies balls[k].id != id by {
                    if k >= 1 {
                        assert(tail[k - 1].id != id);
                    }
                }
            },
        }
    }
}

/// Find the position of the ball with id `id`, or `None` if no ball has it;
/// the first match wins.
pub fn ball_id_to_elem(balls: &Vec<PhysObject>, id: u64) -> (r: Option<usize>)
    ensures
        match r {
            Some(i) => find_ball_index(balls@, id) == Some(i as int),
            None => find_ball_index(balls@, id) is None,
        },
{
    proof {
        lemma_find_ball_index(balls@, id);
    }
    let mut i: usize = 0;
    while i < balls.len()
        invariant
            i <= balls.len(),
            forall|k: int| 0 <= k < i ==> balls@[k].id != id,
        decreases balls.len() - i,
    {
        if balls[i].id == id {
            proof {
                lemma_find_first_is_unique(balls@, id, i as int);
            }
            return Some(i);
        }
        i = i + 1;
    }
    None
}

/// Any index that matches with no earlier match is the one that
/// `find_ball_index` names.
proof fn lemma_find_first_is_unique(balls: Seq<PhysObject>, id: u64, i: int)
    requires
        0 <= i < balls.len(),
        balls[i].id == id,
        forall|k: int| 0 <= k < i ==> balls[k].id != id,
    ensures
        find_ball_index(balls, id) == Some(i),
{
    lemma_find_ball_index(balls, id);
    match find_ball_index(balls, id) {
        Some(j) => {
            if j < i {
                assert(balls[j].id != id);
            }
            if i < j {
                assert(balls[i].id != id);
            }
        },
        None => {
            assert(balls[i].id != id);
        },
    }
}

/// Whether the player may pick this ball up: it overlaps and is free.
pub open spec fn can_pick(p: PhysObject, b: PhysObject) -> bool {
    overlaps(p, b) && b.hold == 0
}

/// The index of the first overlapping free ball, if any.  The tie-break is
/// storage order, not distance.
pub open spec fn find_pickup_index(p: PhysObject, balls: Seq<PhysObject>) -> Option<int>
    decreases balls.len(),
{
    if balls.len() == 0 {
        None
    } else if can_pick(p, balls[0]) {
        Some(0int)
    } else {
        match find_pickup_index(p, balls.drop_first()) {
            Some(i) => Some(i + 1),
            None => None,
        }
    }
}

/// `find_pickup_index` names the first index whose ball overlaps the player
/// and is free; a `None` means no ball qualifies.
pub proof fn lemma_find_pickup_index(p: PhysObject, balls: Seq<PhysObject>)
    ensures
        match find_pickup_index(p, balls) {
            Some(i) => 0 <= i < balls.len() && can_pick(p, balls[i]) && (forall|k: int|
                0 <= k < i ==> !can_pick(p, balls[k])),
            None => forall|k: int| 0 <= k < balls.len() ==> !can_pick(p, balls[k]),
        },
    decreases balls.len(),
{
    if balls.len() == 0 {
    } else if can_pick(p, balls[0]) {
    } else {
        let tail = balls.drop_first();
        lemma_find_pickup_index(p, tail);
        assert(forall|k: int| 1 <= k < balls.len() ==> #[trigger] balls[k] == tail[k - 1]);
        match find_pickup_index(p, tail) {
            Some(i) => {
                assert forall|k: int| 0 <= k < i + 1 implies !can_pick(p, balls[k]) by {
                    if k >= 1 {
                        assert(!can_pick(p, tail[k - 1]));
                    }
                }
            },
            None => {
                assert forall|k: int| 0 <= k < balls.len() implies !can_pick(p, balls[k]) by {
                    if k >= 1 {
                        assert(!can_pick(p, tail[k - 1]));
                    }
                }
            },
        }
    }
}

/// Any qualifying index with no earlier qualifying index is the one that
/// `find_pickup_index` names.
proof fn lemma_pickup_first_is_unique(p: PhysObject, balls: Seq<PhysObject>, i: int)
    requires
        0 <= i < balls.len(),
        can_pick(p, balls[i]),
        forall|k: int| 0 <= k < i ==> !can_pick(p, balls[k]),
    ensures
        find_pickup_index(p, balls) == Some(i),
{
    lemma_find_pickup_index(p, balls);
    match find_pickup_index(p, balls) {
        Some(j) => {
            if j < i {
                assert(!can_pick(p, balls[j]));
            }
            if i < j {
                assert(!can_pick(p, balls[i]));
            }
        },
        None => {
            assert(!can_pick(p, balls[i]));
        },
    }
}

/// The outcome of a pickup attempt: an empty-handed player takes the first
/// overlapping free ball, recording its id and being recorded as its
/// possessor; a player already holding never acquires a second ball.
pub open spec fn pickup_spec(p: PhysObject, balls: Seq<PhysObject>) -> (PhysObject, Seq<
    PhysObject,
>) {
    if p.hold != 0 {
        (p, balls)
    } else {
        match find_pickup_index(p, balls) {
            Some(i) => (
                PhysObject { hold: balls[i].id, ..p },
                balls.update(i, PhysObject { hold: p.id, ..balls[i] }),
            ),
            None => (p, balls),
        }
    }
}

/// Try to pick up a ball: an empty-handed player takes the first overlapping
/// free ball in storage order, becoming its possessor; a player already
/// carrying one leaves everything unchanged.
pub fn ball_pickup(player: &mut PhysObject, balls: &mut Vec<PhysObject>)
    requires
        obj_in_collision_range(*old(player)),
        balls_in_collision_range(old(balls)@),
    ensures
        *final(player) == pickup_spec(*old(player), old(balls)@).0,
        final(balls)@ == pickup_spec(*old(player), old(balls)@).1,
{
    if player.hold != 0 {
        return ;
    }
    let mut i: usize = 0;
    while i < balls.len()
        invariant
            i <= balls.len(),
            *player == *old(player),
            balls@ == old(balls)@,
            obj_in_collision_range(*player),
            balls_in_collision_range(balls@),
            player.hold == 0,
            forall|k: int| 0 <= k < i ==> !can_pick(*player, balls@[k]),
        decreases balls.len() - i,
    {
        if balls[i].hold == 0 && objects_overlap(player, &balls[i]) {
            proof {
                lemma_pickup_first_is_unique(*player, balls@, i as int);
            }
            player.hold = balls[i].id;
            let nb = PhysObject { hold: player.id, ..balls[i] };
            balls[i] = nb;
            return ;
        }
        i = i + 1;
    }
    proof {
        lemma_find_pickup_index(*player, balls@);
    }
}

/// Pickup is exclusive: a player whose `hold` is nonzero can never acquire
/// another ball — a pickup attempt leaves both the player and every ball
/// exactly as they were until `hold` is cleared.
pub proof fn lemma_pickup_exclusive(p: PhysObject, balls: Seq<PhysObject>)
    requires
        p.hold != 0,
    ensures
        pickup_spec(p, balls) == ((p, balls)),
{
}

/// The outcome of a release: the player's hand is emptied, and the ball it
/// was carrying (if it exists) takes the player's velocity — a throw — and
/// stops being possessed.
pub open spec fn drop_spec(p: PhysObject, balls: Seq<PhysObject>) -> (PhysObject, Seq<PhysObject>) {
    if p.hold == 0 {
        (p, balls)
    } else {
        let np = PhysObject { hold: 0, ..p };
        match find_ball_index(balls, p.hold) {
            Some(i) => (
                np,
                balls.update(
                    i,
                    PhysObject {
                        x_velocity: p.x_velocity,
                        y_velocity: p.y_velocity,
                        hold: 0,
                        ..balls[i]
                    },
                ),
            ),
            None => (np, balls),
        }
    }
}

/// Release the carried ball: it takes the player's current velocity (a
/// throw) and its possessor is cleared, as is the player's hand.  A player
/// carrying nothing leaves everything unchanged.
pub fn ball_drop(player: &mut PhysObject, balls: &mut Vec<PhysObject>)
    ensures
        *final(player) == drop_spec(*old(player), old(balls)@).0,
        final(balls)@ == drop_spec(*old(player), old(balls)@).1,
{
    if player.hold == 0 {
        return ;
    }
    let index = ball_id_to_elem(balls, player.hold);
    proof {
        lemma_find_ball_index(balls@, player.hold);
    }
    match index {
        Some(i) => {
            let nb = PhysObject {
                x_velocity: player.x_velocity,
                y_velocity: player.y_velocity,
                hold: 0,
                ..balls[i]
            };
            balls[i] = nb;
        },
        None => {},
    }
    player.hold = 0;
}

/// A release always clears possession on the ball the player was carrying
/// and transfers the player's current velocity to it, and empties the
/// player's hand.
pub proof fn lemma_drop_releases(p: PhysObject, balls: Seq<PhysObject>, i: int)
    requires
        p.hold != 0,
        find_ball_index(balls, p.hold) == Some(i),
    ensures
        0 <= i < balls.len(),
        drop_spec(p, balls).0.hold == 0,
        drop_spec(p, balls).1[i].hold == 0,
        drop_spec(p, balls).1[i].x_velocity == p.x_velocity,
        drop_spec(p, balls).1[i].y_velocity == p.y_velocity,
        drop_spec(p, balls).1[i].pos == balls[i].pos,
        drop_spec(p, balls).1[i].id == balls[i].id,
{
    lemma_find_ball_index(balls, p.hold);
}

/// The scoring condition: some ball overlapping the player is possessed by
/// the player identified by `opposing_owner_id`.
pub open spec fn score_hit(p: PhysObject, balls: Seq<PhysObject>, opposing_owner_id: u64) -> bool {
    exists|i: int|
        0 <= i < balls.len() && overlaps(p, #[trigger] balls[i]) && balls[i].hold
            == opposing_owner_id
}

/// Whether a ball possessed by the player with id `opposing_owner_id`
/// currently overlaps `player` — carrying the opponent's ball into the goal
/// mouth is what scores.
pub fn collision_check_score(
    player: &PhysObject,
    balls: &Vec<PhysObject>,
    opposing_owner_id: u64,
) -> (r: bool)
    requires
        obj_in_collision_range(*player),
        balls_in_collision_range(balls@),
    ensures
        r == score_hit(*player, balls@, opposing_owner_id),
{
    let mut i: usize = 0;
    while i < balls.len()
        invariant
            i <= balls.len(),
            obj_in_collision_range(*player),
            balls_in_collision_range(balls@),
            forall|k: int|
                0 <= k < i ==> !(overlaps(*player, #[trigger] balls@[k]) && balls@[k].hold
                    == opposing_owner_id),
        decreases balls.len() - i,
    {
        if balls[i].hold == opposing_owner_id && objects_overlap(player, &balls[i]) {
            return true;
        }
        i = i + 1;
    }
    false
}

} // verus!
