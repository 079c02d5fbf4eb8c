//! The match state and its deterministic construction: the symmetric field
//! layout (two players at three eighths of the field width from center, balls
//! in two mirrored columns), the aggregate `GameState`, and the per-tick
//! simulation step with goal detection and field reset.
use vstd::prelude::*;

use crate::collision::balls_in_collision_range;
use crate::collision::collision_check_score;
use crate::collision::obj_in_collision_range;
use crate::collision::score_hit;
use crate::entities::BallIdAlloc;
use crate::entities::InputState;
use crate::entities::PhysObject;
use crate::entities::PLAYER1_ID;
use crate::entities::PLAYER2_ID;
use crate::entities::FIRST_BALL_ID;
use crate::entities::PLAYER_BBOX;
use crate::entities::ROCK_BBOX;
use crate::entities::create_player;
use crate::entities::spec_new_ball;
use crate::entities::spec_new_player;
use crate::physics::AXIS_LIMIT;
use crate::physics::MAX_PHYSICS_VEL;
use crate::physics::POS_LIMIT;
use crate::physics::VEL_LIMIT;
use crate::physics::advance_spec;
use crate::physics::ball_follow;
use crate::physics::ball_halt;
use crate::physics::follow_spec;
use crate::physics::halt_spec;
use crate::physics::handle_input_spec;
use crate::physics::player_handle_input;
use crate::physics::update_object_position;

verus! {

/// X offset of the inner ball column from the field center (100 px).
pub const BALL_COLUMN_OFFSET: i64 = 100_000;

/// How much further out the second ball column sits (50 px).
pub const BALL_COLUMN_GAP: i64 = 50_000;

/// Vertical spacing between ball pairs within a column (72 px).
pub const BALL_SPACING: i64 = 72_000;

/// Sideways offset at which a carried ball rides beside its player (32 px).
pub const FOLLOW_OFFSET: i64 = 32_000;

/// A mirrored pair of fresh balls at `(-x, y)` and `(x, y)` with consecutive
/// ids starting at `base`.
pub open spec fn spec_ball_pair(x: i64, y: i64, base: u64) -> Seq<PhysObject> {
    seq![
        spec_new_ball(((-x) as i64, y), base),
        spec_new_ball((x, y), (base + 1) as u64),
    ]
}

/// A column of `pairs` mirrored ball pairs at X offset `distance`, stacked
/// upward from `y0` in `BALL_SPACING` steps, ids consecutive from `base`.
pub open spec fn spec_column_balls(pairs: nat, distance: i64, y0: int, base: u64) -> Seq<
    PhysObject,
>
    decreases pairs,
{
    if pairs == 0 {
        Seq::empty()
    } else {
        spec_column_balls((pairs - 1) as nat, distance, y0, base) + spec_ball_pair(
            distance,
            (y0 + (pairs - 1) * BALL_SPACING) as i64,
            (base + 2 * (pairs - 1)) as u64,
        )
    }
}

/// The lowest pair's Y offset in a column of `pairs` pairs: the stack is
/// centered on zero.
pub open spec fn column_y0(pairs: int) -> int {
    -((pairs - 1) * BALL_SPACING / 2)
}

/// Pairs in the inner column: the requested pair count, rounded up.
pub open spec fn col1_pairs(num: u64) -> int {
    ((num as int / 2) + 1) / 2
}

/// Pairs in the outer column: the requested pair count, rounded down.
pub open spec fn col2_pairs(num: u64) -> int {
    (num as int / 2) / 2
}

/// The full starting arrangement of `num` balls: the inner column at
/// `BALL_COLUMN_OFFSET`, the outer at `BALL_COLUMN_OFFSET + BALL_COLUMN_GAP`,
/// each vertically centered, ids consecutive from `base`.
pub open spec fn spec_layout_balls(num: u64, base: u64) -> Seq<PhysObject> {
    let c1 = col1_pairs(num);
    let c2 = col2_pairs(num);
    spec_column_balls(c1 as nat, BALL_COLUMN_OFFSET, column_y0(c1), base) + spec_column_balls(
        c2 as nat,
        (BALL_COLUMN_OFFSET + BALL_COLUMN_GAP) as i64,
        column_y0(c2),
        (base + 2 * c1) as u64,
    )
}

/// A mirrored pair of fresh balls at `(-x, y)` and `(x, y)`.
pub fn create_ball_pair(x: i64, y: i64, ids: &mut BallIdAlloc) -> (r: Vec<PhysObject>)
    requires
        -POS_LIMIT <= x <= POS_LIMIT,
        old(ids).next + 2 <= u64::MAX,
    ensures
        r@ == spec_ball_pair(x, y, old(ids).next),
        final(ids).next == old(ids).next + 2,
{
    let mut balls = Vec::new();
    let b0 = PhysObject::new_ball_id((-x, y), ids);
    balls.push(b0);
    let b1 = PhysObject::new_ball_id((x, y), ids);
    balls.push(b1);
    proof {
        assert(balls@ =~= spec_ball_pair(x, y, old(ids).next));
    }
    balls
}

/// A column of `pairs` mirrored ball pairs at X offset `distance`, stacked
/// in `BALL_SPACING` steps and vertically centered on zero.
pub fn create_balls_collumn(pairs: u64, distance: i64, ids: &mut BallIdAlloc) -> (r: Vec<
    PhysObject,
>)
    requires
        pairs <= 500,
        -POS_LIMIT <= distance <= POS_LIMIT,
        old(ids).next + 2 * pairs <= u64::MAX,
    ensures
        r@ == spec_column_balls(pairs as nat, distance, column_y0(pairs as int), old(ids).next),
        final(ids).next == old(ids).next + 2 * pairs,
{
    let mut balls: Vec<PhysObject> = Vec::new();
    if pairs == 0 {
        return balls;
    }
    let space = BALL_SPACING;
    let y0: i64 = -((pairs as i64 - 1) * space / 2);
    let mut space_iter: i64 = y0;
    let mut k: u64 = 0;
    while k < pairs
        invariant
            k <= pairs <= 500,
            -POS_LIMIT <= distance <= POS_LIMIT,
            space == BALL_SPACING,
            y0 == column_y0(pairs as int),
            space_iter == y0 + k * BALL_SPACING,
            old(ids).next + 2 * pairs <= u64::MAX,
            ids.next == old(ids).next + 2 * k,
            balls@ == spec_column_balls(k as nat, distance, y0 as int, old(ids).next),
        decreases pairs - k,
    {
        let mut pair = create_ball_pair(distance, space_iter, ids);
        balls.append(&mut pair);
        space_iter = space_iter + space;
        k = k + 1;
    }
    balls
}

/// The starting arrangement of `num` balls (an even count): two mirrored
/// columns, the inner one taking the extra pair when the pair count is odd.
pub fn create_balls(balls_num: u64, ids: &mut BallIdAlloc) -> (r: Vec<PhysObject>)
    requires
        balls_num % 2 == 0,
        balls_num <= 1000,
        old(ids).next + balls_num <= u64::MAX,
    ensures
        r@ == spec_layout_balls(balls_num, old(ids).next),
        r@.len() == balls_num,
        final(ids).next == old(ids).next + balls_num,
{
    let pairs = balls_num / 2;
    let c1 = (pairs + 1) / 2;
    let c2 = pairs / 2;
    let mut balls = create_balls_collumn(c1, BALL_COLUMN_OFFSET, ids);
    let mut col2 = create_balls_collumn(c2, BALL_COLUMN_OFFSET + BALL_COLUMN_GAP, ids);
    balls.append(&mut col2);
    proof {
        lemma_column_len(c1 as nat, BALL_COLUMN_OFFSET, column_y0(c1 as int), old(ids).next);
        lemma_column_len(
            c2 as nat,
            (BALL_COLUMN_OFFSET + BALL_COLUMN_GAP) as i64,
            column_y0(c2 as int),
            (old(ids).next + 2 * c1) as u64,
        );
    }
    balls
}

/// A column of `pairs` pairs holds exactly `2 * pairs` balls.
pub proof fn lemma_column_len(pairs: nat, distance: i64, y0: int, base: u64)
    ensures
        spec_column_balls(pairs, distance, y0, base).len() == 2 * pairs,
    decreases pairs,
{
    if pairs != 0 {
        lemma_column_len((pairs - 1) as nat, distance, y0, base);
    }
}

/// Every ball a column builds is a free, motionless, standard-sized ball
/// whose id counts up from `base` in storage order and whose position sits
/// on one of the column's two mirrored X offsets, within the column's
/// vertical extent.
pub proof fn lemma_column_props(pairs: nat, distance: i64, y0: int, base: u64)
    requires
        base + 2 * pairs <= u64::MAX,
        pairs <= 500,
        -POS_LIMIT <= distance <= POS_LIMIT,
        -POS_LIMIT <= y0,
        y0 + pairs * BALL_SPACING <= POS_LIMIT,
    ensures
        spec_column_balls(pairs, distance, y0, base).len() == 2 * pairs,
        forall|k: int|
            0 <= k < 2 * pairs ==> {
                let b = #[trigger] spec_column_balls(pairs, distance, y0, base)[k];
                b.tag is Ball && b.hold == 0 && b.x_velocity == 0 && b.y_velocity == 0
                    && b.bbox_size == ROCK_BBOX && b.id == base + k && (b.pos.0 == distance
                    || b.pos.0 == -distance) && y0 <= b.pos.1 <= y0 + (pairs - 1) * BALL_SPACING
            },
    decreases pairs,
{
    if pairs != 0 {
        lemma_column_props((pairs - 1) as nat, distance, y0, base);
        let prev = spec_column_balls((pairs - 1) as nat, distance, y0, base);
        let yk = y0 + (pairs - 1) * BALL_SPACING;
        let pair = spec_ball_pair(distance, yk as i64, (base + 2 * (pairs - 1)) as u64);
        let cur = spec_column_balls(pairs, distance, y0, base);
        assert(cur == prev + pair);
        assert(pairs * BALL_SPACING >= (pairs - 1) * BALL_SPACING >= 0) by (nonlinear_arith)
            requires
                pairs >= 1,
                BALL_SPACING >= 0,
        ;
        assert(cur[2 * pairs - 2] == pair[0] && cur[2 * pairs - 1] == pair[1]);
        assert forall|k: int| 0 <= k < 2 * pairs implies {
            let b = #[trigger] cur[k];
            b.tag is Ball && b.hold == 0 && b.x_velocity == 0 && b.y_velocity == 0 && b.bbox_size
                == ROCK_BBOX && b.id == base + k && (b.pos.0 == distance || b.pos.0 == -distance)
                && y0 <= b.pos.1 <= y0 + (pairs - 1) * BALL_SPACING
        } by {
            if k < 2 * (pairs - 1) {
                assert(cur[k] == prev[k]);
                assert((pairs - 2) * BALL_SPACING <= (pairs - 1) * BALL_SPACING)
                    by (nonlinear_arith)
                    requires
                        BALL_SPACING >= 0,
                ;
            }
        }
    }
}

/// Every ball of the starting arrangement is free, motionless and
/// standard-sized; ids count up from `base` in storage order (so they are
/// distinct), X offsets stay within the outer column's, and Y offsets within
/// the taller column's centered extent.
pub proof fn lemma_layout_props(num: u64, base: u64)
    requires
        num % 2 == 0,
        num <= 1000,
        base + num <= u64::MAX,
    ensures
        spec_layout_balls(num, base).len() == num,
        forall|k: int|
            0 <= k < num ==> {
                let b = #[trigger] spec_layout_balls(num, base)[k];
                b.tag is Ball && b.hold == 0 && b.x_velocity == 0 && b.y_velocity == 0
                    && b.bbox_size == ROCK_BBOX && b.id == base + k && -(BALL_COLUMN_OFFSET
                    + BALL_COLUMN_GAP) <= b.pos.0 <= BALL_COLUMN_OFFSET + BALL_COLUMN_GAP && -(
                (col1_pairs(num) - 1) * BALL_SPACING / 2) <= b.pos.1 <= (col1_pairs(num) - 1)
                    * BALL_SPACING / 2
            },
{
    let c1 = col1_pairs(num);
    let c2 = col2_pairs(num);
    let d2 = (BALL_COLUMN_OFFSET + BALL_COLUMN_GAP) as i64;
    let s1 = spec_column_balls(c1 as nat, BALL_COLUMN_OFFSET, column_y0(c1), base);
    let s2 = spec_column_balls(c2 as nat, d2, column_y0(c2), (base + 2 * c1) as u64);
    if num == 0 {
        assert(spec_layout_balls(num, base).len() == 0);
    } else {
        lemma_layout_props_nonzero(num, base);
    }
}

/// The workhorse of `lemma_layout_props`, for a nonzero ball count.
proof fn lemma_layout_props_nonzero(num: u64, base: u64)
    requires
        num % 2 == 0,
        2 <= num <= 1000,
        base + num <= u64::MAX,
    ensures
        spec_layout_balls(num, base).len() == num,
        forall|k: int|
            0 <= k < num ==> {
                let b = #[trigger] spec_layout_balls(num, base)[k];
                b.tag is Ball && b.hold == 0 && b.x_velocity == 0 && b.y_velocity == 0
                    && b.bbox_size == ROCK_BBOX && b.id == base + k && -(BALL_COLUMN_OFFSET
                    + BALL_COLUMN_GAP) <= b.pos.0 <= BALL_COLUMN_OFFSET + BALL_COLUMN_GAP && -(
                (col1_pairs(num) - 1) * BALL_SPACING / 2) <= b.pos.1 <= (col1_pairs(num) - 1)
                    * BALL_SPACING / 2
            },
{
    let c1 = col1_pairs(num);
    let c2 = col2_pairs(num);
    let d2 = (BALL_COLUMN_OFFSET + BALL_COLUMN_GAP) as i64;
    let s1 = spec_column_balls(c1 as nat, BALL_COLUMN_OFFSET, column_y0(c1), base);
    let s2 = spec_column_balls(c2 as nat, d2, column_y0(c2), (base + 2 * c1) as u64);
    assert(0 <= c2 <= c1 <= 251 && 1 <= c1);
    assert(0 <= (c1 - 1) * BALL_SPACING <= 250 * BALL_SPACING && (c2 - 1) * BALL_SPACING <= (c1
        - 1) * BALL_SPACING) by (nonlinear_arith)
        requires
            0 <= c2 <= c1 <= 251 && 1 <= c1,
            BALL_SPACING >= 0,
    ;
    vstd::arithmetic::div_mod::lemma_div_is_ordered(
        (c2 - 1) * BALL_SPACING,
        (c1 - 1) * BALL_SPACING,
        2,
    );
    lemma_column_props(c1 as nat, BALL_COLUMN_OFFSET, column_y0(c1), base);
    lemma_column_props(c2 as nat, d2, column_y0(c2), (base + 2 * c1) as u64);
    assert(2 * c1 + 2 * c2 == num);
    assert forall|k: int| 0 <= k < num implies {
        let b = #[trigger] spec_layout_balls(num, base)[k];
        b.tag is Ball && b.hold == 0 && b.x_velocity == 0 && b.y_velocity == 0 && b.bbox_size
            == ROCK_BBOX && b.id == base + k && -(BALL_COLUMN_OFFSET + BALL_COLUMN_GAP) <= b.pos.0
            <= BALL_COLUMN_OFFSET + BALL_COLUMN_GAP && -((col1_pairs(num) - 1) * BALL_SPACING / 2)
            <= b.pos.1 <= (col1_pairs(num) - 1) * BALL_SPACING / 2
    } by {
        let b = spec_layout_balls(num, base)[k];
        if k < 2 * c1 {
            assert(b == s1[k]);
            lemma_centered_extent(c1);
        } else {
            assert(b == s2[k - 2 * c1]);
            lemma_centered_extent(c2);
        }
    }
}

/// A column's centered vertical extent: from `column_y0` up by its pair
/// count's worth of spacing, symmetric about zero.
proof fn lemma_centered_extent(pairs: int)
    requires
        0 <= pairs <= 251,
    ensures
        column_y0(pairs) == -((pairs - 1) * BALL_SPACING / 2),
        column_y0(pairs) + (pairs - 1) * BALL_SPACING <= (pairs - 1) * BALL_SPACING / 2,
{
    let t = (pairs - 1) * BALL_SPACING;
    if pairs >= 1 {
        assert(t == 36_000 * (pairs - 1) * 2) by (nonlinear_arith)
            requires
                t == (pairs - 1) * BALL_SPACING,
                BALL_SPACING == 72_000,
        ;
        vstd::arithmetic::div_mod::lemma_div_multiples_vanish(36_000 * (pairs - 1), 2);
        assert(2 * (36_000 * (pairs - 1)) == 36_000 * (pairs - 1) * 2) by (nonlinear_arith);
        assert(t / 2 == 36_000 * (pairs - 1));
        assert(t - t / 2 == t / 2);
    } else {
        assert(t == -72_000);
        assert(t / 2 == -36_000);
    }
}

/// The left player's X position: three eighths of the field width left of
/// center.
pub open spec fn spec_player1_x(width: i64) -> int {
    -(3 * width / 8)
}

/// The right player's X position, mirroring the left player's.
pub open spec fn spec_player2_x(width: i64) -> int {
    3 * width / 8
}

/// The deterministic starting arrangement for a field of `width`: two
/// players placed symmetrically at three eighths of the width from center,
/// and `balls_num` balls in two mirrored columns, ids from `base`.
pub open spec fn spec_reset_field(width: i64, balls_num: u64, base: u64) -> (
    PhysObject,
    PhysObject,
    Seq<PhysObject>,
) {
    (
        spec_new_player((spec_player1_x(width) as i64, 0), PLAYER1_ID),
        spec_new_player((spec_player2_x(width) as i64, 0), PLAYER2_ID),
        spec_layout_balls(balls_num, base),
    )
}

/// Build the starting arrangement afresh: symmetric players, centered ball
/// columns.  Reinvoking it with the same width and ball count reproduces the
/// identical arrangement, only with fresh ball ids.
pub fn reset_field(width: i64, balls_num: u64, ids: &mut BallIdAlloc) -> (r: (
    PhysObject,
    PhysObject,
    Vec<PhysObject>,
))
    requires
        0 <= width <= POS_LIMIT,
        balls_num % 2 == 0,
        balls_num <= 1000,
        old(ids).next + balls_num <= u64::MAX,
    ensures
        r.0 == spec_reset_field(width, balls_num, old(ids).next).0,
        r.1 == spec_reset_field(width, balls_num, old(ids).next).1,
        r.2@ == spec_reset_field(width, balls_num, old(ids).next).2,
        final(ids).next == old(ids).next + balls_num,
{
    let px = 3 * width / 8;
    let player1 = create_player((-px, 0), PLAYER1_ID);
    let player2 = create_player((px, 0), PLAYER2_ID);
    let balls = create_balls(balls_num, ids);
    (player1, player2, balls)
}

/// Translate a world coordinate (origin at field center, +Y up) to a screen
/// coordinate (origin at the top left, +Y down).
pub fn world_to_screen_coords(screen_width: i64, screen_height: i64, point: (i64, i64)) -> (r: (
    i64,
    i64,
))
    requires
        0 <= screen_width <= POS_LIMIT,
        0 <= screen_height <= POS_LIMIT,
        -POS_LIMIT <= point.0 <= POS_LIMIT,
        -POS_LIMIT <= point.1 <= POS_LIMIT,
    ensures
        r.0 == point.0 + screen_width as int / 2,
        r.1 == screen_height - (point.1 + screen_height as int / 2),
{
    let x = point.0 + screen_width / 2;
    let y = screen_height - (point.1 + screen_height / 2);
    (x, y)
}

/// Smallest accepted field width (300 px): wide enough for the ball columns
/// and for every bounce to land back inside the field.
pub const MIN_FIELD_WIDTH: i64 = 300_000;

/// Smallest accepted field height (100 px).
pub const MIN_FIELD_HEIGHT: i64 = 100_000;

/// Largest accepted field dimension (100 000 px).
pub const FIELD_LIMIT: i64 = 100_000_000;

/// Largest accepted ball count.
pub const MAX_BALLS: u64 = 1000;

/// The aggregate match state: both players, the live ball collection, both
/// scores, the field dimensions, both players' current intents, the
/// requested ball count, and the session's ball id allocator.  The
/// simulation step is its only mutator; plugins only ever see a read-only
/// snapshot.
pub struct GameState {
    pub player1: PhysObject,
    pub player2: PhysObject,
    pub balls: Vec<PhysObject>,
    pub score1: i32,
    pub score2: i32,
    pub screen_width: i64,
    pub screen_height: i64,
    pub input1: InputState,
    pub input2: InputState,
    pub balls_num: u64,
    pub ball_ids: BallIdAlloc,
}

/// Axis components within the accepted magnitude.
pub open spec fn input_ok(i: InputState) -> bool {
    &&& -AXIS_LIMIT <= i.xaxis1pos <= AXIS_LIMIT
    &&& -AXIS_LIMIT <= i.xaxis1neg <= AXIS_LIMIT
    &&& -AXIS_LIMIT <= i.yaxis1pos <= AXIS_LIMIT
    &&& -AXIS_LIMIT <= i.yaxis1neg <= AXIS_LIMIT
}

/// Field dimensions within the accepted range, in whole milli-pixel units.
pub open spec fn field_ok(g: GameState) -> bool {
    &&& MIN_FIELD_WIDTH <= g.screen_width <= FIELD_LIMIT
    &&& g.screen_width % 8 == 0
    &&& MIN_FIELD_HEIGHT <= g.screen_height <= FIELD_LIMIT
    &&& g.screen_height % 2 == 0
}

/// Largest velocity magnitude a ball can carry: a thrown ball takes its
/// thrower's velocity, which may briefly hold one tick of acceleration on
/// top of the physics cap before clamping.
pub const BALL_VEL_CAP: i64 = 216_000_000;

/// A well-formed ball: a standard-sized ball whose id was handed out by the
/// session allocator (so it sits below `next`), whose possessor is nobody or
/// one of the two players, inside a `w` by `h` field, at a lawful speed.
pub open spec fn ball_ok(b: PhysObject, w: int, h: int, next: u64) -> bool {
    &&& b.tag is Ball
    &&& b.bbox_size == ROCK_BBOX
    &&& FIRST_BALL_ID <= b.id < next
    &&& (b.hold == 0 || b.hold == PLAYER1_ID || b.hold == PLAYER2_ID)
    &&& -(w / 2) <= b.pos.0 <= w / 2
    &&& -(h / 2) <= b.pos.1 <= h / 2
    &&& -BALL_VEL_CAP <= b.x_velocity <= BALL_VEL_CAP
    &&& -BALL_VEL_CAP <= b.y_velocity <= BALL_VEL_CAP
}

/// A well-formed player confined to `[lo, hi]` horizontally, inside the
/// field vertically, at a lawful speed.
pub open spec fn player_ok(p: PhysObject, lo: int, hi: int, h: int) -> bool {
    &&& p.tag is Player
    &&& p.bbox_size == PLAYER_BBOX
    &&& lo <= p.pos.0 <= hi
    &&& -(h / 2) <= p.pos.1 <= h / 2
    &&& -MAX_PHYSICS_VEL <= p.x_velocity <= MAX_PHYSICS_VEL
    &&& -MAX_PHYSICS_VEL <= p.y_velocity <= MAX_PHYSICS_VEL
}

/// No two balls share an id.
pub open spec fn ids_unique(balls: Seq<PhysObject>) -> bool {
    forall|i: int, j: int|
        0 <= i < j < balls.len() ==> (#[trigger] balls[i]).id != (#[trigger] balls[j]).id
}

/// The possession relation is mutual and exclusive: a player's `hold` names
/// an existing ball that records the player as its possessor, and any ball
/// possessed by a player is the one that player's `hold` names — together
/// with id uniqueness, no ball is ever held by two players and no player
/// carries two balls.
pub open spec fn possession_ok(p1: PhysObject, p2: PhysObject, balls: Seq<PhysObject>) -> bool {
    possession_pair(p1, PLAYER1_ID, p2, PLAYER2_ID, balls)
}

/// The possession relation seen from one player's side: `p`'s `hold` names
/// an existing ball possessed by `p` (id `pid`), `q`'s likewise (id `qid`),
/// and each player's balls point back at that player's `hold`.
pub open spec fn possession_pair(
    p: PhysObject,
    pid: u64,
    q: PhysObject,
    qid: u64,
    balls: Seq<PhysObject>,
) -> bool {
    &&& (p.hold != 0 ==> exists|i: int|
        0 <= i < balls.len() && (#[trigger] balls[i]).id == p.hold && balls[i].hold == pid)
    &&& (q.hold != 0 ==> exists|i: int|
        0 <= i < balls.len() && (#[trigger] balls[i]).id == q.hold && balls[i].hold == qid)
    &&& (forall|i: int|
        0 <= i < balls.len() && (#[trigger] balls[i]).hold == pid ==> p.hold == balls[i].id)
    &&& (forall|i: int|
        0 <= i < balls.len() && (#[trigger] balls[i]).hold == qid ==> q.hold == balls[i].id)
}

/// The match invariant: a lawful field, both players well formed in their
/// own halves, lawful intents, exactly the requested (even) number of balls,
/// a tall enough field for the layout, every ball well formed with a unique
/// id, a mutual and exclusive possession relation, and nonnegative scores.
pub open spec fn wf(g: GameState) -> bool {
    &&& field_ok(g)
    &&& FIRST_BALL_ID <= g.ball_ids.next
    &&& g.player1.id == PLAYER1_ID
    &&& g.player2.id == PLAYER2_ID
    &&& player_ok(g.player1, -(g.screen_width as int / 2), 0, g.screen_height as int)
    &&& player_ok(g.player2, 0, g.screen_width as int / 2, g.screen_height as int)
    &&& input_ok(g.input1)
    &&& input_ok(g.input2)
    &&& g.balls_num % 2 == 0
    &&& g.balls_num <= MAX_BALLS
    &&& g.balls@.len() == g.balls_num
    &&& (col1_pairs(g.balls_num) - 1) * BALL_SPACING <= g.screen_height
    &&& (forall|i: int|
        0 <= i < g.balls@.len() ==> ball_ok(
            #[trigger] g.balls@[i],
            g.screen_width as int,
            g.screen_height as int,
            g.ball_ids.next,
        ))
    &&& ids_unique(g.balls@)
    &&& possession_ok(g.player1, g.player2, g.balls@)
    &&& 0 <= g.score1
    &&& 0 <= g.score2
}

/// With the field width a multiple of eight, the players' spawn positions
/// sit exactly inside their own halves, three eighths of the width out.
proof fn lemma_spawn_positions(width: i64)
    requires
        MIN_FIELD_WIDTH <= width <= FIELD_LIMIT,
        width % 8 == 0,
    ensures
        0 <= spec_player2_x(width) <= width as int / 2,
        -(width as int / 2) <= spec_player1_x(width) <= 0,
        width as int / 2 >= 150_000,
{
    let t = width as int / 8;
    vstd::arithmetic::div_mod::lemma_fundamental_div_mod(width as int, 8);
    assert(width == 8 * t);
    assert(3 * width == (3 * t) * 8) by (nonlinear_arith)
        requires
            width == 8 * t,
    ;
    vstd::arithmetic::div_mod::lemma_div_by_multiple(3 * t, 8);
    assert(spec_player2_x(width) == 3 * t);
    assert(width == (4 * t) * 2) by (nonlinear_arith)
        requires
            width == 8 * t,
    ;
    vstd::arithmetic::div_mod::lemma_div_by_multiple(4 * t, 2);
    assert(width as int / 2 == 4 * t);
    assert(t >= 37_500);
}

impl GameState {
    /// A fresh match on a `width` by `height` field with `balls_num` balls:
    /// the deterministic starting arrangement, both scores zero, neutral
    /// intents, and a fresh ball id allocator.
    pub fn new(width: i64, height: i64, balls_num: u64) -> (r: GameState)
        requires
            MIN_FIELD_WIDTH <= width <= FIELD_LIMIT,
            width % 8 == 0,
            MIN_FIELD_HEIGHT <= height <= FIELD_LIMIT,
            height % 2 == 0,
            balls_num % 2 == 0,
            balls_num <= MAX_BALLS,
            (col1_pairs(balls_num) - 1) * BALL_SPACING <= height,
        ensures
            wf(r),
            r.player1 == spec_reset_field(width, balls_num, FIRST_BALL_ID).0,
            r.player2 == spec_reset_field(width, balls_num, FIRST_BALL_ID).1,
            r.balls@ == spec_reset_field(width, balls_num, FIRST_BALL_ID).2,
            r.score1 == 0 && r.score2 == 0,
            r.screen_width == width && r.screen_height == height,
            r.input1 == crate::entities::spec_input_default(),
            r.input2 == crate::entities::spec_input_default(),
            r.balls_num == balls_num,
            r.ball_ids.next == FIRST_BALL_ID + balls_num,
    {
        let mut ids = BallIdAlloc::new();
        let (player1, player2, balls) = reset_field(width, balls_num, &mut ids);
        let g = GameState {
            player1,
            player2,
            balls,
            score1: 0,
            score2: 0,
            screen_width: width,
            screen_height: height,
            input1: InputState::default(),
            input2: InputState::default(),
            balls_num,
            ball_ids: ids,
        };
        proof {
            lemma_reset_wf(g, width, height, balls_num, FIRST_BALL_ID);
        }
        g
    }
}

/// A state whose players and balls are the fresh starting arrangement is
/// well formed, whatever id base the layout was built on.
proof fn lemma_reset_wf(g: GameState, width: i64, height: i64, balls_num: u64, base: u64)
    requires
        MIN_FIELD_WIDTH <= width <= FIELD_LIMIT,
        width % 8 == 0,
        MIN_FIELD_HEIGHT <= height <= FIELD_LIMIT,
        height % 2 == 0,
        balls_num % 2 == 0,
        balls_num <= MAX_BALLS,
        (col1_pairs(balls_num) - 1) * BALL_SPACING <= height,
        FIRST_BALL_ID <= base,
        base + balls_num <= u64::MAX,
        g.player1 == spec_reset_field(width, balls_num, base).0,
        g.player2 == spec_reset_field(width, balls_num, base).1,
        g.balls@ == spec_reset_field(width, balls_num, base).2,
        g.screen_width == width,
        g.screen_height == height,
        g.balls_num == balls_num,
        g.ball_ids.next == base + balls_num,
        input_ok(g.input1),
        input_ok(g.input2),
        0 <= g.score1,
        0 <= g.score2,
    ensures
        wf(g),
{
    lemma_spawn_positions(width);
    lemma_layout_props(balls_num, base);
    let c1 = col1_pairs(balls_num);
    assert((c1 - 1) * BALL_SPACING / 2 <= height as int / 2) by {
        vstd::arithmetic::div_mod::lemma_div_is_ordered(
            (c1 - 1) * BALL_SPACING,
            height as int,
            2,
        );
    }
    assert(-((c1 - 1) * BALL_SPACING / 2) >= -(height as int / 2));
    assert(forall|i: int|
        0 <= i < g.balls@.len() ==> ball_ok(
            #[trigger] g.balls@[i],
            g.screen_width as int,
            g.screen_height as int,
            g.ball_ids.next,
        ));
}

/// One ball's share of the physics phase: a free ball is advanced across the
/// full field width and then dragged; a carried ball is left alone — it is
/// pinned to its holder by the follow step instead.
pub open spec fn ball_step_spec(b: PhysObject, w: int, h: int, dt: int) -> PhysObject {
    if b.hold != 0 {
        b
    } else {
        halt_spec(advance_spec(b, -(w / 2), w / 2, h, dt), dt)
    }
}

/// The input phase of a tick: player 1's intent is applied first, then
/// player 2's, each possibly picking up or releasing a ball.
pub open spec fn input_phase(
    p1: PhysObject,
    p2: PhysObject,
    balls: Seq<PhysObject>,
    i1: InputState,
    i2: InputState,
) -> (PhysObject, PhysObject, Seq<PhysObject>) {
    let r1 = handle_input_spec(p1, i1, balls);
    let r2 = handle_input_spec(p2, i2, r1.1);
    (r1.0, r2.0, r2.1)
}

/// The physics phase of a tick: each player advances within its own half of
/// the field, and every free ball advances across the full width and is
/// dragged.
pub open spec fn physics_phase(
    p1: PhysObject,
    p2: PhysObject,
    balls: Seq<PhysObject>,
    w: int,
    h: int,
    dt: int,
) -> (PhysObject, PhysObject, Seq<PhysObject>) {
    (
        advance_spec(p1, -(w / 2), 0, h, dt),
        advance_spec(p2, 0, w / 2, h, dt),
        balls.map_values(|b: PhysObject| ball_step_spec(b, w, h, dt)),
    )
}

/// The follow phase of a tick: player 1's carried ball is pinned beside it,
/// then player 2's, on the opposite side.
pub open spec fn follow_phase(p1: PhysObject, p2: PhysObject, balls: Seq<PhysObject>) -> Seq<
    PhysObject,
> {
    follow_spec(p2, follow_spec(p1, balls, FOLLOW_OFFSET as int), -(FOLLOW_OFFSET as int))
}

/// The scoring phase of a tick: if a ball possessed by the opponent overlaps
/// a player, that player's opponent scores and the whole field is rebuilt in
/// the starting arrangement (scores and the id allocator carry over); player
/// 1's goal is checked first.
pub open spec fn score_phase(
    p1: PhysObject,
    p2: PhysObject,
    balls: Seq<PhysObject>,
    s1: int,
    s2: int,
    width: i64,
    num: u64,
    base: u64,
) -> (PhysObject, PhysObject, Seq<PhysObject>, int, int, u64) {
    if score_hit(p1, balls, PLAYER2_ID) {
        let r = spec_reset_field(width, num, base);
        (r.0, r.1, r.2, s1, s2 + 1, (base + num) as u64)
    } else if score_hit(p2, balls, PLAYER1_ID) {
        let r = spec_reset_field(width, num, base);
        (r.0, r.1, r.2, s1 + 1, s2, (base + num) as u64)
    } else {
        (p1, p2, balls, s1, s2, base)
    }
}

/// One whole simulation tick on a match state: inputs, physics, follow,
/// then goal detection, yielding the new players, balls, scores and ball id
/// watermark.
pub open spec fn tick_spec(g: GameState, dt: int) -> (
    PhysObject,
    PhysObject,
    Seq<PhysObject>,
    int,
    int,
    u64,
) {
    let a = input_phase(g.player1, g.player2, g.balls@, g.input1, g.input2);
    let b = physics_phase(
        a.0,
        a.1,
        a.2,
        g.screen_width as int,
        g.screen_height as int,
        dt,
    );
    let f = follow_phase(b.0, b.1, b.2);
    score_phase(
        b.0,
        b.1,
        f,
        g.score1 as int,
        g.score2 as int,
        g.screen_width,
        g.balls_num,
        g.ball_ids.next,
    )
}

/// The scaled velocity of a lawful speed moves a position by at most ten
/// pixels per step.
proof fn lemma_scaled_delta_bound(v: int, dt: int)
    requires
        -MAX_PHYSICS_VEL <= v <= MAX_PHYSICS_VEL,
        0 <= dt <= 50,
    ensures
        -10_000 <= crate::physics::scaled_delta(v, dt) <= 10_000,
{
    vstd::arithmetic::div_mod::lemma_div_by_multiple(10_000, 1000);
    if v >= 0 {
        assert(0 <= v * dt <= 10_000 * 1000) by (nonlinear_arith)
            requires
                0 <= v <= 200_000,
                0 <= dt <= 50,
        ;
        vstd::arithmetic::div_mod::lemma_div_pos_is_pos(v * dt, 1000);
        vstd::arithmetic::div_mod::lemma_div_is_ordered(v * dt, (10_000 * 1000) as int, 1000);
    } else {
        assert(0 <= (-v) * dt <= 10_000 * 1000) by (nonlinear_arith)
            requires
                0 <= -v <= 200_000,
                0 <= dt <= 50,
        ;
        vstd::arithmetic::div_mod::lemma_div_pos_is_pos((-v) * dt, 1000);
        vstd::arithmetic::div_mod::lemma_div_is_ordered((-v) * dt, (10_000 * 1000) as int, 1000);
    }
}

/// An axis step from inside a span at least ten pixels wide lands back
/// inside the span, at a lawful speed.
proof fn lemma_advance_axis_props(p: int, v: int, lo: int, hi: int, dt: int)
    requires
        lo <= p <= hi,
        lo + 10_000 <= hi,
        0 <= dt <= 50,
    ensures
        lo <= crate::physics::advance_axis(p, v, lo, hi, dt).0 <= hi,
        -MAX_PHYSICS_VEL <= crate::physics::advance_axis(p, v, lo, hi, dt).1 <= MAX_PHYSICS_VEL,
{
    let vc = crate::physics::clamp_vel(v);
    lemma_scaled_delta_bound(vc, dt);
}

/// The drag step keeps a ball's position, identity and size; its possession
/// is kept or cleared; and each velocity axis shrinks toward zero without
/// changing sign.
proof fn lemma_halt_props(b: PhysObject, dt: int)
    requires
        -VEL_LIMIT <= b.x_velocity <= VEL_LIMIT,
        -VEL_LIMIT <= b.y_velocity <= VEL_LIMIT,
        1 <= dt <= 50,
    ensures
        ({
            let r = halt_spec(b, dt);
            r.pos == b.pos && r.id == b.id && r.tag == b.tag && r.bbox_size == b.bbox_size && (
            r.hold == b.hold || r.hold == 0) && (b.x_velocity >= 0 ==> 0 <= r.x_velocity
                <= b.x_velocity) && (b.x_velocity <= 0 ==> b.x_velocity <= r.x_velocity <= 0) && (
            b.y_velocity >= 0 ==> 0 <= r.y_velocity <= b.y_velocity) && (b.y_velocity <= 0
                ==> b.y_velocity <= r.y_velocity <= 0)
        }),
{
    if crate::physics::above_halt_threshold(b.x_velocity as int, b.y_velocity as int) {
        crate::physics::lemma_drag_reduces_speed(b, dt);
    }
}

/// One ball's physics step keeps its identity, kind and size; a carried ball
/// is untouched; a free ball stays free, stays inside the field, and ends at
/// a lawful speed.
proof fn lemma_ball_step_props(b: PhysObject, w: int, h: int, dt: int)
    requires
        MIN_FIELD_WIDTH <= w <= FIELD_LIMIT,
        MIN_FIELD_HEIGHT <= h <= FIELD_LIMIT,
        -(w / 2) <= b.pos.0 <= w / 2,
        -(h / 2) <= b.pos.1 <= h / 2,
        -VEL_LIMIT <= b.x_velocity <= VEL_LIMIT,
        -VEL_LIMIT <= b.y_velocity <= VEL_LIMIT,
        1 <= dt <= 50,
    ensures
        ({
            let r = ball_step_spec(b, w, h, dt);
            r.id == b.id && r.tag == b.tag && r.bbox_size == b.bbox_size && (b.hold != 0 ==> r
                == b) && (b.hold == 0 ==> r.hold == 0 && -(w / 2) <= r.pos.0 <= w / 2 && -(h / 2)
                <= r.pos.1 <= h / 2 && -MAX_PHYSICS_VEL <= r.x_velocity <= MAX_PHYSICS_VEL
                && -MAX_PHYSICS_VEL <= r.y_velocity <= MAX_PHYSICS_VEL)
        }),
{
    if b.hold == 0 {
        lemma_half_bounds(w, h);
        let a = advance_spec(b, -(w / 2), w / 2, h, dt);
        lemma_advance_axis_props(b.pos.0 as int, b.x_velocity as int, -(w / 2), w / 2, dt);
        lemma_advance_axis_props(b.pos.1 as int, b.y_velocity as int, -(h / 2), h / 2, dt);
        lemma_halt_props(a, dt);
    }
}

/// Half of each lawful field dimension is wide enough for a bounce and small
/// enough for every coordinate bound.
proof fn lemma_half_bounds(w: int, h: int)
    requires
        MIN_FIELD_WIDTH <= w <= FIELD_LIMIT,
        MIN_FIELD_HEIGHT <= h <= FIELD_LIMIT,
    ensures
        150_000 <= w / 2 <= 50_000_000,
        50_000 <= h / 2 <= 50_000_000,
{
    vstd::arithmetic::div_mod::lemma_div_by_multiple(150_000, 2);
    vstd::arithmetic::div_mod::lemma_div_by_multiple(50_000, 2);
    vstd::arithmetic::div_mod::lemma_div_by_multiple(50_000_000, 2);
    vstd::arithmetic::div_mod::lemma_div_is_ordered(300_000, w, 2);
    vstd::arithmetic::div_mod::lemma_div_is_ordered(w, 100_000_000, 2);
    vstd::arithmetic::div_mod::lemma_div_is_ordered(100_000, h, 2);
    vstd::arithmetic::div_mod::lemma_div_is_ordered(h, 100_000_000, 2);
}

/// The input step never moves, renames or resizes anything: ball positions,
/// ids, kinds and sizes are untouched; a ball's velocity changes only if the
/// ball ends the step free (a throw); a ball's possessor changes only from
/// free to this player or to free; and the player keeps its position and
/// identity while its velocity gains exactly the accelerated intent.
proof fn lemma_input_shape(p: PhysObject, input: InputState, balls: Seq<PhysObject>)
    ensures
        ({
            let r = handle_input_spec(p, input, balls);
            r.1.len() == balls.len() && (forall|i: int|
                0 <= i < balls.len() ==> (#[trigger] r.1[i]).id == balls[i].id && r.1[i].tag
                    == balls[i].tag && r.1[i].bbox_size == balls[i].bbox_size && r.1[i].pos
                    == balls[i].pos) && (forall|i: int|
                0 <= i < balls.len() ==> ((#[trigger] r.1[i]).x_velocity == balls[i].x_velocity
                    && r.1[i].y_velocity == balls[i].y_velocity) || (r.1[i].hold == 0
                    && r.1[i].x_velocity == r.0.x_velocity && r.1[i].y_velocity
                    == r.0.y_velocity)) && (forall|i: int|
                0 <= i < balls.len() ==> (#[trigger] r.1[i]).hold == balls[i].hold || r.1[i].hold
                    == 0 || (balls[i].hold == 0 && r.1[i].hold == p.id))
        }),
        handle_input_spec(p, input, balls).0.x_velocity == crate::physics::input_applied(
            p,
            input,
        ).x_velocity,
        handle_input_spec(p, input, balls).0.y_velocity == crate::physics::input_applied(
            p,
            input,
        ).y_velocity,
        handle_input_spec(p, input, balls).0.pos == p.pos,
        handle_input_spec(p, input, balls).0.id == p.id,
        handle_input_spec(p, input, balls).0.tag == p.tag,
        handle_input_spec(p, input, balls).0.bbox_size == p.bbox_size,
        handle_input_spec(p, input, balls).1.len() == balls.len(),
{
    let p2 = crate::physics::input_applied(p, input);
    if p2.hold == 0 && input.holdball {
        crate::collision::lemma_find_pickup_index(p2, balls);
    } else if p2.hold != 0 && !input.holdball {
        crate::collision::lemma_find_ball_index(balls, p2.hold);
    }
}

/// One tick of acceleration keeps a player's velocity within the handoff
/// cap that a thrown ball may carry.
proof fn lemma_input_vel_bound(p: PhysObject, input: InputState)
    requires
        input_ok(input),
        -MAX_PHYSICS_VEL <= p.x_velocity <= MAX_PHYSICS_VEL,
        -MAX_PHYSICS_VEL <= p.y_velocity <= MAX_PHYSICS_VEL,
    ensures
        -BALL_VEL_CAP <= crate::physics::input_applied(p, input).x_velocity <= BALL_VEL_CAP,
        -BALL_VEL_CAP <= crate::physics::input_applied(p, input).y_velocity <= BALL_VEL_CAP,
{
    let ax = input.xaxis1pos + input.xaxis1neg;
    let ay = input.yaxis1pos + input.yaxis1neg;
    assert(-16_000_000 <= crate::physics::PLAYER_ACCELERATION * ax <= 16_000_000)
        by (nonlinear_arith)
        requires
            -2_000_000 <= ax <= 2_000_000,
            crate::physics::PLAYER_ACCELERATION == 8,
    ;
    assert(-16_000_000 <= crate::physics::PLAYER_ACCELERATION * ay <= 16_000_000)
        by (nonlinear_arith)
        requires
            -2_000_000 <= ay <= 2_000_000,
            crate::physics::PLAYER_ACCELERATION == 8,
    ;
}

/// One player's input step preserves the mutual, exclusive possession
/// relation: whatever pickup or release it performs, each player's `hold`
/// still names a ball that records that player as its possessor, and no ball
/// is possessed behind a player's back.
proof fn lemma_input_possession(
    p: PhysObject,
    pid: u64,
    q: PhysObject,
    qid: u64,
    balls: Seq<PhysObject>,
    input: InputState,
)
    requires
        p.id == pid,
        pid != 0,
        qid != 0,
        pid != qid,
        ids_unique(balls),
        forall|i: int| 0 <= i < balls.len() ==> (#[trigger] balls[i]).id != 0,
        possession_pair(p, pid, q, qid, balls),
    ensures
        ({
            let r = handle_input_spec(p, input, balls);
            possession_pair(r.0, pid, q, qid, r.1)
        }),
{
    let p2 = crate::physics::input_applied(p, input);
    let r = handle_input_spec(p, input, balls);
    if p2.hold == 0 && input.holdball {
        crate::collision::lemma_find_pickup_index(p2, balls);
        match crate::collision::find_pickup_index(p2, balls) {
            Some(i) => {
                let nb = r.1;
                assert(nb[i].hold == pid && nb[i].id == balls[i].id);
                assert(r.0.hold == balls[i].id);
                if q.hold != 0 {
                    let j = choose|j: int|
                        0 <= j < balls.len() && (#[trigger] balls[j]).id == q.hold && balls[j].hold
                            == qid;
                    assert(j != i);
                    assert(nb[j].id == q.hold && nb[j].hold == qid);
                }
                assert forall|k: int|
                    0 <= k < nb.len() && (#[trigger] nb[k]).hold == pid implies r.0.hold
                    == nb[k].id by {
                    if k != i {
                        assert(balls[k].hold == pid);
                        assert(p.hold == balls[k].id);
                        assert(balls[k].id != 0);
                    }
                }
                assert forall|k: int|
                    0 <= k < nb.len() && (#[trigger] nb[k]).hold == qid implies q.hold
                    == nb[k].id by {
                    if k == i {
                        assert(nb[k].hold == pid);
                    } else {
                        assert(balls[k].hold == qid);
                    }
                }
            },
            None => {},
        }
    } else if p2.hold != 0 && !input.holdball {
        crate::collision::lemma_find_ball_index(balls, p2.hold);
        let w = choose|j: int|
            0 <= j < balls.len() && (#[trigger] balls[j]).id == p.hold && balls[j].hold == pid;
        match crate::collision::find_ball_index(balls, p2.hold) {
            Some(i) => {
                assert(balls[i].id == p.hold);
                assert(i == w);
                let nb = r.1;
                assert(nb[i].hold == 0);
                if q.hold != 0 {
                    let j = choose|j: int|
                        0 <= j < balls.len() && (#[trigger] balls[j]).id == q.hold && balls[j].hold
                            == qid;
                    assert(j != i);
                    assert(nb[j].id == q.hold && nb[j].hold == qid);
                }
                assert forall|k: int|
                    0 <= k < nb.len() && (#[trigger] nb[k]).hold == pid implies r.0.hold
                    == nb[k].id by {
                    if k != i {
                        assert(balls[k].hold == pid);
                        assert(p.hold == balls[k].id);
                        assert(balls[k].id == balls[i].id);
                    }
                }
                assert forall|k: int|
                    0 <= k < nb.len() && (#[trigger] nb[k]).hold == qid implies q.hold
                    == nb[k].id by {
                    if k != i {
                        assert(balls[k].hold == qid);
                    }
                }
            },
            None => {
                assert(balls[w].id == p2.hold);
            },
        }
    }
}

/// Possession only reads ids and possessors, so it carries over to any ball
/// sequence that agrees on both, position by position.
proof fn lemma_possession_pointwise(
    p: PhysObject,
    pid: u64,
    q: PhysObject,
    qid: u64,
    s1: Seq<PhysObject>,
    s2: Seq<PhysObject>,
)
    requires
        s2.len() == s1.len(),
        forall|i: int|
            0 <= i < s1.len() ==> (#[trigger] s2[i]).id == s1[i].id && s2[i].hold == s1[i].hold,
        possession_pair(p, pid, q, qid, s1),
    ensures
        possession_pair(p, pid, q, qid, s2),
{
    if p.hold != 0 {
        let j = choose|j: int|
            0 <= j < s1.len() && (#[trigger] s1[j]).id == p.hold && s1[j].hold == pid;
        assert(s2[j].id == p.hold && s2[j].hold == pid);
    }
    if q.hold != 0 {
        let j = choose|j: int|
            0 <= j < s1.len() && (#[trigger] s1[j]).id == q.hold && s1[j].hold == qid;
        assert(s2[j].id == q.hold && s2[j].hold == qid);
    }
    assert forall|k: int|
        0 <= k < s2.len() && (#[trigger] s2[k]).hold == pid implies p.hold == s2[k].id by {
        assert(s1[k].hold == pid);
    }
    assert forall|k: int|
        0 <= k < s2.len() && (#[trigger] s2[k]).hold == qid implies q.hold == s2[k].id by {
        assert(s1[k].hold == qid);
    }
}

/// Id uniqueness carries over to any ball sequence with the same ids,
/// position by position.
proof fn lemma_ids_unique_pointwise(s1: Seq<PhysObject>, s2: Seq<PhysObject>)
    requires
        s2.len() == s1.len(),
        forall|i: int| 0 <= i < s1.len() ==> (#[trigger] s2[i]).id == s1[i].id,
        ids_unique(s1),
    ensures
        ids_unique(s2),
{
    assert forall|i: int, j: int|
        0 <= i < j < s2.len() implies (#[trigger] s2[i]).id != (#[trigger] s2[j]).id by {
        assert(s1[i].id != s1[j].id);
    }
}

/// The follow step changes nothing but the carried ball's position, which it
/// pins beside the player; every id, kind, size, velocity and possessor is
/// untouched.
proof fn lemma_follow_props(p: PhysObject, balls: Seq<PhysObject>, offset: int)
    requires
        -POS_LIMIT <= p.pos.0 <= POS_LIMIT,
        -POS_LIMIT <= offset <= POS_LIMIT,
        ids_unique(balls),
        p.hold != 0 ==> exists|j: int|
            0 <= j < balls.len() && (#[trigger] balls[j]).id == p.hold && balls[j].hold == p.id,
    ensures
        ({
            let r = follow_spec(p, balls, offset);
            r.len() == balls.len() && (forall|i: int|
                0 <= i < balls.len() ==> (#[trigger] r[i]).id == balls[i].id && r[i].tag
                    == balls[i].tag && r[i].bbox_size == balls[i].bbox_size && r[i].hold
                    == balls[i].hold && r[i].x_velocity == balls[i].x_velocity && r[i].y_velocity
                    == balls[i].y_velocity) && (forall|i: int|
                0 <= i < balls.len() ==> (#[trigger] r[i]).pos == balls[i].pos || (r[i].pos.0
                    == p.pos.0 + offset && r[i].pos.1 == p.pos.1 && balls[i].hold == p.id))
        }),
{
    if p.hold != 0 {
        crate::collision::lemma_find_ball_index(balls, p.hold);
        let w = choose|j: int|
            0 <= j < balls.len() && (#[trigger] balls[j]).id == p.hold && balls[j].hold == p.id;
        match crate::collision::find_ball_index(balls, p.hold) {
            Some(i) => {
                assert(i == w);
                assert(balls[i].hold == p.id);
            },
            None => {
                assert(balls[w].id == p.hold);
            },
        }
    }
}

/// The follow step keeps every ball within collision range: at most one
/// ball moves, and it lands beside the player.
proof fn lemma_follow_range(p: PhysObject, s: Seq<PhysObject>, offset: int)
    requires
        balls_in_collision_range(s),
        -POS_LIMIT <= p.pos.0 + offset <= POS_LIMIT,
        -POS_LIMIT <= p.pos.1 <= POS_LIMIT,
    ensures
        follow_spec(p, s, offset).len() == s.len(),
        balls_in_collision_range(follow_spec(p, s, offset)),
{
    let r = follow_spec(p, s, offset);
    if p.hold != 0 {
        crate::collision::lemma_find_ball_index(s, p.hold);
    }
    assert forall|i: int| 0 <= i < r.len() implies obj_in_collision_range(#[trigger] r[i]) by {
        if r[i] != s[i] {
            assert(obj_in_collision_range(s[i]));
        }
    }
}

/// Possession is exclusive in every well-formed match state: no two distinct
/// balls share a possessor, and the two players never carry the same ball.
pub proof fn lemma_possession_exclusive(g: GameState)
    requires
        wf(g),
    ensures
        forall|i: int, j: int|
            0 <= i < j < g.balls@.len() && (#[trigger] g.balls@[i]).hold != 0 ==> g.balls@[i].hold
                != (#[trigger] g.balls@[j]).hold,
        g.player1.hold == g.player2.hold ==> g.player1.hold == 0,
{
    assert forall|i: int, j: int|
        0 <= i < j < g.balls@.len() && (#[trigger] g.balls@[i]).hold != 0 implies g.balls@[i].hold
        != (#[trigger] g.balls@[j]).hold by {
        if g.balls@[i].hold == g.balls@[j].hold {
            if g.balls@[i].hold == PLAYER1_ID {
                assert(g.player1.hold == g.balls@[i].id && g.player1.hold == g.balls@[j].id);
            } else {
                assert(g.player2.hold == g.balls@[i].id && g.player2.hold == g.balls@[j].id);
            }
        }
    }
    if g.player1.hold != 0 && g.player1.hold == g.player2.hold {
        let i = choose|i: int|
            0 <= i < g.balls@.len() && (#[trigger] g.balls@[i]).id == g.player1.hold
                && g.balls@[i].hold == PLAYER1_ID;
        let j = choose|j: int|
            0 <= j < g.balls@.len() && (#[trigger] g.balls@[j]).id == g.player2.hold
                && g.balls@[j].hold == PLAYER2_ID;
        assert(g.balls@[i].id == g.balls@[j].id);
        assert(i == j);
    }
}

/// Scoring resets exactly: the tick a score event is detected, both players
/// and all balls return to the deterministic symmetric layout for the
/// current field width and the match's requested ball count, while both
/// scores keep their values except the conceding side's, which goes up by
/// one; without a score event nothing changes.  Player 1's goal is checked
/// first.
pub proof fn lemma_score_resets_exactly(
    p1: PhysObject,
    p2: PhysObject,
    balls: Seq<PhysObject>,
    s1: int,
    s2: int,
    width: i64,
    num: u64,
    base: u64,
)
    requires
        base + num <= u64::MAX,
    ensures
        ({
            let t = score_phase(p1, p2, balls, s1, s2, width, num, base);
            let fresh = spec_reset_field(width, num, base);
            &&& score_hit(p1, balls, PLAYER2_ID) ==> t == ((
                fresh.0,
                fresh.1,
                fresh.2,
                s1,
                s2 + 1,
                (base + num) as u64,
            ))
            &&& !score_hit(p1, balls, PLAYER2_ID) && score_hit(p2, balls, PLAYER1_ID) ==> t == ((
                fresh.0,
                fresh.1,
                fresh.2,
                s1 + 1,
                s2,
                (base + num) as u64,
            ))
            &&& !score_hit(p1, balls, PLAYER2_ID) && !score_hit(p2, balls, PLAYER1_ID) ==> t == ((
                p1,
                p2,
                balls,
                s1,
                s2,
                base,
            ))
        }),
{
}

impl GameState {
    /// One fixed-timestep simulation tick of `dt` milliseconds: apply both
    /// players' stored intents (acceleration, pickups, releases), advance
    /// the players within their halves and every free ball across the
    /// field with drag, pin carried balls beside their holders, and resolve
    /// scoring — a goal resets the whole field to the starting arrangement
    /// while both scores carry over, the conceding side's incremented.
    #[verifier::rlimit(60)]
    pub fn update(&mut self, dt: i64)
        requires
            wf(*old(self)),
            1 <= dt <= 50,
            old(self).ball_ids.next + old(self).balls_num <= u64::MAX,
            old(self).score1 < i32::MAX,
            old(self).score2 < i32::MAX,
        ensures
            ({
                let t = tick_spec(*old(self), dt as int);
                let s = *final(self);
                s.player1 == t.0 && s.player2 == t.1 && s.balls@ == t.2 && s.score1 == t.3
                    && s.score2 == t.4 && s.ball_ids.next == t.5
            }),
            final(self).screen_width == old(self).screen_width,
            final(self).screen_height == old(self).screen_height,
            final(self).input1 == old(self).input1,
            final(self).input2 == old(self).input2,
            final(self).balls_num == old(self).balls_num,
            wf(*final(self)),
    {
        let ghost g0 = *old(self);
        proof {
            lemma_half_bounds(g0.screen_width as int, g0.screen_height as int);
        }

        // Input phase: player 1's intent first, then player 2's.
        player_handle_input(&mut self.player1, &self.input1, &mut self.balls);
        let ghost r1b = self.balls@;
        proof {
            lemma_input_shape(g0.player1, g0.input1, g0.balls@);
            assert(balls_in_collision_range(r1b));
        }
        player_handle_input(&mut self.player2, &self.input2, &mut self.balls);
        let ghost a = input_phase(g0.player1, g0.player2, g0.balls@, g0.input1, g0.input2);
        proof {
            lemma_input_shape(g0.player2, g0.input2, r1b);
            assert(self.player1 == a.0 && self.player2 == a.1 && self.balls@ == a.2);
            lemma_input_vel_bound(g0.player1, g0.input1);
            lemma_input_vel_bound(g0.player2, g0.input2);
            assert forall|k: int| 0 <= k < a.2.len() implies (#[trigger] a.2[k]).id == g0.balls@[k].id
                && a.2[k].tag == g0.balls@[k].tag && a.2[k].bbox_size == g0.balls@[k].bbox_size
                && a.2[k].pos == g0.balls@[k].pos && -BALL_VEL_CAP <= a.2[k].x_velocity
                <= BALL_VEL_CAP && -BALL_VEL_CAP <= a.2[k].y_velocity <= BALL_VEL_CAP && (a.2[k].hold
                == 0 || a.2[k].hold == PLAYER1_ID || a.2[k].hold == PLAYER2_ID) by {
                assert(r1b[k].id == g0.balls@[k].id);
            }
        }

        // Physics phase: players in their own halves, free balls across the
        // full field, with drag.
        let w = self.screen_width;
        let h = self.screen_height;
        let lo = -(w / 2);
        let hi = w / 2;
        update_object_position(&mut self.player1, lo, 0, h, dt);
        update_object_position(&mut self.player2, 0, hi, h, dt);
        let ghost b = physics_phase(a.0, a.1, a.2, w as int, h as int, dt as int);
        proof {
            assert(self.player1 == b.0 && self.player2 == b.1);
            lemma_advance_axis_props(a.0.pos.0 as int, a.0.x_velocity as int, lo as int, 0, dt as int);
            lemma_advance_axis_props(
                a.0.pos.1 as int,
                a.0.y_velocity as int,
                -(h as int / 2),
                h as int / 2,
                dt as int,
            );
            lemma_advance_axis_props(a.1.pos.0 as int, a.1.x_velocity as int, 0, hi as int, dt as int);
            lemma_advance_axis_props(
                a.1.pos.1 as int,
                a.1.y_velocity as int,
                -(h as int / 2),
                h as int / 2,
                dt as int,
            );
        }
        let ghost p1b = self.player1;
        let ghost p2b = self.player2;
        let mut i: usize = 0;
        while i < self.balls.len()
            invariant
                i <= self.balls@.len(),
                self.balls@.len() == a.2.len(),
                w == g0.screen_width,
                h == g0.screen_height,
                lo == -(w as int / 2),
                hi == w as int / 2,
                1 <= dt <= 50,
                MIN_FIELD_WIDTH <= w <= FIELD_LIMIT,
                MIN_FIELD_HEIGHT <= h <= FIELD_LIMIT,
                h % 2 == 0,
                150_000 <= w as int / 2 <= 50_000_000,
                50_000 <= h as int / 2 <= 50_000_000,
                forall|k: int|
                    0 <= k < a.2.len() ==> -(w as int / 2) <= (#[trigger] a.2[k]).pos.0 <= w as int
                        / 2 && -(h as int / 2) <= a.2[k].pos.1 <= h as int / 2 && -BALL_VEL_CAP
                        <= a.2[k].x_velocity <= BALL_VEL_CAP && -BALL_VEL_CAP <= a.2[k].y_velocity
                        <= BALL_VEL_CAP,
                forall|k: int|
                    0 <= k < i ==> #[trigger] self.balls@[k] == ball_step_spec(
                        a.2[k],
                        w as int,
                        h as int,
                        dt as int,
                    ),
                forall|k: int| i <= k < a.2.len() ==> #[trigger] self.balls@[k] == a.2[k],
                self.player1 == p1b,
                self.player2 == p2b,
                self.screen_width == g0.screen_width,
                self.screen_height == g0.screen_height,
                self.score1 == g0.score1,
                self.score2 == g0.score2,
                self.input1 == g0.input1,
                self.input2 == g0.input2,
                self.balls_num == g0.balls_num,
                self.ball_ids == g0.ball_ids,
            decreases a.2.len() - i,
        {
            let mut bl = self.balls[i];
            if bl.hold == 0 {
                update_object_position(&mut bl, lo, hi, h, dt);
                ball_halt(&mut bl, dt);
            }
            self.balls[i] = bl;
            i = i + 1;
        }
        proof {
            assert(self.balls@ =~= b.2);
        }

        // Follow phase: pin each carried ball beside its holder.
        proof {
            assert(balls_in_collision_range(b.2)) by {
                assert forall|k: int|
                    0 <= k < b.2.len() implies obj_in_collision_range(#[trigger] b.2[k]) by {
                    lemma_ball_step_props(a.2[k], w as int, h as int, dt as int);
                }
            }
            lemma_follow_range(b.0, b.2, FOLLOW_OFFSET as int);
        }
        ball_follow(&self.player1, &mut self.balls, FOLLOW_OFFSET);
        let ghost f1 = self.balls@;
        proof {
            lemma_follow_range(b.1, f1, -(FOLLOW_OFFSET as int));
        }
        ball_follow(&self.player2, &mut self.balls, -FOLLOW_OFFSET);
        let ghost f = follow_phase(b.0, b.1, b.2);
        proof {
            assert(self.balls@ == f);
            assert(obj_in_collision_range(self.player1));
            assert(obj_in_collision_range(self.player2));
            assert(balls_in_collision_range(f));
        }

        // Scoring phase: a ball possessed by the opponent overlapping a
        // player scores for the other side and rebuilds the field.
        let scored1 = collision_check_score(&self.player1, &self.balls, PLAYER2_ID);
        if scored1 {
            self.score2 = self.score2 + 1;
            let (fp1, fp2, fb) = reset_field(self.screen_width, self.balls_num, &mut self.ball_ids);
            self.player1 = fp1;
            self.player2 = fp2;
            self.balls = fb;
            proof {
                lemma_layout_props(g0.balls_num, g0.ball_ids.next);
            }
        }
        let scored2 = collision_check_score(&self.player2, &self.balls, PLAYER1_ID);
        if scored2 {
            self.score1 = self.score1 + 1;
            let (fp1, fp2, fb) = reset_field(self.screen_width, self.balls_num, &mut self.ball_ids);
            self.player1 = fp1;
            self.player2 = fp2;
            self.balls = fb;
        }

        proof {
            let t = tick_spec(g0, dt as int);
            if score_hit(b.0, f, PLAYER2_ID) || score_hit(b.1, f, PLAYER1_ID) {
                lemma_reset_wf(
                    *self,
                    g0.screen_width,
                    g0.screen_height,
                    g0.balls_num,
                    g0.ball_ids.next,
                );
            } else {
                lemma_tick_keeps_wf(g0, *self, a, b, f, w as int, h as int, dt as int);
            }
            assert(self.player1 == t.0 && self.player2 == t.1 && self.balls@ == t.2 && self.score1
                == t.3 && self.score2 == t.4 && self.ball_ids.next == t.5);
        }
    }
}

/// The input phase keeps every ball's identity, kind, size and position,
/// bounds all velocities by the handoff cap, keeps ids unique and the
/// possession relation mutual and exclusive, and leaves each player in
/// place with a capped velocity.
proof fn lemma_input_phase_wf(
    g0: GameState,
    a: (PhysObject, PhysObject, Seq<PhysObject>),
)
    requires
        wf(g0),
        a == input_phase(g0.player1, g0.player2, g0.balls@, g0.input1, g0.input2),
    ensures
        a.2.len() == g0.balls@.len(),
        ids_unique(a.2),
        possession_pair(a.0, PLAYER1_ID, a.1, PLAYER2_ID, a.2),
        forall|k: int|
            0 <= k < a.2.len() ==> {
                let bl = #[trigger] a.2[k];
                bl.pos == g0.balls@[k].pos && bl.tag is Ball && bl.bbox_size == ROCK_BBOX
                    && FIRST_BALL_ID <= bl.id < g0.ball_ids.next && (bl.hold == 0 || bl.hold
                    == PLAYER1_ID || bl.hold == PLAYER2_ID) && -BALL_VEL_CAP <= bl.x_velocity
                    <= BALL_VEL_CAP && -BALL_VEL_CAP <= bl.y_velocity <= BALL_VEL_CAP
            },
        a.0.pos == g0.player1.pos && a.0.id == PLAYER1_ID && a.0.tag is Player && a.0.bbox_size
            == PLAYER_BBOX && -BALL_VEL_CAP <= a.0.x_velocity <= BALL_VEL_CAP && -BALL_VEL_CAP
            <= a.0.y_velocity <= BALL_VEL_CAP,
        a.1.pos == g0.player2.pos && a.1.id == PLAYER2_ID && a.1.tag is Player && a.1.bbox_size
            == PLAYER_BBOX && -BALL_VEL_CAP <= a.1.x_velocity <= BALL_VEL_CAP && -BALL_VEL_CAP
            <= a.1.y_velocity <= BALL_VEL_CAP,
{
    lemma_input_shape(g0.player1, g0.input1, g0.balls@);
    let r1 = handle_input_spec(g0.player1, g0.input1, g0.balls@);
    lemma_input_shape(g0.player2, g0.input2, r1.1);
    lemma_input_possession(
        g0.player1,
        PLAYER1_ID,
        g0.player2,
        PLAYER2_ID,
        g0.balls@,
        g0.input1,
    );
    lemma_input_possession(g0.player2, PLAYER2_ID, r1.0, PLAYER1_ID, r1.1, g0.input2);
    lemma_input_vel_bound(g0.player1, g0.input1);
    lemma_input_vel_bound(g0.player2, g0.input2);
    assert(ids_unique(a.2) && possession_pair(a.0, PLAYER1_ID, a.1, PLAYER2_ID, a.2)) by {
        assert forall|k: int|
            0 <= k < a.2.len() implies (#[trigger] a.2[k]).id == g0.balls@[k].id by {
            assert(r1.1[k].id == g0.balls@[k].id);
        }
    }
    assert forall|k: int|
        0 <= k < a.2.len() implies {
        let bl = #[trigger] a.2[k];
        bl.pos == g0.balls@[k].pos && bl.tag is Ball && bl.bbox_size == ROCK_BBOX && FIRST_BALL_ID
            <= bl.id < g0.ball_ids.next && (bl.hold == 0 || bl.hold == PLAYER1_ID || bl.hold
            == PLAYER2_ID) && -BALL_VEL_CAP <= bl.x_velocity <= BALL_VEL_CAP && -BALL_VEL_CAP
            <= bl.y_velocity <= BALL_VEL_CAP
    } by {
        assert(r1.1[k].id == g0.balls@[k].id && r1.1[k].pos == g0.balls@[k].pos);
    }
}

/// The physics phase confines each player to its half and every ball to the
/// field at lawful speeds, and preserves ids, kinds, sizes, uniqueness and
/// the possession relation.
proof fn lemma_physics_phase_wf(
    a: (PhysObject, PhysObject, Seq<PhysObject>),
    b: (PhysObject, PhysObject, Seq<PhysObject>),
    next: u64,
    w: int,
    h: int,
    dt: int,
)
    requires
        b == physics_phase(a.0, a.1, a.2, w, h, dt),
        1 <= dt <= 50,
        MIN_FIELD_WIDTH <= w <= FIELD_LIMIT,
        MIN_FIELD_HEIGHT <= h <= FIELD_LIMIT,
        ids_unique(a.2),
        possession_pair(a.0, PLAYER1_ID, a.1, PLAYER2_ID, a.2),
        forall|k: int|
            0 <= k < a.2.len() ==> {
                let bl = #[trigger] a.2[k];
                -(w / 2) <= bl.pos.0 <= w / 2 && -(h / 2) <= bl.pos.1 <= h / 2 && bl.tag is Ball
                    && bl.bbox_size == ROCK_BBOX && FIRST_BALL_ID <= bl.id < next && (bl.hold == 0
                    || bl.hold == PLAYER1_ID || bl.hold == PLAYER2_ID) && -BALL_VEL_CAP
                    <= bl.x_velocity <= BALL_VEL_CAP && -BALL_VEL_CAP <= bl.y_velocity
                    <= BALL_VEL_CAP
            },
        -(w / 2) <= a.0.pos.0 <= 0,
        0 <= a.1.pos.0 <= w / 2,
        -(h / 2) <= a.0.pos.1 <= h / 2,
        -(h / 2) <= a.1.pos.1 <= h / 2,
    ensures
        b.2.len() == a.2.len(),
        ids_unique(b.2),
        possession_pair(b.0, PLAYER1_ID, b.1, PLAYER2_ID, b.2),
        forall|k: int| 0 <= k < b.2.len() ==> ball_ok(#[trigger] b.2[k], w, h, next),
        -(w / 2) <= b.0.pos.0 <= 0,
        0 <= b.1.pos.0 <= w / 2,
        -(h / 2) <= b.0.pos.1 <= h / 2,
        -(h / 2) <= b.1.pos.1 <= h / 2,
        -MAX_PHYSICS_VEL <= b.0.x_velocity <= MAX_PHYSICS_VEL,
        -MAX_PHYSICS_VEL <= b.0.y_velocity <= MAX_PHYSICS_VEL,
        -MAX_PHYSICS_VEL <= b.1.x_velocity <= MAX_PHYSICS_VEL,
        -MAX_PHYSICS_VEL <= b.1.y_velocity <= MAX_PHYSICS_VEL,
        b.0.id == a.0.id && b.0.tag == a.0.tag && b.0.bbox_size == a.0.bbox_size && b.0.hold
            == a.0.hold,
        b.1.id == a.1.id && b.1.tag == a.1.tag && b.1.bbox_size == a.1.bbox_size && b.1.hold
            == a.1.hold,
{
    lemma_half_bounds(w, h);
    lemma_advance_axis_props(a.0.pos.0 as int, a.0.x_velocity as int, -(w / 2), 0, dt);
    lemma_advance_axis_props(a.0.pos.1 as int, a.0.y_velocity as int, -(h / 2), h / 2, dt);
    lemma_advance_axis_props(a.1.pos.0 as int, a.1.x_velocity as int, 0, w / 2, dt);
    lemma_advance_axis_props(a.1.pos.1 as int, a.1.y_velocity as int, -(h / 2), h / 2, dt);
    assert forall|k: int|
        0 <= k < b.2.len() implies ball_ok(#[trigger] b.2[k], w, h, next) by {
        lemma_ball_step_props(a.2[k], w, h, dt);
    }
    assert(ids_unique(b.2)) by {
        assert forall|k: int| 0 <= k < b.2.len() implies (#[trigger] b.2[k]).id == a.2[k].id by {
            lemma_ball_step_props(a.2[k], w, h, dt);
        }
    }
    assert(possession_pair(b.0, PLAYER1_ID, b.1, PLAYER2_ID, b.2)) by {
        assert forall|k: int|
            0 <= k < b.2.len() && (#[trigger] b.2[k]).hold != 0 implies b.2[k] == a.2[k] by {
            lemma_ball_step_props(a.2[k], w, h, dt);
        }
        if b.0.hold != 0 {
            let j = choose|j: int|
                0 <= j < a.2.len() && (#[trigger] a.2[j]).id == a.0.hold && a.2[j].hold
                    == PLAYER1_ID;
            lemma_ball_step_props(a.2[j], w, h, dt);
            assert(b.2[j].id == b.0.hold && b.2[j].hold == PLAYER1_ID);
        }
        if b.1.hold != 0 {
            let j = choose|j: int|
                0 <= j < a.2.len() && (#[trigger] a.2[j]).id == a.1.hold && a.2[j].hold
                    == PLAYER2_ID;
            lemma_ball_step_props(a.2[j], w, h, dt);
            assert(b.2[j].id == b.1.hold && b.2[j].hold == PLAYER2_ID);
        }
        assert forall|k: int|
            0 <= k < b.2.len() && (#[trigger] b.2[k]).hold == PLAYER1_ID implies b.0.hold
            == b.2[k].id by {
            assert(b.2[k] == a.2[k]);
            assert(a.0.hold == a.2[k].id);
        }
        assert forall|k: int|
            0 <= k < b.2.len() && (#[trigger] b.2[k]).hold == PLAYER2_ID implies b.1.hold
            == b.2[k].id by {
            assert(b.2[k] == a.2[k]);
            assert(a.1.hold == a.2[k].id);
        }
    }
}

/// The follow phase pins at most the two carried balls beside their players
/// — positions that stay inside the field — and changes nothing else, so
/// every well-formedness fact carries over.
proof fn lemma_follow_phase_wf(
    b: (PhysObject, PhysObject, Seq<PhysObject>),
    f: Seq<PhysObject>,
    next: u64,
    w: int,
    h: int,
)
    requires
        f == follow_phase(b.0, b.1, b.2),
        MIN_FIELD_WIDTH <= w <= FIELD_LIMIT,
        MIN_FIELD_HEIGHT <= h <= FIELD_LIMIT,
        ids_unique(b.2),
        possession_pair(b.0, PLAYER1_ID, b.1, PLAYER2_ID, b.2),
        forall|k: int| 0 <= k < b.2.len() ==> ball_ok(#[trigger] b.2[k], w, h, next),
        b.0.id == PLAYER1_ID,
        b.1.id == PLAYER2_ID,
        -(w / 2) <= b.0.pos.0 <= 0,
        0 <= b.1.pos.0 <= w / 2,
        -(h / 2) <= b.0.pos.1 <= h / 2,
        -(h / 2) <= b.1.pos.1 <= h / 2,
    ensures
        f.len() == b.2.len(),
        ids_unique(f),
        possession_pair(b.0, PLAYER1_ID, b.1, PLAYER2_ID, f),
        forall|k: int| 0 <= k < f.len() ==> ball_ok(#[trigger] f[k], w, h, next),
{
    lemma_half_bounds(w, h);
    let f1 = follow_spec(b.0, b.2, FOLLOW_OFFSET as int);
    lemma_follow_props(b.0, b.2, FOLLOW_OFFSET as int);
    lemma_possession_pointwise(b.0, PLAYER1_ID, b.1, PLAYER2_ID, b.2, f1);
    lemma_ids_unique_pointwise(b.2, f1);
    assert(possession_pair(b.1, PLAYER2_ID, b.0, PLAYER1_ID, f1));
    lemma_follow_props(b.1, f1, -(FOLLOW_OFFSET as int));
    lemma_possession_pointwise(b.0, PLAYER1_ID, b.1, PLAYER2_ID, f1, f);
    lemma_ids_unique_pointwise(f1, f);
    assert forall|k: int| 0 <= k < f1.len() implies ball_ok(#[trigger] f1[k], w, h, next) by {
        assert(ball_ok(b.2[k], w, h, next));
        if f1[k].pos != b.2[k].pos {
            assert(f1[k].pos.0 == b.0.pos.0 + FOLLOW_OFFSET && f1[k].pos.1 == b.0.pos.1);
        }
    }
    assert forall|k: int| 0 <= k < f.len() implies ball_ok(#[trigger] f[k], w, h, next) by {
        assert(ball_ok(f1[k], w, h, next));
        if f[k].pos != f1[k].pos {
            assert(f[k].pos.0 == b.1.pos.0 - FOLLOW_OFFSET && f[k].pos.1 == b.1.pos.1);
        }
    }
}

/// A tick that ends without a goal keeps the match invariant: the players
/// stay in their halves at lawful speeds, every ball stays lawful, and the
/// possession relation stays mutual and exclusive.
proof fn lemma_tick_keeps_wf(
    g0: GameState,
    g: GameState,
    a: (PhysObject, PhysObject, Seq<PhysObject>),
    b: (PhysObject, PhysObject, Seq<PhysObject>),
    f: Seq<PhysObject>,
    w: int,
    h: int,
    dt: int,
)
    requires
        wf(g0),
        1 <= dt <= 50,
        w == g0.screen_width,
        h == g0.screen_height,
        a == input_phase(g0.player1, g0.player2, g0.balls@, g0.input1, g0.input2),
        b == physics_phase(a.0, a.1, a.2, w, h, dt),
        f == follow_phase(b.0, b.1, b.2),
        g.player1 == b.0,
        g.player2 == b.1,
        g.balls@ == f,
        g.score1 == g0.score1,
        g.score2 == g0.score2,
        g.screen_width == g0.screen_width,
        g.screen_height == g0.screen_height,
        g.input1 == g0.input1,
        g.input2 == g0.input2,
        g.balls_num == g0.balls_num,
        g.ball_ids == g0.ball_ids,
    ensures
        wf(g),
{
    lemma_input_phase_wf(g0, a);
    lemma_physics_phase_wf(a, b, g0.ball_ids.next, w, h, dt);
    lemma_follow_phase_wf(b, f, g0.ball_ids.next, w, h);
}

} // verus!
