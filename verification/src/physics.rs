//! The deterministic physics core: per-axis velocity clamping, position
//! integration, elastic boundary reflection, drag with an exact stop
//! threshold, input-driven acceleration, and the follow step that keeps a
//! carried ball attached to its player.
//!
//! All arithmetic is integer arithmetic on milli-pixels and milliseconds, so
//! every tick is exactly reproducible.
use vstd::prelude::*;

use crate::collision::ball_drop;
use crate::collision::ball_id_to_elem;
use crate::collision::ball_pickup;
use crate::collision::balls_in_collision_range;
use crate::collision::drop_spec;
use crate::collision::find_ball_index;
use crate::collision::lemma_find_ball_index;
use crate::collision::obj_in_collision_range;
use crate::collision::pickup_spec;
use crate::entities::InputState;
use crate::entities::PhysObject;

verus! {

/// Acceleration applied per tick, in milli-pixels/second per milli-unit of
/// axis intent (a fully pressed key, 1000 milli-units, adds 8 px/s).
pub const PLAYER_ACCELERATION: i64 = 8;

/// Largest velocity magnitude per axis, in milli-pixels/second (200 px/s).
pub const MAX_PHYSICS_VEL: i64 = 200_000;

/// Drag deceleration on balls, in pixels/second^2.
pub const BALL_DRAG: i64 = 20;

/// A ball whose velocity is below one pixel/second on both axes
/// (1000 milli-pixels/second) is snapped to a dead stop.
pub const HALT_THRESHOLD: i64 = 1000;

/// Magnitude bound on positions accepted by the physics routines; keeps all
/// intermediate products inside `i64`.
pub const POS_LIMIT: i64 = 1_000_000_000;

/// Magnitude bound on velocities accepted by the physics routines.
pub const VEL_LIMIT: i64 = 1_000_000_000;

/// Longest time step accepted, in milliseconds.
pub const DT_LIMIT: i64 = 1000;

/// Integer magnitude.
pub open spec fn abs_i(v: int) -> int {
    if v >= 0 {
        v
    } else {
        -v
    }
}

/// A velocity axis clamped to the permitted magnitude.  Clamping is per axis,
/// not a vector renormalization, so diagonal motion may be faster than
/// axis-aligned motion; that asymmetry is part of the game's contract.
pub open spec fn clamp_vel(v: int) -> int {
    if v > MAX_PHYSICS_VEL {
        MAX_PHYSICS_VEL as int
    } else if v < -MAX_PHYSICS_VEL {
        -MAX_PHYSICS_VEL as int
    } else {
        v
    }
}

/// The position change `v * dt` brought from milli-pixels/second and
/// milliseconds back to milli-pixels, truncating toward zero.
pub open spec fn scaled_delta(v: int, dt: int) -> int {
    if v >= 0 {
        v * dt / 1000
    } else {
        -((-v) * dt / 1000)
    }
}

/// One axis of a physics step: clamp the velocity, integrate the position,
/// and reflect about whichever bound the prospective position would cross,
/// flipping the velocity's sign (an elastic bounce).  Returns the new
/// `(position, velocity)` pair.
pub open spec fn advance_axis(p: int, v: int, lo: int, hi: int, dt: int) -> (int, int) {
    let vc = clamp_vel(v);
    let q = p + scaled_delta(vc, dt);
    if q < lo {
        (2 * lo - q, -vc)
    } else if q > hi {
        (2 * hi - q, -vc)
    } else {
        (q, vc)
    }
}

/// A whole physics step on one object: the X axis is confined to
/// `[width_lower, width_upper]`, the Y axis to `[-height/2, height/2]`.
/// Identity, possession and size are untouched.
pub open spec fn advance_spec(
    o: PhysObject,
    width_lower: int,
    width_upper: int,
    height: int,
    dt: int,
) -> PhysObject {
    let x = advance_axis(o.pos.0 as int, o.x_velocity as int, width_lower, width_upper, dt);
    let y = advance_axis(o.pos.1 as int, o.y_velocity as int, -(height / 2), height / 2, dt);
    PhysObject {
        pos: (x.0 as i64, y.0 as i64),
        x_velocity: x.1 as i64,
        y_velocity: y.1 as i64,
        ..o
    }
}

/// Clamp the object's velocity per axis, integrate its position over `dt`
/// milliseconds, and bounce elastically off the given bounds: a prospective
/// position beyond a bound is mirrored about that bound and the axis velocity
/// changes sign.  The X axis is confined to `[width_lower, width_upper]`
/// (players get their own half of the field, balls the whole width); the Y
/// axis to `[-height/2, height/2]`.
pub fn update_object_position(
    object: &mut PhysObject,
    width_lower: i64,
    width_upper: i64,
    height: i64,
    dt: i64,
)
    requires
        -POS_LIMIT <= old(object).pos.0 <= POS_LIMIT,
        -POS_LIMIT <= old(object).pos.1 <= POS_LIMIT,
        -VEL_LIMIT <= old(object).x_velocity <= VEL_LIMIT,
        -VEL_LIMIT <= old(object).y_velocity <= VEL_LIMIT,
        -POS_LIMIT <= width_lower <= width_upper <= POS_LIMIT,
        0 <= height <= POS_LIMIT,
        height % 2 == 0,
        0 <= dt <= DT_LIMIT,
    ensures
        *final(object) == advance_spec(
            *old(object),
            width_lower as int,
            width_upper as int,
            height as int,
            dt as int,
        ),
{
    let mut vx = object.x_velocity;
    if vx > MAX_PHYSICS_VEL {
        vx = MAX_PHYSICS_VEL;
    }
    if vx < -MAX_PHYSICS_VEL {
        vx = -MAX_PHYSICS_VEL;
    }
    let mut vy = object.y_velocity;
    if vy > MAX_PHYSICS_VEL {
        vy = MAX_PHYSICS_VEL;
    }
    if vy < -MAX_PHYSICS_VEL {
        vy = -MAX_PHYSICS_VEL;
    }

    proof {
        assert(-200_000_000 <= vx * dt <= 200_000_000) by (nonlinear_arith)
            requires
                -MAX_PHYSICS_VEL <= vx <= MAX_PHYSICS_VEL,
                0 <= dt <= DT_LIMIT,
        ;
        assert(-200_000_000 <= vy * dt <= 200_000_000) by (nonlinear_arith)
            requires
                -MAX_PHYSICS_VEL <= vy <= MAX_PHYSICS_VEL,
                0 <= dt <= DT_LIMIT,
        ;
        assert(-200_000_000 <= (-vx) * dt <= 200_000_000) by (nonlinear_arith)
            requires
                -MAX_PHYSICS_VEL <= vx <= MAX_PHYSICS_VEL,
                0 <= dt <= DT_LIMIT,
        ;
        assert(-200_000_000 <= (-vy) * dt <= 200_000_000) by (nonlinear_arith)
            requires
                -MAX_PHYSICS_VEL <= vy <= MAX_PHYSICS_VEL,
                0 <= dt <= DT_LIMIT,
        ;
    }
    let dxv: i64 = if vx >= 0 {
        vx * dt / 1000
    } else {
        -((-vx) * dt / 1000)
    };
    let dyv: i64 = if vy >= 0 {
        vy * dt / 1000
    } else {
        -((-vy) * dt / 1000)
    };

    let qx = object.pos.0 + dxv;
    if qx < width_lower {
        object.pos.0 = 2 * width_lower - qx;
        object.x_velocity = -vx;
    } else if qx > width_upper {
        object.pos.0 = 2 * width_upper - qx;
        object.x_velocity = -vx;
    } else {
        object.pos.0 = qx;
        object.x_velocity = vx;
    }

    let height_lower = -(height / 2);
    let height_upper = height / 2;
    let qy = object.pos.1 + dyv;
    if qy < height_lower {
        object.pos.1 = 2 * height_lower - qy;
        object.y_velocity = -vy;
    } else if qy > height_upper {
        object.pos.1 = 2 * height_upper - qy;
        object.y_velocity = -vy;
    } else {
        object.pos.1 = qy;
        object.y_velocity = vy;
    }
}

/// The integer square root: the largest `r` with `r * r <= n`.
pub open spec fn sqrt_floor(n: nat) -> nat
    decreases n,
{
    if n == 0 {
        0
    } else {
        let r = sqrt_floor((n - 1) as nat);
        if (r + 1) * (r + 1) <= n {
            r + 1
        } else {
            r
        }
    }
}

/// `sqrt_floor(n)` squares to at most `n`, and the next integer squares past
/// `n`.
pub proof fn lemma_sqrt_floor_bounds(n: nat)
    ensures
        sqrt_floor(n) * sqrt_floor(n) <= n,
        n < (sqrt_floor(n) + 1) * (sqrt_floor(n) + 1),
    decreases n,
{
    if n == 0 {
        assert(n < (sqrt_floor(n) + 1) * (sqrt_floor(n) + 1)) by (nonlinear_arith)
            requires
                n == 0,
                sqrt_floor(n) == 0,
        ;
    } else {
        let m = (n - 1) as nat;
        lemma_sqrt_floor_bounds(m);
        let r = sqrt_floor(m);
        assert(sqrt_floor(n) == (if (r + 1) * (r + 1) <= n {
            r + 1
        } else {
            r
        }));
        if (r + 1) * (r + 1) <= n {
            assert(n < (r + 2) * (r + 2)) by (nonlinear_arith)
                requires
                    n <= m + 1,
                    m < (r + 1) * (r + 1),
            ;
            assert(n < (sqrt_floor(n) + 1) * (sqrt_floor(n) + 1)) by (nonlinear_arith)
                requires
                    sqrt_floor(n) == r + 1,
                    n < (r + 2) * (r + 2),
            ;
        } else {
            assert(r * r <= m);
            assert(n < (sqrt_floor(n) + 1) * (sqrt_floor(n) + 1)) by (nonlinear_arith)
                requires
                    sqrt_floor(n) == r,
                    n < (r + 1) * (r + 1),
            ;
        }
    }
}

/// Only one integer sits between the squares around `n`, so any witness of
/// the square-root bounds is `sqrt_floor(n)` itself.
pub proof fn lemma_sqrt_floor_unique(n: nat, r: nat)
    requires
        r * r <= n,
        n < (r + 1) * (r + 1),
    ensures
        r == sqrt_floor(n),
{
    lemma_sqrt_floor_bounds(n);
    let s = sqrt_floor(n);
    if r < s {
        assert(false) by (nonlinear_arith)
            requires
                r < s,
                s * s <= n,
                n < (r + 1) * (r + 1),
        ;
    }
    if s < r {
        assert(false) by (nonlinear_arith)
            requires
                s < r,
                r * r <= n,
                n < (s + 1) * (s + 1),
        ;
    }
}

/// The integer square root, by binary search.
pub fn isqrt(n: u64) -> (r: u64)
    requires
        n < 0x4000_0000_0000_0000,
    ensures
        r == sqrt_floor(n as nat),
        r < 0x8000_0000,
{
    let mut lo: u64 = 0;
    let mut hi: u64 = 0x8000_0000;
    proof {
        assert(n < hi * hi) by (nonlinear_arith)
            requires
                n < 0x4000_0000_0000_0000,
                hi == 0x8000_0000,
        ;
    }
    while lo + 1 < hi
        invariant
            lo < hi <= 0x8000_0000,
            lo * lo <= n,
            n < hi * hi,
        decreases hi - lo,
    {
        let mid = lo + (hi - lo) / 2;
        proof {
            assert(mid * mid < 0x8000_0000_0000_0000) by (nonlinear_arith)
                requires
                    mid < 0x8000_0000,
            ;
        }
        if mid * mid <= n {
            lo = mid;
        } else {
            hi = mid;
        }
    }
    proof {
        lemma_sqrt_floor_unique(n as nat, lo as nat);
    }
    lo
}

/// The total speed measured as the sum of squared axis velocities.
pub open spec fn speed_sq(vx: int, vy: int) -> int {
    vx * vx + vy * vy
}

/// Whether drag still applies: some axis is at or above one pixel/second.
/// Below this, the ball is snapped to a dead stop instead.
pub open spec fn above_halt_threshold(vx: int, vy: int) -> bool {
    abs_i(vx) >= HALT_THRESHOLD || abs_i(vy) >= HALT_THRESHOLD
}

/// One axis of the drag step: the velocity loses
/// `BALL_DRAG * dt * |v| / speed` milli-pixels/second — its own share of the
/// total deceleration — without changing sign.  `speed` must be positive.
pub open spec fn dragged_vel(v: int, dt: int, speed: int) -> int {
    if v >= 0 {
        v - BALL_DRAG * dt * v / speed
    } else {
        -((-v) - BALL_DRAG * dt * (-v) / speed)
    }
}

/// The drag step on a ball.  While the ball's speed is at or above the halt
/// threshold, each axis decelerates in proportion to its share of the total
/// speed; once below it, the velocity snaps to exactly zero and possession is
/// cleared — a stopped ball is never considered held.
pub open spec fn halt_spec(b: PhysObject, dt: int) -> PhysObject {
    if above_halt_threshold(b.x_velocity as int, b.y_velocity as int) {
        let s = sqrt_floor(speed_sq(b.x_velocity as int, b.y_velocity as int) as nat) as int;
        PhysObject {
            x_velocity: dragged_vel(b.x_velocity as int, dt, s) as i64,
            y_velocity: dragged_vel(b.y_velocity as int, dt, s) as i64,
            ..b
        }
    } else {
        PhysObject { x_velocity: 0, y_velocity: 0, hold: 0, ..b }
    }
}

/// Any speed at or above the halt threshold on some axis gives a positive
/// integer square root, so the drag divisions are well defined.
proof fn lemma_speed_at_least_threshold(vx: int, vy: int)
    requires
        above_halt_threshold(vx, vy),
    ensures
        speed_sq(vx, vy) >= HALT_THRESHOLD * HALT_THRESHOLD,
        sqrt_floor(speed_sq(vx, vy) as nat) >= HALT_THRESHOLD,
{
    assert(speed_sq(vx, vy) >= HALT_THRESHOLD * HALT_THRESHOLD) by (nonlinear_arith)
        requires
            abs_i(vx) >= HALT_THRESHOLD || abs_i(vy) >= HALT_THRESHOLD,
            speed_sq(vx, vy) == vx * vx + vy * vy,
    ;
    let sq = speed_sq(vx, vy) as nat;
    lemma_sqrt_floor_bounds(sq);
    let s = sqrt_floor(sq);
    if s < HALT_THRESHOLD {
        assert(false) by (nonlinear_arith)
            requires
                s < HALT_THRESHOLD,
                sq < (s + 1) * (s + 1),
                sq >= HALT_THRESHOLD * HALT_THRESHOLD,
        ;
    }
}

/// Apply one drag step of `dt` milliseconds to a ball, per `halt_spec`:
/// proportional per-axis deceleration while the speed is at or above the halt
/// threshold, and an exact stop (velocity zeroed, possession cleared) below
/// it.
pub fn ball_halt(ball: &mut PhysObject, dt: i64)
    requires
        -VEL_LIMIT <= old(ball).x_velocity <= VEL_LIMIT,
        -VEL_LIMIT <= old(ball).y_velocity <= VEL_LIMIT,
        0 <= dt <= DT_LIMIT,
    ensures
        *final(ball) == halt_spec(*old(ball), dt as int),
{
    let vx = ball.x_velocity;
    let vy = ball.y_velocity;
    let mx = if vx >= 0 {
        vx
    } else {
        -vx
    };
    let my = if vy >= 0 {
        vy
    } else {
        -vy
    };
    if mx >= HALT_THRESHOLD || my >= HALT_THRESHOLD {
        proof {
            assert(mx * mx + my * my < 0x4000_0000_0000_0000) by (nonlinear_arith)
                requires
                    0 <= mx <= VEL_LIMIT,
                    0 <= my <= VEL_LIMIT,
            ;
            lemma_speed_at_least_threshold(vx as int, vy as int);
        }
        let sq: u64 = (mx as u64) * (mx as u64) + (my as u64) * (my as u64);
        proof {
            assert(mx * mx == vx * vx && my * my == vy * vy) by (nonlinear_arith)
                requires
                    mx == vx || mx == -(vx as int),
                    my == vy || my == -(vy as int),
            ;
            assert(sq == speed_sq(vx as int, vy as int));
        }
        let s: i64 = isqrt(sq) as i64;
        proof {
            assert(s >= HALT_THRESHOLD);
            assert(0 <= BALL_DRAG * dt * mx <= 20_000_000_000_000) by (nonlinear_arith)
                requires
                    0 <= mx <= VEL_LIMIT,
                    0 <= dt <= DT_LIMIT,
                    BALL_DRAG == 20,
            ;
            assert(0 <= BALL_DRAG * dt * my <= 20_000_000_000_000) by (nonlinear_arith)
                requires
                    0 <= my <= VEL_LIMIT,
                    0 <= dt <= DT_LIMIT,
                    BALL_DRAG == 20,
            ;
        }
        let dec_x = BALL_DRAG * dt * mx / s;
        let dec_y = BALL_DRAG * dt * my / s;
        ball.x_velocity = if vx >= 0 {
            vx - dec_x
        } else {
            -(mx - dec_x)
        };
        ball.y_velocity = if vy >= 0 {
            vy - dec_y
        } else {
            -(my - dec_y)
        };
    } else {
        ball.x_velocity = 0;
        ball.y_velocity = 0;
        ball.hold = 0;
    }
}

/// One axis of the drag step, on magnitudes: the decrement never overshoots
/// the magnitude itself, and whenever the scaled magnitude reaches the total
/// speed the axis loses at least one unit.
proof fn lemma_drag_axis(mag: int, dt: int, s: int)
    requires
        0 <= mag,
        1 <= dt <= 50,
        s >= HALT_THRESHOLD,
    ensures
        0 <= BALL_DRAG * dt * mag / s <= mag,
        BALL_DRAG * dt * mag >= s ==> BALL_DRAG * dt * mag / s >= 1,
{
    let dec = BALL_DRAG * dt * mag;
    vstd::arithmetic::div_mod::lemma_div_pos_is_pos(dec, s);
    assert(dec <= s * mag) by (nonlinear_arith)
        requires
            0 <= mag,
            1 <= dt <= 50,
            s >= 1000,
            dec == 20 * dt * mag,
    ;
    vstd::arithmetic::div_mod::lemma_div_is_ordered(dec, s * mag, s);
    vstd::arithmetic::div_mod::lemma_div_multiples_vanish(mag, s);
    if dec >= s {
        vstd::arithmetic::div_mod::lemma_div_is_ordered(s, dec, s);
        vstd::arithmetic::div_mod::lemma_div_multiples_vanish(1, s);
    }
}

/// Drag strictly reduces the total squared speed each step while some axis is
/// at or above the halt threshold; neither axis magnitude ever grows, no axis
/// overshoots past zero, and position, identity and possession are untouched.
/// The step below the threshold — the exact stop — is part of `halt_spec`'s
/// own definition: velocity snaps to zero and possession is cleared.
pub proof fn lemma_drag_reduces_speed(b: PhysObject, dt: int)
    requires
        above_halt_threshold(b.x_velocity as int, b.y_velocity as int),
        1 <= dt <= 50,
        -VEL_LIMIT <= b.x_velocity <= VEL_LIMIT,
        -VEL_LIMIT <= b.y_velocity <= VEL_LIMIT,
    ensures
        ({
            let h = halt_spec(b, dt);
            speed_sq(h.x_velocity as int, h.y_velocity as int) < speed_sq(
                b.x_velocity as int,
                b.y_velocity as int,
            )
        }),
        ({
            let h = halt_spec(b, dt);
            (b.x_velocity >= 0 ==> 0 <= h.x_velocity <= b.x_velocity) && (b.x_velocity <= 0
                ==> b.x_velocity <= h.x_velocity <= 0) && (b.y_velocity >= 0 ==> 0 <= h.y_velocity
                <= b.y_velocity) && (b.y_velocity <= 0 ==> b.y_velocity <= h.y_velocity <= 0)
        }),
        halt_spec(b, dt).hold == b.hold,
        halt_spec(b, dt).pos == b.pos,
        halt_spec(b, dt).id == b.id,
{
    let vx = b.x_velocity as int;
    let vy = b.y_velocity as int;
    let mx = abs_i(vx);
    let my = abs_i(vy);
    let sq = speed_sq(vx, vy);
    lemma_speed_at_least_threshold(vx, vy);
    lemma_sqrt_floor_bounds(sq as nat);
    let s = sqrt_floor(sq as nat) as int;
    assert(mx * mx == vx * vx && my * my == vy * vy) by (nonlinear_arith)
        requires
            mx == vx || mx == -vx,
            my == vy || my == -vy,
    ;
    lemma_drag_axis(mx, dt, s);
    lemma_drag_axis(my, dt, s);
    let dec_x = BALL_DRAG * dt * mx / s;
    let dec_y = BALL_DRAG * dt * my / s;
    let nx = mx - dec_x;
    let ny = my - dec_y;
    let h = halt_spec(b, dt);
    assert(h.x_velocity == dragged_vel(vx, dt, s) && h.y_velocity == dragged_vel(vy, dt, s));
    assert(dragged_vel(vx, dt, s) == (if vx >= 0 {
        nx
    } else {
        -nx
    }));
    assert(dragged_vel(vy, dt, s) == (if vy >= 0 {
        ny
    } else {
        -ny
    }));
    let hx = h.x_velocity as int;
    let hy = h.y_velocity as int;
    assert(hx * hx == nx * nx && hy * hy == ny * ny) by (nonlinear_arith)
        requires
            hx == nx || hx == -nx,
            hy == ny || hy == -ny,
    ;
    // The dominant axis loses at least one unit; the other never grows.
    if mx >= my {
        assert(s < 2 * mx) by (nonlinear_arith)
            requires
                s >= 0,
                mx >= my >= 0,
                mx >= HALT_THRESHOLD,
                s * s <= sq,
                sq == mx * mx + my * my,
        ;
        assert(BALL_DRAG * dt * mx >= s) by (nonlinear_arith)
            requires
                dt >= 1,
                mx >= 0,
                s < 2 * mx,
                BALL_DRAG == 20,
        ;
        assert(nx * nx < mx * mx && ny * ny <= my * my) by (nonlinear_arith)
            requires
                0 <= nx <= mx - 1,
                0 <= ny <= my,
                mx >= 1,
        ;
    } else {
        assert(s < 2 * my) by (nonlinear_arith)
            requires
                s >= 0,
                my >= mx >= 0,
                my >= HALT_THRESHOLD,
                s * s <= sq,
                sq == mx * mx + my * my,
        ;
        assert(BALL_DRAG * dt * my >= s) by (nonlinear_arith)
            requires
                dt >= 1,
                my >= 0,
                s < 2 * my,
                BALL_DRAG == 20,
        ;
        assert(ny * ny < my * my && nx * nx <= mx * mx) by (nonlinear_arith)
            requires
                0 <= ny <= my - 1,
                0 <= nx <= mx,
                my >= 1,
        ;
    }
}

/// While no bound is crossed and neither axis exceeds the speed cap, a
/// physics step is a pure translation: each position moves by its scaled
/// velocity and both velocities are unchanged.
pub proof fn lemma_advance_pure_translation(
    o: PhysObject,
    width_lower: int,
    width_upper: int,
    height: int,
    dt: int,
)
    requires
        abs_i(o.x_velocity as int) <= MAX_PHYSICS_VEL,
        abs_i(o.y_velocity as int) <= MAX_PHYSICS_VEL,
        width_lower <= o.pos.0 + scaled_delta(o.x_velocity as int, dt) <= width_upper,
        -(height / 2) <= o.pos.1 + scaled_delta(o.y_velocity as int, dt) <= height / 2,
        -POS_LIMIT <= o.pos.0 <= POS_LIMIT,
        -POS_LIMIT <= o.pos.1 <= POS_LIMIT,
        0 <= dt <= DT_LIMIT,
    ensures
        advance_spec(o, width_lower, width_upper, height, dt) == (PhysObject {
            pos: (
                (o.pos.0 + scaled_delta(o.x_velocity as int, dt)) as i64,
                (o.pos.1 + scaled_delta(o.y_velocity as int, dt)) as i64,
            ),
            ..o
        }),
{
}

/// Magnitude bound on input axis components accepted by the physics
/// routines (a thousand fully pressed keys' worth).
pub const AXIS_LIMIT: i64 = 1_000_000;

/// One axis of input acceleration: the velocity gains
/// `PLAYER_ACCELERATION` milli-pixels/second per milli-unit of intent.
pub open spec fn accelerate_axis(v: int, axis: int) -> int {
    v + PLAYER_ACCELERATION * axis
}

/// Velocity accumulation is linear and order-independent: applying the
/// positive then the negative component of an axis changes the velocity by
/// exactly `PLAYER_ACCELERATION * (pos + neg)`, the same as applying them in
/// the other order.
pub proof fn lemma_input_accumulation_commutes(v: int, pos: int, neg: int)
    ensures
        accelerate_axis(accelerate_axis(v, pos), neg) == accelerate_axis(
            accelerate_axis(v, neg),
            pos,
        ),
        accelerate_axis(accelerate_axis(v, pos), neg) == v + PLAYER_ACCELERATION * (pos + neg),
{
}

/// What one tick of input does to a player is exactly the two opposing
/// components of each axis accumulated one after the other — in either
/// order, by `lemma_input_accumulation_commutes`.
pub proof fn lemma_input_applied_accumulates(p: PhysObject, input: InputState)
    requires
        -VEL_LIMIT <= p.x_velocity <= VEL_LIMIT,
        -VEL_LIMIT <= p.y_velocity <= VEL_LIMIT,
        -AXIS_LIMIT <= input.xaxis1pos <= AXIS_LIMIT,
        -AXIS_LIMIT <= input.xaxis1neg <= AXIS_LIMIT,
        -AXIS_LIMIT <= input.yaxis1pos <= AXIS_LIMIT,
        -AXIS_LIMIT <= input.yaxis1neg <= AXIS_LIMIT,
    ensures
        input_applied(p, input).x_velocity == accelerate_axis(
            accelerate_axis(p.x_velocity as int, input.xaxis1pos as int),
            input.xaxis1neg as int,
        ),
        input_applied(p, input).y_velocity == accelerate_axis(
            accelerate_axis(p.y_velocity as int, input.yaxis1pos as int),
            input.yaxis1neg as int,
        ),
{
}

/// A player after one tick of input acceleration: each velocity axis gains
/// `PLAYER_ACCELERATION` times the sum of that axis's opposing components.
pub open spec fn input_applied(p: PhysObject, input: InputState) -> PhysObject {
    PhysObject {
        x_velocity: (p.x_velocity + PLAYER_ACCELERATION * (input.xaxis1pos + input.xaxis1neg))
            as i64,
        y_velocity: (p.y_velocity + PLAYER_ACCELERATION * (input.yaxis1pos + input.yaxis1neg))
            as i64,
        ..p
    }
}

/// One tick of input on a player: accelerate, then resolve the hold flag — a
/// rising edge while empty-handed attempts a pickup, a falling edge while
/// carrying releases the ball.
pub open spec fn handle_input_spec(p: PhysObject, input: InputState, balls: Seq<PhysObject>) -> (
    PhysObject,
    Seq<PhysObject>,
) {
    let p2 = input_applied(p, input);
    if p2.hold == 0 && input.holdball {
        pickup_spec(p2, balls)
    } else if p2.hold != 0 && !input.holdball {
        drop_spec(p2, balls)
    } else {
        (p2, balls)
    }
}

/// Apply one player's per-tick intent: accumulate acceleration on both axes,
/// then try to pick up the first overlapping free ball (hold requested while
/// empty-handed) or release the carried ball with the player's velocity
/// (hold dropped while carrying).
pub fn player_handle_input(player: &mut PhysObject, input: &InputState, balls: &mut Vec<
    PhysObject,
>)
    requires
        -VEL_LIMIT <= old(player).x_velocity <= VEL_LIMIT,
        -VEL_LIMIT <= old(player).y_velocity <= VEL_LIMIT,
        -AXIS_LIMIT <= input.xaxis1pos <= AXIS_LIMIT,
        -AXIS_LIMIT <= input.xaxis1neg <= AXIS_LIMIT,
        -AXIS_LIMIT <= input.yaxis1pos <= AXIS_LIMIT,
        -AXIS_LIMIT <= input.yaxis1neg <= AXIS_LIMIT,
        obj_in_collision_range(*old(player)),
        balls_in_collision_range(old(balls)@),
    ensures
        *final(player) == handle_input_spec(*old(player), *input, old(balls)@).0,
        final(balls)@ == handle_input_spec(*old(player), *input, old(balls)@).1,
{
    let ax = input.xaxis1pos + input.xaxis1neg;
    let ay = input.yaxis1pos + input.yaxis1neg;
    proof {
        assert(-16_000_000 <= PLAYER_ACCELERATION * ax <= 16_000_000) by (nonlinear_arith)
            requires
                -2_000_000 <= ax <= 2_000_000,
                PLAYER_ACCELERATION == 8,
        ;
        assert(-16_000_000 <= PLAYER_ACCELERATION * ay <= 16_000_000) by (nonlinear_arith)
            requires
                -2_000_000 <= ay <= 2_000_000,
                PLAYER_ACCELERATION == 8,
        ;
    }
    player.x_velocity = player.x_velocity + PLAYER_ACCELERATION * ax;
    player.y_velocity = player.y_velocity + PLAYER_ACCELERATION * ay;
    if player.hold == 0 && input.holdball {
        ball_pickup(player, balls);
    } else if player.hold != 0 && !input.holdball {
        ball_drop(player, balls);
    }
}

/// The follow step for one player: the ball it carries is pinned to the
/// player's position, shifted sideways by `offset`, and re-marked as
/// possessed; everything else is untouched.
pub open spec fn follow_spec(p: PhysObject, balls: Seq<PhysObject>, offset: int) -> Seq<
    PhysObject,
> {
    if p.hold == 0 {
        balls
    } else {
        match find_ball_index(balls, p.hold) {
            Some(i) => balls.update(
                i,
                PhysObject { pos: ((p.pos.0 + offset) as i64, p.pos.1), hold: p.id, ..balls[i] },
            ),
            None => balls,
        }
    }
}

/// Keep a carried ball attached: place the ball the player holds at the
/// player's position shifted by `offset` milli-pixels, and record the player
/// as its possessor.
pub fn ball_follow(player: &PhysObject, balls: &mut Vec<PhysObject>, offset: i64)
    requires
        -POS_LIMIT <= player.pos.0 <= POS_LIMIT,
        -POS_LIMIT <= offset <= POS_LIMIT,
    ensures
        final(balls)@ == follow_spec(*player, old(balls)@, offset as int),
{
    if player.hold == 0 {
        return ;
    }
    let index = ball_id_to_elem(balls, player.hold);
    proof {
        lemma_find_ball_index(balls@, player.hold);
    }
    match index {
        Some(i) => {
            let nb = PhysObject {
                pos: (player.pos.0 + offset, player.pos.1),
                hold: player.id,
                ..balls[i]
            };
            balls[i] = nb;
        },
        None => {},
    }
}

/// Boundary reflection on one axis: an object whose prospective position
/// would cross a bound ends the step mirrored about that bound with its
/// velocity's sign flipped, whether the crossed bound is the lower or the
/// upper one.  Both the X and the Y axis of a physics step follow this one
/// rule, so the other axis is never affected by a bounce.
pub proof fn lemma_boundary_reflection(p: int, v: int, lo: int, hi: int, dt: int)
    requires
        abs_i(v) <= MAX_PHYSICS_VEL,
        lo <= hi,
    ensures
        p + scaled_delta(v, dt) > hi ==> advance_axis(p, v, lo, hi, dt) == ((
            2 * hi - (p + scaled_delta(v, dt)),
            -v,
        )),
        p + scaled_delta(v, dt) < lo ==> advance_axis(p, v, lo, hi, dt) == ((
            2 * lo - (p + scaled_delta(v, dt)),
            -v,
        )),
{
}

} // verus!
