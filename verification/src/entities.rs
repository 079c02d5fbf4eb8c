//! The plain data shared by the simulation core and the plugin pipeline:
//! physical objects, per-tick input intents, and the ball id allocator.
//!
//! Distances are in milli-pixels (1000 units = one pixel), velocities in
//! milli-pixels per second.  The world origin is the field center, +Y up.
use vstd::prelude::*;

verus! {

/// One milli-pixel unit per pixel.
pub const MILLI: i64 = 1000;

/// Collision bounding radius of a player, in milli-pixels (24 px).
pub const PLAYER_BBOX: i64 = 24_000;

/// Collision bounding radius of a ball, in milli-pixels (24 px).
pub const ROCK_BBOX: i64 = 24_000;

/// The two kinds of physical body in the world.
#[derive(Clone, Copy, PartialEq, Eq, Structural, Debug)]
pub enum PhysType {
    Player,
    Ball,
}

/// Any physical body in the game world.
///
/// `hold` encodes possession: on a ball it is the id of the player carrying
/// it (0 = free); on a player it is the id of the ball being carried
/// (0 = empty-handed).
#[derive(Clone, Copy, PartialEq, Debug)]
pub struct PhysObject {
    pub tag: PhysType,
    pub id: u64,
    pub hold: u64,
    pub pos: (i64, i64),
    pub x_velocity: i64,
    pub y_velocity: i64,
    pub bbox_size: i64,
}

impl PhysObject {
    /// The position pair, for callers that only want coordinates.
    pub fn get_pos_p2(&self) -> (r: (i64, i64))
        ensures
            r == self.pos,
    {
        self.pos
    }
}

/// Id of the left player.
pub const PLAYER1_ID: u64 = 1;

/// Id of the right player.
pub const PLAYER2_ID: u64 = 2;

/// The first id handed to a ball; ball ids sit strictly above the player ids.
pub const FIRST_BALL_ID: u64 = 3;

/// Hands out ball ids, monotonically increasing for the life of a session and
/// never reused, so ids stay unique across goal-triggered field resets.
#[derive(Clone, Copy, PartialEq, Eq, Structural, Debug)]
pub struct BallIdAlloc {
    pub next: u64,
}

impl BallIdAlloc {
    /// A fresh allocator whose first ball id lies above the player range.
    pub fn new() -> (r: BallIdAlloc)
        ensures
            r.next == FIRST_BALL_ID,
    {
        BallIdAlloc { next: FIRST_BALL_ID }
    }
}

/// The ball that `new_ball_id` builds at `pos` with identity `id`.
pub open spec fn spec_new_ball(pos: (i64, i64), id: u64) -> PhysObject {
    PhysObject {
        tag: PhysType::Ball,
        id: id,
        hold: 0,
        pos: pos,
        x_velocity: 0,
        y_velocity: 0,
        bbox_size: ROCK_BBOX,
    }
}

impl PhysObject {
    /// A fresh, free, motionless ball at `pos`, with the next unused id.
    pub fn new_ball_id(pos: (i64, i64), ids: &mut BallIdAlloc) -> (r: PhysObject)
        requires
            old(ids).next < u64::MAX,
        ensures
            r == spec_new_ball(pos, old(ids).next),
            final(ids).next == old(ids).next + 1,
    {
        let id = ids.next;
        ids.next = ids.next + 1;
        PhysObject {
            tag: PhysType::Ball,
            id: id,
            hold: 0,
            pos: pos,
            x_velocity: 0,
            y_velocity: 0,
            bbox_size: ROCK_BBOX,
        }
    }
}

/// The player that `create_player` builds at `spawn_pos`.
pub open spec fn spec_new_player(spawn_pos: (i64, i64), player_id: u64) -> PhysObject {
    PhysObject {
        tag: PhysType::Player,
        id: player_id,
        hold: 0,
        pos: spawn_pos,
        x_velocity: 0,
        y_velocity: 0,
        bbox_size: PLAYER_BBOX,
    }
}

/// A motionless, empty-handed player at `spawn_pos` with identity `player_id`.
pub fn create_player(spawn_pos: (i64, i64), player_id: u64) -> (r: PhysObject)
    ensures
        r == spec_new_player(spawn_pos, player_id),
{
    PhysObject {
        tag: PhysType::Player,
        id: player_id,
        hold: 0,
        pos: spawn_pos,
        x_velocity: 0,
        y_velocity: 0,
        bbox_size: PLAYER_BBOX,
    }
}

/// One player's intent for a single tick.
///
/// Each axis has an independent positive and negative component so that
/// opposing keys can cancel or combine.  Axis values are in milli-units: a
/// fully pressed key contributes 1000 (or -1000), and a plugin may supply any
/// intermediate magnitude.  `holdball` asks to pick up (while empty-handed)
/// or keep carrying; its falling edge releases a carried ball.
#[derive(Clone, Copy, PartialEq, Eq, Structural, Debug)]
pub struct InputState {
    pub xaxis1pos: i64,
    pub xaxis1neg: i64,
    pub yaxis1pos: i64,
    pub yaxis1neg: i64,
    pub holdball: bool,
}

/// The neutral intent: no movement and no hold request.
pub open spec fn spec_input_default() -> InputState {
    InputState { xaxis1pos: 0, xaxis1neg: 0, yaxis1pos: 0, yaxis1neg: 0, holdball: false }
}

impl Default for InputState {
    /// The neutral intent: no movement and no hold request.
    fn default() -> (r: InputState)
        ensures
            r == spec_input_default(),
    {
        InputState { xaxis1pos: 0, xaxis1neg: 0, yaxis1pos: 0, yaxis1neg: 0, holdball: false }
    }
}

} // verus!
