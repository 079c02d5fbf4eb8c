use astroblasto::entities::InputState;
use astroblasto::entities::PhysObject;
use astroblasto::entities::PhysType;
use astroblasto::entities::ROCK_BBOX;
use astroblasto::entities::create_player;
use astroblasto::physics::ball_follow;
use astroblasto::physics::ball_halt;
use astroblasto::physics::isqrt;
use astroblasto::physics::player_handle_input;
use astroblasto::physics::update_object_position;

fn neutral() -> InputState {
    InputState { xaxis1pos: 0, xaxis1neg: 0, yaxis1pos: 0, yaxis1neg: 0, holdball: false }
}

#[test]
fn input_accumulation_is_order_independent() {
    let mut no_balls_a: Vec<PhysObject> = Vec::new();
    let mut no_balls_b: Vec<PhysObject> = Vec::new();
    let pos_only = InputState { xaxis1pos: 1000, yaxis1pos: 700, ..neutral() };
    let neg_only = InputState { xaxis1neg: -1000, yaxis1neg: -300, ..neutral() };

    let mut first = create_player((0, 0), 1);
    player_handle_input(&mut first, &pos_only, &mut no_balls_a);
    player_handle_input(&mut first, &neg_only, &mut no_balls_a);

    let mut second = create_player((0, 0), 1);
    player_handle_input(&mut second, &neg_only, &mut no_balls_b);
    player_handle_input(&mut second, &pos_only, &mut no_balls_b);

    assert_eq!(first.x_velocity, second.x_velocity);
    assert_eq!(first.y_velocity, second.y_velocity);
    // The delta is exactly PLAYER_ACCELERATION * (pos + neg) per axis.
    assert_eq!(first.x_velocity, 8 * (1000 - 1000));
    assert_eq!(first.y_velocity, 8 * (700 - 300));
}

#[test]
fn full_press_adds_eight_pixels_per_second() {
    let mut no_balls: Vec<PhysObject> = Vec::new();
    let mut p = create_player((0, 0), 1);
    let input = InputState { xaxis1pos: 1000, ..neutral() };
    player_handle_input(&mut p, &input, &mut no_balls);
    assert_eq!(p.x_velocity, 8_000);
    assert_eq!(p.y_velocity, 0);
}

#[test]
fn advance_inside_bounds_is_pure_translation() {
    let mut o = create_player((0, 0), 1);
    o.x_velocity = 100_000;
    o.y_velocity = 50_000;
    update_object_position(&mut o, -320_000, 320_000, 480_000, 16);
    assert_eq!(o.pos, (1_600, 800));
    assert_eq!(o.x_velocity, 100_000);
    assert_eq!(o.y_velocity, 50_000);
}

#[test]
fn velocity_is_clamped_per_axis_before_integration() {
    let mut o = create_player((0, 0), 1);
    o.x_velocity = 300_000;
    o.y_velocity = -250_000;
    update_object_position(&mut o, -320_000, 320_000, 480_000, 16);
    assert_eq!(o.x_velocity, 200_000);
    assert_eq!(o.y_velocity, -200_000);
    assert_eq!(o.pos, (3_200, -3_200));
}

#[test]
fn crossing_the_right_bound_reflects_and_flips_x() {
    let mut o = create_player((319_000, 5_000), 1);
    o.x_velocity = 200_000;
    update_object_position(&mut o, -320_000, 320_000, 480_000, 16);
    // Prospective 322 200 mirrors about 320 000 to 317 800.
    assert_eq!(o.pos.0, 317_800);
    assert_eq!(o.x_velocity, -200_000);
    // Y is unaffected by an X bounce.
    assert_eq!(o.pos.1, 5_000);
    assert_eq!(o.y_velocity, 0);
}

#[test]
fn crossing_the_left_bound_reflects_and_flips_x() {
    let mut o = create_player((-319_000, 0), 1);
    o.x_velocity = -200_000;
    update_object_position(&mut o, -320_000, 320_000, 480_000, 16);
    assert_eq!(o.pos.0, -317_800);
    assert_eq!(o.x_velocity, 200_000);
}

#[test]
fn crossing_the_top_bound_reflects_and_flips_y() {
    let mut o = create_player((0, 239_000), 1);
    o.y_velocity = 200_000;
    update_object_position(&mut o, -320_000, 320_000, 480_000, 16);
    assert_eq!(o.pos.1, 237_800);
    assert_eq!(o.y_velocity, -200_000);
    assert_eq!(o.pos.0, 0);
    assert_eq!(o.x_velocity, 0);
}

#[test]
fn crossing_the_bottom_bound_reflects_and_flips_y() {
    let mut o = create_player((0, -239_000), 1);
    o.y_velocity = -200_000;
    update_object_position(&mut o, -320_000, 320_000, 480_000, 16);
    assert_eq!(o.pos.1, -237_800);
    assert_eq!(o.y_velocity, 200_000);
}

fn ball_at(id: u64, pos: (i64, i64), vx: i64, vy: i64) -> PhysObject {
    PhysObject {
        tag: PhysType::Ball,
        id,
        hold: 0,
        pos,
        x_velocity: vx,
        y_velocity: vy,
        bbox_size: ROCK_BBOX,
    }
}

fn ball_with_velocity(vx: i64, vy: i64) -> PhysObject {
    ball_at(9, (0, 0), vx, vy)
}

#[test]
fn drag_reduces_speed_above_the_threshold() {
    let mut b = ball_with_velocity(90_000, 0);
    b.hold = 2;
    ball_halt(&mut b, 16);
    // Deceleration 20 px/s^2 over 16 ms, all of it on the X axis.
    assert_eq!(b.x_velocity, 89_680);
    assert_eq!(b.y_velocity, 0);
    // Possession is untouched while the ball still moves.
    assert_eq!(b.hold, 2);
    let before: i64 = 90_000 * 90_000;
    let after = b.x_velocity * b.x_velocity + b.y_velocity * b.y_velocity;
    assert!(after < before);
}

#[test]
fn drag_applies_exactly_at_the_threshold() {
    let mut b = ball_with_velocity(1_000, 0);
    ball_halt(&mut b, 16);
    assert_eq!(b.x_velocity, 680);
    assert_eq!(b.y_velocity, 0);
}

#[test]
fn drag_shares_deceleration_between_axes() {
    // A 3-4-5 triangle: speed 100 000, axes 60 000 and 80 000.
    let mut b = ball_with_velocity(60_000, -80_000);
    ball_halt(&mut b, 16);
    // dec_x = 20*16*60000/100000 = 192; dec_y = 20*16*80000/100000 = 256.
    assert_eq!(b.x_velocity, 59_808);
    assert_eq!(b.y_velocity, -79_744);
}

#[test]
fn below_the_threshold_velocity_snaps_to_zero_and_possession_clears() {
    let mut b = ball_with_velocity(900, -500);
    b.hold = 1;
    ball_halt(&mut b, 16);
    assert_eq!(b.x_velocity, 0);
    assert_eq!(b.y_velocity, 0);
    assert_eq!(b.hold, 0);
}

#[test]
fn isqrt_matches_known_squares() {
    assert_eq!(isqrt(0), 0);
    assert_eq!(isqrt(1), 1);
    assert_eq!(isqrt(3), 1);
    assert_eq!(isqrt(4), 2);
    assert_eq!(isqrt(10), 3);
    assert_eq!(isqrt(1_000_000), 1_000);
    assert_eq!(isqrt(999_999), 999);
    assert_eq!(isqrt(1_000_000_000_000_000_000), 1_000_000_000);
    assert_eq!(isqrt(0x3FFF_FFFF_FFFF_FFFF), 2_147_483_647);
}

#[test]
fn follow_pins_the_carried_ball_beside_the_player() {
    let mut p = create_player((-10_000, 4_000), 1);
    p.hold = 7;
    let mut held = ball_at(7, (0, 0), 0, 0);
    held.hold = 1;
    let free = ball_at(8, (90_000, 0), 0, 0);
    let mut balls = vec![free, held];
    ball_follow(&p, &mut balls, 32_000);
    assert_eq!(balls[1].pos, (22_000, 4_000));
    assert_eq!(balls[1].hold, 1);
    // The other ball is untouched.
    assert_eq!(balls[0].pos, (90_000, 0));
}

#[test]
fn follow_with_empty_hand_changes_nothing() {
    let p = create_player((-10_000, 4_000), 1);
    let b = ball_at(8, (90_000, 0), 0, 0);
    let mut balls = vec![b];
    ball_follow(&p, &mut balls, 32_000);
    assert_eq!(balls[0].pos, (90_000, 0));
    assert_eq!(balls[0].hold, 0);
}
