use astroblasto::entities::BallIdAlloc;
use astroblasto::entities::InputState;
use astroblasto::entities::PhysType;
use astroblasto::game::GameState;
use astroblasto::game::create_balls;
use astroblasto::game::reset_field;
use astroblasto::game::world_to_screen_coords;

fn hold_intent() -> InputState {
    InputState { xaxis1pos: 0, xaxis1neg: 0, yaxis1pos: 0, yaxis1neg: 0, holdball: true }
}

#[test]
fn six_balls_form_two_symmetric_columns() {
    // Field width 640 px, six balls: two pairs at +-100 px, one at +-150 px,
    // Y offsets symmetric around zero in 72 px steps.
    let g = GameState::new(640_000, 480_000, 6);
    assert_eq!(g.balls.len(), 6);
    let positions: Vec<(i64, i64)> = g.balls.iter().map(|b| b.pos).collect();
    assert_eq!(
        positions,
        vec![
            (-100_000, -36_000),
            (100_000, -36_000),
            (-100_000, 36_000),
            (100_000, 36_000),
            (-150_000, 0),
            (150_000, 0),
        ]
    );
    let left = positions.iter().filter(|p| p.0 < 0).count();
    let right = positions.iter().filter(|p| p.0 > 0).count();
    assert_eq!(left, 3);
    assert_eq!(right, 3);
    for b in g.balls.iter() {
        assert!(matches!(b.tag, PhysType::Ball));
        assert_eq!(b.hold, 0);
        assert_eq!(b.x_velocity, 0);
        assert_eq!(b.y_velocity, 0);
    }
    // Ball ids count up from just above the player ids.
    let ids: Vec<u64> = g.balls.iter().map(|b| b.id).collect();
    assert_eq!(ids, vec![3, 4, 5, 6, 7, 8]);
    // Players sit at three eighths of the width from center.
    assert_eq!(g.player1.pos, (-240_000, 0));
    assert_eq!(g.player2.pos, (240_000, 0));
    assert_eq!(g.player1.id, 1);
    assert_eq!(g.player2.id, 2);
    assert_eq!(g.score1, 0);
    assert_eq!(g.score2, 0);
}

#[test]
fn ball_ids_stay_unique_across_resets() {
    let mut ids = BallIdAlloc::new();
    let (_, _, first) = reset_field(640_000, 6, &mut ids);
    let (_, _, second) = reset_field(640_000, 6, &mut ids);
    let first_ids: Vec<u64> = first.iter().map(|b| b.id).collect();
    let second_ids: Vec<u64> = second.iter().map(|b| b.id).collect();
    assert_eq!(first_ids, vec![3, 4, 5, 6, 7, 8]);
    assert_eq!(second_ids, vec![9, 10, 11, 12, 13, 14]);
}

#[test]
fn two_balls_make_a_single_inner_pair() {
    let mut ids = BallIdAlloc::new();
    let balls = create_balls(2, &mut ids);
    assert_eq!(balls.len(), 2);
    assert_eq!(balls[0].pos, (-100_000, 0));
    assert_eq!(balls[1].pos, (100_000, 0));
}

#[test]
fn tick_with_neutral_input_moves_nothing_fresh() {
    let mut g = GameState::new(640_000, 480_000, 6);
    g.update(16);
    assert_eq!(g.player1.pos, (-240_000, 0));
    assert_eq!(g.player2.pos, (240_000, 0));
    assert_eq!(g.balls[0].pos, (-100_000, -36_000));
    assert_eq!(g.score1, 0);
    assert_eq!(g.score2, 0);
}

#[test]
fn tick_applies_intent_and_moves_the_player() {
    let mut g = GameState::new(640_000, 480_000, 6);
    g.input1 = InputState { xaxis1pos: 1000, xaxis1neg: 0, yaxis1pos: 0, yaxis1neg: 0, holdball: false };
    g.update(16);
    // One tick of full positive X intent: velocity 8 px/s, moved 0.128 px.
    assert_eq!(g.player1.x_velocity, 8_000);
    assert_eq!(g.player1.pos, (-239_872, 0));
}

#[test]
fn tick_pickup_attaches_the_first_free_ball_in_reach() {
    let mut g = GameState::new(640_000, 480_000, 6);
    // Stand player 1 on the inner-left ball and ask to hold.
    g.player1.pos = (-100_000, -36_000);
    g.input1 = hold_intent();
    g.update(16);
    assert_eq!(g.player1.hold, 3);
    let held = g.balls.iter().find(|b| b.id == 3).unwrap();
    assert_eq!(held.hold, 1);
    // The carried ball rides 32 px beside its holder.
    assert_eq!(held.pos, (g.player1.pos.0 + 32_000, g.player1.pos.1));
    // Nothing else was acquired.
    assert_eq!(g.balls.iter().filter(|b| b.hold != 0).count(), 1);
}

#[test]
fn tick_holding_acquires_no_second_ball() {
    let mut g = GameState::new(640_000, 480_000, 6);
    g.player1.pos = (-100_000, -36_000);
    g.input1 = hold_intent();
    g.update(16);
    assert_eq!(g.player1.hold, 3);
    // Move onto another free ball while still holding: nothing changes hands.
    g.player1.pos = (-100_000, 36_000);
    g.player1.x_velocity = 0;
    g.player1.y_velocity = 0;
    g.update(16);
    assert_eq!(g.player1.hold, 3);
    let other = g.balls.iter().find(|b| b.id == 5).unwrap();
    assert_eq!(other.hold, 0);
}

#[test]
fn tick_release_throws_with_the_players_velocity() {
    let mut g = GameState::new(640_000, 480_000, 6);
    g.player1.pos = (-100_000, -36_000);
    g.input1 = hold_intent();
    g.update(16);
    assert_eq!(g.player1.hold, 3);
    g.player1.x_velocity = 100_000;
    g.player1.y_velocity = 0;
    g.input1 = InputState { holdball: false, ..hold_intent() };
    g.update(16);
    assert_eq!(g.player1.hold, 0);
    let thrown = g.balls.iter().find(|b| b.id == 3).unwrap();
    assert_eq!(thrown.hold, 0);
    // The throw hands over the player's velocity; one tick of drag then
    // slows the free ball: 100 000 - 20*16*100000/100000 = 99 680.
    assert_eq!(thrown.x_velocity, 99_680);
}

#[test]
fn score_resets_the_field_and_increments_one_score() {
    let mut g = GameState::new(640_000, 480_000, 6);
    // Player 2 carries ball 3 right up to player 1's position; the pinned
    // ball (32 px left of its holder) overlaps player 1, which is the
    // scoring condition for player 2.
    g.player1.pos = (-10_000, 0);
    g.player2.pos = (10_000, 0);
    g.player2.hold = 3;
    {
        let b = g.balls.iter_mut().find(|b| b.id == 3).unwrap();
        b.hold = 2;
        b.pos = (10_000, 0);
    }
    g.input2 = hold_intent();
    g.update(16);
    assert_eq!(g.score2, 1);
    assert_eq!(g.score1, 0);
    // The whole field returns to the deterministic layout, with fresh ids.
    assert_eq!(g.player1.pos, (-240_000, 0));
    assert_eq!(g.player2.pos, (240_000, 0));
    assert_eq!(g.player1.hold, 0);
    assert_eq!(g.player2.hold, 0);
    let positions: Vec<(i64, i64)> = g.balls.iter().map(|b| b.pos).collect();
    assert_eq!(
        positions,
        vec![
            (-100_000, -36_000),
            (100_000, -36_000),
            (-100_000, 36_000),
            (100_000, 36_000),
            (-150_000, 0),
            (150_000, 0),
        ]
    );
    let ids: Vec<u64> = g.balls.iter().map(|b| b.id).collect();
    assert_eq!(ids, vec![9, 10, 11, 12, 13, 14]);
    for b in g.balls.iter() {
        assert_eq!(b.hold, 0);
        assert_eq!(b.x_velocity, 0);
        assert_eq!(b.y_velocity, 0);
    }
}

#[test]
fn a_match_with_no_balls_still_ticks() {
    let mut g = GameState::new(640_000, 480_000, 0);
    assert_eq!(g.balls.len(), 0);
    g.input1 = InputState { xaxis1pos: 1000, xaxis1neg: 0, yaxis1pos: 0, yaxis1neg: 0, holdball: true };
    g.update(16);
    assert_eq!(g.player1.hold, 0);
    assert_eq!(g.score1, 0);
    assert_eq!(g.score2, 0);
}

#[test]
fn a_thrown_ball_bounces_back_from_the_wall() {
    let mut g = GameState::new(640_000, 480_000, 6);
    // Give the outer-right ball a hard push toward the right wall.
    {
        let b = g.balls.iter_mut().find(|b| b.id == 8).unwrap();
        assert_eq!(b.pos, (150_000, 0));
        b.x_velocity = 200_000;
    }
    for _ in 0..60 {
        g.update(16);
    }
    let b = g.balls.iter().find(|b| b.id == 8).unwrap();
    // After a second it has hit the wall once and is heading back left,
    // still inside the field.
    assert!(b.x_velocity < 0);
    assert!(b.pos.0 <= 320_000);
    assert!(b.pos.0 >= -320_000);
}

#[test]
fn world_to_screen_flips_y_and_recenters() {
    assert_eq!(world_to_screen_coords(640_000, 480_000, (0, 0)), (320_000, 240_000));
    assert_eq!(
        world_to_screen_coords(640_000, 480_000, (-320_000, 240_000)),
        (0, 0)
    );
}

#[test]
fn default_input_is_neutral() {
    let i = InputState::default();
    assert_eq!(i.xaxis1pos, 0);
    assert_eq!(i.xaxis1neg, 0);
    assert_eq!(i.yaxis1pos, 0);
    assert_eq!(i.yaxis1neg, 0);
    assert!(!i.holdball);
}
