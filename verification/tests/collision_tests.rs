use astroblasto::collision::ball_drop;
use astroblasto::collision::ball_id_to_elem;
use astroblasto::collision::ball_pickup;
use astroblasto::collision::collision_check;
use astroblasto::collision::collision_check_score;
use astroblasto::entities::PhysObject;
use astroblasto::entities::PhysType;
use astroblasto::entities::ROCK_BBOX;
use astroblasto::entities::create_player;

fn ball_at(id: u64, pos: (i64, i64)) -> PhysObject {
    PhysObject {
        tag: PhysType::Ball,
        id,
        hold: 0,
        pos,
        x_velocity: 0,
        y_velocity: 0,
        bbox_size: ROCK_BBOX,
    }
}

#[test]
fn collision_check_reports_overlaps_in_storage_order() {
    let p = create_player((0, 0), 1);
    // Radii sum to 48 000: centers closer than that overlap.
    let balls = vec![
        ball_at(3, (40_000, 0)),
        ball_at(4, (50_000, 0)),
        ball_at(5, (0, 47_000)),
        ball_at(6, (0, 48_000)),
    ];
    let hits = collision_check(&p, &balls);
    assert_eq!(hits, vec![3, 5]);
}

#[test]
fn ball_id_to_elem_finds_the_first_match() {
    let balls = vec![ball_at(3, (0, 0)), ball_at(4, (0, 0)), ball_at(5, (0, 0))];
    assert_eq!(ball_id_to_elem(&balls, 4), Some(1));
    assert_eq!(ball_id_to_elem(&balls, 9), None);
}

#[test]
fn pickup_takes_the_first_overlapping_free_ball() {
    let mut p = create_player((0, 0), 1);
    let mut taken = ball_at(3, (10_000, 0));
    taken.hold = 2;
    let balls_src = vec![taken, ball_at(4, (20_000, 0)), ball_at(5, (-20_000, 0))];
    let mut balls = balls_src.clone();
    ball_pickup(&mut p, &mut balls);
    // The nearest ball is skipped because the opponent holds it; the
    // tie-break is storage order, not distance.
    assert_eq!(p.hold, 4);
    assert_eq!(balls[1].hold, 1);
    assert_eq!(balls[0].hold, 2);
    assert_eq!(balls[2].hold, 0);
}

#[test]
fn pickup_is_exclusive_while_holding() {
    let mut p = create_player((0, 0), 1);
    p.hold = 9;
    let mut balls = vec![ball_at(3, (10_000, 0))];
    ball_pickup(&mut p, &mut balls);
    assert_eq!(p.hold, 9);
    assert_eq!(balls[0].hold, 0);
}

#[test]
fn pickup_with_nothing_in_reach_changes_nothing() {
    let mut p = create_player((0, 0), 1);
    let mut balls = vec![ball_at(3, (100_000, 0))];
    ball_pickup(&mut p, &mut balls);
    assert_eq!(p.hold, 0);
    assert_eq!(balls[0].hold, 0);
}

#[test]
fn drop_transfers_velocity_and_clears_possession() {
    let mut p = create_player((0, 0), 1);
    p.hold = 3;
    p.x_velocity = 120_000;
    p.y_velocity = -40_000;
    let mut held = ball_at(3, (10_000, 0));
    held.hold = 1;
    let mut balls = vec![held];
    ball_drop(&mut p, &mut balls);
    assert_eq!(p.hold, 0);
    assert_eq!(balls[0].hold, 0);
    assert_eq!(balls[0].x_velocity, 120_000);
    assert_eq!(balls[0].y_velocity, -40_000);
}

#[test]
fn drop_with_empty_hand_changes_nothing() {
    let mut p = create_player((0, 0), 1);
    let mut balls = vec![ball_at(3, (10_000, 0))];
    ball_drop(&mut p, &mut balls);
    assert_eq!(p.hold, 0);
    assert_eq!(balls[0].x_velocity, 0);
}

#[test]
fn score_needs_overlap_and_opposing_possession() {
    let p1 = create_player((0, 0), 1);
    let mut near_theirs = ball_at(3, (10_000, 0));
    near_theirs.hold = 2;
    let mut far_theirs = ball_at(4, (200_000, 0));
    far_theirs.hold = 2;
    let near_free = ball_at(5, (-10_000, 0));

    let balls = vec![far_theirs, near_free, near_theirs];
    assert!(collision_check_score(&p1, &balls, 2));

    let balls_no_score = vec![far_theirs, near_free];
    assert!(!collision_check_score(&p1, &balls_no_score, 2));

    let mut near_own = near_theirs;
    near_own.hold = 1;
    let balls_own = vec![near_own];
    assert!(!collision_check_score(&p1, &balls_own, 2));
}
