use boids::angle::{HALF_PI, PI, TWO_PI};
use boids::object::{
    decide_steering, pursue, Boid, Color, Object, Shape, Triangle, CLOCK_LIMIT, DEADZONE,
    LONG_AGO, MAX_TURN_RATE,
};
use boids::point::Point;
use boids::units::{COORD_LIMIT, SPEED_LIMIT};

fn agent(x: i64, y: i64, direction: i64, velocity: i64, ang_velocity: i64, clock: i64) -> Boid {
    let mut boid = Boid::new(Point { x, y });
    boid.direction = direction;
    boid.velocity = velocity;
    boid.ang_velocity = ang_velocity;
    boid.time_since_wall_avoidance = clock;
    boid
}

#[test]
fn new_agent_is_at_rest() {
    let boid = Boid::new(Point { x: 12_000, y: -5_000 });
    assert_eq!(*boid.position(), Point { x: 12_000, y: -5_000 });
    assert_eq!(boid.direction(), 0);
    assert_eq!(boid.velocity(), 0);
    assert_eq!(boid.ang_velocity(), 0);
    assert_eq!(boid.time_since_wall_avoidance, LONG_AGO);
    assert_eq!(boid.time_since_wall_avoidance, 1_000_000_000);
    assert_eq!(
        *boid.shape().points(),
        [
            Point { x: 4_000_000, y: 0 },
            Point { x: -4_000_000, y: -3_000_000 },
            Point { x: -4_000_000, y: 3_000_000 }
        ]
    );
    assert_eq!(*boid.shape().color(), Color { r: 0, g: 0, b: 0, a: 255 });
    assert!(boid.is_wf());
}

#[test]
fn accessors_open_the_fields_to_change() {
    let mut boid = Boid::new(Point { x: 0, y: 0 });
    boid.position_mut().set(3_000, 4_000);
    *boid.velocity_mut() = 75_000;
    *boid.ang_velocity_mut() = -7;
    boid.shape_mut().color_mut().r = 200;
    boid.shape_mut().points_mut()[0] = Point { x: 9_000, y: 0 };
    assert_eq!(*boid.position(), Point { x: 3_000, y: 4_000 });
    assert_eq!(boid.velocity(), 75_000);
    assert_eq!(boid.ang_velocity(), -7);
    assert_eq!(boid.shape().color().r, 200);
    assert_eq!(boid.shape().points()[0], Point { x: 9_000, y: 0 });
    assert_eq!(boid.shape().points()[1], Point { x: -4_000_000, y: -3_000_000 });
}

#[test]
fn add_direction_wraps_into_one_turn() {
    let mut boid = Boid::new(Point { x: 0, y: 0 });
    boid.add_direction(-1);
    assert_eq!(boid.direction, TWO_PI - 1);
    boid.add_direction(2);
    assert_eq!(boid.direction, 1);
    boid.add_direction(3 * TWO_PI + 10);
    assert_eq!(boid.direction, 11);
    boid.add_direction(-11);
    assert_eq!(boid.direction, 0);
    boid.add_direction(i64::MAX);
    assert!(0 <= boid.direction && boid.direction < TWO_PI);
    boid.add_direction(i64::MIN);
    assert!(0 <= boid.direction && boid.direction < TWO_PI);
}

#[test]
fn set_direction_wraps_into_one_turn() {
    let mut boid = Boid::new(Point { x: 0, y: 0 });
    boid.set_direction(1_234_567);
    assert_eq!(boid.direction, 1_234_567);
    boid.set_direction(TWO_PI);
    assert_eq!(boid.direction, 0);
    boid.set_direction(-HALF_PI);
    assert_eq!(boid.direction, 3 * HALF_PI);
}

#[test]
fn advance_moves_along_the_heading_and_turns() {
    let mut a = agent(100_000_000, 200_000_000, 1_000_000_000, 75_000_000, 2_356_194_489, LONG_AGO);
    a.advance(16_667);
    assert_eq!(a, agent(100_675_391, 201_051_859, 1_039_270_693, 75_000_000, 2_356_194_489, LONG_AGO));
    let mut b = agent(100_000_000, 200_000_000, 1_000_000_000, 75_000_000, 2_356_194_489, LONG_AGO);
    b.advance(1_000_000);
    assert_eq!(b, agent(140_522_650, 263_110_325, 3_356_194_489, 75_000_000, 2_356_194_489, LONG_AGO));
    assert!((b.position.x as f64 / 1e6 - (100.0 + 75.0 * 1.0f64.cos())).abs() <= 1e-3);
    assert!((b.position.y as f64 / 1e6 - (200.0 + 75.0 * 1.0f64.sin())).abs() <= 1e-3);
}

#[test]
fn advance_wraps_the_heading_both_ways() {
    let mut a = agent(0, 0, 6_000_000_000, 75_000_000, 2_356_194_489, LONG_AGO);
    a.advance(1_000_000);
    assert_eq!(a, agent(72_012_750, -20_956_125, 2_073_009_185, 75_000_000, 2_356_194_489, LONG_AGO));
    let mut b = agent(0, 0, 100_000_000, 75_000_000, -2_356_194_489, LONG_AGO);
    b.advance(1_000_000);
    assert_eq!(b, agent(74_625_300, 7_487_475, 4_026_990_815, 75_000_000, -2_356_194_489, LONG_AGO));
}

#[test]
fn advance_without_time_changes_nothing() {
    let mut a = agent(1, 2, 3, 4, 5, 6);
    a.advance(0);
    assert_eq!(a, agent(1, 2, 3, 4, 5, 6));
}

#[test]
fn advance_takes_any_time() {
    let mut a = agent(0, 0, 0, i64::MAX, 1, LONG_AGO);
    a.advance(i64::MAX);
    assert_eq!(a.position, Point { x: COORD_LIMIT, y: 0 });
    assert_eq!(a.direction, 5_939_195_886);
    let mut b = agent(0, 0, 0, i64::MIN, 0, LONG_AGO);
    b.advance(i64::MAX);
    assert_eq!(b.position, Point { x: -COORD_LIMIT, y: 0 });
    let mut c = agent(0, 0, 0, i64::MIN, 0, LONG_AGO);
    c.advance(i64::MIN);
    assert_eq!(c.position, Point { x: COORD_LIMIT, y: 0 });
    let mut d = agent(5, 5, 0, 75_000_000, -1_000_000, LONG_AGO);
    d.advance(-1_000_000);
    assert_eq!(d.position, Point { x: 5 - 75_000_000, y: 5 });
    assert_eq!(d.direction, 1_000_000);
}

#[test]
fn advance_stops_at_the_edge_of_the_plane() {
    let mut a = agent(999_999_999_990, -999_999_999_990, 785_398_163, 1_000_000_000_000, 0, LONG_AGO);
    a.advance(1_000_000);
    assert_eq!(a.position, Point { x: 1_000_000_000_000, y: -292_892_999_990 });
    assert_eq!(a.position.x, COORD_LIMIT);
    assert_eq!(a.direction, 785_398_163);
}

#[test]
fn heading_stays_wrapped_over_many_frames() {
    let mut a = agent(0, 0, 0, 75_000_000, 0, LONG_AGO);
    let rates: [i64; 7] =
        [2_356_194_489, -2_356_194_489, 9_000_000_000_000, -9_000_000_000_000, 1, -1, i64::MIN];
    let times: [i64; 5] = [0, 1, 16_667, 999_999, 1_000_000_000];
    let mut frame: usize = 0;
    while frame < 700 {
        a.ang_velocity = rates[frame % 7];
        a.advance(times[frame % 5]);
        assert!(0 <= a.direction && a.direction < TWO_PI);
        frame += 1;
    }
}

#[test]
fn tick_counts_up_and_restarts() {
    let mut a = agent(0, 0, 0, 0, 0, 5_000_000);
    a.tick(false, 16_667);
    assert_eq!(a.time_since_wall_avoidance, 5_016_667);
    a.tick(true, 16_667);
    assert_eq!(a.time_since_wall_avoidance, 16_667);
    a.tick(false, 0);
    assert_eq!(a.time_since_wall_avoidance, 16_667);
}

#[test]
fn tick_stops_at_the_limit() {
    let mut a = agent(0, 0, 0, 0, 0, CLOCK_LIMIT - 5);
    a.tick(false, 1_000_000_000);
    assert_eq!(a.time_since_wall_avoidance, CLOCK_LIMIT);
    a.tick(false, 1);
    assert_eq!(a.time_since_wall_avoidance, CLOCK_LIMIT);
}

#[test]
fn steering_turns_toward_the_correction() {
    let up = decide_steering(0, &Point { x: 0, y: 1_000 }, 16_667);
    assert_eq!((up.target, up.rate, up.snap), (HALF_PI, MAX_TURN_RATE, false));
    let down = decide_steering(0, &Point { x: 0, y: -1_000 }, 16_667);
    assert_eq!((down.target, down.rate, down.snap), (3 * HALF_PI, -MAX_TURN_RATE, false));
    let back = decide_steering(3_000_000_000, &Point { x: 1_000, y: 0 }, 16_667);
    assert_eq!((back.target, back.rate, back.snap), (0, -MAX_TURN_RATE, false));
    let across = decide_steering(6_000_000_000, &Point { x: 1_000, y: 1_000 }, 16_667);
    assert_eq!((across.target, across.rate, across.snap), (785_398_163, MAX_TURN_RATE, false));
    let behind = decide_steering(0, &Point { x: -1_000, y: 0 }, 16_667);
    assert_eq!((behind.target, behind.rate, behind.snap), (PI, MAX_TURN_RATE, false));
}

#[test]
fn steering_ignores_errors_inside_the_dead_zone() {
    let edge = decide_steering(0, &Point { x: 1_000, y: 1_000 }, 16_667);
    assert_eq!(edge.target, DEADZONE);
    assert_eq!(edge.rate, MAX_TURN_RATE);
    let inside = decide_steering(0, &Point { x: 1_000, y: 999 }, 16_667);
    assert_eq!((inside.target, inside.rate, inside.snap), (784_897_913, 0, false));
    let strong = decide_steering(0, &Point { x: 1_000_000_000, y: 999_000_000 }, 1_000_000_000);
    assert_eq!((strong.rate, strong.snap), (0, false));
    let below = decide_steering(1_000_000_000, &Point { x: 1_000, y: 1_000 }, 16_667);
    assert_eq!((below.rate, below.snap), (0, false));
}

#[test]
fn steering_ignores_a_zero_correction() {
    let none = decide_steering(3_000_000_000, &Point { x: 0, y: 0 }, 1_000_000);
    assert_eq!((none.target, none.rate, none.snap), (0, 0, false));
}

#[test]
fn steering_snaps_when_the_target_is_within_reach() {
    let far = decide_steering(0, &Point { x: 1_000, y: 1_000 }, 333_333);
    assert_eq!((far.rate, far.snap), (MAX_TURN_RATE, false));
    let near = decide_steering(0, &Point { x: 1_000, y: 1_000 }, 333_334);
    assert_eq!((near.rate, near.snap), (MAX_TURN_RATE, true));
    let half = decide_steering(0, &Point { x: -1_000, y: 0 }, 2_000_000);
    assert_eq!((half.target, half.rate, half.snap), (PI, MAX_TURN_RATE, true));
}

#[test]
fn update_sets_the_heading_to_the_target_when_it_snaps() {
    let mut a = agent(100_000_000, 100_000_000, 0, 75_000_000, 0, 5_000_000);
    a.update(&Point { x: 1_000, y: 1_000 }, false, 400_000);
    assert_eq!(a, agent(130_000_000, 100_000_000, 785_398_163, 75_000_000, 2_356_194_489, 5_400_000));
}

#[test]
fn update_turns_step_by_step_otherwise() {
    let mut a = agent(100_000_000, 100_000_000, 0, 75_000_000, 0, 5_000_000);
    a.update(&Point { x: 1_000, y: 1_000 }, true, 16_667);
    assert_eq!(a, agent(101_250_025, 100_000_000, 39_270_693, 75_000_000, 2_356_194_489, 16_667));
}

#[test]
fn update_resets_the_turn_rate_when_no_turn_is_needed() {
    let mut a = agent(100_000_000, 100_000_000, 0, 75_000_000, MAX_TURN_RATE, 5_000_000);
    a.update(&Point { x: 0, y: 0 }, false, 16_667);
    assert_eq!(a, agent(101_250_025, 100_000_000, 0, 75_000_000, 0, 5_016_667));
    let mut b = agent(100_000_000, 100_000_000, 0, 75_000_000, -MAX_TURN_RATE, 5_000_000);
    b.update(&Point { x: 1_000, y: 100 }, false, 16_667);
    assert_eq!(b, agent(101_250_025, 100_000_000, 0, 75_000_000, 0, 5_016_667));
}

#[test]
fn placed_turns_and_moves_the_corners() {
    let t = Triangle::arrowhead();
    let at = Point { x: 100_000_000, y: 200_000_000 };
    assert_eq!(
        t.placed(&at, 0),
        [
            Point { x: 104_000_000, y: 200_000_000 },
            Point { x: 96_000_000, y: 197_000_000 },
            Point { x: 96_000_000, y: 203_000_000 },
        ]
    );
    assert_eq!(
        t.placed(&at, HALF_PI),
        [
            Point { x: 100_000_000, y: 204_000_000 },
            Point { x: 103_000_000, y: 196_000_000 },
            Point { x: 97_000_000, y: 196_000_000 },
        ]
    );
    assert_eq!(
        t.placed(&at, 1_000_000_000),
        [
            Point { x: 102_161_208, y: 203_365_884 },
            Point { x: 100_363_205, y: 195_013_210 },
            Point { x: 95_314_379, y: 198_255_022 },
        ]
    );
    assert_eq!(
        t.placed(&at, PI),
        [
            Point { x: 96_000_000, y: 200_000_000 },
            Point { x: 104_000_000, y: 203_000_000 },
            Point { x: 104_000_000, y: 197_000_000 },
        ]
    );
}

#[test]
fn well_formedness_is_checked_field_by_field() {
    assert!(agent(0, 0, 0, 0, 0, 0).is_wf());
    assert!(agent(COORD_LIMIT, -COORD_LIMIT, TWO_PI - 1, SPEED_LIMIT, i64::MAX, CLOCK_LIMIT).is_wf());
    assert!(!agent(COORD_LIMIT + 1, 0, 0, 0, 0, 0).is_wf());
    assert!(!agent(0, -COORD_LIMIT - 1, 0, 0, 0, 0).is_wf());
    assert!(!agent(0, 0, TWO_PI, 0, 0, 0).is_wf());
    assert!(!agent(0, 0, -1, 0, 0, 0).is_wf());
    assert!(!agent(0, 0, 0, SPEED_LIMIT + 1, 0, 0).is_wf());
    assert!(!agent(0, 0, 0, 0, 0, -1).is_wf());
    assert!(!agent(0, 0, 0, 0, 0, CLOCK_LIMIT + 1).is_wf());
}

#[test]
fn pursue_turns_toward_the_pointer() {
    assert_eq!(pursue(0, 50_000_001), 1_000_000_000);
    assert_eq!(pursue(0, 50_000_000), 0);
    assert_eq!(pursue(0, TWO_PI - 50_000_000), 0);
    assert_eq!(pursue(0, TWO_PI - 50_000_001), -1_000_000_000);
    assert_eq!(pursue(1_000_000_000, 1_000_000_000), 0);
    assert_eq!(pursue(0, PI), 1_000_000_000);
    assert_eq!(pursue(PI, 0), -1_000_000_000);
    assert_eq!(pursue(6_000_000_000, 100_000_000), 1_000_000_000);
}

#[test]
fn apply_steering_sets_the_turn_rate() {
    let mut a = agent(0, 0, 0, 75_000, 7, LONG_AGO);
    assert_eq!(a.apply_steering(&Point { x: 0, y: 1_000 }, 16_667), None);
    assert_eq!(a, agent(0, 0, 0, 75_000, MAX_TURN_RATE, LONG_AGO));
    assert_eq!(a.apply_steering(&Point { x: 0, y: 1_000 }, 1_000_000), Some(HALF_PI));
    assert_eq!(a.apply_steering(&Point { x: 1_000, y: 1 }, 1_000_000), None);
    assert_eq!(a, agent(0, 0, 0, 75_000, 0, LONG_AGO));
}
