use boids::angle::{HALF_PI, TWO_PI};
use boids::object::{Boid, LONG_AGO};
use boids::point::Point;
use boids::units::{COORD_LIMIT, FRAME_LIMIT};
use boids::world::{compute_correction, spawn, Correction, Rejection, World};

const WIDTH: i64 = 800_000_000;
const HEIGHT: i64 = 600_000_000;

fn agent(x: i64, y: i64, direction: i64, velocity: i64, ang_velocity: i64, clock: i64) -> Boid {
    let mut boid = Boid::new(Point { x, y });
    boid.direction = direction;
    boid.velocity = velocity;
    boid.ang_velocity = ang_velocity;
    boid.time_since_wall_avoidance = clock;
    boid
}

fn state(boid: &Boid) -> (i64, i64, i64, i64, i64, i64) {
    (
        boid.position.x,
        boid.position.y,
        boid.direction,
        boid.velocity,
        boid.ang_velocity,
        boid.time_since_wall_avoidance,
    )
}

#[test]
fn correction_sums_the_three_rules() {
    let flock = vec![agent(400_000_000, 300_000_000, 0, 75_000_000, 0, LONG_AGO), agent(420_000_000, 310_000_000, 1_000_000_000, 78_000_000, 0, LONG_AGO)];
    assert_eq!(compute_correction(0, WIDTH, HEIGHT, &flock), Correction { offset: Point { x: -58_557_638, y: -24_993_920 }, avoiding: false });
    assert_eq!(compute_correction(1, WIDTH, HEIGHT, &flock), Correction { offset: Point { x: 62_609_903, y: 31_304_952 }, avoiding: false });
}

#[test]
fn correction_prefers_the_wall() {
    let flock = vec![agent(10_000_000, 300_000_000, 4_712_388_978, 75_000_000, 0, LONG_AGO), agent(20_000_000, 300_000_000, 1_000_000_000, 78_000_000, 0, LONG_AGO)];
    assert_eq!(compute_correction(0, WIDTH, HEIGHT, &flock), Correction { offset: Point { x: 1_446_125, y: 1_446_125 }, avoiding: true });
}

#[test]
fn correction_falls_back_to_the_flock_where_the_wall_push_is_undefined() {
    let flock = vec![agent(795_000_000, 300_000_000, 0, 75_000_000, 0, LONG_AGO), agent(795_000_000, 300_000_000, 0, 75_000_000, 0, 0)];
    let heeding = compute_correction(0, WIDTH, HEIGHT, &flock);
    assert!(!heeding.avoiding);
    assert_eq!(heeding.offset, Point { x: 0, y: 0 });
    let cooling = compute_correction(1, WIDTH, HEIGHT, &flock);
    assert_eq!(cooling, Correction { offset: Point { x: 0, y: 0 }, avoiding: false });
}

#[test]
fn correction_is_zero_during_the_cooldown() {
    let mut flock = vec![agent(400_000_000, 300_000_000, 0, 75_000_000, 0, 2_999_999), agent(420_000_000, 310_000_000, 1_000_000_000, 78_000_000, 0, LONG_AGO)];
    assert_eq!(
        compute_correction(0, WIDTH, HEIGHT, &flock),
        Correction { offset: Point { x: 0, y: 0 }, avoiding: false }
    );
    flock[0].time_since_wall_avoidance = 3_000_000;
    assert_eq!(compute_correction(0, WIDTH, HEIGHT, &flock), Correction { offset: Point { x: -58_557_638, y: -24_993_920 }, avoiding: false });
    flock[0].time_since_wall_avoidance = 0;
    assert_eq!(
        compute_correction(0, WIDTH, HEIGHT, &flock),
        Correction { offset: Point { x: 0, y: 0 }, avoiding: false }
    );
}

#[test]
fn flocking_is_suppressed_for_three_seconds_after_a_wall() {
    let flock = vec![agent(10_000_000, 300_000_000, 4_712_388_978, 75_000_000, 0, LONG_AGO), agent(420_000_000, 310_000_000, 1_000_000_000, 78_000_000, 0, LONG_AGO)];
    let mut world = World::new(flock, WIDTH, HEIGHT).unwrap();
    assert!(compute_correction(0, WIDTH, HEIGHT, &world.boids).avoiding);
    assert_eq!(world.step(500_000), Ok(()));
    assert_eq!(state(&world.boids[0]), (10_000_000, 262_500_000, 5_890_486_222, 75_000_000, 2_356_194_489, 500_000));
    world.boids[0].position = Point { x: 420_000_000, y: 300_000_000 };
    let mut elapsed: i64 = 500_000;
    while elapsed < 3_000_000 {
        let c = compute_correction(0, WIDTH, HEIGHT, &world.boids);
        assert_eq!(c, Correction { offset: Point { x: 0, y: 0 }, avoiding: false });
        assert_eq!(world.boids[0].time_since_wall_avoidance, elapsed);
        assert_eq!(world.step(500_000), Ok(()));
        assert_eq!(world.boids[0].ang_velocity, 0);
        assert_eq!(world.boids[0].direction, 5_890_486_222);
        let beside = world.boids[1].position;
        world.boids[0].position = Point { x: beside.x, y: beside.y - 10_000_000 };
        elapsed += 500_000;
    }
    assert_eq!(world.boids[0].time_since_wall_avoidance, 3_000_000);
    assert_eq!(compute_correction(0, WIDTH, HEIGHT, &world.boids), Correction { offset: Point { x: 4_052_265, y: -63_688_968 }, avoiding: false });
    assert_eq!(world.step(500_000), Ok(()));
    assert_eq!(state(&world.boids[0]), (581_076_168, 482_553_602, 4_775_929_182, 75_000_000, -2_356_194_489, 3_500_000));
}

#[test]
fn two_agents_follow_a_fixed_course() {
    let flock = vec![agent(400_000_000, 300_000_000, 0, 75_000_000, 0, LONG_AGO), agent(420_000_000, 310_000_000, 1_000_000_000, 78_000_000, 0, LONG_AGO)];
    let mut world = World::new(flock, WIDTH, HEIGHT).unwrap();
    let first: [(i64, i64, i64); 10] = [
        (401_250_025, 300_000_000, 6_243_914_611),
        (402_499_086, 299_950_923, 6_204_643_918),
        (403_745_257, 299_852_845, 6_165_373_225),
        (404_986_616, 299_705_918, 6_126_102_532),
        (406_221_250, 299_510_367, 6_086_831_839),
        (407_447_255, 299_266_495, 6_047_561_146),
        (408_662_740, 298_974_677, 6_008_290_453),
        (409_865_831, 298_635_363, 5_969_019_760),
        (411_054_673, 298_249_077, 5_929_749_067),
        (412_227_432, 297_816_414, 5_890_478_374),
    ];
    let second: [(i64, i64, i64); 10] = [
        (420_702_406, 311_093_934, 1_000_000_000),
        (421_404_812, 312_187_868, 1_000_000_000),
        (422_107_218, 313_281_802, 1_000_000_000),
        (422_809_624, 314_375_736, 1_000_000_000),
        (423_512_030, 315_469_670, 1_000_000_000),
        (424_214_436, 316_563_604, 1_000_000_000),
        (424_916_842, 317_657_538, 1_000_000_000),
        (425_619_248, 318_751_472, 1_000_000_000),
        (426_321_654, 319_845_406, 1_000_000_000),
        (427_024_060, 320_939_340, 1_000_000_000),
    ];
    let mut frame: usize = 0;
    while frame < 10 {
        assert_eq!(world.step(16_667), Ok(()));
        let a = &world.boids[0];
        let b = &world.boids[1];
        assert_eq!((a.position.x, a.position.y, a.direction), first[frame], "frame {}", frame);
        assert_eq!((b.position.x, b.position.y, b.direction), second[frame], "frame {}", frame);
        assert_eq!(a.ang_velocity, -2_356_194_489);
        assert_eq!(b.ang_velocity, 0);
        assert_eq!(a.time_since_wall_avoidance, LONG_AGO + 16_667 * (frame as i64 + 1));
        frame += 1;
    }
    assert_eq!(world.width, WIDTH);
    assert_eq!(world.height, HEIGHT);
}

#[test]
fn an_agent_snaps_to_the_direction_of_its_correction() {
    let flock = vec![agent(300_000_000, 400_000_000, 0, 75_000_000, 0, LONG_AGO), agent(700_000_000, 100_000_000, 0, 75_000_000, 0, LONG_AGO)];
    let mut world = World::new(flock, WIDTH, HEIGHT).unwrap();
    assert_eq!(world.step(500_000), Ok(()));
    let a = &world.boids[0];
    assert_eq!(state(a), (337_500_000, 400_000_000, 927_295_217, 75_000_000, 2_356_194_489, 1_000_500_000));
    assert!((a.direction as f64 / 1e9 - (4.0f64 / 3.0).atan()).abs() <= 1e-8);
    assert!((a.ang_velocity as f64 / 1e9 - 2.3561945).abs() <= 1e-7);
    assert!((a.position.x as f64 / 1e6 - 337.5).abs() <= 1e-3);
    assert!((a.position.y as f64 / 1e6 - 400.0).abs() <= 1e-3);
}

#[test]
fn the_same_start_gives_the_same_course() {
    let start = vec![
        agent(100_000_000, 100_000_000, 500_000_000, 75_000_000, 0, LONG_AGO),
        agent(120_000_000, 110_000_000, 1_000_000_000, 78_000_000, 0, LONG_AGO),
        agent(700_000_000, 500_000_000, 4_000_000_000, 71_250_000, 0, 0),
    ];
    let mut one = World::new(start.clone(), WIDTH, HEIGHT).unwrap();
    let mut other = World::new(start, WIDTH, HEIGHT).unwrap();
    let mut frame: usize = 0;
    while frame < 200 {
        assert_eq!(one.step(16_667), Ok(()));
        assert_eq!(other.step(16_667), Ok(()));
        frame += 1;
    }
    assert_eq!(one.boids, other.boids);
    let mut i: usize = 0;
    while i < 3 {
        assert!(one.boids[i].is_wf());
        assert!(0 <= one.boids[i].direction && one.boids[i].direction < TWO_PI);
        i += 1;
    }
}

#[test]
fn every_agent_steers_by_the_flock_as_the_frame_found_it() {
    let flock = vec![agent(400_000_000, 300_000_000, 0, 200_000_000, 0, LONG_AGO), agent(440_000_000, 300_000_000, 5_500_000_000, 75_000_000, 0, LONG_AGO)];
    let mut world = World::new(flock, WIDTH, HEIGHT).unwrap();
    let before = world.corrections();
    assert_eq!(before[0], Correction { offset: Point { x: -64_684_975, y: -5_291_550 }, avoiding: false });
    assert_eq!(before[1], Correction { offset: Point { x: 70_000_000, y: 0 }, avoiding: false });
    assert_eq!(world.step(1_000_000), Ok(()));
    assert_eq!(state(&world.boids[0]), (600_000_000, 300_000_000, 3_926_990_815, 200_000_000, -2_356_194_489, 1_001_000_000));
    assert_eq!(state(&world.boids[1]), (493_150_250, 247_084_500, 5_500_000_000, 75_000_000, 0, 1_001_000_000));
}

#[test]
fn step_turns_down_a_frame_time_out_of_range() {
    let flock = vec![agent(400_000_000, 300_000_000, 0, 75_000_000, 0, LONG_AGO)];
    let mut world = World::new(flock, WIDTH, HEIGHT).unwrap();
    assert_eq!(world.step(-1), Err(Rejection::FrameOutOfRange));
    assert_eq!(world.step(FRAME_LIMIT + 1), Err(Rejection::FrameOutOfRange));
    assert_eq!(state(&world.boids[0]), (400_000_000, 300_000_000, 0, 75_000_000, 0, LONG_AGO));
    assert_eq!(world.step(0), Ok(()));
    assert_eq!(state(&world.boids[0]), (400_000_000, 300_000_000, 0, 75_000_000, 0, LONG_AGO));
    assert_eq!(world.step(FRAME_LIMIT), Ok(()));
}

#[test]
fn new_turns_down_what_cannot_be_stepped() {
    let good = agent(400_000_000, 300_000_000, 0, 75_000_000, 0, LONG_AGO);
    assert_eq!(World::new(vec![], WIDTH, HEIGHT).err(), Some(Rejection::EmptyFlock));
    assert_eq!(World::new(vec![], -1, HEIGHT).err(), Some(Rejection::EmptyFlock));
    assert_eq!(
        World::new(vec![good; 1_000_001], WIDTH, HEIGHT).err(),
        Some(Rejection::FlockTooLarge)
    );
    assert_eq!(World::new(vec![good], -1, HEIGHT).err(), Some(Rejection::ScreenOutOfRange));
    assert_eq!(
        World::new(vec![good], WIDTH, COORD_LIMIT + 1).err(),
        Some(Rejection::ScreenOutOfRange)
    );
    let bad = agent(400_000_000, 300_000_000, TWO_PI, 75_000_000, 0, LONG_AGO);
    assert_eq!(World::new(vec![good, bad], WIDTH, HEIGHT).err(), Some(Rejection::AgentOutOfRange));
    assert_eq!(World::new(vec![bad], -1, HEIGHT).err(), Some(Rejection::ScreenOutOfRange));
    let made = World::new(vec![good, good], 0, COORD_LIMIT).unwrap();
    assert_eq!(made.boids.len(), 2);
    assert_eq!((made.width, made.height), (0, COORD_LIMIT));
}

#[test]
fn resize_takes_sides_within_range() {
    let flock = vec![agent(400_000_000, 300_000_000, 0, 75_000_000, 0, LONG_AGO)];
    let mut world = World::new(flock, WIDTH, HEIGHT).unwrap();
    assert_eq!(world.resize(1_024_000_000, 768_000_000), Ok(()));
    assert_eq!((world.width, world.height), (1_024_000_000, 768_000_000));
    assert_eq!(world.resize(-1, 768_000_000), Err(Rejection::ScreenOutOfRange));
    assert_eq!(world.resize(1_024_000_000, COORD_LIMIT + 1), Err(Rejection::ScreenOutOfRange));
    assert_eq!((world.width, world.height), (1_024_000_000, 768_000_000));
}

#[test]
fn spawn_sets_heading_and_speed() {
    let boid = spawn(3_000, 4_000, TWO_PI + 5, 95);
    assert_eq!(state(&boid), (3_000, 4_000, 5, 71_250_000, 0, LONG_AGO));
    assert_eq!(spawn(0, 0, -1, 104).velocity, 78_000_000);
    assert_eq!(spawn(0, 0, -1, 104).direction, TWO_PI - 1);
    assert_eq!(spawn(0, 0, 0, 100).velocity, 75_000_000);
    assert_eq!(spawn(0, 0, 0, -1).velocity, -750_000);
}

#[test]
fn populate_scatters_agents_over_the_screen() {
    let world = World::populate(500, WIDTH, HEIGHT).unwrap();
    assert_eq!(world.boids.len(), 500);
    assert_eq!((world.width, world.height), (WIDTH, HEIGHT));
    let mut i: usize = 0;
    let mut varied = false;
    while i < 500 {
        let b = &world.boids[i];
        assert!(0 <= b.position.x && b.position.x < WIDTH);
        assert!(0 <= b.position.y && b.position.y < HEIGHT);
        assert!(0 <= b.direction && b.direction < TWO_PI);
        assert!(71_250_000 <= b.velocity && b.velocity <= 78_000_000);
        assert_eq!(b.ang_velocity, 0);
        assert_eq!(b.time_since_wall_avoidance, LONG_AGO);
        assert!(b.is_wf());
        if b.position != world.boids[0].position {
            varied = true;
        }
        i += 1;
    }
    assert!(varied);
}

#[test]
fn populate_on_the_smallest_screen() {
    let world = World::populate(3, 1, 1).unwrap();
    let mut i: usize = 0;
    while i < 3 {
        assert_eq!(world.boids[i].position, Point { x: 0, y: 0 });
        i += 1;
    }
}

#[test]
fn populate_turns_down_bad_requests() {
    assert_eq!(World::populate(0, WIDTH, HEIGHT).err(), Some(Rejection::EmptyFlock));
    assert_eq!(World::populate(1_000_001, WIDTH, HEIGHT).err(), Some(Rejection::FlockTooLarge));
    assert_eq!(World::populate(10, 0, HEIGHT).err(), Some(Rejection::ScreenOutOfRange));
    assert_eq!(World::populate(10, WIDTH, COORD_LIMIT + 1).err(), Some(Rejection::ScreenOutOfRange));
    assert_eq!(World::populate(0, 0, 0).err(), Some(Rejection::EmptyFlock));
}
