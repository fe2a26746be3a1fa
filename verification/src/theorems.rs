//! What holds of the simulation on every input.

use crate::angle::{
    lemma_sine_bounds, lemma_sine_cosine_not_both_full, magnitude_of, theorem_direction_quadrant,
    TWO_PI,
};
use crate::object::{clock_after, heading_error, snaps, steering_rate, within, Boid, DEADZONE};
use crate::point::{lemma_length_dominates, root_fixed, Point};
use crate::roots::{
    floor_root, floor_sqrt, lemma_floor_root_exists, lemma_floor_root_is, lemma_floor_sqrt_bounds,
    lemma_floor_sqrt_exists, lemma_floor_sqrt_of_square, lemma_pow_base_monotone, lemma_pow_step,
};
use crate::rules::{
    compressed, distance, heading_sum, in_margin, lemma_compression_scale, lemma_mul_fixed_unit,
    margin_push, neighbour, push_defined, push_from, senses, separation, separation_sum,
    wall_correction, AVOIDANCE_THRESHOLD, FIRST_ROOT, SECOND_ROOT, SEPARATION_PULL, VIEW_RADIUS,
};
use crate::units::{lemma_div_round_bounds, mul_fixed, COORD_LIMIT, FRAME_LIMIT, SCALE};
use crate::world::{correction_for, flocking, wall_fires, WALL_AVOIDANCE_COOLDOWN};
use vstd::arithmetic::power::pow;
use vstd::prelude::*;

verus! {

/// Bringing the zero vector to unit length leaves it zero.
pub proof fn theorem_zero_has_no_direction()
    ensures
        Point::zero().length() == 0,
        Point::zero().unit() == (0int, 0int),
{
    lemma_floor_sqrt_bounds(0, 0);
}

/// Moving and turning leaves the heading in `[0, TWO_PI)` and the position
/// on the plane, whatever the agent's state, turn rate and frame time were.
pub proof fn theorem_advance_wraps_heading(boid: Boid, dt: int)
    ensures
        0 <= boid.advanced(dt).direction < TWO_PI,
        within(boid.advanced(dt).position, COORD_LIMIT as int),
{
}

/// A frame leaves a well-formed agent well formed: its heading is in
/// `[0, TWO_PI)` whether it was turned step by step or set to the direction
/// of the correction.
pub proof fn theorem_frame_keeps_agent_well_formed(
    boid: Boid,
    correction: Point,
    avoiding: bool,
    dt: int,
)
    requires
        boid.wf(),
        0 <= dt <= FRAME_LIMIT,
    ensures
        boid.updated(correction, avoiding, dt).wf(),
        0 <= boid.updated(correction, avoiding, dt).direction < TWO_PI,
{
    theorem_direction_quadrant(correction.x as int, correction.y as int);
}

/// A frame leaves the heading in `[0, TWO_PI)`, whether it was turned step
/// by step or set to the direction of the correction, whatever the agent's
/// state, the correction and the frame time were.
pub proof fn theorem_frame_wraps_heading(boid: Boid, correction: Point, avoiding: bool, dt: int)
    ensures
        0 <= boid.updated(correction, avoiding, dt).direction < TWO_PI,
{
    theorem_direction_quadrant(correction.x as int, correction.y as int);
}

/// The state of an agent after a run of frames, each given by the
/// correction it brings, whether that correction avoids a wall, and its
/// length in microseconds.
pub open spec fn after_frames(boid: Boid, frames: Seq<(Point, bool, int)>) -> Boid
    decreases frames.len(),
{
    if frames.len() == 0 {
        boid
    } else {
        after_frames(boid, frames.drop_last()).updated(
            frames.last().0,
            frames.last().1,
            frames.last().2,
        )
    }
}

/// After any run of frames, with whatever corrections and frame times
/// within range, a well-formed agent is well formed and its heading is in
/// `[0, TWO_PI)`.
pub proof fn theorem_heading_stays_wrapped(boid: Boid, frames: Seq<(Point, bool, int)>)
    requires
        boid.wf(),
        forall|i: int| 0 <= i < frames.len() ==> 0 <= (#[trigger] frames[i]).2 <= FRAME_LIMIT,
    ensures
        after_frames(boid, frames).wf(),
        0 <= after_frames(boid, frames).direction < TWO_PI,
    decreases frames.len(),
{
    if frames.len() > 0 {
        let earlier: Seq<(Point, bool, int)> = frames.drop_last();
        assert forall|i: int| 0 <= i < earlier.len() implies 0 <= (#[trigger] earlier[i]).2
            <= FRAME_LIMIT by {
            assert(earlier[i] == frames[i]);
        }
        theorem_heading_stays_wrapped(boid, earlier);
        theorem_frame_keeps_agent_well_formed(
            after_frames(boid, earlier),
            frames.last().0,
            frames.last().1,
            frames.last().2,
        );
    }
}

/// After any run of frames, whatever the corrections and the frame times,
/// the heading of an agent that started in `[0, TWO_PI)` is in
/// `[0, TWO_PI)`.
pub proof fn theorem_heading_in_range_after_any_run(boid: Boid, frames: Seq<(Point, bool, int)>)
    requires
        0 <= boid.direction < TWO_PI,
    ensures
        0 <= after_frames(boid, frames).direction < TWO_PI,
{
    if frames.len() > 0 {
        theorem_frame_wraps_heading(
            after_frames(boid, frames.drop_last()),
            frames.last().0,
            frames.last().1,
            frames.last().2,
        );
    }
}

/// Inside the dead zone the turn rate is zero and the heading is not set to
/// the target, however long the correction is.
pub proof fn theorem_dead_zone_stops_turning(boid: Boid, correction: Point, avoiding: bool, dt: int)
    requires
        magnitude_of(heading_error(boid.direction as int, correction)) < DEADZONE,
    ensures
        steering_rate(boid.direction as int, correction) == 0,
        !snaps(boid.direction as int, correction, dt),
        boid.updated(correction, avoiding, dt).ang_velocity == 0,
{
}

/// The wall-avoidance clock after a run of frames, each given by whether
/// the agent steered away from a wall in it and by its length.
pub open spec fn clock_trace(clock: int, frames: Seq<(bool, int)>) -> int
    decreases frames.len(),
{
    if frames.len() == 0 {
        clock
    } else {
        clock_after(clock_trace(clock, frames.drop_last()), frames.last().0, frames.last().1)
    }
}

/// Time that a run of frames takes.
pub open spec fn total_time(frames: Seq<(bool, int)>) -> int
    decreases frames.len(),
{
    if frames.len() == 0 {
        0
    } else {
        total_time(frames.drop_last()) + frames.last().1
    }
}

/// An agent that steers away from a wall in the first frame of a run has,
/// at the end of the run, a clock that shows no more than the time the run
/// took.
pub proof fn theorem_clock_restarts_at_wall(clock: int, frames: Seq<(bool, int)>)
    requires
        frames.len() >= 1,
        frames[0].0,
        forall|i: int| 0 <= i < frames.len() ==> (#[trigger] frames[i]).1 >= 0,
    ensures
        0 <= clock_trace(clock, frames) <= total_time(frames),
    decreases frames.len(),
{
    let earlier: Seq<(bool, int)> = frames.drop_last();
    if frames.len() == 1 {
        assert(earlier.len() == 0);
        assert(clock_trace(clock, earlier) == clock);
        assert(total_time(earlier) == 0);
    } else {
        assert(earlier[0] == frames[0]);
        assert forall|i: int| 0 <= i < earlier.len() implies (#[trigger] earlier[i]).1 >= 0 by {
            assert(earlier[i] == frames[i]);
        }
        theorem_clock_restarts_at_wall(clock, earlier);
    }
}

/// An agent whose clock shows less than the cooldown does not heed its
/// neighbours: its correction either steers it away from a wall or is zero.
pub proof fn theorem_cooling_agent_ignores_flock(
    index: int,
    width: int,
    height: int,
    boids: Seq<Boid>,
)
    requires
        boids[index].time_since_wall_avoidance < WALL_AVOIDANCE_COOLDOWN,
    ensures
        correction_for(index, width, height, boids).1 || correction_for(
            index,
            width,
            height,
            boids,
        ).0 == (0int, 0int),
{
}

/// For three seconds after an agent steered away from a wall it does not
/// heed its neighbours, wherever it is: if the frames since then, the one
/// with the wall included, took less than the cooldown, the agent's
/// correction either steers it away from a wall again or is zero.
pub proof fn theorem_no_flocking_after_wall(
    clock: int,
    frames: Seq<(bool, int)>,
    index: int,
    width: int,
    height: int,
    boids: Seq<Boid>,
)
    requires
        frames.len() >= 1,
        frames[0].0,
        forall|i: int| 0 <= i < frames.len() ==> (#[trigger] frames[i]).1 >= 0,
        total_time(frames) < WALL_AVOIDANCE_COOLDOWN,
        boids[index].time_since_wall_avoidance == clock_trace(clock, frames),
    ensures
        correction_for(index, width, height, boids).1 || correction_for(
            index,
            width,
            height,
            boids,
        ).0 == (0int, 0int),
{
    theorem_clock_restarts_at_wall(clock, frames);
    theorem_cooling_agent_ignores_flock(index, width, height, boids);
}

/// Where no agent among the first `n` is a neighbour, their pushes add up
/// to nothing.
proof fn lemma_no_neighbour_no_push(self_index: int, me: Point, boids: Seq<Boid>, n: nat)
    requires
        n <= boids.len(),
        forall|j: int| 0 <= j < n ==> !neighbour(self_index, me, boids, j),
    ensures
        separation_sum(self_index, me, boids, n) == (0int, 0int),
    decreases n,
{
    if n > 0 {
        lemma_no_neighbour_no_push(self_index, me, boids, (n - 1) as nat);
        assert(!neighbour(self_index, me, boids, n - 1));
    }
}

/// With no other agent within the sensing radius the separation correction
/// is zero.
pub proof fn theorem_separation_needs_neighbours(self_index: int, me: Point, boids: Seq<Boid>)
    requires
        forall|j: int| 0 <= j < boids.len() ==> !neighbour(self_index, me, boids, j),
    ensures
        separation(self_index, me, boids) == (0int, 0int),
{
    lemma_no_neighbour_no_push(self_index, me, boids, boids.len());
}

/// Where agent `j` is the only neighbour among the first `n` agents, the
/// pushes add up to the push from `j` once `n` has passed it.
proof fn lemma_single_neighbour_push(self_index: int, me: Point, boids: Seq<Boid>, j: int, n: nat)
    requires
        n <= boids.len(),
        0 <= j < boids.len(),
        neighbour(self_index, me, boids, j),
        forall|k: int| 0 <= k < boids.len() && k != j ==> !neighbour(self_index, me, boids, k),
    ensures
        separation_sum(self_index, me, boids, n) == if n > j {
            push_from(me, boids[j].position)
        } else {
            (0int, 0int)
        },
    decreases n,
{
    if n > 0 {
        lemma_single_neighbour_push(self_index, me, boids, j, (n - 1) as nat);
        if n - 1 != j {
            assert(!neighbour(self_index, me, boids, n - 1));
        }
    }
}

/// A vector that points straight along the negative x axis, brought to a
/// length, is that length along the negative x axis.
proof fn lemma_west_resized(a: int, length: int)
    requires
        0 < a <= i64::MAX,
        0 <= length,
    ensures
        (Point { x: (-a) as i64, y: 0 }).resized(length) == (-length, 0int),
{
    let v: Point = Point { x: (-a) as i64, y: 0 };
    let b: (int, int) = v.boosted();
    let big: int = -b.0;
    assert(big > 0 && b.1 == 0) by (nonlinear_arith)
        requires
            a > 0,
            b.0 == -a || b.0 == (-a) * 0x1_0000_0000,
            b.1 == 0 || b.1 == 0 * 0x1_0000_0000,
            big == -b.0,
    ;
    assert(b.0 * b.0 + b.1 * b.1 == big * big) by (nonlinear_arith)
        requires
            b.0 == -big,
            b.1 == 0,
    ;
    lemma_floor_sqrt_of_square(big);
    let top: int = b.0 * length;
    assert(top == -(length * big)) by (nonlinear_arith)
        requires
            top == b.0 * length,
            b.0 == -big,
    ;
    lemma_div_round_bounds(top, big, length);
    assert(b.1 * length == 0) by (nonlinear_arith)
        requires
            b.1 == 0,
    ;
    lemma_div_round_bounds(0, big, length);
}

/// With a single neighbour due east, nearer than the sensing radius, the
/// separation correction points due west and has length `SEPARATION_PULL`.
pub proof fn theorem_separation_pushes_away(
    self_index: int,
    me: Point,
    boids: Seq<Boid>,
    j: int,
    d: int,
)
    requires
        0 <= j < boids.len(),
        j != self_index,
        0 < d < VIEW_RADIUS,
        boids[j].position.x == me.x + d,
        boids[j].position.y == me.y,
        forall|k: int| 0 <= k < boids.len() && k != j ==> !neighbour(self_index, me, boids, k),
    ensures
        separation(self_index, me, boids) == (-SEPARATION_PULL, 0int),
{
    let other: Point = boids[j].position;
    let dx: int = me.x - other.x;
    let dy: int = me.y - other.y;
    assert(dx * dx + dy * dy == d * d) by (nonlinear_arith)
        requires
            dx == -d,
            dy == 0,
    ;
    lemma_floor_sqrt_of_square(d);
    assert(distance(me, other) == d);
    assert(senses(me, other));
    assert(neighbour(self_index, me, boids, j));
    lemma_single_neighbour_push(self_index, me, boids, j, boids.len());
    let weight: int = VIEW_RADIUS - d;
    let product: int = d * weight;
    assert(49_999_999 <= product <= 2_500_000_000_000_000) by (nonlinear_arith)
        requires
            0 < d < 50_000_000,
            weight == 50_000_000 - d,
            product == d * weight,
    ;
    assert(dx * weight == -product) by (nonlinear_arith)
        requires
            dx == -d,
            product == d * weight,
    ;
    assert(dy * weight == 0) by (nonlinear_arith)
        requires
            dy == 0,
    ;
    let a: int = product / 1_000_000;
    assert(0 < a <= 2_500_000_000);
    assert(push_from(me, other) == (-a, 0int));
    lemma_west_resized(a, SEPARATION_PULL as int);
}

/// The fifth power of sixty thousand stays below ten to the twenty-fourth.
proof fn lemma_fifth_power()
    ensures
        pow(60_000, 5) == 777_600_000_000_000_000_000_000,
{
    vstd::arithmetic::power::lemma_pow1(60_000);
    lemma_pow_step(60_000, 1);
    lemma_pow_step(60_000, 2);
    lemma_pow_step(60_000, 3);
    lemma_pow_step(60_000, 4);
    assert(pow(60_000, 2) == 3_600_000_000);
    assert(pow(60_000, 3) == 216_000_000_000_000);
    assert(pow(60_000, 4) == 12_960_000_000_000_000_000);
}

/// The compressed value of a coordinate: zero for zero, and more than the
/// avoidance threshold for anything positive.
pub proof fn lemma_compression(x: int)
    requires
        x >= 0,
    ensures
        compressed(x) >= 0,
        x == 0 ==> compressed(x) == 0,
        x > 0 ==> compressed(x) > AVOIDANCE_THRESHOLD,
{
    lemma_compression_scale();
    let top: int = pow(SCALE as int, (FIRST_ROOT - 1) as nat);
    let n: int = x * top;
    assert(n >= 0 && (x == 0 ==> n == 0) && (x > 0 ==> n >= top)) by (nonlinear_arith)
        requires
            x >= 0,
            top > 0,
            n == x * top,
    ;
    lemma_floor_root_exists(n, FIRST_ROOT as nat);
    let t: int = floor_root(n, FIRST_ROOT as nat);
    assert(t == root_fixed(x, FIRST_ROOT as nat));
    let one: int = pow(SCALE as int, (SECOND_ROOT - 1) as nat);
    let m: int = t * one;
    assert(m == t * 1_000_000);
    lemma_floor_root_exists(m, SECOND_ROOT as nat);
    let r: int = floor_root(m, SECOND_ROOT as nat);
    assert(r == compressed(x));
    if x == 0 {
        vstd::arithmetic::power::lemma0_pow(FIRST_ROOT as nat);
        vstd::arithmetic::power::lemma1_pow(FIRST_ROOT as nat);
        lemma_floor_root_is(0, FIRST_ROOT as nat, 0);
        vstd::arithmetic::power::lemma0_pow(SECOND_ROOT as nat);
        vstd::arithmetic::power::lemma1_pow(SECOND_ROOT as nat);
        lemma_floor_root_is(0, SECOND_ROOT as nat, 0);
    } else {
        if t < 60_000 {
            lemma_pow_base_monotone(t + 1, 60_000, 5);
            lemma_fifth_power();
        }
        if r <= 100_000 {
            lemma_pow_base_monotone(r + 1, 100_001, 2);
            vstd::arithmetic::power::lemma_square_is_pow2(100_001);
        }
    }
}

/// Outside every margin the wall correction is exactly zero.
pub proof fn theorem_no_wall_no_correction(position: Point, direction: int, width: int, height: int)
    requires
        !in_margin(position, width, height),
    ensures
        margin_push(position, direction, width, height) == (0int, 0int),
        wall_correction(position, direction, width, height) == Some((0int, 0int)),
        !wall_fires(wall_correction(position, direction, width, height)),
{
    lemma_compression(0);
    lemma_floor_sqrt_bounds(0, 0);
}

/// The wall correction counts, that is, it is defined and longer than the
/// avoidance threshold, exactly when the summed push of the walls has no
/// negative coordinate and is not zero.
pub proof fn theorem_wall_correction_counts(
    position: Point,
    direction: int,
    width: int,
    height: int,
)
    ensures
        wall_fires(wall_correction(position, direction, width, height)) <==> push_defined(
            margin_push(position, direction, width, height),
        ) && margin_push(position, direction, width, height) != (0int, 0int),
{
    let push: (int, int) = margin_push(position, direction, width, height);
    if push_defined(push) {
        lemma_compression(push.0);
        lemma_compression(push.1);
        let rx: int = compressed(push.0);
        let ry: int = compressed(push.1);
        let n: int = rx * rx + ry * ry;
        assert(n >= 0) by (nonlinear_arith)
            requires
                n == rx * rx + ry * ry,
        ;
        lemma_floor_sqrt_exists(n);
        lemma_length_dominates(rx, ry, floor_sqrt(n));
        assert(wall_correction(position, direction, width, height) == Some((rx, ry)));
        if push == (0int, 0int) {
            assert(n == 0) by (nonlinear_arith)
                requires
                    rx == 0,
                    ry == 0,
                    n == rx * rx + ry * ry,
            ;
            lemma_floor_sqrt_bounds(0, 0);
        }
    }
}

/// A factor short of one shrinks whatever it multiplies.
proof fn lemma_mul_fixed_strict(t: int, d: int)
    requires
        -SCALE < t < SCALE,
        d > 0,
    ensures
        -d < mul_fixed(t, d) < d,
{
    let p: int = t * d;
    assert(-(999_999 * d) <= p <= 999_999 * d) by (nonlinear_arith)
        requires
            -999_999 <= t <= 999_999,
            d > 0,
            p == t * d,
    ;
    if p >= 0 {
        assert(p / 1_000_000 < d);
    } else {
        assert((-p) / 1_000_000 < d);
    }
}

/// On a screen at least two margins wide and two high, an agent inside a
/// margin is pushed: where the summed push is defined it is not zero, and
/// the wall correction counts.
pub proof fn theorem_margin_pushes(position: Point, direction: int, width: int, height: int)
    requires
        in_margin(position, width, height),
        width >= 2 * VIEW_RADIUS,
        height >= 2 * VIEW_RADIUS,
        push_defined(margin_push(position, direction, width, height)),
    ensures
        margin_push(position, direction, width, height) != (0int, 0int),
        wall_fires(wall_correction(position, direction, width, height)),
{
    let s: int = crate::angle::sine(direction);
    let c: int = crate::angle::cosine(direction);
    lemma_sine_bounds(direction);
    lemma_sine_cosine_not_both_full(direction);
    let push: (int, int) = margin_push(position, direction, width, height);
    let left: bool = position.x < VIEW_RADIUS;
    let right: bool = position.x > width - VIEW_RADIUS;
    let top: bool = position.y < VIEW_RADIUS;
    let bottom: bool = position.y > height - VIEW_RADIUS;
    let dx: int = if left {
        VIEW_RADIUS - position.x
    } else {
        position.x - (width - VIEW_RADIUS)
    };
    let dy: int = if top {
        VIEW_RADIUS - position.y
    } else {
        position.y - (height - VIEW_RADIUS)
    };
    assert(!(left && right));
    assert(!(top && bottom));
    if left || right {
        lemma_mul_fixed_unit(-s, dx);
    }
    if top || bottom {
        lemma_mul_fixed_unit(-c, dy);
    }
    if (left || right) && (top || bottom) {
        if push == (0int, 0int) {
            assert(dx == dy);
            if -SCALE < -c < SCALE {
                lemma_mul_fixed_strict(-c, dy);
            }
            if -SCALE < -s < SCALE {
                lemma_mul_fixed_strict(-s, dx);
            }
            assert(magnitude_of(c) == SCALE);
            assert(magnitude_of(s) == SCALE);
        }
    }
    theorem_wall_correction_counts(position, direction, width, height);
}

/// In a flock of one nothing comes from the neighbours: the three
/// corrections add up to zero, and nothing is divided by the number of
/// other agents.
pub proof fn theorem_lone_agent_flies_straight(boids: Seq<Boid>)
    requires
        boids.len() == 1,
    ensures
        flocking(0, boids) == (0int, 0int),
{
    let me: Point = boids[0].position;
    assert(!neighbour(0, me, boids, 0));
    theorem_separation_needs_neighbours(0, me, boids);
    reveal_with_fuel(heading_sum, 2);
    assert(heading_sum(0, me, boids, 1) == 0);
}

} // verus!
