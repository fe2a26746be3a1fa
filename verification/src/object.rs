//! Agents and the shapes they are drawn with.

use crate::angle::{
    cos, cosine, direction_of, magnitude_of, sin, sine, wrap, wrap_angle, wrap_half, wrap_signed,
    wrap_wide, TWO_PI,
};
use crate::point::Point;
use crate::units::{
    clamp, div_trunc, lemma_div_trunc_bounds, lemma_product_bound, COORD_LIMIT, FRAME_LIMIT, SCALE,
    SPEED_LIMIT, TICKS_PER_SECOND,
};
use vstd::prelude::*;

verus! {

/// Fastest turn an agent is ever commanded to make, in nanoradians per
/// second: three eighths of a turn.
pub const MAX_TURN_RATE: i64 = 2_356_194_489;

/// Heading errors below this are left alone: an eighth of a turn.
pub const DEADZONE: i64 = 785_398_163;

/// Time an agent starts with on its wall-avoidance clock.
pub const LONG_AGO: i64 = 1_000_000_000;

/// Value at which the wall-avoidance clock stops counting.
pub const CLOCK_LIMIT: i64 = 1_000_000_000_000;

/// A colour with eight bits for each of red, green, blue and opacity.
#[derive(Clone, Copy, Debug, PartialEq, Eq, Structural)]
pub struct Color {
    pub r: u8,
    pub g: u8,
    pub b: u8,
    pub a: u8,
}

impl Color {
    /// Opaque black.
    pub fn black() -> (c: Color)
        ensures
            c == (Color { r: 0, g: 0, b: 0, a: 255 }),
    {
        Color { r: 0, g: 0, b: 0, a: 255 }
    }
}

/// Something with an outline of three corners and a colour.
pub trait Shape {
    /// The corners, relative to the centre of the shape.
    spec fn corners(&self) -> [Point; 3];

    /// The colour.
    spec fn tint(&self) -> Color;

    /// The corners, relative to the centre of the shape.
    fn points(&self) -> (p: &[Point; 3])
        ensures
            *p == self.corners(),
    ;

    /// The corners, open to change.
    fn points_mut(&mut self) -> (p: &mut [Point; 3])
        ensures
            *p == old(self).corners(),
            final(self).corners() == *final(p),
            final(self).tint() == old(self).tint(),
    ;

    /// The colour.
    fn color(&self) -> (c: &Color)
        ensures
            *c == self.tint(),
    ;

    /// The colour, open to change.
    fn color_mut(&mut self) -> (c: &mut Color)
        ensures
            *c == old(self).tint(),
            final(self).tint() == *final(c),
            final(self).corners() == old(self).corners(),
    ;
}

/// A triangle.
#[derive(Clone, Copy, Debug, PartialEq, Eq)]
pub struct Triangle {
    pub points: [Point; 3],
    pub color: Color,
}

impl Shape for Triangle {
    open spec fn corners(&self) -> [Point; 3] {
        self.points
    }

    open spec fn tint(&self) -> Color {
        self.color
    }

    fn points(&self) -> (p: &[Point; 3]) {
        &self.points
    }

    fn points_mut(&mut self) -> (p: &mut [Point; 3]) {
        &mut self.points
    }

    fn color(&self) -> (c: &Color) {
        &self.color
    }

    fn color_mut(&mut self) -> (c: &mut Color) {
        &mut self.color
    }
}

/// A corner turned by an angle about the origin and then moved by an
/// offset, as whole numbers.
pub open spec fn placed_corner(corner: Point, offset: Point, direction: int) -> (int, int) {
    (
        offset.x + div_trunc(corner.x * cosine(direction) - corner.y * sine(direction), SCALE as int),
        offset.y + div_trunc(corner.x * sine(direction) + corner.y * cosine(direction), SCALE as int),
    )
}

/// Largest corner coordinate and offset for which a placed corner is sure
/// to fit a coordinate.
pub const PLACE_LIMIT: i64 = 1_000_000_000_000_000;

/// Whether both coordinates of a point lie within `limit` of zero.
pub open spec fn within(p: Point, limit: int) -> bool {
    -limit <= p.x <= limit && -limit <= p.y <= limit
}

impl Triangle {
    /// Whether this is the triangle that agents are drawn with: four pixels
    /// ahead of the centre, four behind and three to each side, in black.
    pub open spec fn is_arrowhead(&self) -> bool {
        &&& self.points[0] == (Point { x: 4_000_000, y: 0 })
        &&& self.points[1] == (Point { x: -4_000_000i64, y: -3_000_000i64 })
        &&& self.points[2] == (Point { x: -4_000_000i64, y: 3_000_000 })
        &&& self.color == (Color { r: 0, g: 0, b: 0, a: 255 })
    }

    /// The triangle that agents are drawn with.
    pub fn arrowhead() -> (t: Triangle)
        ensures
            t.is_arrowhead(),
    {
        Triangle {
            points: [
                Point { x: 4_000_000, y: 0 },
                Point { x: -4_000_000, y: -3_000_000 },
                Point { x: -4_000_000, y: 3_000_000 },
            ],
            color: Color::black(),
        }
    }

    /// The three corners as they appear on screen for an agent at `offset`
    /// that faces `direction`.
    pub fn placed(&self, offset: &Point, direction: i64) -> (corners: [Point; 3])
        requires
            within(*offset, PLACE_LIMIT as int),
            forall|i: int| 0 <= i < 3 ==> within(#[trigger] self.points[i], PLACE_LIMIT as int),
        ensures
            forall|i: int|
                0 <= i < 3 ==> (#[trigger] corners[i]).holds(
                    placed_corner(self.points[i], *offset, direction as int),
                ),
    {
        let s: i64 = sin(direction);
        let c: i64 = cos(direction);
        [
            place(&self.points[0], offset, s, c),
            place(&self.points[1], offset, s, c),
            place(&self.points[2], offset, s, c),
        ]
    }
}

/// One corner turned by the angle whose sine and cosine are given, then
/// moved by `offset`.
fn place(corner: &Point, offset: &Point, s: i64, c: i64) -> (p: Point)
    requires
        within(*corner, PLACE_LIMIT as int),
        within(*offset, PLACE_LIMIT as int),
        -SCALE <= s <= SCALE,
        -SCALE <= c <= SCALE,
    ensures
        p.x == offset.x + div_trunc(corner.x * c - corner.y * s, SCALE as int),
        p.y == offset.y + div_trunc(corner.x * s + corner.y * c, SCALE as int),
{
    proof {
        let l: int = PLACE_LIMIT as int;
        lemma_product_bound(corner.x as int, c as int, l, 1_000_000);
        lemma_product_bound(corner.y as int, s as int, l, 1_000_000);
        lemma_product_bound(corner.x as int, s as int, l, 1_000_000);
        lemma_product_bound(corner.y as int, c as int, l, 1_000_000);
        lemma_div_trunc_bounds(corner.x * c - corner.y * s, SCALE as int);
        lemma_div_trunc_bounds(corner.x * s + corner.y * c, SCALE as int);
    }
    let along: i128 = (corner.x as i128) * (c as i128) - (corner.y as i128) * (s as i128);
    let across: i128 = (corner.x as i128) * (s as i128) + (corner.y as i128) * (c as i128);
    Point {
        x: (offset.x as i128 + along / (SCALE as i128)) as i64,
        y: (offset.y as i128 + across / (SCALE as i128)) as i64,
    }
}

/// Something that has a place, a heading and a shape, and moves.
pub trait Object {
    /// The state that the accessors below read and write.
    spec fn state(&self) -> Boid;

    /// Where the object is.
    fn position(&self) -> (p: &Point)
        ensures
            *p == self.state().position,
    ;

    /// Where the object is, open to change.
    fn position_mut(&mut self) -> (p: &mut Point)
        ensures
            *p == old(self).state().position,
            final(self).state() == (Boid { position: *final(p), ..old(self).state() }),
    ;

    /// The heading.
    fn direction(&self) -> (d: i64)
        ensures
            d == self.state().direction,
    ;

    /// The shape.
    fn shape(&self) -> (s: &Triangle)
        ensures
            *s == self.state().shape,
    ;

    /// The shape, open to change.
    fn shape_mut(&mut self) -> (s: &mut Triangle)
        ensures
            *s == old(self).state().shape,
            final(self).state() == (Boid { shape: *final(s), ..old(self).state() }),
    ;

    /// The forward speed.
    fn velocity(&self) -> (v: i64)
        ensures
            v == self.state().velocity,
    ;

    /// The forward speed, open to change.
    fn velocity_mut(&mut self) -> (v: &mut i64)
        ensures
            *v == old(self).state().velocity,
            final(self).state() == (Boid { velocity: *final(v), ..old(self).state() }),
    ;

    /// The turn rate.
    fn ang_velocity(&self) -> (w: i64)
        ensures
            w == self.state().ang_velocity,
    ;

    /// The turn rate, open to change.
    fn ang_velocity_mut(&mut self) -> (w: &mut i64)
        ensures
            *w == old(self).state().ang_velocity,
            final(self).state() == (Boid { ang_velocity: *final(w), ..old(self).state() }),
    ;
}

/// One agent of the flock.
#[derive(Clone, Copy, Debug, PartialEq, Eq)]
pub struct Boid {
    /// What the agent is drawn with.
    pub shape: Triangle,
    /// Where the agent is.
    pub position: Point,
    /// Heading, in `[0, TWO_PI)`.
    pub direction: i64,
    /// Forward speed, in length units per second.
    pub velocity: i64,
    /// Turn rate, in nanoradians per second.
    pub ang_velocity: i64,
    /// Microseconds since the agent last steered away from a wall.
    pub time_since_wall_avoidance: i64,
}

/// A coordinate after moving for `dt` microseconds at `speed` along a
/// direction whose sine or cosine is `trig`, held to the plane.
pub open spec fn moved(coordinate: int, trig: int, speed: int, dt: int) -> int {
    clamp(
        coordinate + div_trunc(trig * speed * dt, SCALE * TICKS_PER_SECOND),
        -COORD_LIMIT,
        COORD_LIMIT as int,
    )
}

/// A heading after turning for `dt` microseconds at `rate`.
pub open spec fn turned(heading: int, rate: int, dt: int) -> int {
    wrap_angle(heading + div_trunc(rate * dt, TICKS_PER_SECOND as int))
}

/// The wall-avoidance clock after a frame of `dt` microseconds: set back to
/// zero if the agent steered away from a wall, then advanced, and stopped at
/// `CLOCK_LIMIT`.
pub open spec fn clock_after(clock: int, avoiding: bool, dt: int) -> int {
    let started: int = if avoiding {
        0
    } else {
        clock
    };
    if started + dt > CLOCK_LIMIT {
        CLOCK_LIMIT as int
    } else {
        started + dt
    }
}

/// The farthest an agent can turn in `dt` microseconds.
pub open spec fn reach(dt: int) -> int {
    div_trunc(MAX_TURN_RATE * dt, TICKS_PER_SECOND as int)
}

/// The steering decision for an agent that heads `heading` and is asked to
/// go along `correction`.
pub struct Steering {
    /// Direction of the correction.
    pub target: i64,
    /// Turn rate commanded.
    pub rate: i64,
    /// Whether the agent reaches the target within this frame, so that its
    /// heading is set to the target once it has moved.
    pub snap: bool,
}

/// Direction of the correction.
pub open spec fn steering_target(correction: Point) -> int {
    direction_of(correction.x as int, correction.y as int)
}

/// Signed heading error, in `[-PI, PI]`.
pub open spec fn heading_error(heading: int, correction: Point) -> int {
    wrap_half(steering_target(correction) - heading)
}

/// Whether the agent turns: the correction is not zero and the heading error
/// is outside the dead zone.
pub open spec fn turns(heading: int, correction: Point) -> bool {
    correction != Point::zero() && magnitude_of(heading_error(heading, correction)) >= DEADZONE
}

/// The commanded turn rate.
pub open spec fn steering_rate(heading: int, correction: Point) -> int {
    if !turns(heading, correction) {
        0
    } else if heading_error(heading, correction) > 0 {
        MAX_TURN_RATE as int
    } else {
        -MAX_TURN_RATE
    }
}

/// Whether the agent turns and can finish the turn within `dt`.
pub open spec fn snaps(heading: int, correction: Point, dt: int) -> bool {
    turns(heading, correction) && magnitude_of(heading_error(heading, correction)) <= reach(dt)
}

/// The steering decision.
pub fn decide_steering(heading: i64, correction: &Point, dt: i64) -> (s: Steering)
    requires
        0 <= heading < TWO_PI,
        0 <= dt <= FRAME_LIMIT,
    ensures
        s.target == steering_target(*correction),
        s.rate == steering_rate(heading as int, *correction),
        s.snap == snaps(heading as int, *correction, dt as int),
        0 <= s.target < TWO_PI,
{
    let target: i64 = correction.angle();
    let error: i64 = wrap_signed(target - heading);
    let size: i64 = if error < 0 {
        -error
    } else {
        error
    };
    let nonzero: bool = correction.x != 0 || correction.y != 0;
    if nonzero && size >= DEADZONE {
        proof {
            lemma_product_bound(MAX_TURN_RATE as int, dt as int, 2_356_194_489, 1_000_000_000);
        }
        let within_reach: bool = size <= (MAX_TURN_RATE * dt) / TICKS_PER_SECOND;
        let rate: i64 = if error > 0 {
            MAX_TURN_RATE
        } else {
            -MAX_TURN_RATE
        };
        Steering { target, rate, snap: within_reach }
    } else {
        Steering { target, rate: 0, snap: false }
    }
}

/// Turn rate of an object that follows a pointer: one radian per second.
pub const PURSUIT_RATE: i64 = 1_000_000_000;

/// Heading errors up to this are left alone by an object that follows a
/// pointer: a twentieth of a radian.
pub const PURSUIT_SLACK: i64 = 50_000_000;

/// Turn rate of an object that heads `heading` and follows a pointer that
/// lies in the direction `target`: toward the pointer at `PURSUIT_RATE`, or
/// zero within `PURSUIT_SLACK` of it.
pub open spec fn pursuit_rate(heading: int, target: int) -> int {
    let error: int = wrap_half(target - heading);
    if error > PURSUIT_SLACK {
        PURSUIT_RATE as int
    } else if error < -PURSUIT_SLACK {
        -PURSUIT_RATE
    } else {
        0
    }
}

/// Turn rate of an object that follows a pointer.
pub fn pursue(heading: i64, target: i64) -> (rate: i64)
    requires
        0 <= heading < TWO_PI,
        0 <= target < TWO_PI,
    ensures
        rate == pursuit_rate(heading as int, target as int),
{
    let error: i64 = wrap_signed(target - heading);
    if error > PURSUIT_SLACK {
        PURSUIT_RATE
    } else if error < -PURSUIT_SLACK {
        -PURSUIT_RATE
    } else {
        0
    }
}

impl Boid {
    /// Whether the agent's state is one that the simulation keeps: it lies
    /// on the plane, its heading is in `[0, TWO_PI)`, its speed is within
    /// the limit and its clock has not run backwards.
    pub open spec fn wf(&self) -> bool {
        &&& within(self.position, COORD_LIMIT as int)
        &&& 0 <= self.direction < TWO_PI
        &&& -SPEED_LIMIT <= self.velocity <= SPEED_LIMIT
        &&& 0 <= self.time_since_wall_avoidance <= CLOCK_LIMIT
    }

    /// The agent after moving and turning for `dt` microseconds.
    pub open spec fn advanced(self, dt: int) -> Boid {
        Boid {
            position: Point {
                x: moved(
                    self.position.x as int,
                    cosine(self.direction as int),
                    self.velocity as int,
                    dt,
                ) as i64,
                y: moved(
                    self.position.y as int,
                    sine(self.direction as int),
                    self.velocity as int,
                    dt,
                ) as i64,
            },
            direction: turned(self.direction as int, self.ang_velocity as int, dt) as i64,
            ..self
        }
    }

    /// The agent after one whole frame: its clock ticks, its turn rate is
    /// set from the correction, it moves and turns, and where the turn can
    /// be finished within the frame its heading is set to the direction of
    /// the correction.
    pub open spec fn updated(self, correction: Point, avoiding: bool, dt: int) -> Boid {
        let steered: Boid = Boid {
            ang_velocity: steering_rate(self.direction as int, correction) as i64,
            time_since_wall_avoidance: clock_after(
                self.time_since_wall_avoidance as int,
                avoiding,
                dt,
            ) as i64,
            ..self
        };
        let moved_on: Boid = steered.advanced(dt);
        if snaps(self.direction as int, correction, dt) {
            Boid { direction: steering_target(correction) as i64, ..moved_on }
        } else {
            moved_on
        }
    }

    /// An agent at rest at `position`, heading along the x axis, whose clock
    /// shows that it has not met a wall for a long time.
    pub fn new(position: Point) -> (boid: Boid)
        ensures
            boid.position == position,
            boid.direction == 0,
            boid.velocity == 0,
            boid.ang_velocity == 0,
            boid.time_since_wall_avoidance == LONG_AGO,
            boid.shape.is_arrowhead(),
            within(position, COORD_LIMIT as int) ==> boid.wf(),
    {
        Boid {
            shape: Triangle::arrowhead(),
            position,
            direction: 0,
            velocity: 0,
            ang_velocity: 0,
            time_since_wall_avoidance: LONG_AGO,
        }
    }

    /// Turns the agent by `delta_rad` and wraps its heading into
    /// `[0, TWO_PI)`.
    pub fn add_direction(&mut self, delta_rad: i64)
        ensures
            final(self).direction == wrap_angle(old(self).direction + delta_rad),
            0 <= final(self).direction < TWO_PI,
            *final(self) == (Boid { direction: final(self).direction, ..*old(self) }),
    {
        self.direction = wrap_wide(self.direction as i128 + delta_rad as i128);
    }

    /// Sets the heading to `rad`, wrapped into `[0, TWO_PI)`.
    pub fn set_direction(&mut self, rad: i64)
        ensures
            final(self).direction == wrap_angle(rad as int),
            0 <= final(self).direction < TWO_PI,
            *final(self) == (Boid { direction: final(self).direction, ..*old(self) }),
    {
        self.direction = wrap(rad);
    }

    /// Moves the agent along its heading and turns it at its turn rate, for
    /// `delta_time` microseconds. The position stops at the edge of the
    /// plane. Any state and any time are taken.
    pub fn advance(&mut self, delta_time: i64)
        ensures
            *final(self) == old(self).advanced(delta_time as int),
            within(final(self).position, COORD_LIMIT as int),
            0 <= final(self).direction < TWO_PI,
            old(self).wf() ==> final(self).wf(),
    {
        let c: i64 = cos(self.direction);
        let s: i64 = sin(self.direction);
        self.position.x = step_along(self.position.x, c, self.velocity, delta_time);
        self.position.y = step_along(self.position.y, s, self.velocity, delta_time);
        proof {
            lemma_product_bound(
                self.ang_velocity as int,
                delta_time as int,
                0x8000_0000_0000_0000,
                0x8000_0000_0000_0000,
            );
            lemma_div_trunc_bounds(self.ang_velocity * delta_time, TICKS_PER_SECOND as int);
        }
        let swing: i128 = ((self.ang_velocity as i128) * (delta_time as i128)) / (
        TICKS_PER_SECOND as i128);
        self.direction = wrap_wide(self.direction as i128 + swing);
    }

    /// Advances the wall-avoidance clock by one frame.
    pub fn tick(&mut self, avoiding: bool, delta_time: i64)
        requires
            0 <= delta_time <= FRAME_LIMIT,
            0 <= old(self).time_since_wall_avoidance <= CLOCK_LIMIT,
        ensures
            final(self).time_since_wall_avoidance == clock_after(
                old(self).time_since_wall_avoidance as int,
                avoiding,
                delta_time as int,
            ),
            0 <= final(self).time_since_wall_avoidance <= CLOCK_LIMIT,
            *final(self) == (Boid {
                time_since_wall_avoidance: final(self).time_since_wall_avoidance,
                ..*old(self)
            }),
    {
        if avoiding {
            self.time_since_wall_avoidance = 0;
        }
        let next: i64 = self.time_since_wall_avoidance + delta_time;
        self.time_since_wall_avoidance = if next > CLOCK_LIMIT {
            CLOCK_LIMIT
        } else {
            next
        };
    }

    /// Sets the turn rate from the correction. Where the agent can finish
    /// the turn within `delta_time`, hands back the heading that it is to be
    /// given once it has moved.
    pub fn apply_steering(&mut self, correction: &Point, delta_time: i64) -> (snap: Option<i64>)
        requires
            0 <= old(self).direction < TWO_PI,
            0 <= delta_time <= FRAME_LIMIT,
        ensures
            final(self).ang_velocity == steering_rate(old(self).direction as int, *correction),
            *final(self) == (Boid { ang_velocity: final(self).ang_velocity, ..*old(self) }),
            snap.is_some() == snaps(old(self).direction as int, *correction, delta_time as int),
            snap.is_some() ==> snap.unwrap() == steering_target(*correction),
    {
        let steering: Steering = decide_steering(self.direction, correction, delta_time);
        self.ang_velocity = steering.rate;
        if steering.snap {
            Some(steering.target)
        } else {
            None
        }
    }

    /// Takes the agent through one frame, given the correction that was
    /// worked out for it and whether that correction steers it away from a
    /// wall.
    pub fn update(&mut self, correction: &Point, avoiding: bool, delta_time: i64)
        requires
            old(self).wf(),
            0 <= delta_time <= FRAME_LIMIT,
        ensures
            *final(self) == old(self).updated(*correction, avoiding, delta_time as int),
            final(self).wf(),
    {
        self.tick(avoiding, delta_time);
        let snap: Option<i64> = self.apply_steering(correction, delta_time);
        self.advance(delta_time);
        match snap {
            Some(target) => {
                self.set_direction(target);
            },
            None => {},
        }
    }
}

/// A product too large for the widest integer, divided by the units of a
/// displacement, is still beyond twice the plane.
proof fn lemma_far_push(product: int)
    ensures
        product > i128::MAX ==> div_trunc(product, SCALE * TICKS_PER_SECOND)
            > 100_000_000_000_000_000_000,
        product < i128::MIN ==> div_trunc(product, SCALE * TICKS_PER_SECOND)
            < -100_000_000_000_000_000_000,
{
    let unit: int = SCALE * TICKS_PER_SECOND;
    assert(unit == 1_000_000_000_000);
    if product > i128::MAX {
        assert(product / unit > 100_000_000_000_000_000_000) by (nonlinear_arith)
            requires
                product > 100_000_000_000_000_000_000_000_000_000_000_000_000,
                unit == 1_000_000_000_000,
        ;
    }
    if product < i128::MIN {
        let m: int = -product;
        assert(m / unit > 100_000_000_000_000_000_000) by (nonlinear_arith)
            requires
                m > 100_000_000_000_000_000_000_000_000_000_000_000_000,
                unit == 1_000_000_000_000,
        ;
    }
}

/// A coordinate after moving for `dt` microseconds at `speed` along a
/// direction whose sine or cosine is `trig`.
fn step_along(coordinate: i64, trig: i64, speed: i64, dt: i64) -> (c: i64)
    requires
        -SCALE <= trig <= SCALE,
    ensures
        c == moved(coordinate as int, trig as int, speed as int, dt as int),
        -COORD_LIMIT <= c <= COORD_LIMIT,
{
    proof {
        lemma_product_bound(trig as int, speed as int, 1_000_000, 0x8000_0000_0000_0000);
    }
    let rate: i128 = (trig as i128) * (speed as i128);
    match rate.checked_mul(dt as i128) {
        Some(push) => {
            proof {
                lemma_div_trunc_bounds(push as int, SCALE * TICKS_PER_SECOND);
            }
            let shift: i128 = push / ((SCALE as i128) * (TICKS_PER_SECOND as i128));
            let target: i128 = coordinate as i128 + shift;
            if target < -(COORD_LIMIT as i128) {
                -COORD_LIMIT
            } else if target > COORD_LIMIT as i128 {
                COORD_LIMIT
            } else {
                target as i64
            }
        },
        None => {
            proof {
                lemma_far_push(rate * dt);
                assert((rate * dt > 0) == ((rate > 0) == (dt > 0)) || rate * dt == 0)
                    by (nonlinear_arith);
            }
            if (rate > 0) == (dt > 0) {
                COORD_LIMIT
            } else {
                -COORD_LIMIT
            }
        },
    }
}

impl Object for Boid {
    open spec fn state(&self) -> Boid {
        *self
    }

    fn position(&self) -> (p: &Point) {
        &self.position
    }

    fn position_mut(&mut self) -> (p: &mut Point) {
        &mut self.position
    }

    fn direction(&self) -> (d: i64) {
        self.direction
    }

    fn shape(&self) -> (s: &Triangle) {
        &self.shape
    }

    fn shape_mut(&mut self) -> (s: &mut Triangle) {
        &mut self.shape
    }

    fn velocity(&self) -> (v: i64) {
        self.velocity
    }

    fn velocity_mut(&mut self) -> (v: &mut i64) {
        &mut self.velocity
    }

    fn ang_velocity(&self) -> (w: i64) {
        self.ang_velocity
    }

    fn ang_velocity_mut(&mut self) -> (w: &mut i64) {
        &mut self.ang_velocity
    }
}

} // verus!
