//! The flock as a whole: which correction each agent gets, and the frame
//! that takes every agent one step on.

use crate::angle::TWO_PI;
use crate::object::{within, Boid, CLOCK_LIMIT, LONG_AGO};
use crate::point::Point;
use crate::roots::floor_sqrt;
use crate::rules::{
    alignment, cohesion, flock_wf, get_alignment_correction_offset, get_boundary_correction_offset,
    get_cohesion_correction_offset, get_seperation_correction_offset, pair_sum, separation,
    wall_correction, AVOIDANCE_THRESHOLD, MAX_POPULATION,
};
use crate::units::{COORD_LIMIT, FRAME_LIMIT, SPEED_LIMIT};
use vstd::prelude::*;

verus! {

/// Time for which an agent that steered away from a wall flies straight
/// before it heeds its neighbours again: three seconds.
pub const WALL_AVOIDANCE_COOLDOWN: i64 = 3_000_000;

/// Forward speed that agents are given, before the random spread: seventy
/// five pixels per second.
pub const BOID_VELOCITY: i64 = 75_000_000;

/// What an agent is asked to steer along in one frame.
#[derive(Clone, Copy, Debug, PartialEq, Eq, Structural)]
pub struct Correction {
    /// The direction to steer along, with its strength.
    pub offset: Point,
    /// Whether the correction steers the agent away from a wall.
    pub avoiding: bool,
}

/// Why a flock, a screen or a frame was turned down.
#[derive(Clone, Copy, Debug, PartialEq, Eq, Structural)]
pub enum Rejection {
    /// The flock has no agent.
    EmptyFlock,
    /// The flock has more than `MAX_POPULATION` agents.
    FlockTooLarge,
    /// A side of the screen is negative or longer than `COORD_LIMIT`.
    ScreenOutOfRange,
    /// Some agent is not well formed.
    AgentOutOfRange,
    /// The frame time is negative or longer than `FRAME_LIMIT`.
    FrameOutOfRange,
}

/// Whether a wall correction is defined and long enough to count.
pub open spec fn wall_fires(wall: Option<(int, int)>) -> bool {
    wall.is_some() && floor_sqrt(wall.unwrap().0 * wall.unwrap().0 + wall.unwrap().1 * wall.unwrap().1)
        > AVOIDANCE_THRESHOLD
}

/// Sum of the three corrections that come from an agent's neighbours.
pub open spec fn flocking(index: int, boids: Seq<Boid>) -> (int, int) {
    let me: Point = boids[index].position;
    pair_sum(
        pair_sum(separation(index, me, boids), alignment(index, me, boids)),
        cohesion(index, me, boids),
    )
}

/// The correction for the agent at `index`, and whether it steers the agent
/// away from a wall. A wall correction that counts comes first. Failing
/// that, an agent that has not met a wall for the length of the cooldown
/// heeds its neighbours, and any other flies straight on.
pub open spec fn correction_for(index: int, width: int, height: int, boids: Seq<Boid>) -> (
    (int, int),
    bool,
) {
    let me: Boid = boids[index];
    let wall: Option<(int, int)> = wall_correction(me.position, me.direction as int, width, height);
    if wall_fires(wall) {
        (wall.unwrap(), true)
    } else if me.time_since_wall_avoidance >= WALL_AVOIDANCE_COOLDOWN {
        (flocking(index, boids), false)
    } else {
        ((0, 0), false)
    }
}

/// The agent at `index` after a frame of `dt` microseconds in which every
/// agent is as `boids` says.
pub open spec fn stepped_agent(index: int, width: int, height: int, boids: Seq<Boid>, dt: int)
    -> Boid {
    let correction: ((int, int), bool) = correction_for(index, width, height, boids);
    boids[index].updated(
        Point { x: correction.0.0 as i64, y: correction.0.1 as i64 },
        correction.1,
        dt,
    )
}

/// The flock after a frame of `dt` microseconds: every agent steers by the
/// flock as it was when the frame began.
pub open spec fn stepped(width: int, height: int, boids: Seq<Boid>, dt: int) -> Seq<Boid> {
    Seq::new(boids.len(), |i: int| stepped_agent(i, width, height, boids, dt))
}

/// The correction for the agent at `index`.
pub fn compute_correction(index: usize, width: i64, height: i64, boids: &Vec<Boid>) -> (c:
    Correction)
    requires
        index < boids.len() <= MAX_POPULATION,
        flock_wf(boids@),
        0 <= width <= COORD_LIMIT,
        0 <= height <= COORD_LIMIT,
    ensures
        c.offset.holds(correction_for(index as int, width as int, height as int, boids@).0),
        c.avoiding == correction_for(index as int, width as int, height as int, boids@).1,
{
    let me: &Boid = &boids[index];
    assert(boids@[index as int].wf());
    let wall: Option<Point> = get_boundary_correction_offset(
        &me.position,
        me.direction,
        width,
        height,
    );
    match wall {
        Some(push) => {
            if push.magnitude() > AVOIDANCE_THRESHOLD {
                return Correction { offset: push, avoiding: true };
            }
        },
        None => {},
    }
    if me.time_since_wall_avoidance >= WALL_AVOIDANCE_COOLDOWN {
        let apart: Point = get_seperation_correction_offset(index, &me.position, boids);
        let along: Point = get_alignment_correction_offset(index, &me.position, boids);
        let away: Point = get_cohesion_correction_offset(index, &me.position, boids);
        Correction { offset: apart.add(&along).add(&away), avoiding: false }
    } else {
        Correction { offset: Point { x: 0, y: 0 }, avoiding: false }
    }
}

/// A flock on a screen.
#[derive(Debug)]
pub struct World {
    /// The agents, in the order in which they are stepped.
    pub boids: Vec<Boid>,
    /// Width of the screen.
    pub width: i64,
    /// Height of the screen.
    pub height: i64,
}

/// Whether a screen of the given sides can be simulated on.
pub open spec fn screen_ok(width: int, height: int) -> bool {
    0 <= width <= COORD_LIMIT && 0 <= height <= COORD_LIMIT
}

/// What `World::new` answers for a flock and a screen.
pub open spec fn admission(boids: Seq<Boid>, width: int, height: int) -> Option<Rejection> {
    if boids.len() == 0 {
        Some(Rejection::EmptyFlock)
    } else if boids.len() > MAX_POPULATION {
        Some(Rejection::FlockTooLarge)
    } else if !screen_ok(width, height) {
        Some(Rejection::ScreenOutOfRange)
    } else if !flock_wf(boids) {
        Some(Rejection::AgentOutOfRange)
    } else {
        None
    }
}

impl Boid {
    /// Whether the agent is well formed.
    pub fn is_wf(&self) -> (ok: bool)
        ensures
            ok == self.wf(),
    {
        -COORD_LIMIT <= self.position.x && self.position.x <= COORD_LIMIT && -COORD_LIMIT
            <= self.position.y && self.position.y <= COORD_LIMIT && 0 <= self.direction
            && self.direction < TWO_PI && -SPEED_LIMIT <= self.velocity && self.velocity
            <= SPEED_LIMIT && 0 <= self.time_since_wall_avoidance && self.time_since_wall_avoidance
            <= CLOCK_LIMIT
    }
}

/// Whether every agent of a flock is well formed.
pub fn check_flock(boids: &Vec<Boid>) -> (ok: bool)
    ensures
        ok == flock_wf(boids@),
{
    let mut i: usize = 0;
    while i < boids.len()
        invariant
            i <= boids.len(),
            forall|j: int| 0 <= j < i ==> (#[trigger] boids@[j]).wf(),
        decreases boids.len() - i,
    {
        if !boids[i].is_wf() {
            return false;
        }
        i = i + 1;
    }
    true
}

impl World {
    /// Whether the world can be stepped: it has between one and
    /// `MAX_POPULATION` agents, all well formed, on a screen within range.
    pub open spec fn wf(&self) -> bool {
        admission(self.boids@, self.width as int, self.height as int).is_none()
    }

    /// A world of the given agents on a screen of the given sides, or the
    /// first reason why there is none.
    pub fn new(boids: Vec<Boid>, width: i64, height: i64) -> (made: Result<World, Rejection>)
        ensures
            made.is_ok() == admission(boids@, width as int, height as int).is_none(),
            made.is_err() ==> Some(made.unwrap_err()) == admission(
                boids@,
                width as int,
                height as int,
            ),
            made.is_ok() ==> made.unwrap().boids@ == boids@ && made.unwrap().width == width
                && made.unwrap().height == height && made.unwrap().wf(),
    {
        if boids.len() == 0 {
            return Err(Rejection::EmptyFlock);
        }
        if boids.len() > MAX_POPULATION {
            return Err(Rejection::FlockTooLarge);
        }
        if width < 0 || width > COORD_LIMIT || height < 0 || height > COORD_LIMIT {
            return Err(Rejection::ScreenOutOfRange);
        }
        if !check_flock(&boids) {
            return Err(Rejection::AgentOutOfRange);
        }
        Ok(World { boids, width, height })
    }

    /// Takes on new screen sides, where they are within range.
    pub fn resize(&mut self, width: i64, height: i64) -> (done: Result<(), Rejection>)
        requires
            old(self).wf(),
        ensures
            done.is_ok() == screen_ok(width as int, height as int),
            done.is_err() ==> done.unwrap_err() == Rejection::ScreenOutOfRange && *final(self)
                == *old(self),
            done.is_ok() ==> final(self).boids@ == old(self).boids@ && final(self).width == width
                && final(self).height == height,
            final(self).wf(),
    {
        if width < 0 || width > COORD_LIMIT || height < 0 || height > COORD_LIMIT {
            return Err(Rejection::ScreenOutOfRange);
        }
        self.width = width;
        self.height = height;
        Ok(())
    }

    /// The corrections of all agents, each worked out from the flock as it
    /// stands.
    pub fn corrections(&self) -> (all: Vec<Correction>)
        requires
            self.wf(),
        ensures
            all.len() == self.boids.len(),
            forall|i: int|
                0 <= i < all.len() ==> (#[trigger] all[i]).offset.holds(
                    correction_for(i, self.width as int, self.height as int, self.boids@).0,
                ) && all[i].avoiding == correction_for(
                    i,
                    self.width as int,
                    self.height as int,
                    self.boids@,
                ).1,
    {
        let mut all: Vec<Correction> = Vec::new();
        let mut i: usize = 0;
        while i < self.boids.len()
            invariant
                self.wf(),
                i <= self.boids.len(),
                all.len() == i,
                forall|k: int|
                    0 <= k < i ==> (#[trigger] all[k]).offset.holds(
                        correction_for(k, self.width as int, self.height as int, self.boids@).0,
                    ) && all[k].avoiding == correction_for(
                        k,
                        self.width as int,
                        self.height as int,
                        self.boids@,
                    ).1,
            decreases self.boids.len() - i,
        {
            let c: Correction = compute_correction(i, self.width, self.height, &self.boids);
            all.push(c);
            i = i + 1;
        }
        all
    }

    /// Takes every agent through one frame of `delta_time` microseconds, in
    /// the order of the flock. All corrections are worked out first, from
    /// the flock as the frame finds it, so that no agent sees another
    /// half-way through the frame. A frame time out of range is turned
    /// down and leaves the world as it is.
    pub fn step(&mut self, delta_time: i64) -> (done: Result<(), Rejection>)
        requires
            old(self).wf(),
        ensures
            done.is_ok() == (0 <= delta_time <= FRAME_LIMIT),
            done.is_err() ==> done.unwrap_err() == Rejection::FrameOutOfRange && *final(self)
                == *old(self),
            done.is_ok() ==> final(self).boids@ == stepped(
                old(self).width as int,
                old(self).height as int,
                old(self).boids@,
                delta_time as int,
            ) && final(self).width == old(self).width && final(self).height == old(self).height,
            final(self).wf(),
    {
        if delta_time < 0 || delta_time > FRAME_LIMIT {
            return Err(Rejection::FrameOutOfRange);
        }
        let all: Vec<Correction> = self.corrections();
        let ghost before: Seq<Boid> = self.boids@;
        let mut i: usize = 0;
        while i < self.boids.len()
            invariant
                0 <= delta_time <= FRAME_LIMIT,
                self.width == old(self).width,
                self.height == old(self).height,
                before == old(self).boids@,
                old(self).wf(),
                self.boids.len() == before.len(),
                all.len() == before.len(),
                i <= before.len(),
                forall|k: int|
                    0 <= k < all.len() ==> (#[trigger] all[k]).offset.holds(
                        correction_for(k, self.width as int, self.height as int, before).0,
                    ) && all[k].avoiding == correction_for(
                        k,
                        self.width as int,
                        self.height as int,
                        before,
                    ).1,
                forall|k: int|
                    0 <= k < i ==> #[trigger] self.boids@[k] == stepped_agent(
                        k,
                        self.width as int,
                        self.height as int,
                        before,
                        delta_time as int,
                    ) && self.boids@[k].wf(),
                forall|k: int| i <= k < before.len() ==> #[trigger] self.boids@[k] == before[k],
            decreases before.len() - i,
        {
            let c: Correction = all[i];
            assert(before[i as int].wf());
            let mut agent: Boid = self.boids[i];
            agent.update(&c.offset, c.avoiding, delta_time);
            self.boids.set(i, agent);
            i = i + 1;
        }
        assert(self.boids@ =~= stepped(
            self.width as int,
            self.height as int,
            before,
            delta_time as int,
        ));
        Ok(())
    }
}

/// A whole number drawn at random from `low` up to, but not including,
/// `high`.
///
/// Calls `gen_range` of the `rand` crate on the generator that `thread_rng`
/// hands out, with the half-open range `low..high`. That call panics on an
/// empty range, which `requires` leaves out, and returns a value of the
/// range; nothing else is claimed of the value. Where the operating system
/// cannot seed the generator, `thread_rng` panics whatever the range is.
#[verifier::external_body]
fn random_in(low: i64, high: i64) -> (r: i64)
    requires
        low < high,
    ensures
        low <= r < high,
{
    rand::Rng::gen_range(&mut rand::thread_rng(), low..high)
}

/// Forward speed at `percent` hundredths of `BOID_VELOCITY`.
pub open spec fn speed_at(percent: int) -> int {
    crate::units::div_trunc(BOID_VELOCITY * percent, 100)
}

/// An agent as `Boid::new` makes it at `(x, y)`, then given a heading and a
/// speed of `percent` hundredths of `BOID_VELOCITY`.
pub fn spawn(x: i64, y: i64, heading: i64, percent: i64) -> (boid: Boid)
    requires
        -1_000_000 <= percent <= 1_000_000,
    ensures
        boid.position == (Point { x, y }),
        boid.direction == crate::angle::wrap_angle(heading as int),
        boid.velocity == speed_at(percent as int),
        boid.ang_velocity == 0,
        boid.time_since_wall_avoidance == LONG_AGO,
        boid.shape.is_arrowhead(),
        within(Point { x, y }, COORD_LIMIT as int) ==> boid.wf(),
{
    let mut boid: Boid = Boid::new(Point { x, y });
    boid.set_direction(heading);
    proof {
        crate::units::lemma_product_bound(
            BOID_VELOCITY as int,
            percent as int,
            75_000_000,
            1_000_000,
        );
        crate::units::lemma_div_trunc_bounds(BOID_VELOCITY * percent, 100);
    }
    boid.velocity = (BOID_VELOCITY * percent) / 100;
    boid
}

/// What `World::populate` answers for a head count and a screen.
pub open spec fn seeding(count: int, width: int, height: int) -> Option<Rejection> {
    if count == 0 {
        Some(Rejection::EmptyFlock)
    } else if count > MAX_POPULATION {
        Some(Rejection::FlockTooLarge)
    } else if !(1 <= width <= COORD_LIMIT && 1 <= height <= COORD_LIMIT) {
        Some(Rejection::ScreenOutOfRange)
    } else {
        None
    }
}

/// Whether an agent is one that `World::populate` can have made for a
/// screen: at rest on the screen, with a heading, with a speed within five
/// hundredths of `BOID_VELOCITY`, and with a clock that shows no wall.
pub open spec fn freshly_seeded(boid: Boid, width: int, height: int) -> bool {
    &&& 0 <= boid.position.x < width
    &&& 0 <= boid.position.y < height
    &&& 0 <= boid.direction < TWO_PI
    &&& speed_at(95) <= boid.velocity <= speed_at(104)
    &&& boid.ang_velocity == 0
    &&& boid.time_since_wall_avoidance == LONG_AGO
    &&& boid.shape.is_arrowhead()
}

impl World {
    /// A world of `count` agents scattered at random over a screen of the
    /// given sides, or the first reason why there is none.
    pub fn populate(count: usize, width: i64, height: i64) -> (made: Result<World, Rejection>)
        ensures
            made.is_ok() == seeding(count as int, width as int, height as int).is_none(),
            made.is_err() ==> Some(made.unwrap_err()) == seeding(
                count as int,
                width as int,
                height as int,
            ),
            made.is_ok() ==> made.unwrap().wf() && made.unwrap().boids.len() == count
                && made.unwrap().width == width && made.unwrap().height == height && forall|
                j: int,
            |
                0 <= j < count ==> freshly_seeded(
                    #[trigger] made.unwrap().boids@[j],
                    width as int,
                    height as int,
                ),
    {
        if count == 0 {
            return Err(Rejection::EmptyFlock);
        }
        if count > MAX_POPULATION {
            return Err(Rejection::FlockTooLarge);
        }
        if width < 1 || width > COORD_LIMIT || height < 1 || height > COORD_LIMIT {
            return Err(Rejection::ScreenOutOfRange);
        }
        let mut boids: Vec<Boid> = Vec::new();
        let mut i: usize = 0;
        while i < count
            invariant
                i <= count <= MAX_POPULATION,
                1 <= width <= COORD_LIMIT,
                1 <= height <= COORD_LIMIT,
                boids.len() == i,
                forall|j: int|
                    0 <= j < i ==> (#[trigger] boids@[j]).wf() && freshly_seeded(
                        boids@[j],
                        width as int,
                        height as int,
                    ),
            decreases count - i,
        {
            let x: i64 = random_in(0, width);
            let y: i64 = random_in(0, height);
            let heading: i64 = random_in(0, TWO_PI);
            let percent: i64 = random_in(95, 105);
            let boid: Boid = spawn(x, y, heading, percent);
            proof {
                crate::units::lemma_div_trunc_monotone(
                    BOID_VELOCITY * 95,
                    BOID_VELOCITY * percent,
                    100,
                );
                crate::units::lemma_div_trunc_monotone(
                    BOID_VELOCITY * percent,
                    BOID_VELOCITY * 104,
                    100,
                );
            }
            boids.push(boid);
            i = i + 1;
        }
        Ok(World { boids, width, height })
    }
}

} // verus!
