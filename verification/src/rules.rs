//! The steering rules: keeping away from walls, and separation, alignment
//! and cohesion among neighbours.

use crate::angle::{cos, cosine, sin, sine, TWO_PI};
use crate::object::{within, Boid};
use crate::point::Point;
use crate::roots::{floor_sqrt, lemma_floor_sqrt_exists};
use crate::units::{
    div_trunc, lemma_div_trunc_bounds, lemma_product_bound, mul_fixed, COORD_LIMIT, SCALE,
};
use vstd::arithmetic::power::pow;
use vstd::prelude::*;

verus! {

/// Distance within which an agent senses its neighbours, and width of the
/// margin along each wall: fifty pixels.
pub const VIEW_RADIUS: i64 = 50_000_000;

/// A wall correction counts only when it is longer than this: a tenth.
pub const AVOIDANCE_THRESHOLD: u64 = 100_000;

/// Length of the separation correction: ten.
pub const SEPARATION_PULL: i64 = 10_000_000;

/// Length of the alignment correction: seven and a half.
pub const ALIGNMENT_PULL: i64 = 7_500_000;

/// Length of the cohesion correction: sixty.
pub const COHESION_PULL: i64 = 60_000_000;

/// Degree of the first root that compresses the wall correction.
pub const FIRST_ROOT: u32 = 5;

/// Degree of the root taken of the first root, which makes a tenth root of
/// the two together.
pub const SECOND_ROOT: u32 = 2;

/// Largest flock that the rules are worked out for.
pub const MAX_POPULATION: usize = 1_000_000;

/// The push of one wall: the inward direction `(nx, ny)`, scaled by how far
/// the agent is inside the margin.
pub open spec fn wall_push(nx: int, ny: int, depth: int) -> (int, int) {
    (mul_fixed(nx, depth), mul_fixed(ny, depth))
}

/// Sum of two pairs.
pub open spec fn pair_sum(a: (int, int), b: (int, int)) -> (int, int) {
    (a.0 + b.0, a.1 + b.1)
}

/// A pair, or zero where the condition fails.
pub open spec fn pair_if(condition: bool, a: (int, int)) -> (int, int) {
    if condition {
        a
    } else {
        (0, 0)
    }
}

/// Whether a position lies inside the margin of some wall of a screen.
pub open spec fn in_margin(position: Point, width: int, height: int) -> bool {
    ||| position.x < VIEW_RADIUS
    ||| position.x > width - VIEW_RADIUS
    ||| position.y < VIEW_RADIUS
    ||| position.y > height - VIEW_RADIUS
}

/// Sum of the pushes of the walls whose margin the agent is in. Each of the
/// four walls is tested by itself. The part of each push along the wall
/// follows the agent's heading.
pub open spec fn margin_push(position: Point, direction: int, width: int, height: int) -> (
    int,
    int,
) {
    let s: int = sine(direction);
    let c: int = cosine(direction);
    let left: (int, int) = pair_if(
        position.x < VIEW_RADIUS,
        wall_push(SCALE as int, -s, VIEW_RADIUS - position.x),
    );
    let right: (int, int) = pair_if(
        position.x > width - VIEW_RADIUS,
        wall_push(-SCALE, -s, position.x - (width - VIEW_RADIUS)),
    );
    let top: (int, int) = pair_if(
        position.y < VIEW_RADIUS,
        wall_push(-c, SCALE as int, VIEW_RADIUS - position.y),
    );
    let bottom: (int, int) = pair_if(
        position.y > height - VIEW_RADIUS,
        wall_push(-c, -SCALE, position.y - (height - VIEW_RADIUS)),
    );
    pair_sum(pair_sum(left, right), pair_sum(top, bottom))
}

/// Whether the compression of a push is defined: neither coordinate is
/// negative.
pub open spec fn push_defined(push: (int, int)) -> bool {
    push.0 >= 0 && push.1 >= 0
}

/// A coordinate of a push raised to the power one tenth: the square root of
/// its fifth root.
pub open spec fn compressed(x: int) -> int {
    crate::point::root_fixed(crate::point::root_fixed(x, FIRST_ROOT as nat), SECOND_ROOT as nat)
}

/// The wall correction: the summed push with the tenth root taken of each
/// coordinate, where that is defined.
pub open spec fn wall_correction(position: Point, direction: int, width: int, height: int)
    -> Option<(int, int)> {
    let push: (int, int) = margin_push(position, direction, width, height);
    if push_defined(push) {
        Some((compressed(push.0), compressed(push.1)))
    } else {
        None
    }
}

/// Whether an agent at `me` senses one at `other`.
pub open spec fn senses(me: Point, other: Point) -> bool {
    floor_sqrt((me.x - other.x) * (me.x - other.x) + (me.y - other.y) * (me.y - other.y))
        <= VIEW_RADIUS
}

/// Distance from `me` to `other`, rounded down.
pub open spec fn distance(me: Point, other: Point) -> int {
    floor_sqrt((me.x - other.x) * (me.x - other.x) + (me.y - other.y) * (me.y - other.y))
}

/// Whether agent `j` of the flock counts as a neighbour of agent
/// `self_index` standing at `me`.
pub open spec fn neighbour(self_index: int, me: Point, boids: Seq<Boid>, j: int) -> bool {
    j != self_index && senses(me, boids[j].position)
}

/// The push away from one neighbour: the offset from it, weighted by how
/// far inside the sensing radius it is. The weight is the depth itself, a
/// length, and not its share of the radius; taking the sum to a fixed
/// length cancels the constant factor between the two, and no push of a
/// neighbour inside the radius rounds to nothing.
pub open spec fn push_from(me: Point, other: Point) -> (int, int) {
    let weight: int = VIEW_RADIUS - distance(me, other);
    (mul_fixed(me.x - other.x, weight), mul_fixed(me.y - other.y, weight))
}

/// Sum of the pushes away from the neighbours among the first `n` agents.
pub open spec fn separation_sum(self_index: int, me: Point, boids: Seq<Boid>, n: nat) -> (
    int,
    int,
)
    decreases n,
{
    if n == 0 {
        (0, 0)
    } else {
        pair_sum(
            separation_sum(self_index, me, boids, (n - 1) as nat),
            pair_if(
                neighbour(self_index, me, boids, n - 1),
                push_from(me, boids[n - 1].position),
            ),
        )
    }
}

/// Sum of the headings of the neighbours among the first `n` agents.
pub open spec fn heading_sum(self_index: int, me: Point, boids: Seq<Boid>, n: nat) -> int
    decreases n,
{
    if n == 0 {
        0
    } else {
        heading_sum(self_index, me, boids, (n - 1) as nat) + if neighbour(
            self_index,
            me,
            boids,
            n - 1,
        ) {
            boids[n - 1].direction as int
        } else {
            0
        }
    }
}

/// Sum of the positions of the neighbours among the first `n` agents.
pub open spec fn position_sum(self_index: int, me: Point, boids: Seq<Boid>, n: nat) -> (int, int)
    decreases n,
{
    if n == 0 {
        (0, 0)
    } else {
        pair_sum(
            position_sum(self_index, me, boids, (n - 1) as nat),
            pair_if(
                neighbour(self_index, me, boids, n - 1),
                (boids[n - 1].position.x as int, boids[n - 1].position.y as int),
            ),
        )
    }
}

/// A vector brought to the given length; the zero vector stays zero.
pub open spec fn pulled(v: Point, strength: int) -> (int, int) {
    v.resized(strength)
}

/// The separation correction: away from the neighbours, the nearer the
/// stronger, at length `SEPARATION_PULL`; zero where there is no neighbour.
pub open spec fn separation(self_index: int, me: Point, boids: Seq<Boid>) -> (int, int) {
    let sum: (int, int) = separation_sum(self_index, me, boids, boids.len());
    pulled(Point { x: sum.0 as i64, y: sum.1 as i64 }, SEPARATION_PULL as int)
}

/// The alignment correction: along the mean of the neighbours' headings,
/// taken over the whole flock but the agent itself, at length
/// `ALIGNMENT_PULL`; zero where the headings add up to zero.
pub open spec fn alignment(self_index: int, me: Point, boids: Seq<Boid>) -> (int, int) {
    let sum: int = heading_sum(self_index, me, boids, boids.len());
    if sum == 0 {
        (0, 0)
    } else {
        let mean: int = div_trunc(sum, boids.len() - 1);
        (mul_fixed(cosine(mean), ALIGNMENT_PULL as int), mul_fixed(sine(mean), ALIGNMENT_PULL as int))
    }
}

/// The cohesion correction: from the mean of the neighbours' positions,
/// taken over the whole flock but the agent itself, to the agent, at length
/// `COHESION_PULL`; zero in a flock of one.
pub open spec fn cohesion(self_index: int, me: Point, boids: Seq<Boid>) -> (int, int) {
    let sum: (int, int) = position_sum(self_index, me, boids, boids.len());
    if boids.len() <= 1 {
        (0, 0)
    } else {
        let mean: (int, int) = (
            div_trunc(sum.0, boids.len() - 1),
            div_trunc(sum.1, boids.len() - 1),
        );
        pulled(Point { x: (me.x - mean.0) as i64, y: (me.y - mean.1) as i64 }, COHESION_PULL as int)
    }
}

/// Whether every agent of a flock is well formed.
pub open spec fn flock_wf(boids: Seq<Boid>) -> bool {
    forall|j: int| 0 <= j < boids.len() ==> (#[trigger] boids[j]).wf()
}

/// Multiplying by one leaves a value as it is, and a factor of at most one
/// does not grow it.
pub proof fn lemma_mul_fixed_unit(t: int, d: int)
    requires
        -SCALE <= t <= SCALE,
        d >= 0,
    ensures
        mul_fixed(SCALE as int, d) == d,
        mul_fixed(-SCALE, d) == -d,
        -d <= mul_fixed(t, d) <= d,
{
    assert((1_000_000 * d) / 1_000_000 == d);
    assert(SCALE * d == 1_000_000 * d);
    let neg: int = -SCALE;
    assert(neg == -1_000_000);
    assert(neg * d == -(1_000_000 * d));
    lemma_product_bound(t, d, 1_000_000, d);
    lemma_div_trunc_bounds(t * d, 1_000_000);
    let p: int = t * d;
    assert(-(1_000_000 * d) <= p <= 1_000_000 * d);
    if p >= 0 {
        assert(p / 1_000_000 <= d);
    } else {
        assert((-p) / 1_000_000 <= d);
    }
}

/// `SCALE` raised to one less than each of the two root degrees.
pub proof fn lemma_compression_scale()
    ensures
        pow(SCALE as int, (FIRST_ROOT - 1) as nat) == 1_000_000_000_000_000_000_000_000,
        pow(SCALE as int, (SECOND_ROOT - 1) as nat) == 1_000_000,
{
    reveal_with_fuel(pow, 5);
    let a: int = pow(1_000_000, 2);
    assert(a == 1_000_000_000_000);
    let b: int = pow(1_000_000, 4);
    assert(b == 1_000_000 * (1_000_000 * a));
}

/// The wall correction.
pub fn get_boundary_correction_offset(
    position: &Point,
    direction: i64,
    screen_width: i64,
    screen_height: i64,
) -> (offset: Option<Point>)
    requires
        within(*position, COORD_LIMIT as int),
        0 <= screen_width <= COORD_LIMIT,
        0 <= screen_height <= COORD_LIMIT,
    ensures
        offset.is_some() == wall_correction(
            *position,
            direction as int,
            screen_width as int,
            screen_height as int,
        ).is_some(),
        offset.is_some() ==> offset.unwrap().holds(
            wall_correction(
                *position,
                direction as int,
                screen_width as int,
                screen_height as int,
            ).unwrap(),
        ),
{
    let s: i64 = sin(direction);
    let c: i64 = cos(direction);
    let right_bound: i64 = screen_width - VIEW_RADIUS;
    let bottom_bound: i64 = screen_height - VIEW_RADIUS;
    let ghost reach: int = COORD_LIMIT + VIEW_RADIUS;
    let mut push: Point = Point { x: 0, y: 0 };
    if position.x < VIEW_RADIUS {
        let depth: i64 = VIEW_RADIUS - position.x;
        proof {
            lemma_mul_fixed_unit(-s as int, depth as int);
        }
        let wall: Point = Point { x: SCALE, y: -s }.scale(depth);
        push = push.add(&wall);
    }
    assert(-reach <= push.x <= reach && -reach <= push.y <= reach);
    if position.x > right_bound {
        let depth: i64 = position.x - right_bound;
        proof {
            lemma_mul_fixed_unit(-s as int, depth as int);
        }
        let wall: Point = Point { x: -SCALE, y: -s }.scale(depth);
        push = push.add(&wall);
    }
    assert(-reach <= push.x <= reach && -2 * reach <= push.y <= 2 * reach);
    if position.y < VIEW_RADIUS {
        let depth: i64 = VIEW_RADIUS - position.y;
        proof {
            lemma_mul_fixed_unit(-c as int, depth as int);
        }
        let wall: Point = Point { x: -c, y: SCALE }.scale(depth);
        push = push.add(&wall);
    }
    assert(-2 * reach <= push.x <= 2 * reach && -3 * reach <= push.y <= 3 * reach);
    if position.y > bottom_bound {
        let depth: i64 = position.y - bottom_bound;
        proof {
            lemma_mul_fixed_unit(-c as int, depth as int);
        }
        let wall: Point = Point { x: -c, y: -SCALE }.scale(depth);
        push = push.add(&wall);
    }
    assert(-3 * reach <= push.x <= 3 * reach && -3 * reach <= push.y <= 3 * reach);
    assert(push.holds(
        margin_push(*position, direction as int, screen_width as int, screen_height as int),
    ));
    proof {
        lemma_compression_scale();
        let top: int = pow(SCALE as int, (FIRST_ROOT - 1) as nat);
        if push.x >= 0 {
            assert(push.x * top <= u128::MAX) by (nonlinear_arith)
                requires
                    0 <= push.x <= 3_000_150_000_000,
                    top == 1_000_000_000_000_000_000_000_000,
            ;
        }
        if push.y >= 0 {
            assert(push.y * top <= u128::MAX) by (nonlinear_arith)
                requires
                    0 <= push.y <= 3_000_150_000_000,
                    top == 1_000_000_000_000_000_000_000_000,
            ;
        }
    }
    match push.powf(FIRST_ROOT) {
        Some(fifth) => {
            proof {
                let one: int = pow(SCALE as int, (SECOND_ROOT - 1) as nat);
                assert(fifth.x * one <= u128::MAX) by (nonlinear_arith)
                    requires
                        0 <= fifth.x <= 0x7fff_ffff_ffff_ffff,
                        one == 1_000_000,
                ;
                assert(fifth.y * one <= u128::MAX) by (nonlinear_arith)
                    requires
                        0 <= fifth.y <= 0x7fff_ffff_ffff_ffff,
                        one == 1_000_000,
                ;
            }
            fifth.powf(SECOND_ROOT)
        },
        None => None,
    }
}

/// An agent that is sensed lies within the sensing radius along each axis.
pub proof fn lemma_sensed_offsets(me: Point, other: Point)
    requires
        senses(me, other),
    ensures
        0 <= distance(me, other) <= VIEW_RADIUS,
        -VIEW_RADIUS <= me.x - other.x <= VIEW_RADIUS,
        -VIEW_RADIUS <= me.y - other.y <= VIEW_RADIUS,
        0 <= VIEW_RADIUS - distance(me, other) <= VIEW_RADIUS,
        -2_500_000_000 <= push_from(me, other).0 <= 2_500_000_000,
        -2_500_000_000 <= push_from(me, other).1 <= 2_500_000_000,
{
    let dx: int = me.x - other.x;
    let dy: int = me.y - other.y;
    let n: int = dx * dx + dy * dy;
    assert(n >= 0) by (nonlinear_arith)
        requires
            n == dx * dx + dy * dy,
    ;
    lemma_floor_sqrt_exists(n);
    let m: int = floor_sqrt(n);
    crate::point::lemma_length_dominates(dx, dy, m);
    let w: int = VIEW_RADIUS - m;
    lemma_product_bound(dx, w, 50_000_000, 50_000_000);
    lemma_product_bound(dy, w, 50_000_000, 50_000_000);
    lemma_div_trunc_bounds(dx * w, 1_000_000);
    lemma_div_trunc_bounds(dy * w, 1_000_000);
    let px: int = dx * w;
    let py: int = dy * w;
    assert(-2_500_000_000 <= crate::units::div_trunc(px, 1_000_000) <= 2_500_000_000);
    assert(-2_500_000_000 <= crate::units::div_trunc(py, 1_000_000) <= 2_500_000_000);
}

/// Distance from `me` to `other` where `me` senses `other`.
fn sensed(me: &Point, other: &Point) -> (d: Option<i64>)
    requires
        within(*me, COORD_LIMIT as int),
        within(*other, COORD_LIMIT as int),
    ensures
        d.is_some() == senses(*me, *other),
        d.is_some() ==> d.unwrap() == distance(*me, *other),
{
    let offset: Point = me.sub(other);
    let m: u64 = offset.magnitude();
    if m <= VIEW_RADIUS as u64 {
        Some(m as i64)
    } else {
        None
    }
}

/// The separation correction for agent `self_index` standing at `position`.
pub fn get_seperation_correction_offset(self_index: usize, position: &Point, boids: &Vec<Boid>)
    -> (offset: Point)
    requires
        within(*position, COORD_LIMIT as int),
        flock_wf(boids@),
        boids.len() <= MAX_POPULATION,
    ensures
        offset.holds(separation(self_index as int, *position, boids@)),
        within(offset, SEPARATION_PULL as int),
{
    let mut sum: Point = Point { x: 0, y: 0 };
    let mut i: usize = 0;
    while i < boids.len()
        invariant
            i <= boids.len() <= MAX_POPULATION,
            within(*position, COORD_LIMIT as int),
            flock_wf(boids@),
            sum.holds(separation_sum(self_index as int, *position, boids@, i as nat)),
            -2_500_000_000 * i <= sum.x <= 2_500_000_000 * i,
            -2_500_000_000 * i <= sum.y <= 2_500_000_000 * i,
        decreases boids.len() - i,
    {
        if i != self_index {
            let other: &Point = &boids[i].position;
            assert(boids@[i as int].wf());
            match sensed(position, other) {
                Some(d) => {
                    proof {
                        lemma_sensed_offsets(*position, *other);
                    }
                    let weight: i64 = VIEW_RADIUS - d;
                    sum.x = sum.x + (crate::units::times(position.x - other.x, weight) as i64);
                    sum.y = sum.y + (crate::units::times(position.y - other.y, weight) as i64);
                },
                None => {},
            }
        }
        i = i + 1;
    }
    sum.with_length(SEPARATION_PULL)
}

/// The alignment correction for agent `self_index` standing at `position`.
pub fn get_alignment_correction_offset(self_index: usize, position: &Point, boids: &Vec<Boid>)
    -> (offset: Point)
    requires
        self_index < boids.len() <= MAX_POPULATION,
        within(*position, COORD_LIMIT as int),
        flock_wf(boids@),
    ensures
        offset.holds(alignment(self_index as int, *position, boids@)),
        within(offset, ALIGNMENT_PULL as int),
{
    let mut sum: i64 = 0;
    let mut i: usize = 0;
    while i < boids.len()
        invariant
            self_index < boids.len(),
            i <= boids.len() <= MAX_POPULATION,
            within(*position, COORD_LIMIT as int),
            flock_wf(boids@),
            sum == heading_sum(self_index as int, *position, boids@, i as nat),
            0 <= sum <= TWO_PI * i,
            sum > 0 ==> boids.len() >= 2,
        decreases boids.len() - i,
    {
        if i != self_index {
            assert(boids@[i as int].wf());
            if sensed(position, &boids[i].position).is_some() {
                sum = sum + boids[i].direction;
            }
        }
        i = i + 1;
    }
    if sum == 0 {
        return Point { x: 0, y: 0 };
    }
    let mean: i64 = sum / ((boids.len() - 1) as i64);
    let mut offset: Point = Point { x: cos(mean), y: sin(mean) };
    proof {
        lemma_mul_fixed_bound(offset.x as int, ALIGNMENT_PULL as int);
        lemma_mul_fixed_bound(offset.y as int, ALIGNMENT_PULL as int);
    }
    offset.scale_to(ALIGNMENT_PULL);
    offset
}

/// The cohesion correction for agent `self_index` standing at `position`.
pub fn get_cohesion_correction_offset(self_index: usize, position: &Point, boids: &Vec<Boid>)
    -> (offset: Point)
    requires
        boids.len() <= MAX_POPULATION,
        within(*position, COORD_LIMIT as int),
        flock_wf(boids@),
    ensures
        offset.holds(cohesion(self_index as int, *position, boids@)),
        within(offset, COHESION_PULL as int),
{
    let mut sum: Point = Point { x: 0, y: 0 };
    let mut i: usize = 0;
    while i < boids.len()
        invariant
            i <= boids.len() <= MAX_POPULATION,
            within(*position, COORD_LIMIT as int),
            flock_wf(boids@),
            sum.holds(position_sum(self_index as int, *position, boids@, i as nat)),
            -1_000_000_000_000 * i <= sum.x <= 1_000_000_000_000 * i,
            -1_000_000_000_000 * i <= sum.y <= 1_000_000_000_000 * i,
        decreases boids.len() - i,
    {
        if i != self_index {
            let other: &Point = &boids[i].position;
            assert(boids@[i as int].wf());
            if sensed(position, other).is_some() {
                sum.x = sum.x + other.x;
                sum.y = sum.y + other.y;
            }
        }
        i = i + 1;
    }
    if boids.len() <= 1 {
        return Point { x: 0, y: 0 };
    }
    let others: i64 = (boids.len() - 1) as i64;
    proof {
        lemma_div_trunc_bounds(sum.x as int, others as int);
        lemma_div_trunc_bounds(sum.y as int, others as int);
    }
    let mean: Point = Point { x: sum.x / others, y: sum.y / others };
    let offset: Point = position.sub(&mean);
    offset.with_length(COHESION_PULL)
}

/// A factor of at most one times a strength stays within the strength.
pub proof fn lemma_mul_fixed_bound(t: int, strength: int)
    requires
        -SCALE <= t <= SCALE,
        0 <= strength,
    ensures
        -strength <= mul_fixed(t, strength) <= strength,
        t == 0 ==> mul_fixed(t, strength) == 0,
        t == SCALE ==> mul_fixed(t, strength) == strength,
        t == -SCALE ==> mul_fixed(t, strength) == -strength,
{
    lemma_mul_fixed_unit(t, strength);
    assert(t == 0 ==> t * strength == 0) by (nonlinear_arith);
    assert(t == 1_000_000 ==> t * strength == 1_000_000 * strength) by (nonlinear_arith);
    assert(t == -1_000_000 ==> t * strength == -(1_000_000 * strength)) by (nonlinear_arith);
}

} // verus!
