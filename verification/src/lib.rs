//! Flocking agents ("boids") on an integer plane.
//!
//! Each agent steers by three rules that look at its neighbours, separation,
//! alignment and cohesion, and by a fourth that keeps it away from the walls
//! of the screen. One correction comes out of the four, is turned into a
//! turn rate, and the agent moves and turns for the length of the frame.
//!
//! Every quantity is a fixed-point integer, so a simulation replays
//! identically on every machine: lengths count millionths of a pixel,
//! angles count nanoradians, and times count microseconds.
//!
//! - [`units`]: the units of measure and the rounding rule.
//! - [`roots`]: integer roots.
//! - [`angle`]: wrapping, sine, cosine and arctangent.
//! - [`point`]: two-dimensional vectors.
//! - [`object`]: agents, their shapes, and how one agent steers and moves.
//! - [`rules`]: the four steering rules.
//! - [`world`]: the flock, the choice among the rules, and the frame.
//! - [`theorems`]: what holds of all of this on every input.

pub mod units;
pub mod roots;
pub mod angle;
pub mod point;
pub mod object;
pub mod rules;
pub mod world;
pub mod theorems;
