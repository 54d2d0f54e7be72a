//! A foraging ant colony on an integer grid of sub-units.
//!
//! Lengths and coordinates are whole numbers of thousandths of a world unit,
//! directions are vectors whose components are millionths, and trail
//! strengths are parts per billion. Time is counted in ticks, of which a
//! second holds a whole number; the part of a step that is less than a
//! thousandth of a unit is carried over to the next tick, so that the way an
//! ant makes is rounded once, however many ticks it takes. Every decision of
//! the simulation is made on these integers, so each phase of a tick has an
//! exact contract.

pub mod geometry;
pub mod collision;
pub mod trail;
pub mod colony;
pub mod schedule;
pub mod forage;
pub mod steer;
pub mod obstacle;
pub mod world;
pub mod params;
