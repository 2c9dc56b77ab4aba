//! Runtime-tunable simulation parameters, owned by the simulation and
//! mutated in place; there is no global state and no lock.

use vstd::prelude::*;

use crate::fixed::fx_ok;

verus! {

#[derive(Clone, Copy, PartialEq, Eq, Structural, Debug)]
pub struct SimConfig {
    /// Downward acceleration applied to free bodies when positive.
    pub gravity: i64,
    /// Factor the driver multiplies elapsed time by before a tick.
    pub speed_factor: i64,
    /// Quadratic drag coefficient.
    pub air_resistance: i64,
    /// Fraction a wall bounce adds to or removes from the reflected speed.
    pub collide_loss: i64,
    /// Spring stiffness for soft links.
    pub spring_const: i64,
    /// Damping coefficient for soft links.
    pub damp_const: i64,
    /// Radius given to bodies spawned without an explicit one.
    pub default_radius: i64,
    /// Rest length given to links made without an explicit one.
    pub default_link_length: i64,
}

impl SimConfig {
    /// The startup values of every tunable.
    pub open spec fn defaults_sp() -> SimConfig {
        SimConfig {
            gravity: 9_800i64,
            speed_factor: 3_000i64,
            air_resistance: 50i64,
            collide_loss: 400i64,
            spring_const: 100i64,
            damp_const: 50i64,
            default_radius: 10_000i64,
            default_link_length: 20_000i64,
        }
    }

    /// Every tunable is in the representable band.
    pub open spec fn ok(self) -> bool {
        &&& fx_ok(self.gravity)
        &&& fx_ok(self.speed_factor)
        &&& fx_ok(self.air_resistance)
        &&& fx_ok(self.collide_loss)
        &&& fx_ok(self.spring_const)
        &&& fx_ok(self.damp_const)
        &&& fx_ok(self.default_radius)
        &&& fx_ok(self.default_link_length)
    }

    /// The startup defaults: gravity 9.8, time scale 3, drag 0.05,
    /// bounce loss 0.4, stiffness 0.1, damping 0.05, radius 10, link 20.
    pub fn new() -> (r: SimConfig)
        ensures
            r == SimConfig::defaults_sp(),
            r.ok(),
    {
        SimConfig {
            gravity: 9_800,
            speed_factor: 3_000,
            air_resistance: 50,
            collide_loss: 400,
            spring_const: 100,
            damp_const: 50,
            default_radius: 10_000,
            default_link_length: 20_000,
        }
    }
}

} // verus!
