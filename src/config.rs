use vstd::prelude::*;

verus! {

/// Smallest redundancy probability, in hundredths.
pub const REDUNDANCY_FLOOR: u64 = 5;

/// Redundancy probability at difficulty zero, in hundredths.
pub const REDUNDANCY_START: u64 = 50;

/// Power-map probability at difficulty zero, in hundredths.
pub const POWER_MAP_START: u64 = 5;

/// Largest power-map probability, in hundredths.
pub const POWER_MAP_CAP: u64 = 30;

/// How much each difficulty level moves either probability, in hundredths.
pub const RATIO_STEP: u64 = 5;

/// Constraint-producing steps added by each difficulty level.
pub const CONSTRAINTS_PER_LEVEL: u64 = 1000;

/// Dependency depth allowed at difficulty zero, and added by each level.
pub const DEPTH_PER_LEVEL: u64 = 10;

/// The generation parameters derived from one difficulty level.
///
/// Both probabilities are whole hundredths: `redundancy_ratio == 35` stands for
/// a probability of 0.35.
#[derive(Debug, Clone, Copy, PartialEq, Eq, Structural)]
pub struct CircuitConfig {
    /// Number of constraint-producing steps.
    pub num_constraints: u64,
    /// Probability, in hundredths, of re-emitting a cached expression.
    pub redundancy_ratio: u64,
    /// Ceiling on the dependency depth of fresh arithmetic.
    pub max_depth: u64,
    /// Probability, in hundredths, of emitting a degree-5 gate.
    pub power_map_ratio: u64,
}

pub open spec fn spec_num_constraints(delta: nat) -> int {
    (delta * 1000) as int
}

pub open spec fn spec_redundancy(delta: nat) -> int {
    if 50 - 5 * delta >= 5 { 50 - 5 * delta } else { 5 }
}

pub open spec fn spec_power_map(delta: nat) -> int {
    if 5 + 5 * delta <= 30 { (5 + 5 * delta) as int } else { 30 }
}

pub open spec fn spec_max_depth(delta: nat) -> int {
    (10 + 10 * delta) as int
}

/// The configuration that difficulty `delta` stands for.
pub open spec fn config_of(delta: nat) -> CircuitConfig {
    CircuitConfig {
        num_constraints: spec_num_constraints(delta) as u64,
        redundancy_ratio: spec_redundancy(delta) as u64,
        max_depth: spec_max_depth(delta) as u64,
        power_map_ratio: spec_power_map(delta) as u64,
    }
}

impl CircuitConfig {
    /// Both probabilities are at most one, together too; the depth ceiling is
    /// at least one; and both counts are within what a `u32` difficulty gives.
    pub open spec fn wf(&self) -> bool {
        &&& self.redundancy_ratio + self.power_map_ratio <= 100
        &&& self.max_depth >= 1
        &&& self.num_constraints <= u32::MAX as int * 1000
        &&& self.max_depth <= u32::MAX as int * 10 + 10
    }
}

/// Maps a difficulty level to its generation parameters.
pub fn difficulty_to_config(delta: u32) -> (r: CircuitConfig)
    ensures
        r == config_of(delta as nat),
        r.num_constraints == delta as int * 1000,
        r.max_depth == 10 + delta as int * 10,
        r.wf(),
{
    let d = delta as u64;
    let num_constraints = d * CONSTRAINTS_PER_LEVEL;
    let drop = d * RATIO_STEP;
    let redundancy_ratio = if drop + REDUNDANCY_FLOOR <= REDUNDANCY_START {
        REDUNDANCY_START - drop
    } else {
        REDUNDANCY_FLOOR
    };
    let rise = POWER_MAP_START + d * RATIO_STEP;
    let power_map_ratio = if rise <= POWER_MAP_CAP {
        rise
    } else {
        POWER_MAP_CAP
    };
    let max_depth = DEPTH_PER_LEVEL + d * DEPTH_PER_LEVEL;
    CircuitConfig { num_constraints, redundancy_ratio, max_depth, power_map_ratio }
}

/// Along rising difficulty, the step count and the depth ceiling rise strictly,
/// the redundancy probability never rises and the power-map probability never
/// falls; the redundancy probability stays within `[0.05, 0.5]` and the
/// power-map probability within `[0.05, 0.30]`.
pub proof fn lemma_difficulty_monotone(d1: u32, d2: u32)
    requires
        d1 < d2,
    ensures
        config_of(d2 as nat).num_constraints > config_of(d1 as nat).num_constraints,
        config_of(d2 as nat).max_depth > config_of(d1 as nat).max_depth,
        config_of(d2 as nat).redundancy_ratio <= config_of(d1 as nat).redundancy_ratio,
        config_of(d2 as nat).power_map_ratio >= config_of(d1 as nat).power_map_ratio,
        5 <= config_of(d1 as nat).redundancy_ratio <= 50,
        5 <= config_of(d2 as nat).redundancy_ratio <= 50,
        5 <= config_of(d1 as nat).power_map_ratio <= 30,
        5 <= config_of(d2 as nat).power_map_ratio <= 30,
{
}

} // verus!
