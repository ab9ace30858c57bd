//! The execution platform.

use vstd::prelude::*;

verus! {

/// Description of the platform that the tasks run on.
#[derive(Debug)]
pub struct Processor {
    /// Number of independent cores.
    pub cores: u32,
    /// Clock speed; carried along, never read by the simulation.
    pub clock_speed: u32,
    /// Name of the scheduling algorithm.
    pub scheduler_algorithm: String,
    /// Whether a policy may split a release into several intervals.
    pub preemption_enabled: bool,
}

impl Processor {
    /// The built-in platform: one core at clock speed 1000, round-robin,
    /// preemption enabled.
    pub open spec fn is_built_in(&self) -> bool {
        &&& self.cores == 1
        &&& self.clock_speed == 1000
        &&& self.scheduler_algorithm@ == "round_robin"@
        &&& self.preemption_enabled
    }

    /// The description that was loaded, or the built-in one if none was.
    pub fn new(loaded: Option<Processor>) -> (r: Self)
        ensures
            match loaded {
                Some(p) => r == p,
                None => r.is_built_in(),
            },
    {
        match loaded {
            Some(p) => p,
            None => Self::default(),
        }
    }
}

impl Default for Processor {
    /// The built-in platform: one core, round-robin, preemption enabled.
    fn default() -> (r: Self)
        ensures
            r.is_built_in(),
    {
        Processor {
            cores: 1,
            clock_speed: 1000,
            scheduler_algorithm: "round_robin".to_owned(),
            preemption_enabled: true,
        }
    }
}

} // verus!
