//! Integer and text sections of a run's configuration, with their defaults.
//! (Sections that hold real-valued parameters live with the program.)
use vstd::prelude::*;

verus! {

pub struct SimSection {
    pub seed: u64,
    pub max_ticks: u64,
    pub log_interval: u64,
}

impl Default for SimSection {
    fn default() -> (s: Self)
        ensures
            s.seed == 42 && s.max_ticks == 100_000 && s.log_interval == 100,
    {
        Self { seed: 42, max_ticks: 100_000, log_interval: 100 }
    }
}

pub struct LifespanSection {
    pub max_age: u64,
}

impl Default for LifespanSection {
    fn default() -> (s: Self)
        ensures
            s.max_age == 100,
    {
        Self { max_age: 100 }
    }
}

pub struct LineageSection {
    pub divergence_threshold: u32,
    pub snapshot_interval: u64,
}

impl Default for LineageSection {
    fn default() -> (s: Self)
        ensures
            s.divergence_threshold == 8 && s.snapshot_interval == 1000,
    {
        Self { divergence_threshold: 8, snapshot_interval: 1000 }
    }
}

pub struct GenomeSection {
    pub seed: u64,
}

impl Default for GenomeSection {
    fn default() -> (s: Self)
        ensures
            s.seed == 0xDEADBEEF,
    {
        Self { seed: 0xDEADBEEF }
    }
}

pub struct LogSection {
    pub dir: String,
}

impl Default for LogSection {
    fn default() -> (s: Self)
        ensures
            s.dir@ == "logs"@,
    {
        Self { dir: "logs".to_owned() }
    }
}

} // verus!
