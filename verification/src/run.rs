//! What a simulation run does after each tick: write the periodic summary,
//! stop on extinction, flush its logs.
use vstd::prelude::*;

verus! {

/// How often (in ticks) a run flushes its log files.
pub const FLUSH_INTERVAL: u64 = 1000;

/// The steps a run takes after a tick.
#[derive(Clone, Copy, Debug, PartialEq, Eq, Structural)]
pub struct TickPlan {
    /// Write the tick summary.
    pub log_summary: bool,
    /// The population is extinct: mark the run "extinct" and stop.
    pub stop: bool,
    /// Flush the log files.
    pub flush: bool,
}

/// Plan the steps after `tick`: a summary every `log_interval` ticks; on
/// extinction the run stops (without the periodic flush); otherwise the
/// logs are flushed every `FLUSH_INTERVAL` ticks.
pub fn plan_after_tick(tick: u64, log_interval: u64, extinct: bool) -> (plan: TickPlan)
    requires
        log_interval > 0,
    ensures
        plan.log_summary == (tick % log_interval == 0),
        plan.stop == extinct,
        plan.flush == (!extinct && tick % FLUSH_INTERVAL == 0),
{
    TickPlan {
        log_summary: tick % log_interval == 0,
        stop: extinct,
        flush: !extinct && tick % FLUSH_INTERVAL == 0,
    }
}

/// The status a run ends with.
pub fn run_status(stopped_extinct: bool) -> (status: &'static str)
    ensures
        status@ == if stopped_extinct {
            "extinct"@
        } else {
            "completed"@
        },
{
    if stopped_extinct {
        "extinct"
    } else {
        "completed"
    }
}

} // verus!
