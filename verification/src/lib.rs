//! A verified daily-schedule solver: short human-written frequency,
//! constraint and window strings are parsed into a typed model, and a
//! mixed-integer linear program places every instance of every entity into
//! the day. Whatever the backend answers is validated by verified checks
//! before it is returned.

use vstd::prelude::*;

pub mod data;
pub mod data_simple;
pub mod domain;
pub mod lp;
pub mod parse;
pub mod solver;
pub mod text;
pub mod time;

pub use domain::{
    c2str, ClockVar, ConstraintExpr, ConstraintRef, ConstraintType, Entity, Frequency,
    ScheduleResult, ScheduleStrategy, ScheduledEvent, SchedulerConfig, SchedulerError, WindowInfo,
    WindowSpec,
};
pub use parse::{
    constraint_to_string, parse_constraints, parse_from_table, parse_one_constraint,
    parse_one_window, parse_windows, parse_windows_string, window_to_string,
};
pub use solver::solve_schedule;
pub use time::{format_minutes_to_hhmm, parse_hhmm_to_minutes};

use crate::solver::solve_post;

verus! {

/// Runs the scheduler with the given configuration.
pub fn run_scheduler(entities: Vec<Entity>, config: SchedulerConfig, debug: bool) -> (r: Result<
    ScheduleResult,
    SchedulerError,
>)
    ensures
        solve_post(entities@, config, r),
{
    solver::solve_schedule(entities, config, debug)
}

/// The default scheduler configuration.
pub fn default_config() -> (r: SchedulerConfig)
    ensures
        r.day_start_minutes == 480,
        r.day_end_minutes == 1320,
        r.strategy == ScheduleStrategy::Earliest,
        r.global_windows@.len() == 0,
        r.penalty_weight == 300,
{
    SchedulerConfig::default()
}

/// Runs the scheduler under the default configuration with the given
/// strategy.
pub fn run_schedule_with_stratey(
    entities: Vec<Entity>,
    strategy: ScheduleStrategy,
    debug: bool,
) -> (r: Result<ScheduleResult, SchedulerError>)
    ensures
        exists|cfg: SchedulerConfig|
            {
                &&& cfg.day_start_minutes == 480
                &&& cfg.day_end_minutes == 1320
                &&& cfg.strategy == strategy
                &&& cfg.global_windows@.len() == 0
                &&& cfg.penalty_weight == 300
                &&& #[trigger] solve_post(entities@, cfg, r)
            },
{
    let mut config = default_config();
    config.strategy = strategy;
    run_scheduler(entities, config, debug)
}

} // verus!
