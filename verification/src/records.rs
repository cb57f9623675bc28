//! The rows of the database that the decisions are about.
//!
//! `F` is the type of measured quantities, which are only carried along here.
use vstd::prelude::*;

verus! {

/// A run that is to be saved.
#[derive(Debug)]
pub struct NewRun<F> {
    pub is_live: bool,
    pub cpu_id: i32,
    pub region: Option<String>,
    pub carbon_intensity: F,
    pub start_time: i64,
    pub stop_time: Option<i64>,
}

/// A run that was saved.
#[derive(Debug)]
pub struct Run<F> {
    pub id: i32,
    pub is_live: bool,
    pub cpu_id: i32,
    pub region: Option<String>,
    pub carbon_intensity: F,
    pub start_time: i64,
    pub stop_time: Option<i64>,
}

/// An iteration of a scenario that is to be saved.
#[derive(Debug)]
pub struct NewIteration {
    pub run_id: i32,
    pub scenario_name: String,
    pub count: i32,
    pub start_time: i64,
    pub stop_time: Option<i64>,
}

/// A `NewIteration` with characters in place of the string.
pub struct NewIterationView {
    pub run_id: i32,
    pub scenario_name: Seq<char>,
    pub count: i32,
    pub start_time: i64,
    pub stop_time: Option<i64>,
}

impl View for NewIteration {
    type V = NewIterationView;

    open spec fn view(&self) -> NewIterationView {
        NewIterationView {
            run_id: self.run_id,
            scenario_name: self.scenario_name@,
            count: self.count,
            start_time: self.start_time,
            stop_time: self.stop_time,
        }
    }
}

/// An iteration that was saved.
#[derive(Debug)]
pub struct Iteration {
    pub id: i32,
    pub run_id: i32,
    pub scenario_name: String,
    pub count: i32,
    pub start_time: i64,
    pub stop_time: Option<i64>,
}

/// A power curve that is to be saved.
#[derive(Debug)]
pub struct NewPowerCurve<F> {
    pub a: F,
    pub b: F,
    pub c: F,
    pub d: F,
}

/// A processor that is to be saved. What it has no value for is not set in the row.
#[derive(Debug)]
pub struct NewCpu<F> {
    pub name: String,
    pub tdp: Option<F>,
    pub power_curve_id: Option<i32>,
}

/// A live run that begins at `start_time` and is not stopped.
pub open spec fn live_run<F>(
    cpu_id: i32,
    region: Option<String>,
    ci: F,
    start_time: i64,
) -> NewRun<F> {
    NewRun { is_live: true, cpu_id, region, carbon_intensity: ci, start_time, stop_time: None }
}

/// A live run that begins at `start_time` and is not stopped.
pub fn create_new_run<F>(cpu_id: i32, region: Option<String>, ci: F, start_time: i64) -> (run:
    NewRun<F>)
    ensures
        run == live_run(cpu_id, region, ci, start_time),
        run.is_live,
        run.cpu_id == cpu_id,
        run.region == region,
        run.carbon_intensity == ci,
        run.start_time == start_time,
        run.stop_time is None,
{
    NewRun { is_live: true, cpu_id, region, carbon_intensity: ci, start_time, stop_time: None }
}

/// The first iteration of a scenario in a run; it begins at `start_time` and is not stopped.
pub fn create_new_iteration(run_id: i32, scenario_name: String, start_time: i64) -> (iteration:
    NewIteration)
    ensures
        iteration == (NewIteration {
            run_id,
            scenario_name,
            count: 1,
            start_time,
            stop_time: None,
        }),
{
    NewIteration { run_id, scenario_name, count: 1, start_time, stop_time: None }
}

/// A live run has the processor, the region, the carbon intensity and the start time that it is
/// made with; it is live, and has no stop time yet.
pub proof fn law_live_run_has_what_it_is_made_with<F>(
    cpu_id: i32,
    region: Option<String>,
    ci: F,
    start_time: i64,
)
    ensures
        live_run(cpu_id, region, ci, start_time).is_live,
        live_run(cpu_id, region, ci, start_time).cpu_id == cpu_id,
        live_run(cpu_id, region, ci, start_time).region == region,
        live_run(cpu_id, region, ci, start_time).carbon_intensity == ci,
        live_run(cpu_id, region, ci, start_time).start_time == start_time,
        live_run(cpu_id, region, ci, start_time).stop_time is None,
{
}

/// Two live runs are the same only if they were made with the same.
pub proof fn law_live_runs_differ<F>(
    cpu_id: i32,
    region: Option<String>,
    ci: F,
    start_time: i64,
    other_cpu_id: i32,
    other_region: Option<String>,
    other_ci: F,
    other_start_time: i64,
)
    requires
        live_run(cpu_id, region, ci, start_time) == live_run(
            other_cpu_id,
            other_region,
            other_ci,
            other_start_time,
        ),
    ensures
        cpu_id == other_cpu_id,
        region == other_region,
        ci == other_ci,
        start_time == other_start_time,
{
}

/// The view of an iteration shows each of its fields.
pub proof fn law_iteration_view_shows_every_field(iteration: NewIteration)
    ensures
        iteration@.run_id == iteration.run_id,
        iteration@.scenario_name == iteration.scenario_name@,
        iteration@.count == iteration.count,
        iteration@.start_time == iteration.start_time,
        iteration@.stop_time == iteration.stop_time,
{
}

} // verus!
