//! The run of a plan: its processes are started and observed, and its mode is executed on them.
//!
//! The `Runner` says what to do next, and is told how it went.
use crate::config::{Cpu, Power, Process};
use crate::execution_modes::ExecutionMode;
use crate::execution_plan::ExecutionPlan;
use crate::records::{NewCpu, NewPowerCurve};
use vstd::prelude::*;

verus! {

/// How long the application is given to settle, in milliseconds.
pub const SETTLE_MILLIS: u64 = 2000;

/// What the mode of the plan will be executed with.
#[derive(Debug)]
pub struct Job<'a, F, S, P> {
    pub observed: Vec<P>,
    pub mode: ExecutionMode<'a, S>,
    pub region: Option<String>,
    pub ci: F,
}

/// Where the run of a plan stands.
#[derive(Debug)]
pub enum Runner<'a, F, S, P> {
    /// A process is being started; `rest` are those still to come.
    Starting { rest: Vec<&'a Process>, cpu: Cpu<F>, job: Job<'a, F, S, P> },
    /// The application settles.
    Settling { cpu: Cpu<F>, job: Job<'a, F, S, P> },
    /// The processor is being looked up.
    FindingCpu { cpu: Cpu<F>, job: Job<'a, F, S, P> },
    /// The power curve of the processor is being saved.
    SavingCurve { cpu_name: String, job: Job<'a, F, S, P> },
    /// The processor is being saved.
    SavingCpu { job: Job<'a, F, S, P> },
    /// The mode is being executed.
    Executing,
    /// Nothing is left to do.
    Finished,
}

/// How the last action went. `E` is an error of what the run works with.
#[derive(Debug)]
pub enum RunEvent<P, E> {
    /// The process started and can be observed.
    ProcessStarted(P),
    /// The application had its time to settle.
    Settled,
    /// The processor was looked up and may be there under an id.
    CpuFound(Option<i32>),
    /// The power curve was saved under this id.
    CurveSaved(i32),
    /// The processor was saved under this id.
    CpuSaved(i32),
    /// The mode ended.
    ModeEnded,
    /// The last action failed.
    Failed(E),
}

/// What to do next.
#[derive(Debug)]
pub enum RunAction<'a, F, S, P, E> {
    /// Start the process.
    StartProcess(&'a Process),
    /// Give the application this long to settle.
    Settle { millis: u64 },
    /// Look up the processor with this name.
    FindCpu(String),
    /// Save the power curve.
    SaveCurve(NewPowerCurve<F>),
    /// Save the processor.
    SaveCpu(NewCpu<F>),
    /// Run the scenarios.
    RunScenarios {
        cpu_id: i32,
        region: Option<String>,
        ci: F,
        scenarios: Vec<&'a S>,
        processes: Vec<P>,
    },
    /// Monitor live.
    RunLive { cpu_id: i32, region: Option<String>, ci: F, processes: Vec<P> },
    /// Run the daemon.
    RunDaemon { cpu_id: i32, region: Option<String>, ci: F, processes: Vec<P> },
    /// Report success.
    Finish,
    /// Give up.
    Fail(E),
    /// Nothing: the event does not belong here.
    Ignore,
}

/// A `Job` with a sequence in place of the vector.
pub struct JobView<'a, F, S, P> {
    pub observed: Seq<P>,
    pub mode: ExecutionMode<'a, S>,
    pub region: Option<String>,
    pub ci: F,
}

/// A `Runner` with sequences in place of vectors.
pub enum RunnerView<'a, F, S, P> {
    Starting { rest: Seq<&'a Process>, cpu: Cpu<F>, job: JobView<'a, F, S, P> },
    Settling { cpu: Cpu<F>, job: JobView<'a, F, S, P> },
    FindingCpu { cpu: Cpu<F>, job: JobView<'a, F, S, P> },
    SavingCurve { cpu_name: String, job: JobView<'a, F, S, P> },
    SavingCpu { job: JobView<'a, F, S, P> },
    Executing,
    Finished,
}

/// A `RunAction` with sequences in place of vectors.
pub enum RunActionView<'a, F, S, P, E> {
    StartProcess(&'a Process),
    Settle { millis: u64 },
    FindCpu(String),
    SaveCurve(NewPowerCurve<F>),
    SaveCpu(NewCpu<F>),
    RunScenarios {
        cpu_id: i32,
        region: Option<String>,
        ci: F,
        scenarios: Seq<&'a S>,
        processes: Seq<P>,
    },
    RunLive { cpu_id: i32, region: Option<String>, ci: F, processes: Seq<P> },
    RunDaemon { cpu_id: i32, region: Option<String>, ci: F, processes: Seq<P> },
    Finish,
    Fail(E),
    Ignore,
}

impl<'a, F, S, P> View for Job<'a, F, S, P> {
    type V = JobView<'a, F, S, P>;

    open spec fn view(&self) -> JobView<'a, F, S, P> {
        JobView {
            observed: self.observed@,
            mode: self.mode,
            region: self.region,
            ci: self.ci,
        }
    }
}

impl<'a, F, S, P> View for Runner<'a, F, S, P> {
    type V = RunnerView<'a, F, S, P>;

    open spec fn view(&self) -> RunnerView<'a, F, S, P> {
        match self {
            Runner::Starting { rest, cpu, job } => RunnerView::Starting {
                rest: rest@,
                cpu: *cpu,
                job: job@,
            },
            Runner::Settling { cpu, job } => RunnerView::Settling { cpu: *cpu, job: job@ },
            Runner::FindingCpu { cpu, job } => RunnerView::FindingCpu { cpu: *cpu, job: job@ },
            Runner::SavingCurve { cpu_name, job } => RunnerView::SavingCurve {
                cpu_name: *cpu_name,
                job: job@,
            },
            Runner::SavingCpu { job } => RunnerView::SavingCpu { job: job@ },
            Runner::Executing => RunnerView::Executing,
            Runner::Finished => RunnerView::Finished,
        }
    }
}

impl<'a, F, S, P, E> View for RunAction<'a, F, S, P, E> {
    type V = RunActionView<'a, F, S, P, E>;

    open spec fn view(&self) -> RunActionView<'a, F, S, P, E> {
        match self {
            RunAction::StartProcess(process) => RunActionView::StartProcess(*process),
            RunAction::Settle { millis } => RunActionView::Settle { millis: *millis },
            RunAction::FindCpu(name) => RunActionView::FindCpu(*name),
            RunAction::SaveCurve(curve) => RunActionView::SaveCurve(*curve),
            RunAction::SaveCpu(cpu) => RunActionView::SaveCpu(*cpu),
            RunAction::RunScenarios { cpu_id, region, ci, scenarios, processes } =>
                RunActionView::RunScenarios {
                cpu_id: *cpu_id,
                region: *region,
                ci: *ci,
                scenarios: scenarios@,
                processes: processes@,
            },
            RunAction::RunLive { cpu_id, region, ci, processes } => RunActionView::RunLive {
                cpu_id: *cpu_id,
                region: *region,
                ci: *ci,
                processes: processes@,
            },
            RunAction::RunDaemon { cpu_id, region, ci, processes } => RunActionView::RunDaemon {
                cpu_id: *cpu_id,
                region: *region,
                ci: *ci,
                processes: processes@,
            },
            RunAction::Finish => RunActionView::Finish,
            RunAction::Fail(e) => RunActionView::Fail(*e),
            RunAction::Ignore => RunActionView::Ignore,
        }
    }
}

/// Starts the first of the processes that are left, or lets the application settle where none is.
pub open spec fn start_next<'a, F, S, P, E>(
    left: Seq<&'a Process>,
    cpu: Cpu<F>,
    job: JobView<'a, F, S, P>,
) -> (RunnerView<'a, F, S, P>, RunActionView<'a, F, S, P, E>) {
    if left.len() == 0 {
        (RunnerView::Settling { cpu, job }, RunActionView::Settle { millis: SETTLE_MILLIS })
    } else {
        (
            RunnerView::Starting { rest: left.drop_first(), cpu, job },
            RunActionView::StartProcess(left[0]),
        )
    }
}

/// Executes the mode on the processes under observation.
pub open spec fn launch<'a, F, S, P, E>(cpu_id: i32, job: JobView<'a, F, S, P>) -> RunActionView<
    'a,
    F,
    S,
    P,
    E,
> {
    match job.mode {
        ExecutionMode::Observation(scenarios) => RunActionView::RunScenarios {
            cpu_id,
            region: job.region,
            ci: job.ci,
            scenarios: scenarios@,
            processes: job.observed,
        },
        ExecutionMode::Live => RunActionView::RunLive {
            cpu_id,
            region: job.region,
            ci: job.ci,
            processes: job.observed,
        },
        ExecutionMode::Daemon => RunActionView::RunDaemon {
            cpu_id,
            region: job.region,
            ci: job.ci,
            processes: job.observed,
        },
    }
}

/// Saves a processor that is not in the database, its power curve first if it has one.
pub open spec fn save_cpu<'a, F, S, P, E>(cpu: Cpu<F>, job: JobView<'a, F, S, P>) -> (
    RunnerView<'a, F, S, P>,
    RunActionView<'a, F, S, P, E>,
) {
    match cpu.power {
        Power::Tdp(tdp) => (
            RunnerView::SavingCpu { job },
            RunActionView::SaveCpu(
                NewCpu { name: cpu.name, tdp: Some(tdp), power_curve_id: None },
            ),
        ),
        Power::Curve(a, b, c, d) => (
            RunnerView::SavingCurve { cpu_name: cpu.name, job },
            RunActionView::SaveCurve(NewPowerCurve { a, b, c, d }),
        ),
    }
}

/// The next state and action.
pub open spec fn run_step<'a, F, S, P, E>(
    state: RunnerView<'a, F, S, P>,
    event: RunEvent<P, E>,
) -> (RunnerView<'a, F, S, P>, RunActionView<'a, F, S, P, E>) {
    match (state, event) {
        (RunnerView::Starting { rest, cpu, job }, RunEvent::ProcessStarted(process)) => start_next(
            rest,
            cpu,
            JobView { observed: job.observed.push(process), ..job },
        ),
        (RunnerView::Settling { cpu, job }, RunEvent::Settled) => (
            RunnerView::FindingCpu { cpu, job },
            RunActionView::FindCpu(cpu.name),
        ),
        (RunnerView::FindingCpu { cpu, job }, RunEvent::CpuFound(found)) => match found {
            Some(cpu_id) => (RunnerView::Executing, launch(cpu_id, job)),
            None => save_cpu(cpu, job),
        },
        (RunnerView::SavingCurve { cpu_name, job }, RunEvent::CurveSaved(id)) => (
            RunnerView::SavingCpu { job },
            RunActionView::SaveCpu(
                NewCpu { name: cpu_name, tdp: None, power_curve_id: Some(id) },
            ),
        ),
        (RunnerView::SavingCpu { job }, RunEvent::CpuSaved(cpu_id)) => (
            RunnerView::Executing,
            launch(cpu_id, job),
        ),
        (RunnerView::Executing, RunEvent::ModeEnded) => (
            RunnerView::Finished,
            RunActionView::Finish,
        ),
        (RunnerView::Finished, _) => (state, RunActionView::Ignore),
        (_, RunEvent::Failed(e)) => (RunnerView::Finished, RunActionView::Fail(e)),
        (_, _) => (state, RunActionView::Ignore),
    }
}

/// The processes that a plan observes from outside.
pub open spec fn external<P>(processes: Option<Vec<P>>) -> Seq<P> {
    match processes {
        Some(p) => p@,
        None => Seq::empty(),
    }
}

/// Begins the run of a plan.
pub fn run<'a, F, S, P, E>(
    exec_plan: ExecutionPlan<'a, F, S, P>,
    region: Option<String>,
    ci: F,
) -> (begun: (Runner<'a, F, S, P>, RunAction<'a, F, S, P, E>))
    ensures
        (begun.0@, begun.1@) == start_next::<F, S, P, E>(
            exec_plan.processes_to_execute@,
            exec_plan.cpu,
            JobView {
                observed: external(exec_plan.external_processes_to_observe),
                mode: exec_plan.execution_mode,
                region,
                ci,
            },
        ),
        ({
            let processes = exec_plan.processes_to_execute@;
            let job = match begun.0@ {
                RunnerView::Starting { job, .. } => job,
                RunnerView::Settling { job, .. } => job,
                _ => arbitrary(),
            };
            &&& processes.len() == 0 ==> begun.0@ == (RunnerView::Settling {
                cpu: exec_plan.cpu,
                job,
            }) && (begun.1@ matches RunActionView::Settle { millis } && millis == 2000)
            &&& processes.len() > 0 ==> begun.0@ == (RunnerView::Starting {
                rest: processes.skip(1),
                cpu: exec_plan.cpu,
                job,
            }) && begun.1@ == RunActionView::<F, S, P, E>::StartProcess(processes[0])
            &&& job.mode == exec_plan.execution_mode
            &&& job.region == region
            &&& job.ci == ci
            &&& exec_plan.external_processes_to_observe is None ==> job.observed.len() == 0
            &&& exec_plan.external_processes_to_observe matches Some(given) ==> job.observed
                == given@
        }),
{
    assert(exec_plan.processes_to_execute@.len() > 0
        ==> exec_plan.processes_to_execute@.drop_first()
        =~= exec_plan.processes_to_execute@.skip(1));
    let observed = match exec_plan.external_processes_to_observe {
        Some(processes) => processes,
        None => Vec::new(),
    };
    let job = Job { observed, mode: exec_plan.execution_mode, region, ci };
    Runner::start(exec_plan.processes_to_execute, exec_plan.cpu, job)
}

impl<'a, F, S, P> Runner<'a, F, S, P> {
    fn start<E>(
        left: Vec<&'a Process>,
        cpu: Cpu<F>,
        job: Job<'a, F, S, P>,
    ) -> (begun: (Self, RunAction<'a, F, S, P, E>))
        ensures
            (begun.0@, begun.1@) == start_next::<F, S, P, E>(left@, cpu, job@),
    {
        if left.len() == 0 {
            return (Runner::Settling { cpu, job }, RunAction::Settle { millis: SETTLE_MILLIS });
        }
        let mut rest = left;
        let process = rest.remove(0);
        assert(rest@ =~= left@.drop_first());
        (Runner::Starting { rest, cpu, job }, RunAction::StartProcess(process))
    }

    fn launch<E>(cpu_id: i32, job: Job<'a, F, S, P>) -> (action: RunAction<'a, F, S, P, E>)
        ensures
            action@ == launch::<F, S, P, E>(cpu_id, job@),
    {
        let processes = job.observed;
        match job.mode {
            ExecutionMode::Observation(scenarios) => RunAction::RunScenarios {
                cpu_id,
                region: job.region,
                ci: job.ci,
                scenarios,
                processes,
            },
            ExecutionMode::Live => RunAction::RunLive {
                cpu_id,
                region: job.region,
                ci: job.ci,
                processes,
            },
            ExecutionMode::Daemon => RunAction::RunDaemon {
                cpu_id,
                region: job.region,
                ci: job.ci,
                processes,
            },
        }
    }

    /// Takes note of how the last action went and says what to do next.
    pub fn step<E>(self, event: RunEvent<P, E>) -> (next: (Self, RunAction<'a, F, S, P, E>))
        ensures
            (next.0@, next.1@) == run_step(self@, event),
    {
        match (self, event) {
            (Runner::Starting { rest, cpu, job }, RunEvent::ProcessStarted(process)) => {
                let mut job = job;
                job.observed.push(process);
                Runner::start(rest, cpu, job)
            },
            (Runner::Settling { cpu, job }, RunEvent::Settled) => {
                let name = cpu.name.clone();
                (Runner::FindingCpu { cpu, job }, RunAction::FindCpu(name))
            },
            (Runner::FindingCpu { cpu, job }, RunEvent::CpuFound(found)) => match found {
                Some(cpu_id) => (Runner::Executing, Runner::launch(cpu_id, job)),
                None => match cpu.power {
                    Power::Tdp(tdp) => (
                        Runner::SavingCpu { job },
                        RunAction::SaveCpu(
                            NewCpu { name: cpu.name, tdp: Some(tdp), power_curve_id: None },
                        ),
                    ),
                    Power::Curve(a, b, c, d) => (
                        Runner::SavingCurve { cpu_name: cpu.name, job },
                        RunAction::SaveCurve(NewPowerCurve { a, b, c, d }),
                    ),
                },
            },
            (Runner::SavingCurve { cpu_name, job }, RunEvent::CurveSaved(id)) => (
                Runner::SavingCpu { job },
                RunAction::SaveCpu(
                    NewCpu { name: cpu_name, tdp: None, power_curve_id: Some(id) },
                ),
            ),
            (Runner::SavingCpu { job }, RunEvent::CpuSaved(cpu_id)) => (
                Runner::Executing,
                Runner::launch(cpu_id, job),
            ),
            (Runner::Executing, RunEvent::ModeEnded) => (Runner::Finished, RunAction::Finish),
            (Runner::Finished, _) => (Runner::Finished, RunAction::Ignore),
            (_, RunEvent::Failed(e)) => (Runner::Finished, RunAction::Fail(e)),
            (state, _) => (state, RunAction::Ignore),
        }
    }
}

/// The state and action after the processes came up one after the other, to be observed as
/// `started`.
pub open spec fn after_starts<'a, F, S, P, E>(
    state: RunnerView<'a, F, S, P>,
    action: RunActionView<'a, F, S, P, E>,
    started: Seq<P>,
) -> (RunnerView<'a, F, S, P>, RunActionView<'a, F, S, P, E>)
    decreases started.len(),
{
    if started.len() == 0 {
        (state, action)
    } else {
        let (next, due) = run_step::<F, S, P, E>(state, RunEvent::ProcessStarted(started[0]));
        after_starts(next, due, started.drop_first())
    }
}

/// The processes of a plan are started one after the other in the order of the plan, and what came
/// of the processes before is observed, in that order and behind what was observed from the
/// beginning. The application settles when all have come up.
pub proof fn law_processes_start_in_order<'a, F, S, P, E>(
    processes: Seq<&'a Process>,
    cpu: Cpu<F>,
    job: JobView<'a, F, S, P>,
    started: Seq<P>,
)
    requires
        started.len() <= processes.len(),
    ensures
        ({
            let (state, action) = start_next::<F, S, P, E>(processes, cpu, job);
            after_starts(state, action, started) == start_next::<F, S, P, E>(
                processes.skip(started.len() as int),
                cpu,
                JobView { observed: job.observed + started, ..job },
            )
        }),
    decreases started.len(),
{
    let (state, action) = start_next::<F, S, P, E>(processes, cpu, job);
    if started.len() == 0 {
        assert(processes.skip(0) =~= processes);
        assert(job.observed + started =~= job.observed);
    } else {
        let grown = JobView { observed: job.observed.push(started[0]), ..job };
        law_processes_start_in_order::<F, S, P, E>(
            processes.drop_first(),
            cpu,
            grown,
            started.drop_first(),
        );
        assert(processes.drop_first().skip(started.drop_first().len() as int) =~= processes.skip(
            started.len() as int,
        ));
        assert(grown.observed + started.drop_first() =~= job.observed + started);
    }
}

/// A processor that is in the database is used as it is: nothing is saved, and the mode is executed
/// at once.
pub proof fn law_known_cpu_is_reused<'a, F, S, P, E>(
    cpu: Cpu<F>,
    job: JobView<'a, F, S, P>,
    cpu_id: i32,
)
    ensures
        run_step::<F, S, P, E>(
            RunnerView::FindingCpu { cpu, job },
            RunEvent::CpuFound(Some(cpu_id)),
        ) == (RunnerView::<F, S, P>::Executing, launch::<F, S, P, E>(cpu_id, job)),
{
}

/// A processor that is not in the database is saved under its name, with its thermal design power
/// or with a power curve that was saved before it, and the mode is executed with its new id.
pub proof fn law_unknown_cpu_is_saved<'a, F, S, P, E>(
    cpu: Cpu<F>,
    job: JobView<'a, F, S, P>,
    curve_id: i32,
    cpu_id: i32,
)
    ensures
        ({
            let finding = RunnerView::FindingCpu { cpu, job };
            let (s1, a1) = run_step::<F, S, P, E>(finding, RunEvent::CpuFound(None));
            match cpu.power {
                Power::Tdp(tdp) => {
                    let (s2, a2) = run_step::<F, S, P, E>(s1, RunEvent::CpuSaved(cpu_id));
                    &&& a1 == RunActionView::<F, S, P, E>::SaveCpu(
                        NewCpu { name: cpu.name, tdp: Some(tdp), power_curve_id: None },
                    )
                    &&& s2 == RunnerView::<F, S, P>::Executing
                    &&& a2 == launch::<F, S, P, E>(cpu_id, job)
                },
                Power::Curve(a, b, c, d) => {
                    let (s2, a2) = run_step::<F, S, P, E>(s1, RunEvent::CurveSaved(curve_id));
                    let (s3, a3) = run_step::<F, S, P, E>(s2, RunEvent::CpuSaved(cpu_id));
                    &&& a1 == RunActionView::<F, S, P, E>::SaveCurve(NewPowerCurve { a, b, c, d })
                    &&& a2 == RunActionView::<F, S, P, E>::SaveCpu(
                        NewCpu { name: cpu.name, tdp: None, power_curve_id: Some(curve_id) },
                    )
                    &&& s3 == RunnerView::<F, S, P>::Executing
                    &&& a3 == launch::<F, S, P, E>(cpu_id, job)
                },
            }
        }),
{
}

/// How far the run has come.
pub open spec fn stage<'a, F, S, P>(state: RunnerView<'a, F, S, P>) -> int {
    match state {
        RunnerView::Starting { .. } => 0,
        RunnerView::Settling { .. } => 1,
        RunnerView::FindingCpu { .. } => 2,
        RunnerView::SavingCurve { .. } => 3,
        RunnerView::SavingCpu { .. } => 4,
        RunnerView::Executing => 5,
        RunnerView::Finished => 6,
    }
}

/// How the database answers the action: the table of the processors that it holds by name after it,
/// and the event that tells how it went. A power curve is saved under `curve_id` and a processor
/// under `cpu_id`. Other actions are none of the database's.
pub open spec fn answer<'a, F, S, P, E>(
    table: Map<Seq<char>, i32>,
    action: RunActionView<'a, F, S, P, E>,
    curve_id: i32,
    cpu_id: i32,
) -> Option<(Map<Seq<char>, i32>, RunEvent<P, E>)> {
    match action {
        RunActionView::FindCpu(name) => Some(
            (
                table,
                RunEvent::CpuFound(
                    if table.contains_key(name@) {
                        Some(table[name@])
                    } else {
                        None
                    },
                ),
            ),
        ),
        RunActionView::SaveCurve(_) => Some((table, RunEvent::CurveSaved(curve_id))),
        RunActionView::SaveCpu(cpu) => Some(
            (table.insert(cpu.name@, cpu_id), RunEvent::CpuSaved(cpu_id)),
        ),
        _ => None,
    }
}

/// The table and the actions, `action` first, while the database answers them. The last action is
/// one that is none of the database's.
pub open spec fn serve<'a, F, S, P, E>(
    table: Map<Seq<char>, i32>,
    state: RunnerView<'a, F, S, P>,
    action: RunActionView<'a, F, S, P, E>,
    curve_id: i32,
    cpu_id: i32,
) -> (Map<Seq<char>, i32>, Seq<RunActionView<'a, F, S, P, E>>)
    decreases 6 - stage(state),
{
    match answer(table, action, curve_id, cpu_id) {
        None => (table, seq![action]),
        Some((held, event)) => {
            let (next, due) = run_step(state, event);
            if stage(state) < stage(next) {
                let (last, actions) = serve(held, next, due, curve_id, cpu_id);
                (last, seq![action] + actions)
            } else {
                (held, seq![action])
            }
        },
    }
}

/// What follows when the application has settled: the table of processors at the end, and the
/// actions.
pub open spec fn after_settling<'a, F, S, P, E>(
    table: Map<Seq<char>, i32>,
    cpu: Cpu<F>,
    job: JobView<'a, F, S, P>,
    curve_id: i32,
    cpu_id: i32,
) -> (Map<Seq<char>, i32>, Seq<RunActionView<'a, F, S, P, E>>) {
    let (state, action) = run_step::<F, S, P, E>(
        RunnerView::Settling { cpu, job },
        RunEvent::Settled,
    );
    serve(table, state, action, curve_id, cpu_id)
}

/// A run leaves its processor in the table and every processor that was there under its id, and
/// executes its mode with the id of its processor.
pub proof fn law_run_keeps_table<'a, F, S, P, E>(
    table: Map<Seq<char>, i32>,
    cpu: Cpu<F>,
    job: JobView<'a, F, S, P>,
    curve_id: i32,
    cpu_id: i32,
)
    ensures
        ({
            let (held, actions) = after_settling::<F, S, P, E>(table, cpu, job, curve_id, cpu_id);
            &&& held == if table.contains_key(cpu.name@) {
                table
            } else {
                table.insert(cpu.name@, cpu_id)
            }
            &&& actions.len() > 0
            &&& actions.last() == launch::<F, S, P, E>(held[cpu.name@], job)
        }),
{
    reveal_with_fuel(serve, 4);
}

/// A run for a processor that an earlier run left in the table saves nothing: it looks the
/// processor up and executes its mode with the same id, and the table stays as it is.
pub proof fn law_second_run_reuses_cpu<'a, F, S, P, E>(
    table: Map<Seq<char>, i32>,
    first: Cpu<F>,
    first_job: JobView<'a, F, S, P>,
    first_curve_id: i32,
    first_cpu_id: i32,
    second: Cpu<F>,
    second_job: JobView<'a, F, S, P>,
    second_curve_id: i32,
    second_cpu_id: i32,
)
    requires
        first.name@ == second.name@,
    ensures
        ({
            let (held, before) = after_settling::<F, S, P, E>(
                table,
                first,
                first_job,
                first_curve_id,
                first_cpu_id,
            );
            let (last, actions) = after_settling::<F, S, P, E>(
                held,
                second,
                second_job,
                second_curve_id,
                second_cpu_id,
            );
            let id = held[first.name@];
            &&& before.last() == launch::<F, S, P, E>(id, first_job)
            &&& actions == seq![
                RunActionView::<F, S, P, E>::FindCpu(second.name),
                launch::<F, S, P, E>(id, second_job),
            ]
            &&& last == held
        }),
{
    law_run_keeps_table::<F, S, P, E>(table, first, first_job, first_curve_id, first_cpu_id);
    let held = after_settling::<F, S, P, E>(
        table,
        first,
        first_job,
        first_curve_id,
        first_cpu_id,
    ).0;
    let actions = after_settling::<F, S, P, E>(
        held,
        second,
        second_job,
        second_curve_id,
        second_cpu_id,
    ).1;
    reveal_with_fuel(serve, 2);
    assert(actions =~= seq![
        RunActionView::<F, S, P, E>::FindCpu(second.name),
        launch::<F, S, P, E>(held[first.name@], second_job),
    ]);
}

/// The action executes the mode of the plan.
pub open spec fn executes_mode<'a, F, S, P, E>(action: RunActionView<'a, F, S, P, E>) -> bool {
    action is RunScenarios || action is RunLive || action is RunDaemon
}

/// A run never goes back, and the mode is executed exactly when it comes to that stage: at most
/// once, after the application has settled and the processor is known. Success is reported only
/// when the mode has ended.
pub proof fn law_run_moves_forward<'a, F, S, P, E>(
    state: RunnerView<'a, F, S, P>,
    event: RunEvent<P, E>,
)
    ensures
        ({
            let (next, action) = run_step::<F, S, P, E>(state, event);
            &&& stage(state) <= stage(next)
            &&& executes_mode(action) <==> stage(state) < 5 && stage(next) == 5
            &&& executes_mode(action) ==> stage(state) == 2 || stage(state) == 4
            &&& action is Finish <==> stage(state) == 5 && event is ModeEnded
        }),
{
}

/// A step that fails ends the run with its error, whatever comes after it.
pub proof fn law_failure_ends_run<'a, F, S, P, E>(
    state: RunnerView<'a, F, S, P>,
    error: E,
    later: RunEvent<P, E>,
)
    requires
        !(state is Finished),
    ensures
        ({
            let (last, action) = run_step::<F, S, P, E>(state, RunEvent::Failed(error));
            &&& action == RunActionView::<F, S, P, E>::Fail(error)
            &&& run_step(last, later) == (last, RunActionView::<F, S, P, E>::Ignore)
        }),
{
}

/// The mode is executed with the id of the processor, whether it was found or saved, with the
/// region and the carbon intensity of the run, with the scenarios of the plan where there are any,
/// and with all the processes under observation.
pub proof fn law_mode_is_executed_on_all_that_is_observed<'a, F, S, P, E>(
    cpu: Cpu<F>,
    job: JobView<'a, F, S, P>,
    cpu_id: i32,
)
    ensures
        ({
            let (next, action) = run_step::<F, S, P, E>(
                RunnerView::FindingCpu { cpu, job },
                RunEvent::CpuFound(Some(cpu_id)),
            );
            &&& next == RunnerView::<F, S, P>::Executing
            &&& match job.mode {
                ExecutionMode::Observation(scenarios) => action matches RunActionView::RunScenarios {
                    cpu_id: id,
                    region,
                    ci,
                    scenarios: given,
                    processes,
                } && {
                    &&& id == cpu_id
                    &&& region == job.region
                    &&& ci == job.ci
                    &&& given == scenarios@
                    &&& processes == job.observed
                },
                ExecutionMode::Live => action matches RunActionView::RunLive {
                    cpu_id: id,
                    region,
                    ci,
                    processes,
                } && {
                    &&& id == cpu_id
                    &&& region == job.region
                    &&& ci == job.ci
                    &&& processes == job.observed
                },
                ExecutionMode::Daemon => action matches RunActionView::RunDaemon {
                    cpu_id: id,
                    region,
                    ci,
                    processes,
                } && {
                    &&& id == cpu_id
                    &&& region == job.region
                    &&& ci == job.ci
                    &&& processes == job.observed
                },
            }
        }),
        run_step::<F, S, P, E>(RunnerView::SavingCpu { job }, RunEvent::CpuSaved(cpu_id))
            == run_step::<F, S, P, E>(
            RunnerView::FindingCpu { cpu, job },
            RunEvent::CpuFound(Some(cpu_id)),
        ),
{
}

/// From the beginning of a plan on: its processes are started in their order, the application
/// settles for two seconds, the processor is looked up by its name, and the mode is executed on the
/// processes observed from the beginning, followed by those that were started.
pub proof fn law_plan_is_run_to_its_mode<'a, F, S, P, E>(
    processes: Seq<&'a Process>,
    cpu: Cpu<F>,
    job: JobView<'a, F, S, P>,
    started: Seq<P>,
    cpu_id: i32,
)
    requires
        started.len() == processes.len(),
    ensures
        ({
            let (s0, a0) = start_next::<F, S, P, E>(processes, cpu, job);
            let (s1, a1) = after_starts(s0, a0, started);
            let (s2, a2) = run_step::<F, S, P, E>(s1, RunEvent::Settled);
            let (s3, a3) = run_step::<F, S, P, E>(s2, RunEvent::CpuFound(Some(cpu_id)));
            &&& forall|k: int|
                0 <= k < processes.len() ==> #[trigger] after_starts(s0, a0, started.take(k)).1
                    == RunActionView::<F, S, P, E>::StartProcess(processes[k])
            &&& a1 matches RunActionView::Settle { millis } && millis == 2000
            &&& a2 == RunActionView::<F, S, P, E>::FindCpu(cpu.name)
            &&& s3 == RunnerView::<F, S, P>::Executing
            &&& match job.mode {
                ExecutionMode::Observation(scenarios) => a3 matches RunActionView::RunScenarios {
                    cpu_id: id,
                    region,
                    ci,
                    scenarios: given,
                    processes,
                } && {
                    &&& id == cpu_id
                    &&& region == job.region
                    &&& ci == job.ci
                    &&& given == scenarios@
                    &&& processes == job.observed + started
                },
                ExecutionMode::Live => a3 matches RunActionView::RunLive {
                    cpu_id: id,
                    region,
                    ci,
                    processes,
                } && {
                    &&& id == cpu_id
                    &&& region == job.region
                    &&& ci == job.ci
                    &&& processes == job.observed + started
                },
                ExecutionMode::Daemon => a3 matches RunActionView::RunDaemon {
                    cpu_id: id,
                    region,
                    ci,
                    processes,
                } && {
                    &&& id == cpu_id
                    &&& region == job.region
                    &&& ci == job.ci
                    &&& processes == job.observed + started
                },
            }
        }),
{
    let (s0, a0) = start_next::<F, S, P, E>(processes, cpu, job);
    assert forall|k: int| 0 <= k < processes.len() implies #[trigger] after_starts(
        s0,
        a0,
        started.take(k),
    ).1 == RunActionView::<F, S, P, E>::StartProcess(processes[k]) by {
        law_processes_start_in_order::<F, S, P, E>(processes, cpu, job, started.take(k));
        assert(processes.skip(k)[0] == processes[k]);
    }
    law_processes_start_in_order::<F, S, P, E>(processes, cpu, job, started);
    assert(processes.skip(started.len() as int).len() == 0);
}

/// A process that came up is observed behind those before it, and nothing else of the run changes:
/// the processor, the mode, the region, the carbon intensity and the processes still to come stay
/// what they are. The next process is the first of those.
pub proof fn law_started_process_is_observed<'a, F, S, P, E>(
    rest: Seq<&'a Process>,
    cpu: Cpu<F>,
    job: JobView<'a, F, S, P>,
    process: P,
)
    ensures
        ({
            let (next, action) = run_step::<F, S, P, E>(
                RunnerView::Starting { rest, cpu, job },
                RunEvent::ProcessStarted(process),
            );
            &&& rest.len() == 0 ==> (next matches RunnerView::Settling { cpu: c, job: j } && {
                &&& c == cpu
                &&& j.observed == job.observed.push(process)
                &&& j.mode == job.mode
                &&& j.region == job.region
                &&& j.ci == job.ci
            })
            &&& rest.len() == 0 ==> (action matches RunActionView::Settle { millis } && millis == 2000)
            &&& rest.len() > 0 ==> (next matches RunnerView::Starting { rest: r, cpu: c, job: j }
                && {
                &&& r == rest.skip(1)
                &&& c == cpu
                &&& j.observed == job.observed.push(process)
                &&& j.mode == job.mode
                &&& j.region == job.region
                &&& j.ci == job.ci
            })
            &&& rest.len() > 0 ==> action == RunActionView::<F, S, P, E>::StartProcess(rest[0])
        }),
{
    if rest.len() > 0 {
        assert(rest.drop_first() =~= rest.skip(1));
    }
}

/// The job of a run and its processor stay what they are from the settling of the application to
/// the execution of the mode: what is saved of the processor is its name and its power, and the job
/// that the mode is executed with is that of the beginning.
pub proof fn law_job_is_kept<'a, F, S, P, E>(
    cpu: Cpu<F>,
    job: JobView<'a, F, S, P>,
    curve_id: i32,
)
    ensures
        run_step::<F, S, P, E>(RunnerView::Settling { cpu, job }, RunEvent::Settled) == (
            RunnerView::FindingCpu { cpu, job },
            RunActionView::<F, S, P, E>::FindCpu(cpu.name),
        ),
        ({
            let (next, action) = run_step::<F, S, P, E>(
                RunnerView::FindingCpu { cpu, job },
                RunEvent::CpuFound(None),
            );
            match cpu.power {
                Power::Tdp(watts) => {
                    &&& next == RunnerView::SavingCpu { job }
                    &&& action matches RunActionView::SaveCpu(saved) && {
                        &&& saved.name == cpu.name
                        &&& saved.tdp == Some(watts)
                        &&& saved.power_curve_id is None
                    }
                },
                Power::Curve(a, b, c, d) => {
                    let (last, then) = run_step::<F, S, P, E>(next, RunEvent::CurveSaved(curve_id));
                    &&& action matches RunActionView::SaveCurve(saved) && {
                        &&& saved.a == a
                        &&& saved.b == b
                        &&& saved.c == c
                        &&& saved.d == d
                    }
                    &&& last == RunnerView::SavingCpu { job }
                    &&& then matches RunActionView::SaveCpu(saved) && {
                        &&& saved.name == cpu.name
                        &&& saved.tdp is None
                        &&& saved.power_curve_id == Some(curve_id)
                    }
                },
            }
        }),
{
}

/// An event that does not belong to the state changes nothing, and every other event moves the run
/// on.
pub proof fn law_run_ignores_what_does_not_belong<'a, F, S, P, E>(
    state: RunnerView<'a, F, S, P>,
    event: RunEvent<P, E>,
)
    ensures
        run_step(state, event).1 is Ignore ==> run_step(state, event).0 == state,
        run_step(state, event).1 is Ignore <==> match state {
            RunnerView::Starting { .. } => !(event is ProcessStarted || event is Failed),
            RunnerView::Settling { .. } => !(event is Settled || event is Failed),
            RunnerView::FindingCpu { .. } => !(event is CpuFound || event is Failed),
            RunnerView::SavingCurve { .. } => !(event is CurveSaved || event is Failed),
            RunnerView::SavingCpu { .. } => !(event is CpuSaved || event is Failed),
            RunnerView::Executing => !(event is ModeEnded || event is Failed),
            RunnerView::Finished => true,
        },
        state is Executing && event is ModeEnded ==> run_step(state, event) == (
            RunnerView::<F, S, P>::Finished,
            RunActionView::<F, S, P, E>::Finish,
        ),
{
}

/// The views of a runner and of its job show every field, vectors by their items.
pub proof fn law_runner_view_shows_every_field<'a, F, S, P>(
    runner: Runner<'a, F, S, P>,
    job: Job<'a, F, S, P>,
)
    ensures
        job@.observed == job.observed@,
        job@.mode == job.mode,
        job@.region == job.region,
        job@.ci == job.ci,
        match runner {
            Runner::Starting { rest, cpu, job: j } => runner@ == (RunnerView::Starting {
                rest: rest@,
                cpu,
                job: j@,
            }),
            Runner::Settling { cpu, job: j } => runner@ == (RunnerView::Settling { cpu, job: j@ }),
            Runner::FindingCpu { cpu, job: j } => runner@ == (RunnerView::FindingCpu {
                cpu,
                job: j@,
            }),
            Runner::SavingCurve { cpu_name, job: j } => runner@ == (RunnerView::SavingCurve {
                cpu_name,
                job: j@,
            }),
            Runner::SavingCpu { job: j } => runner@ == (RunnerView::SavingCpu { job: j@ }),
            Runner::Executing => runner@ == RunnerView::<F, S, P>::Executing,
            Runner::Finished => runner@ == RunnerView::<F, S, P>::Finished,
        },
{
}

/// The view of an action shows every field, vectors by their items.
pub proof fn law_run_action_view_shows_every_field<'a, F, S, P, E>(
    action: RunAction<'a, F, S, P, E>,
)
    ensures
        match action {
            RunAction::StartProcess(process) => action@ == RunActionView::<
                F,
                S,
                P,
                E,
            >::StartProcess(process),
            RunAction::Settle { millis } => action@ matches RunActionView::Settle { millis: m } && m == millis,
            RunAction::FindCpu(name) => action@ == RunActionView::<F, S, P, E>::FindCpu(name),
            RunAction::SaveCurve(curve) => action@ == RunActionView::<F, S, P, E>::SaveCurve(curve),
            RunAction::SaveCpu(cpu) => action@ == RunActionView::<F, S, P, E>::SaveCpu(cpu),
            RunAction::RunScenarios { cpu_id, region, ci, scenarios, processes } => action@ matches
                RunActionView::RunScenarios {
                cpu_id: i,
                region: r,
                ci: c,
                scenarios: s,
                processes: p,
            } && i == cpu_id && r == region && c == ci && s == scenarios@ && p == processes@,
            RunAction::RunLive { cpu_id, region, ci, processes } => action@ matches
                RunActionView::RunLive { cpu_id: i, region: r, ci: c, processes: p } && i == cpu_id && r
                == region && c == ci && p == processes@,
            RunAction::RunDaemon { cpu_id, region, ci, processes } => action@ matches
                RunActionView::RunDaemon { cpu_id: i, region: r, ci: c, processes: p } && i == cpu_id && r
                == region && c == ci && p == processes@,
            RunAction::Finish => action@ == RunActionView::<F, S, P, E>::Finish,
            RunAction::Fail(error) => action@ == RunActionView::<F, S, P, E>::Fail(error),
            RunAction::Ignore => action@ == RunActionView::<F, S, P, E>::Ignore,
        },
{
}

} // verus!
