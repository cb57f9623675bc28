//! The daemon: it waits for signals that start and stop the collection of metrics.
//!
//! A composer keeps its runs in the database and reports on each when it stops; a worker collects
//! for a run that a composer made. `DaemonState` says what to do next, and is told how it went.
//! Signals are taken one at a time. What a signal asks is granted by whether metrics are being
//! collected; where an earlier signal was abandoned before its answer, the rest of it is given up.
use crate::clock::{is_reading, now_millis};
use crate::records::{create_new_iteration, create_new_run, live_run, NewIteration, NewRun};
use crate::text::{append_decimal, decimal};
use vstd::prelude::*;
use vstd::string::*;

verus! {

/// What a start signal carries.
#[derive(Debug)]
pub struct StartParams {
    pub scenario_name: String,
    pub run_id: Option<i32>,
}

/// Whether metrics are being collected.
#[derive(Debug, Clone, Copy, PartialEq, Eq, Structural)]
pub enum RunState {
    Waiting,
    Running,
}

/// What the daemon is in the middle of.
#[derive(Debug, Clone, Copy, PartialEq, Eq, Structural)]
pub enum Phase {
    Idle,
    SavingRun { start_time: i64 },
    SavingIteration { run_id: i32 },
    StartingLogger,
    StoppingLogger,
    Finalising,
    BuildingDataset,
    SplittingByRun,
    ApplyingModel,
}

/// The state of the daemon. `F` is the type of measured quantities and `P` that of the processes
/// under observation, both of which are only carried along.
#[derive(Debug)]
pub struct DaemonState<F, P> {
    pub is_composer: bool,
    pub cpu_id: i32,
    pub region: Option<String>,
    pub ci: F,
    pub processes_to_observe: Vec<P>,
    pub scenario_name: String,
    pub run_id: i32,
    pub run_state: RunState,
    pub phase: Phase,
}

/// The share of a process in a run. `M` is the type of its metrics by iteration.
#[derive(Debug)]
pub struct ProcessData<F, M> {
    pub process_id: String,
    pub pow_perc: F,
    pub iteration_metrics: M,
}

/// What the model makes of a run.
#[derive(Debug)]
pub struct ModelData<F, M> {
    pub region: Option<String>,
    pub start_time: i64,
    pub duration: F,
    pub pow: F,
    pub co2: F,
    pub ci: F,
    pub process_data: Vec<ProcessData<F, M>>,
}

/// What is reported of a process.
#[derive(Debug)]
pub struct ProcessResponse<F, M> {
    pub process_name: String,
    pub pow_contrib_perc: F,
    pub iteration_metrics: M,
}

/// What is reported of a run.
#[derive(Debug)]
pub struct RunResponse<F, M> {
    pub region: Option<String>,
    pub start_time: i64,
    pub duration: F,
    pub pow: F,
    pub co2: F,
    pub ci: F,
    pub processes: Vec<ProcessResponse<F, M>>,
}

/// A signal, or how the last action went. `E` is an error of what the daemon works with.
#[derive(Debug)]
pub enum DaemonEvent<F, M, E> {
    /// A start signal came.
    Start(StartParams),
    /// The run was saved and may have an id.
    RunSaved(Option<i32>),
    /// The iteration was saved.
    IterationSaved,
    /// The logger started.
    LoggerStarted,
    /// A stop signal came.
    Stop,
    /// The logger stopped.
    LoggerStopped,
    /// The run got its stop time.
    Finalised,
    /// The dataset was built and falls into this many scenarios.
    DatasetBuilt { scenarios: usize },
    /// The first scenario falls into this many runs.
    RunsSplit { runs: usize },
    /// The model was applied to the first run.
    Modelled(ModelData<F, M>),
    /// The last action failed.
    Failed(E),
}

/// What to do next.
#[derive(Debug)]
pub enum DaemonAction<F, M, E> {
    /// Save the run.
    SaveRun(NewRun<F>),
    /// Save the iteration.
    SaveIteration(NewIteration),
    /// Start a logger for the processes under observation.
    StartLogger { run_id: i32 },
    /// Answer the start signal.
    Started { run_id: i32 },
    /// Stop the logger.
    StopLogger,
    /// Set the stop time of the run and of its iterations.
    Finalise { run_id: i32, stop_time: i64 },
    /// Build the dataset of the scenario and the run, with or without live data.
    BuildDataset { scenario_name: String, run_id: i32, include_live: bool },
    /// Split the first scenario of the dataset by run.
    SplitByRun,
    /// Apply the model to the first run of the scenario.
    ApplyModel,
    /// Answer the stop signal, with a report where there is one.
    Stopped(Option<ModelData<F, M>>),
    /// Answer the signal with an error.
    Fail(DaemonError<E>),
    /// Nothing: the event does not belong here.
    Ignore,
}

/// Why a signal is answered with an error.
#[derive(Debug)]
pub enum DaemonError<E> {
    /// A step failed.
    Step(E),
    /// Metrics are being collected already.
    AlreadyRunning,
    /// No metrics are being collected.
    NotRunning,
    /// A worker was not told the run.
    RunIdExpected,
    /// The run was saved without an id.
    NoRunId,
    /// The dataset has no scenario.
    NoScenario,
    /// The scenario has no run.
    NoRun,
}

/// The next state and action on a start signal that came at `now`. The name of the scenario is
/// taken over even where the start then fails.
pub open spec fn on_start<F, P, M, E>(state: DaemonState<F, P>, params: StartParams, now: i64) -> (
    DaemonState<F, P>,
    DaemonAction<F, M, E>,
) {
    let idle = DaemonState { phase: Phase::Idle, ..state };
    let named = DaemonState { scenario_name: params.scenario_name, ..idle };
    if state.run_state == RunState::Running {
        (idle, DaemonAction::Fail(DaemonError::AlreadyRunning))
    } else if state.is_composer {
        (
            DaemonState { phase: Phase::SavingRun { start_time: now }, ..named },
            DaemonAction::SaveRun(live_run(state.cpu_id, state.region, state.ci, now)),
        )
    } else {
        match params.run_id {
            None => (named, DaemonAction::Fail(DaemonError::RunIdExpected)),
            Some(run_id) => (
                DaemonState { run_id, phase: Phase::StartingLogger, ..named },
                DaemonAction::StartLogger { run_id },
            ),
        }
    }
}

/// The next state and action on a stop signal.
pub open spec fn on_stop<F, P, M, E>(state: DaemonState<F, P>) -> (
    DaemonState<F, P>,
    DaemonAction<F, M, E>,
) {
    if state.run_state == RunState::Running {
        (DaemonState { phase: Phase::StoppingLogger, ..state }, DaemonAction::StopLogger)
    } else {
        (
            DaemonState { phase: Phase::Idle, ..state },
            DaemonAction::Fail(DaemonError::NotRunning),
        )
    }
}

/// The next state and action.
pub open spec fn daemon_step<F, P, M, E>(
    state: DaemonState<F, P>,
    event: DaemonEvent<F, M, E>,
    now: i64,
) -> (DaemonState<F, P>, DaemonAction<F, M, E>) {
    let idle = DaemonState { phase: Phase::Idle, ..state };
    match (state.phase, event) {
        (_, DaemonEvent::Start(params)) => on_start(state, params, now),
        (Phase::SavingRun { start_time }, DaemonEvent::RunSaved(id)) => match id {
            None => (idle, DaemonAction::Fail(DaemonError::NoRunId)),
            Some(run_id) => (
                DaemonState { phase: Phase::SavingIteration { run_id }, ..state },
                DaemonAction::SaveIteration(
                    NewIteration {
                        run_id,
                        scenario_name: state.scenario_name,
                        count: 1,
                        start_time,
                        stop_time: None,
                    },
                ),
            ),
        },
        (Phase::SavingIteration { run_id }, DaemonEvent::IterationSaved) => (
            DaemonState { run_id, phase: Phase::StartingLogger, ..state },
            DaemonAction::StartLogger { run_id },
        ),
        (Phase::StartingLogger, DaemonEvent::LoggerStarted) => (
            DaemonState { run_state: RunState::Running, ..idle },
            DaemonAction::Started { run_id: state.run_id },
        ),
        (_, DaemonEvent::Stop) => on_stop(state),
        (Phase::StoppingLogger, DaemonEvent::LoggerStopped) => if state.is_composer {
            (
                DaemonState { run_state: RunState::Waiting, phase: Phase::Finalising, ..state },
                DaemonAction::Finalise { run_id: state.run_id, stop_time: now },
            )
        } else {
            (
                DaemonState { run_state: RunState::Waiting, ..idle },
                DaemonAction::Stopped(None),
            )
        },
        (Phase::Finalising, DaemonEvent::Finalised) => (
            DaemonState { phase: Phase::BuildingDataset, ..state },
            DaemonAction::BuildDataset {
                scenario_name: state.scenario_name,
                run_id: state.run_id,
                include_live: true,
            },
        ),
        (Phase::BuildingDataset, DaemonEvent::DatasetBuilt { scenarios }) => if scenarios == 0 {
            (idle, DaemonAction::Fail(DaemonError::NoScenario))
        } else {
            (DaemonState { phase: Phase::SplittingByRun, ..state }, DaemonAction::SplitByRun)
        },
        (Phase::SplittingByRun, DaemonEvent::RunsSplit { runs }) => if runs == 0 {
            (idle, DaemonAction::Fail(DaemonError::NoRun))
        } else {
            (DaemonState { phase: Phase::ApplyingModel, ..state }, DaemonAction::ApplyModel)
        },
        (Phase::ApplyingModel, DaemonEvent::Modelled(data)) => (
            idle,
            DaemonAction::Stopped(Some(data)),
        ),
        (phase, DaemonEvent::Failed(e)) => if can_fail(phase) {
            (idle, DaemonAction::Fail(DaemonError::Step(e)))
        } else {
            (state, DaemonAction::Ignore)
        },
        (_, _) => (state, DaemonAction::Ignore),
    }
}

/// The phases whose work can fail.
pub open spec fn can_fail(phase: Phase) -> bool {
    match phase {
        Phase::Idle | Phase::StoppingLogger | Phase::SplittingByRun => false,
        _ => true,
    }
}

/// The daemon as it begins: a composer that waits, with no scenario and no run yet.
pub fn run_daemon<F, P>(
    cpu_id: i32,
    region: Option<String>,
    ci: F,
    processes_to_observe: Vec<P>,
) -> (state: DaemonState<F, P>)
    ensures
        state.is_composer,
        state.cpu_id == cpu_id,
        state.region == region,
        state.ci == ci,
        state.processes_to_observe == processes_to_observe,
        state.scenario_name@.len() == 0,
        state.run_id == 0,
        state.run_state == RunState::Waiting,
        state.phase == Phase::Idle,
        state.wf(),
{
    DaemonState {
        is_composer: true,
        cpu_id,
        region,
        ci,
        processes_to_observe,
        scenario_name: String::new(),
        run_id: 0,
        run_state: RunState::Waiting,
        phase: Phase::Idle,
    }
}

/// The port on which the daemon takes signals.
pub const PORT: u32 = 3030;

/// The address on which the daemon takes signals.
pub fn bind_address() -> (address: String)
    ensures
        address@ == "0.0.0.0:"@ + decimal(3030),
{
    let mut address = "0.0.0.0:".to_string();
    append_decimal(&mut address, PORT);
    address
}

impl<F, P> DaemonState<F, P> {
    /// The phases of a start are those of a daemon that waits, a logger is stopped only while it
    /// runs, and only a composer works on the database.
    pub open spec fn wf(&self) -> bool {
        match self.phase {
            Phase::Idle => true,
            Phase::StartingLogger => self.run_state == RunState::Waiting,
            Phase::StoppingLogger => self.run_state == RunState::Running,
            _ => self.run_state == RunState::Waiting && self.is_composer,
        }
    }
}

impl<F: Copy, P> DaemonState<F, P> {
    /// Takes note of a signal, or of how the last action went, and says what to do next. Where
    /// that needs the time, it is the present one.
    pub fn step<M, E>(&mut self, event: DaemonEvent<F, M, E>) -> (action: DaemonAction<F, M, E>)
        ensures
            exists|now: i64| #[trigger]
                is_reading(now) && (*final(self), action) == daemon_step(*old(self), event, now),
    {
        self.step_at(event, now_millis())
    }

    /// Takes note of a signal, or of how the last action went, at the time `now`, and says what to
    /// do next.
    pub fn step_at<M, E>(&mut self, event: DaemonEvent<F, M, E>, now: i64) -> (action: DaemonAction<
        F,
        M,
        E,
    >)
        ensures
            (*final(self), action) == daemon_step(*old(self), event, now),
    {
        match (self.phase, event) {
            (_, DaemonEvent::Start(params)) => self.start(params, now),
            (Phase::SavingRun { start_time }, DaemonEvent::RunSaved(id)) => match id {
                None => {
                    self.phase = Phase::Idle;
                    DaemonAction::Fail(DaemonError::NoRunId)
                },
                Some(run_id) => {
                    self.phase = Phase::SavingIteration { run_id };
                    DaemonAction::SaveIteration(
                        create_new_iteration(run_id, self.scenario_name.clone(), start_time),
                    )
                },
            },
            (Phase::SavingIteration { run_id }, DaemonEvent::IterationSaved) => {
                self.run_id = run_id;
                self.phase = Phase::StartingLogger;
                DaemonAction::StartLogger { run_id }
            },
            (Phase::StartingLogger, DaemonEvent::LoggerStarted) => {
                self.run_state = RunState::Running;
                self.phase = Phase::Idle;
                DaemonAction::Started { run_id: self.run_id }
            },
            (_, DaemonEvent::Stop) => self.stop(),
            (Phase::StoppingLogger, DaemonEvent::LoggerStopped) => {
                self.run_state = RunState::Waiting;
                if self.is_composer {
                    self.phase = Phase::Finalising;
                    DaemonAction::Finalise { run_id: self.run_id, stop_time: now }
                } else {
                    self.phase = Phase::Idle;
                    DaemonAction::Stopped(None)
                }
            },
            (Phase::Finalising, DaemonEvent::Finalised) => {
                self.phase = Phase::BuildingDataset;
                DaemonAction::BuildDataset {
                    scenario_name: self.scenario_name.clone(),
                    run_id: self.run_id,
                    include_live: true,
                }
            },
            (Phase::BuildingDataset, DaemonEvent::DatasetBuilt { scenarios }) => if scenarios == 0 {
                self.phase = Phase::Idle;
                DaemonAction::Fail(DaemonError::NoScenario)
            } else {
                self.phase = Phase::SplittingByRun;
                DaemonAction::SplitByRun
            },
            (Phase::SplittingByRun, DaemonEvent::RunsSplit { runs }) => if runs == 0 {
                self.phase = Phase::Idle;
                DaemonAction::Fail(DaemonError::NoRun)
            } else {
                self.phase = Phase::ApplyingModel;
                DaemonAction::ApplyModel
            },
            (Phase::ApplyingModel, DaemonEvent::Modelled(data)) => {
                self.phase = Phase::Idle;
                DaemonAction::Stopped(Some(data))
            },
            (phase, DaemonEvent::Failed(e)) => match phase {
                Phase::Idle | Phase::StoppingLogger | Phase::SplittingByRun => DaemonAction::Ignore,
                _ => {
                    self.phase = Phase::Idle;
                    DaemonAction::Fail(DaemonError::Step(e))
                },
            },
            (_, _) => DaemonAction::Ignore,
        }
    }

    /// Takes note of a start signal that came at `now`, and says what to do next.
    pub fn start<M, E>(&mut self, params: StartParams, now: i64) -> (action: DaemonAction<F, M, E>)
        ensures
            (*final(self), action) == on_start::<F, P, M, E>(*old(self), params, now),
    {
        self.phase = Phase::Idle;
        match self.run_state {
            RunState::Waiting => {},
            RunState::Running => {
                return DaemonAction::Fail(DaemonError::AlreadyRunning);
            },
        }
        self.scenario_name = params.scenario_name;
        if self.is_composer {
            self.phase = Phase::SavingRun { start_time: now };
            let region = self.region.clone();
            DaemonAction::SaveRun(create_new_run(self.cpu_id, region, self.ci, now))
        } else {
            match params.run_id {
                None => DaemonAction::Fail(DaemonError::RunIdExpected),
                Some(run_id) => {
                    self.run_id = run_id;
                    self.phase = Phase::StartingLogger;
                    DaemonAction::StartLogger { run_id }
                },
            }
        }
    }

    /// Takes note of a stop signal, and says what to do next.
    pub fn stop<M, E>(&mut self) -> (action: DaemonAction<F, M, E>)
        ensures
            (*final(self), action) == on_stop::<F, P, M, E>(*old(self)),
    {
        match self.run_state {
            RunState::Running => {
                self.phase = Phase::StoppingLogger;
                DaemonAction::StopLogger
            },
            RunState::Waiting => {
                self.phase = Phase::Idle;
                DaemonAction::Fail(DaemonError::NotRunning)
            },
        }
    }
}

impl<E> DaemonError<E> {
    /// What the error tells the sender of the signal, over what the step says. An error that can
    /// only come of missing data says nothing.
    pub open spec fn text(&self) -> Option<Seq<char>> {
        match self {
            DaemonError::Step(_) => None,
            DaemonError::AlreadyRunning => Some("Daemon is already running!"@),
            DaemonError::NotRunning => Some("Daemon is not running"@),
            DaemonError::RunIdExpected => Some(
                "Daemon running as worker expects run_id to be provided by the composer"@,
            ),
            DaemonError::NoRunId | DaemonError::NoScenario | DaemonError::NoRun => Some(""@),
        }
    }

    /// The message of the error, if it has more to say than the step.
    pub fn message(&self) -> (message: Option<String>)
        ensures
            match message {
                Some(m) => self.text() == Some(m@),
                None => self.text() is None,
            },
    {
        match self {
            DaemonError::Step(_) => None,
            DaemonError::AlreadyRunning => Some("Daemon is already running!".to_string()),
            DaemonError::NotRunning => Some("Daemon is not running".to_string()),
            DaemonError::RunIdExpected => Some(
                "Daemon running as worker expects run_id to be provided by the composer".to_string(),
            ),
            DaemonError::NoRunId | DaemonError::NoScenario | DaemonError::NoRun => Some(
                "".to_string(),
            ),
        }
    }
}

/// What is reported of a process, from its share in the run.
pub open spec fn process_response<F, M>(data: ProcessData<F, M>) -> ProcessResponse<F, M> {
    ProcessResponse {
        process_name: data.process_id,
        pow_contrib_perc: data.pow_perc,
        iteration_metrics: data.iteration_metrics,
    }
}

/// The report on a run.
pub fn run_response<F, M>(data: ModelData<F, M>) -> (response: RunResponse<F, M>)
    ensures
        response.region == data.region,
        response.start_time == data.start_time,
        response.duration == data.duration,
        response.pow == data.pow,
        response.co2 == data.co2,
        response.ci == data.ci,
        response.processes@ == data.process_data@.map_values(
            |d: ProcessData<F, M>| process_response(d),
        ),
        response.processes@.len() == data.process_data@.len(),
        forall|k: int|
            0 <= k < data.process_data@.len() ==> {
                let reported = #[trigger] response.processes@[k];
                &&& reported.process_name == data.process_data@[k].process_id
                &&& reported.pow_contrib_perc == data.process_data@[k].pow_perc
                &&& reported.iteration_metrics == data.process_data@[k].iteration_metrics
            },
{
    let mut processes: Vec<ProcessResponse<F, M>> = Vec::new();
    for d in shares: data.process_data
        invariant
            processes@.len() == shares.index(),
            forall|k: int|
                0 <= k < processes@.len() ==> #[trigger] processes@[k] == process_response(
                    shares.seq()[k],
                ),
    {
        processes.push(
            ProcessResponse {
                process_name: d.process_id,
                pow_contrib_perc: d.pow_perc,
                iteration_metrics: d.iteration_metrics,
            },
        );
    }
    assert(processes@ =~= data.process_data@.map_values(
        |d: ProcessData<F, M>| process_response(d),
    ));
    RunResponse {
        region: data.region,
        start_time: data.start_time,
        duration: data.duration,
        pow: data.pow,
        co2: data.co2,
        ci: data.ci,
        processes,
    }
}

/// A signal is decided as if the daemon were idle: what an abandoned signal left does not count.
pub proof fn law_abandoned_signal_does_not_count<F, P, M, E>(
    state: DaemonState<F, P>,
    signal: DaemonEvent<F, M, E>,
    now: i64,
)
    requires
        signal is Start || signal is Stop,
    ensures
        daemon_step(state, signal, now) == daemon_step(
            DaemonState { phase: Phase::Idle, ..state },
            signal,
            now,
        ),
{
}

/// While metrics are being collected, a start signal is refused and leaves the daemon idle and
/// otherwise as it is.
pub proof fn law_start_refused_while_running<F, P, M, E>(
    state: DaemonState<F, P>,
    params: StartParams,
    now: i64,
)
    requires
        state.run_state == RunState::Running,
    ensures
        daemon_step(state, DaemonEvent::<F, M, E>::Start(params), now) == (
            DaemonState { phase: Phase::Idle, ..state },
            DaemonAction::<F, M, E>::Fail(DaemonError::AlreadyRunning),
        ),
{
}

/// While no metrics are being collected, a stop signal is refused and leaves the daemon idle and
/// otherwise as it is.
pub proof fn law_stop_refused_while_waiting<F, P, M, E>(state: DaemonState<F, P>, now: i64)
    requires
        state.run_state == RunState::Waiting,
    ensures
        daemon_step(state, DaemonEvent::<F, M, E>::Stop, now) == (
            DaemonState { phase: Phase::Idle, ..state },
            DaemonAction::<F, M, E>::Fail(DaemonError::NotRunning),
        ),
{
}

/// Whatever happens, the daemon stays well formed, keeps its role, processor, region, carbon
/// intensity and processes, begins to run only when a logger has started, and ceases to run only
/// when the logger has stopped.
pub proof fn law_every_step_keeps<F, P, M, E>(
    state: DaemonState<F, P>,
    event: DaemonEvent<F, M, E>,
    now: i64,
)
    requires
        state.wf(),
    ensures
        ({
            let (next, action) = daemon_step(state, event, now);
            &&& next.wf()
            &&& next.is_composer == state.is_composer
            &&& next.cpu_id == state.cpu_id
            &&& next.region == state.region
            &&& next.ci == state.ci
            &&& next.processes_to_observe == state.processes_to_observe
            &&& next.run_state == RunState::Running && state.run_state == RunState::Waiting ==> event
                is LoggerStarted
            &&& next.run_state == RunState::Waiting && state.run_state == RunState::Running ==> event
                is LoggerStopped
        }),
{
}

/// While metrics are being collected, the scenario and the run stay those of the start.
pub proof fn law_running_keeps_scenario_and_run<F, P, M, E>(
    state: DaemonState<F, P>,
    event: DaemonEvent<F, M, E>,
    now: i64,
)
    requires
        state.wf(),
        state.run_state == RunState::Running,
    ensures
        daemon_step(state, event, now).0.scenario_name == state.scenario_name,
        daemon_step(state, event, now).0.run_id == state.run_id,
{
}

/// The state after a sequence of events, each with the time at which it came.
pub open spec fn after_events<F, P, M, E>(
    state: DaemonState<F, P>,
    events: Seq<(DaemonEvent<F, M, E>, i64)>,
) -> DaemonState<F, P>
    decreases events.len(),
{
    if events.len() == 0 {
        state
    } else {
        daemon_step(
            after_events(state, events.drop_last()),
            events.last().0,
            events.last().1,
        ).0
    }
}

/// A well-formed daemon is well formed after any events, and has kept its role, processor, region,
/// carbon intensity and processes.
pub proof fn law_daemon_stays_well_formed<F, P, M, E>(
    state: DaemonState<F, P>,
    events: Seq<(DaemonEvent<F, M, E>, i64)>,
)
    requires
        state.wf(),
    ensures
        ({
            let last = after_events(state, events);
            &&& last.wf()
            &&& last.is_composer == state.is_composer
            &&& last.cpu_id == state.cpu_id
            &&& last.region == state.region
            &&& last.ci == state.ci
            &&& last.processes_to_observe == state.processes_to_observe
        }),
    decreases events.len(),
{
    if events.len() > 0 {
        law_daemon_stays_well_formed(state, events.drop_last());
        law_every_step_keeps(
            after_events(state, events.drop_last()),
            events.last().0,
            events.last().1,
        );
    }
}

/// Whatever signals come while metrics are being collected, it is the run and the scenario of the
/// start that a stop then ends.
pub proof fn law_stop_ends_started_run<F, P, M, E>(
    state: DaemonState<F, P>,
    events: Seq<(DaemonEvent<F, M, E>, i64)>,
)
    requires
        state.wf(),
        forall|k: int|
            0 <= k <= events.len() ==> (#[trigger] after_events(state, events.take(k))).run_state
                == RunState::Running,
    ensures
        after_events(state, events).run_id == state.run_id,
        after_events(state, events).scenario_name == state.scenario_name,
    decreases events.len(),
{
    if events.len() > 0 {
        let rest = events.drop_last();
        assert(events.take(events.len() - 1) =~= rest);
        assert forall|k: int| 0 <= k <= rest.len() implies (#[trigger] after_events(
            state,
            rest.take(k),
        )).run_state == RunState::Running by {
            assert(rest.take(k) =~= events.take(k));
        }
        law_stop_ends_started_run(state, rest);
        law_daemon_stays_well_formed(state, rest);
        assert(after_events(state, events.take(events.len() - 1)).run_state == RunState::Running);
        law_running_keeps_scenario_and_run(
            after_events(state, rest),
            events.last().0,
            events.last().1,
        );
    }
}

/// The action that answers the event at `k` of a sequence.
pub open spec fn action_at<F, P, M, E>(
    state: DaemonState<F, P>,
    events: Seq<(DaemonEvent<F, M, E>, i64)>,
    k: int,
) -> DaemonAction<F, M, E> {
    daemon_step(after_events(state, events.take(k)), events[k].0, events[k].1).1
}

/// Of several starts without a stop among them at most one succeeds: once one has been answered
/// with success, each later start is refused because metrics are being collected already, no other
/// is answered with success, and nothing changes any more, neither the run, which is the one that
/// the answer named, nor the scenario.
pub proof fn law_one_start_succeeds<F, P, M, E>(
    state: DaemonState<F, P>,
    events: Seq<(DaemonEvent<F, M, E>, i64)>,
    i: int,
    j: int,
)
    requires
        0 <= i < j < events.len(),
        action_at(state, events, i) is Started,
        forall|k: int| i < k <= j ==> !((#[trigger] events[k]).0 is Stop),
    ensures
        events[j].0 is Start ==> action_at(state, events, j) == DaemonAction::<F, M, E>::Fail(
            DaemonError::AlreadyRunning,
        ),
        !(action_at(state, events, j) is Started),
        action_at(state, events, i) == (DaemonAction::<F, M, E>::Started {
            run_id: after_events(state, events.take(i + 1)).run_id,
        }),
        after_events(state, events.take(i + 1)).run_state == RunState::Running,
        after_events(state, events.take(j + 1)) == after_events(state, events.take(i + 1)),
    decreases j - i,
{
    lemma_after_next(state, events, i);
    lemma_after_next(state, events, j);
    if i + 1 < j {
        law_one_start_succeeds(state, events, i, j - 1);
    }
    assert(!(events[j].0 is Stop));
}

/// Some start was answered with success, and no stop came after that.
pub open spec fn started_last<F, P, M, E>(
    state: DaemonState<F, P>,
    events: Seq<(DaemonEvent<F, M, E>, i64)>,
) -> bool {
    exists|i: int| #[trigger] started_at(state, events, i)
}

/// The event at `i` was answered with the success of a start, and no stop came after it.
pub open spec fn started_at<F, P, M, E>(
    state: DaemonState<F, P>,
    events: Seq<(DaemonEvent<F, M, E>, i64)>,
    i: int,
) -> bool {
    &&& 0 <= i < events.len()
    &&& action_at(state, events, i) is Started
    &&& forall|k: int| i < k < events.len() ==> !((#[trigger] events[k]).0 is Stop)
}

/// Metrics are being collected and no stop is under way.
pub open spec fn collecting<F, P>(state: DaemonState<F, P>) -> bool {
    state.run_state == RunState::Running && state.phase != Phase::StoppingLogger
}

proof fn lemma_collecting_step<F, P, M, E>(
    state: DaemonState<F, P>,
    event: DaemonEvent<F, M, E>,
    now: i64,
)
    requires
        state.wf(),
        event is Start ==> state.phase != Phase::StoppingLogger,
    ensures
        ({
            let (next, action) = daemon_step(state, event, now);
            collecting(next) <==> action is Started || collecting(state) && !(event is Stop)
        }),
{
}

proof fn lemma_started_last<F, P, M, E>(
    state: DaemonState<F, P>,
    events: Seq<(DaemonEvent<F, M, E>, i64)>,
)
    requires
        events.len() > 0,
    ensures
        started_last(state, events) <==> action_at(state, events, events.len() - 1) is Started || (
        started_last(state, events.drop_last()) && !(events.last().0 is Stop)),
{
    let rest = events.drop_last();
    let n = rest.len() as int;
    if action_at(state, events, n) is Started {
        assert(started_at(state, events, n));
    } else {
        if started_last(state, rest) && !(events.last().0 is Stop) {
            let i = choose|i: int| #[trigger] started_at(state, rest, i);
            assert(rest.take(i) =~= events.take(i));
            assert forall|k: int| i < k < events.len() implies !((
            #[trigger] events[k]).0 is Stop) by {
                if k < n {
                    assert(rest[k] == events[k]);
                }
            }
            assert(started_at(state, events, i));
        }
        if started_last(state, events) {
            let i = choose|i: int| #[trigger] started_at(state, events, i);
            assert(i < n);
            assert(!(events[n].0 is Stop));
            assert(rest.take(i) =~= events.take(i));
            assert forall|k: int| i < k < rest.len() implies !((#[trigger] rest[k]).0 is Stop) by {
                assert(rest[k] == events[k]);
            }
            assert(started_at(state, rest, i));
        }
    }
}

/// A daemon that began by waiting collects metrics, with no stop under way, exactly if some start
/// was answered with success and no stop came after that; when it is idle, it collects metrics
/// exactly then. Left out are starts that come while a logger is being stopped: such a start gives
/// up the stop, and the daemon goes on collecting.
pub proof fn law_collecting_iff_started_last<F, P, M, E>(
    state: DaemonState<F, P>,
    events: Seq<(DaemonEvent<F, M, E>, i64)>,
)
    requires
        state.wf(),
        state.run_state == RunState::Waiting,
        forall|k: int|
            0 <= k < events.len() && (#[trigger] events[k]).0 is Start ==> after_events(
                state,
                events.take(k),
            ).phase != Phase::StoppingLogger,
    ensures
        collecting(after_events(state, events)) <==> started_last(state, events),
        after_events(state, events).phase == Phase::Idle ==> (after_events(state, events).run_state
            == RunState::Running <==> started_last(state, events)),
    decreases events.len(),
{
    if events.len() > 0 {
        let rest = events.drop_last();
        let n = rest.len() as int;
        assert forall|k: int| 0 <= k < rest.len() && (#[trigger] rest[k]).0 is Start implies (
        after_events(state, rest.take(k)).phase != Phase::StoppingLogger) by {
            assert(events[k] == rest[k]);
            assert(rest.take(k) =~= events.take(k));
        }
        law_collecting_iff_started_last(state, rest);
        law_daemon_stays_well_formed(state, rest);
        lemma_started_last(state, events);
        assert(events.take(n) =~= rest);
        assert(events[n] == events.last());
        lemma_collecting_step(after_events(state, rest), events.last().0, events.last().1);
    }
}

proof fn lemma_after_next<F, P, M, E>(
    state: DaemonState<F, P>,
    events: Seq<(DaemonEvent<F, M, E>, i64)>,
    k: int,
)
    requires
        0 <= k < events.len(),
    ensures
        after_events(state, events.take(k + 1)) == daemon_step(
            after_events(state, events.take(k)),
            events[k].0,
            events[k].1,
        ).0,
{
    assert(events.take(k + 1).drop_last() =~= events.take(k));
}

/// A start that fails leaves the daemon idle and waiting, so that it can be started again.
pub proof fn law_failed_start_can_be_repeated<F, P, M, E>(
    state: DaemonState<F, P>,
    event: DaemonEvent<F, M, E>,
    now: i64,
)
    requires
        state.wf(),
        state.run_state == RunState::Waiting,
        daemon_step(state, event, now).1 is Fail,
    ensures
        daemon_step(state, event, now).0.phase == Phase::Idle,
        daemon_step(state, event, now).0.run_state == RunState::Waiting,
{
}

/// A composer that is started saves a run that begins now, and the first iteration of the named
/// scenario in that run, with the same start time; it then collects metrics for that run.
pub proof fn law_composer_start<F, P, M, E>(
    state: DaemonState<F, P>,
    params: StartParams,
    run_id: i32,
    now: i64,
    later: i64,
)
    requires
        state.run_state == RunState::Waiting,
        state.is_composer,
    ensures
        ({
            let (s1, a1) = daemon_step(state, DaemonEvent::<F, M, E>::Start(params), now);
            let (s2, a2) = daemon_step(s1, DaemonEvent::<F, M, E>::RunSaved(Some(run_id)), later);
            let (s3, a3) = daemon_step(s2, DaemonEvent::<F, M, E>::IterationSaved, later);
            let (s4, a4) = daemon_step(s3, DaemonEvent::<F, M, E>::LoggerStarted, later);
            &&& a1 == DaemonAction::<F, M, E>::SaveRun(
                live_run(state.cpu_id, state.region, state.ci, now),
            )
            &&& a1 matches DaemonAction::SaveRun(run) && {
                &&& run.is_live
                &&& run.cpu_id == state.cpu_id
                &&& run.region == state.region
                &&& run.carbon_intensity == state.ci
                &&& run.start_time == now
                &&& run.stop_time is None
            }
            &&& a2 == DaemonAction::<F, M, E>::SaveIteration(
                NewIteration {
                    run_id,
                    scenario_name: params.scenario_name,
                    count: 1,
                    start_time: now,
                    stop_time: None,
                },
            )
            &&& a3 == DaemonAction::<F, M, E>::StartLogger { run_id }
            &&& a4 == DaemonAction::<F, M, E>::Started { run_id }
            &&& s4 == (DaemonState {
                scenario_name: params.scenario_name,
                run_id,
                run_state: RunState::Running,
                phase: Phase::Idle,
                ..state
            })
        }),
{
}

/// A composer that is stopped stops the logger, sets the stop time of the run to the time at which
/// the logger had stopped, and reports on that run in its scenario.
pub proof fn law_composer_stop<F, P, M, E>(
    state: DaemonState<F, P>,
    scenarios: usize,
    runs: usize,
    data: ModelData<F, M>,
    now: i64,
    stopped: i64,
    later: i64,
)
    requires
        state.run_state == RunState::Running,
        state.is_composer,
        scenarios > 0,
        runs > 0,
    ensures
        ({
            let (s1, a1) = daemon_step(state, DaemonEvent::<F, M, E>::Stop, now);
            let (s2, a2) = daemon_step(s1, DaemonEvent::<F, M, E>::LoggerStopped, stopped);
            let (s3, a3) = daemon_step(s2, DaemonEvent::<F, M, E>::Finalised, later);
            let (s4, a4) = daemon_step(
                s3,
                DaemonEvent::<F, M, E>::DatasetBuilt { scenarios },
                later,
            );
            let (s5, a5) = daemon_step(s4, DaemonEvent::<F, M, E>::RunsSplit { runs }, later);
            let (s6, a6) = daemon_step(s5, DaemonEvent::<F, M, E>::Modelled(data), later);
            &&& a1 == DaemonAction::<F, M, E>::StopLogger
            &&& a2 == DaemonAction::<F, M, E>::Finalise { run_id: state.run_id, stop_time: stopped }
            &&& a3 == DaemonAction::<F, M, E>::BuildDataset {
                scenario_name: state.scenario_name,
                run_id: state.run_id,
                include_live: true,
            }
            &&& a4 == DaemonAction::<F, M, E>::SplitByRun
            &&& a5 == DaemonAction::<F, M, E>::ApplyModel
            &&& a6 == DaemonAction::<F, M, E>::Stopped(Some(data))
            &&& s6 == (DaemonState {
                run_state: RunState::Waiting,
                phase: Phase::Idle,
                ..state
            })
        }),
{
}

/// A worker leaves the database alone: it saves nothing, ends no run and reports on none.
pub proof fn law_worker_leaves_database_alone<F, P, M, E>(
    state: DaemonState<F, P>,
    event: DaemonEvent<F, M, E>,
    now: i64,
)
    requires
        state.wf(),
        !state.is_composer,
    ensures
        match daemon_step(state, event, now).1 {
            DaemonAction::SaveRun(_) | DaemonAction::SaveIteration(_) => false,
            DaemonAction::Finalise { .. } | DaemonAction::BuildDataset { .. } => false,
            DaemonAction::Stopped(report) => report is None,
            _ => true,
        },
{
}

/// A worker collects metrics for the run that the start signal names, and cannot be started
/// without one.
pub proof fn law_worker_start<F, P, M, E>(
    state: DaemonState<F, P>,
    params: StartParams,
    now: i64,
    later: i64,
)
    requires
        state.run_state == RunState::Waiting,
        !state.is_composer,
    ensures
        ({
            let (s1, a1) = daemon_step(state, DaemonEvent::<F, M, E>::Start(params), now);
            let (s2, a2) = daemon_step(s1, DaemonEvent::<F, M, E>::LoggerStarted, later);
            match params.run_id {
                None => a1 == DaemonAction::<F, M, E>::Fail(DaemonError::RunIdExpected),
                Some(run_id) => {
                    &&& a1 == DaemonAction::<F, M, E>::StartLogger { run_id }
                    &&& s2.run_id == run_id
                    &&& s2.run_state == RunState::Running
                },
            }
        }),
{
}

/// What is reported of a process is its name, its share of the power and its metrics.
pub proof fn law_process_is_reported_by_field<F, M>(data: ProcessData<F, M>)
    ensures
        process_response(data).process_name == data.process_id,
        process_response(data).pow_contrib_perc == data.pow_perc,
        process_response(data).iteration_metrics == data.iteration_metrics,
{
}

/// A worker that is stopped stops the logger, no longer runs when the logger has stopped, and
/// answers without a report. Nothing else of it changes.
pub proof fn law_worker_stop<F, P, M, E>(state: DaemonState<F, P>, now: i64, stopped: i64)
    requires
        state.run_state == RunState::Running,
        !state.is_composer,
    ensures
        ({
            let (s1, a1) = daemon_step(state, DaemonEvent::<F, M, E>::Stop, now);
            let (s2, a2) = daemon_step(s1, DaemonEvent::<F, M, E>::LoggerStopped, stopped);
            &&& a1 == DaemonAction::<F, M, E>::StopLogger
            &&& a2 == DaemonAction::<F, M, E>::Stopped(None)
            &&& s2 == (DaemonState {
                run_state: RunState::Waiting,
                phase: Phase::Idle,
                ..state
            })
        }),
{
}

/// The time of the iteration is that of the run, and the time at which a run is stopped is the one
/// at which the logger had stopped: what comes later does not enter.
pub proof fn law_times_are_those_of_the_signal<F, P, M, E>(
    state: DaemonState<F, P>,
    params: StartParams,
    run_id: i32,
    now: i64,
    later: i64,
)
    requires
        state.is_composer,
    ensures
        ({
            let waiting = DaemonState { run_state: RunState::Waiting, ..state };
            let (s1, a1) = daemon_step(waiting, DaemonEvent::<F, M, E>::Start(params), now);
            let a2 = daemon_step(s1, DaemonEvent::<F, M, E>::RunSaved(Some(run_id)), later).1;
            &&& a1 matches DaemonAction::SaveRun(run) && run.start_time == now
            &&& a2 matches DaemonAction::SaveIteration(iteration) && {
                &&& iteration.run_id == run_id
                &&& iteration.scenario_name == params.scenario_name
                &&& iteration.count == 1
                &&& iteration.start_time == now
                &&& iteration.stop_time is None
            }
        }),
        ({
            let running = DaemonState { run_state: RunState::Running, ..state };
            let s1 = daemon_step(running, DaemonEvent::<F, M, E>::Stop, now).0;
            let a2 = daemon_step(s1, DaemonEvent::<F, M, E>::LoggerStopped, later).1;
            a2 matches DaemonAction::Finalise { run_id: ended, stop_time } && ended == state.run_id
                && stop_time == later
        }),
{
}

/// A step that fails answers the signal with its error and leaves the daemon idle and otherwise as
/// it is. The logger stops and a scenario is split without fail, so no failure belongs there, nor
/// where no signal is at work.
pub proof fn law_failed_step_answers_with_its_error<F, P, M, E>(
    state: DaemonState<F, P>,
    error: E,
    now: i64,
)
    ensures
        ({
            let (next, action) = daemon_step(state, DaemonEvent::<F, M, E>::Failed(error), now);
            match state.phase {
                Phase::Idle | Phase::StoppingLogger | Phase::SplittingByRun => {
                    &&& next == state
                    &&& action is Ignore
                },
                Phase::SavingRun { .. }
                | Phase::SavingIteration { .. }
                | Phase::StartingLogger
                | Phase::Finalising
                | Phase::BuildingDataset
                | Phase::ApplyingModel => {
                    &&& next == (DaemonState { phase: Phase::Idle, ..state })
                    &&& action == DaemonAction::<F, M, E>::Fail(DaemonError::Step(error))
                },
            }
        }),
{
}

/// A run that was saved without an id, a dataset without a scenario and a scenario without a run
/// are errors of their own, and leave the daemon idle and otherwise as it is.
pub proof fn law_missing_data_is_an_error<F, P, M, E>(
    state: DaemonState<F, P>,
    start_time: i64,
    now: i64,
)
    ensures
        daemon_step(
            DaemonState { phase: Phase::SavingRun { start_time }, ..state },
            DaemonEvent::<F, M, E>::RunSaved(None),
            now,
        ) == (
            DaemonState { phase: Phase::Idle, ..state },
            DaemonAction::<F, M, E>::Fail(DaemonError::NoRunId),
        ),
        daemon_step(
            DaemonState { phase: Phase::BuildingDataset, ..state },
            DaemonEvent::<F, M, E>::DatasetBuilt { scenarios: 0 },
            now,
        ) == (
            DaemonState { phase: Phase::Idle, ..state },
            DaemonAction::<F, M, E>::Fail(DaemonError::NoScenario),
        ),
        daemon_step(
            DaemonState { phase: Phase::SplittingByRun, ..state },
            DaemonEvent::<F, M, E>::RunsSplit { runs: 0 },
            now,
        ) == (
            DaemonState { phase: Phase::Idle, ..state },
            DaemonAction::<F, M, E>::Fail(DaemonError::NoRun),
        ),
{
}

/// A start that fails keeps the run of the start before it, and takes over the name of its own
/// scenario.
pub proof fn law_failed_start_keeps_run_and_takes_scenario<F, P, M, E>(
    state: DaemonState<F, P>,
    params: StartParams,
    error: E,
    now: i64,
    later: i64,
)
    requires
        state.run_state == RunState::Waiting,
    ensures
        ({
            let (s1, a1) = daemon_step(state, DaemonEvent::<F, M, E>::Start(params), now);
            let (s2, a2) = daemon_step(s1, DaemonEvent::<F, M, E>::Failed(error), later);
            &&& state.is_composer ==> s2 == (DaemonState {
                scenario_name: params.scenario_name,
                phase: Phase::Idle,
                ..state
            }) && a2 == DaemonAction::<F, M, E>::Fail(DaemonError::Step(error))
            &&& !state.is_composer && params.run_id is None ==> s1 == (DaemonState {
                scenario_name: params.scenario_name,
                phase: Phase::Idle,
                ..state
            }) && a1 == DaemonAction::<F, M, E>::Fail(DaemonError::RunIdExpected)
        }),
{
}

/// An event that does not belong to what the daemon is in the middle of changes nothing. A signal
/// belongs everywhere.
pub proof fn law_daemon_ignores_what_does_not_belong<F, P, M, E>(
    state: DaemonState<F, P>,
    event: DaemonEvent<F, M, E>,
    now: i64,
)
    ensures
        daemon_step(state, event, now).1 is Ignore ==> daemon_step(state, event, now).0 == state,
        daemon_step(state, event, now).1 is Ignore <==> match event {
            DaemonEvent::Start(_) | DaemonEvent::Stop => false,
            DaemonEvent::RunSaved(_) => !(state.phase is SavingRun),
            DaemonEvent::IterationSaved => !(state.phase is SavingIteration),
            DaemonEvent::LoggerStarted => !(state.phase is StartingLogger),
            DaemonEvent::LoggerStopped => !(state.phase is StoppingLogger),
            DaemonEvent::Finalised => !(state.phase is Finalising),
            DaemonEvent::DatasetBuilt { .. } => !(state.phase is BuildingDataset),
            DaemonEvent::RunsSplit { .. } => !(state.phase is SplittingByRun),
            DaemonEvent::Modelled(_) => !(state.phase is ApplyingModel),
            DaemonEvent::Failed(_) => state.phase is Idle || state.phase is StoppingLogger
                || state.phase is SplittingByRun,
        },
{
}

/// A signal is decided alike whether it comes as an event or by itself.
pub proof fn law_signals_are_decided_alike<F, P, M, E>(
    state: DaemonState<F, P>,
    params: StartParams,
    now: i64,
)
    ensures
        daemon_step(state, DaemonEvent::<F, M, E>::Start(params), now) == on_start::<F, P, M, E>(
            state,
            params,
            now,
        ),
        daemon_step(state, DaemonEvent::<F, M, E>::Stop, now) == on_stop::<F, P, M, E>(state),
{
}

} // verus!
