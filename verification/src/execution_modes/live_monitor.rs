//! Live monitoring: metrics are collected in a run of their own until the logger has nothing left
//! to do or the user interrupts.
use crate::clock::{is_reading, now_millis};
use crate::records::{
    create_new_iteration, create_new_run, live_run, NewIteration, NewIterationView, NewRun,
};
use vstd::prelude::*;
use vstd::string::*;

verus! {

/// Where live monitoring stands.
#[derive(Debug, Clone, Copy, PartialEq, Eq, Structural)]
pub enum LiveMonitor {
    /// The run is being saved.
    SavingRun,
    /// The iteration of the run is being saved.
    SavingIteration { run_id: i32 },
    /// The logger is being started.
    StartingLogger { run_id: i32 },
    /// The logger collects metrics.
    Logging { run_id: i32 },
    /// Nothing is left to do.
    Finished,
}

/// How the last action went. `E` is an error of what the monitor works with.
#[derive(Debug)]
pub enum LiveEvent<E> {
    /// The run was saved under this id.
    RunSaved(i32),
    /// The iteration was saved.
    IterationSaved,
    /// The logger started.
    LoggerStarted,
    /// A task of the logger ended.
    TaskEnded,
    /// No task of the logger is left.
    NoTaskLeft,
    /// The last action failed.
    Failed(E),
}

/// What to do next.
#[derive(Debug)]
pub enum LiveAction<F, E> {
    /// Save the run.
    SaveRun(NewRun<F>),
    /// Save the iteration.
    SaveIteration(NewIteration),
    /// See to it that an interrupt ends the run, and start the logger.
    Monitor { run_id: i32 },
    /// Wait until a task of the logger ends.
    Join,
    /// Report success.
    Finish,
    /// Give up.
    Fail(E),
    /// Nothing: the event does not belong here.
    Ignore,
}

/// A `LiveAction` with characters in place of strings.
pub enum LiveActionView<F, E> {
    SaveRun(NewRun<F>),
    SaveIteration(NewIterationView),
    Monitor { run_id: i32 },
    Join,
    Finish,
    Fail(E),
    Ignore,
}

impl<F, E> View for LiveAction<F, E> {
    type V = LiveActionView<F, E>;

    open spec fn view(&self) -> LiveActionView<F, E> {
        match self {
            LiveAction::SaveRun(run) => LiveActionView::SaveRun(*run),
            LiveAction::SaveIteration(it) => LiveActionView::SaveIteration(it@),
            LiveAction::Monitor { run_id } => LiveActionView::Monitor { run_id: *run_id },
            LiveAction::Join => LiveActionView::Join,
            LiveAction::Finish => LiveActionView::Finish,
            LiveAction::Fail(e) => LiveActionView::Fail(*e),
            LiveAction::Ignore => LiveActionView::Ignore,
        }
    }
}

/// The next state and action at the time `now`.
pub open spec fn live_step<F, E>(state: LiveMonitor, event: LiveEvent<E>, now: i64) -> (
    LiveMonitor,
    LiveActionView<F, E>,
) {
    match (state, event) {
        (LiveMonitor::SavingRun, LiveEvent::RunSaved(run_id)) => (
            LiveMonitor::SavingIteration { run_id },
            LiveActionView::SaveIteration(
                NewIterationView {
                    run_id,
                    scenario_name: "live"@,
                    count: 1,
                    start_time: now,
                    stop_time: None,
                },
            ),
        ),
        (LiveMonitor::SavingIteration { run_id }, LiveEvent::IterationSaved) => (
            LiveMonitor::StartingLogger { run_id },
            LiveActionView::Monitor { run_id },
        ),
        (LiveMonitor::StartingLogger { run_id }, LiveEvent::LoggerStarted) => (
            LiveMonitor::Logging { run_id },
            LiveActionView::Join,
        ),
        (LiveMonitor::Logging { .. }, LiveEvent::TaskEnded) => (state, LiveActionView::Join),
        (LiveMonitor::Logging { .. }, LiveEvent::NoTaskLeft) => (
            LiveMonitor::Finished,
            LiveActionView::Finish,
        ),
        (LiveMonitor::SavingRun, LiveEvent::Failed(e)) => (
            LiveMonitor::Finished,
            LiveActionView::Fail(e),
        ),
        (LiveMonitor::SavingIteration { .. }, LiveEvent::Failed(e)) => (
            LiveMonitor::Finished,
            LiveActionView::Fail(e),
        ),
        (LiveMonitor::StartingLogger { .. }, LiveEvent::Failed(e)) => (
            LiveMonitor::Finished,
            LiveActionView::Fail(e),
        ),
        (_, _) => (state, LiveActionView::Ignore),
    }
}

/// Begins live monitoring at the present time.
pub fn run_live<F, E>(cpu_id: i32, region: Option<String>, ci: F) -> (begun: (
    LiveMonitor,
    LiveAction<F, E>,
))
    ensures
        begun.0 == LiveMonitor::SavingRun,
        exists|now: i64|
            begun.1@ == LiveActionView::<F, E>::SaveRun(
                #[trigger] live_run(cpu_id, region, ci, now),
            ) && is_reading(now),
        begun.1 matches LiveAction::SaveRun(run) && {
            &&& run.is_live
            &&& run.cpu_id == cpu_id
            &&& run.region == region
            &&& run.carbon_intensity == ci
            &&& is_reading(run.start_time)
            &&& run.stop_time is None
        },
{
    run_live_at(cpu_id, region, ci, now_millis())
}

/// Begins live monitoring at the time `now`.
pub fn run_live_at<F, E>(cpu_id: i32, region: Option<String>, ci: F, now: i64) -> (begun: (
    LiveMonitor,
    LiveAction<F, E>,
))
    ensures
        begun.0 == LiveMonitor::SavingRun,
        begun.1@ == LiveActionView::<F, E>::SaveRun(live_run(cpu_id, region, ci, now)),
        begun.1 matches LiveAction::SaveRun(run) && {
            &&& run.is_live
            &&& run.cpu_id == cpu_id
            &&& run.region == region
            &&& run.carbon_intensity == ci
            &&& run.start_time == now
            &&& run.stop_time is None
        },
{
    (LiveMonitor::SavingRun, LiveAction::SaveRun(create_new_run(cpu_id, region, ci, now)))
}

impl LiveMonitor {
    /// Takes note of how the last action went and says what to do next. Where that needs the time,
    /// it is the present one.
    pub fn step<F, E>(self, event: LiveEvent<E>) -> (next: (LiveMonitor, LiveAction<F, E>))
        ensures
            exists|now: i64| #[trigger]
                is_reading(now) && (next.0, next.1@) == live_step::<F, E>(self, event, now),
    {
        self.step_at(event, now_millis())
    }

    /// Takes note of how the last action went at the time `now` and says what to do next.
    pub fn step_at<F, E>(self, event: LiveEvent<E>, now: i64) -> (next: (
        LiveMonitor,
        LiveAction<F, E>,
    ))
        ensures
            (next.0, next.1@) == live_step::<F, E>(self, event, now),
    {
        match (self, event) {
            (LiveMonitor::SavingRun, LiveEvent::RunSaved(run_id)) => (
                LiveMonitor::SavingIteration { run_id },
                LiveAction::SaveIteration(create_new_iteration(run_id, "live".to_string(), now)),
            ),
            (LiveMonitor::SavingIteration { run_id }, LiveEvent::IterationSaved) => (
                LiveMonitor::StartingLogger { run_id },
                LiveAction::Monitor { run_id },
            ),
            (LiveMonitor::StartingLogger { run_id }, LiveEvent::LoggerStarted) => (
                LiveMonitor::Logging { run_id },
                LiveAction::Join,
            ),
            (LiveMonitor::Logging { run_id }, LiveEvent::TaskEnded) => (
                LiveMonitor::Logging { run_id },
                LiveAction::Join,
            ),
            (LiveMonitor::Logging { .. }, LiveEvent::NoTaskLeft) => (
                LiveMonitor::Finished,
                LiveAction::Finish,
            ),
            (LiveMonitor::SavingRun, LiveEvent::Failed(e)) => (
                LiveMonitor::Finished,
                LiveAction::Fail(e),
            ),
            (LiveMonitor::SavingIteration { .. }, LiveEvent::Failed(e)) => (
                LiveMonitor::Finished,
                LiveAction::Fail(e),
            ),
            (LiveMonitor::StartingLogger { .. }, LiveEvent::Failed(e)) => (
                LiveMonitor::Finished,
                LiveAction::Fail(e),
            ),
            (state, _) => (state, LiveAction::Ignore),
        }
    }
}

/// Live monitoring saves one iteration, called `live`, in the run that was saved, and monitors that
/// run.
pub proof fn law_live_monitors_saved_run<F, E>(run_id: i32, now: i64, later: i64)
    ensures
        ({
            let (s1, a1) = live_step::<F, E>(
                LiveMonitor::SavingRun,
                LiveEvent::RunSaved(run_id),
                now,
            );
            let (s2, a2) = live_step::<F, E>(s1, LiveEvent::IterationSaved, later);
            let (s3, a3) = live_step::<F, E>(s2, LiveEvent::LoggerStarted, later);
            &&& a1 == LiveActionView::<F, E>::SaveIteration(
                NewIterationView {
                    run_id,
                    scenario_name: "live"@,
                    count: 1,
                    start_time: now,
                    stop_time: None,
                },
            )
            &&& a2 == LiveActionView::<F, E>::Monitor { run_id }
            &&& a3 == LiveActionView::<F, E>::Join
            &&& s3 == LiveMonitor::Logging { run_id }
        }),
{
}

/// Live monitoring ends in success only when no task of the logger is left, and otherwise only when
/// a step before that failed.
pub proof fn law_live_ends<F, E>(state: LiveMonitor, event: LiveEvent<E>, now: i64)
    ensures
        ({
            let (next, action) = live_step::<F, E>(state, event, now);
            &&& action is Finish <==> state is Logging && event is NoTaskLeft
            &&& next == LiveMonitor::Finished && state != LiveMonitor::Finished <==> action is Finish
                || action is Fail
            &&& action is Fail ==> event is Failed && !(state is Logging)
        }),
{
}

/// A failure before metrics are collected ends live monitoring with its error, and what has ended
/// does nothing more. While metrics are collected, the end of a task changes nothing but that the
/// next one is waited for. An event that does not belong to the state changes nothing.
pub proof fn law_live_failures_and_waits<F, E>(
    state: LiveMonitor,
    event: LiveEvent<E>,
    run_id: i32,
    error: E,
    now: i64,
)
    ensures
        live_step::<F, E>(LiveMonitor::SavingRun, LiveEvent::Failed(error), now) == (
            LiveMonitor::Finished,
            LiveActionView::<F, E>::Fail(error),
        ),
        live_step::<F, E>(LiveMonitor::SavingIteration { run_id }, LiveEvent::Failed(error), now)
            == (LiveMonitor::Finished, LiveActionView::<F, E>::Fail(error)),
        live_step::<F, E>(LiveMonitor::StartingLogger { run_id }, LiveEvent::Failed(error), now)
            == (LiveMonitor::Finished, LiveActionView::<F, E>::Fail(error)),
        live_step::<F, E>(LiveMonitor::Logging { run_id }, LiveEvent::TaskEnded, now) == (
            LiveMonitor::Logging { run_id },
            LiveActionView::<F, E>::Join,
        ),
        live_step::<F, E>(LiveMonitor::Logging { run_id }, LiveEvent::NoTaskLeft, now) == (
            LiveMonitor::Finished,
            LiveActionView::<F, E>::Finish,
        ),
        live_step::<F, E>(LiveMonitor::Finished, event, now) == (
            LiveMonitor::Finished,
            LiveActionView::<F, E>::Ignore,
        ),
        live_step::<F, E>(state, event, now).1 is Ignore ==> live_step::<F, E>(state, event, now).0
            == state,
        live_step::<F, E>(state, event, now).1 is Ignore <==> match state {
            LiveMonitor::SavingRun => !(event is RunSaved || event is Failed),
            LiveMonitor::SavingIteration { .. } => !(event is IterationSaved || event is Failed),
            LiveMonitor::StartingLogger { .. } => !(event is LoggerStarted || event is Failed),
            LiveMonitor::Logging { .. } => !(event is TaskEnded || event is NoTaskLeft),
            LiveMonitor::Finished => true,
        },
{
}

/// The run that live monitoring collects for stays the one that was saved, from the iteration on to
/// the last task of the logger.
pub proof fn law_live_keeps_its_run<F, E>(state: LiveMonitor, event: LiveEvent<E>, now: i64)
    ensures
        ({
            let (next, action) = live_step::<F, E>(state, event, now);
            let kept = match state {
                LiveMonitor::SavingIteration { run_id } => Some(run_id),
                LiveMonitor::StartingLogger { run_id } => Some(run_id),
                LiveMonitor::Logging { run_id } => Some(run_id),
                _ => None,
            };
            &&& next matches LiveMonitor::SavingIteration { run_id } ==> kept == Some(run_id)
                || event == LiveEvent::<E>::RunSaved(run_id)
            &&& next matches LiveMonitor::StartingLogger { run_id } ==> kept == Some(run_id)
            &&& next matches LiveMonitor::Logging { run_id } ==> kept == Some(run_id)
            &&& action matches LiveActionView::Monitor { run_id } ==> kept == Some(run_id)
        }),
{
}

/// The view of an action of live monitoring shows every field.
pub proof fn law_live_action_view_shows_every_field<F, E>(
    run: NewRun<F>,
    iteration: NewIteration,
    run_id: i32,
    error: E,
)
    ensures
        LiveAction::<F, E>::SaveRun(run)@ == LiveActionView::<F, E>::SaveRun(run),
        LiveAction::<F, E>::SaveIteration(iteration)@ == LiveActionView::<F, E>::SaveIteration(
            NewIterationView {
                run_id: iteration.run_id,
                scenario_name: iteration.scenario_name@,
                count: iteration.count,
                start_time: iteration.start_time,
                stop_time: iteration.stop_time,
            },
        ),
        (LiveAction::<F, E>::Monitor { run_id })@ == (LiveActionView::<F, E>::Monitor { run_id }),
        LiveAction::<F, E>::Join@ == LiveActionView::<F, E>::Join,
        LiveAction::<F, E>::Finish@ == LiveActionView::<F, E>::Finish,
        LiveAction::<F, E>::Fail(error)@ == LiveActionView::<F, E>::Fail(error),
        LiveAction::<F, E>::Ignore@ == LiveActionView::<F, E>::Ignore,
{
}

} // verus!
