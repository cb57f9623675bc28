use cardamon::execution_modes::daemon::{
    run_daemon, run_response, DaemonAction, DaemonError, DaemonEvent, DaemonState, ModelData,
    Phase, ProcessData, RunState, StartParams,
};

type Event = DaemonEvent<f64, Vec<u32>, &'static str>;
type Action = DaemonAction<f64, Vec<u32>, &'static str>;
type State = DaemonState<f64, &'static str>;

fn composer() -> State {
    run_daemon(4, Some("GB".to_string()), 0.25, vec!["api", "db"])
}

fn worker() -> State {
    let mut state = composer();
    state.is_composer = false;
    state
}

fn start(run_id: Option<i32>) -> Event {
    DaemonEvent::Start(StartParams { scenario_name: "basket".to_string(), run_id })
}

fn model_data() -> ModelData<f64, Vec<u32>> {
    ModelData {
        region: Some("GB".to_string()),
        start_time: 100,
        duration: 0.5,
        pow: 12.5,
        co2: 3.0,
        ci: 0.25,
        process_data: vec![
            ProcessData {
                process_id: "api".to_string(),
                pow_perc: 0.75,
                iteration_metrics: vec![1, 2],
            },
            ProcessData { process_id: "db".to_string(), pow_perc: 0.25, iteration_metrics: vec![3] },
        ],
    }
}

fn running(mut state: State) -> State {
    if state.is_composer {
        state.step_at(start(None), 100);
        state.step_at::<Vec<u32>, &str>(DaemonEvent::RunSaved(Some(7)), 101);
        state.step_at::<Vec<u32>, &str>(DaemonEvent::IterationSaved, 102);
    } else {
        state.step_at(start(Some(7)), 100);
    }
    state.step_at::<Vec<u32>, &str>(DaemonEvent::LoggerStarted, 103);
    assert_eq!(state.run_state, RunState::Running);
    state
}

fn failure(action: Action) -> DaemonError<&'static str> {
    match action {
        DaemonAction::Fail(error) => error,
        other => panic!("{:?}", other),
    }
}

#[test]
fn daemon_begins_as_waiting_composer() {
    let state = composer();
    assert!(state.is_composer);
    assert_eq!(state.cpu_id, 4);
    assert_eq!(state.region, Some("GB".to_string()));
    assert_eq!(state.ci, 0.25);
    assert_eq!(state.processes_to_observe, vec!["api", "db"]);
    assert_eq!(state.scenario_name, "");
    assert_eq!(state.run_id, 0);
    assert_eq!(state.run_state, RunState::Waiting);
    assert_eq!(state.phase, Phase::Idle);
}

#[test]
fn composer_start_saves_run_and_iteration() {
    let mut state = composer();
    match state.step_at(start(None), 100) {
        DaemonAction::SaveRun(run) => {
            assert!(run.is_live);
            assert_eq!(run.cpu_id, 4);
            assert_eq!(run.region, Some("GB".to_string()));
            assert_eq!(run.carbon_intensity, 0.25);
            assert_eq!(run.start_time, 100);
            assert_eq!(run.stop_time, None);
        }
        other => panic!("{:?}", other),
    }
    let action: Action = state.step_at(DaemonEvent::RunSaved(Some(7)), 200);
    match action {
        DaemonAction::SaveIteration(iteration) => {
            assert_eq!(iteration.run_id, 7);
            assert_eq!(iteration.scenario_name, "basket");
            assert_eq!(iteration.count, 1);
            assert_eq!(iteration.start_time, 100);
            assert_eq!(iteration.stop_time, None);
        }
        other => panic!("{:?}", other),
    }
    let action: Action = state.step_at(DaemonEvent::IterationSaved, 300);
    assert!(matches!(action, DaemonAction::StartLogger { run_id: 7 }));
    assert_eq!(state.run_state, RunState::Waiting);
    let action: Action = state.step_at(DaemonEvent::LoggerStarted, 400);
    assert!(matches!(action, DaemonAction::Started { run_id: 7 }));
    assert_eq!(state.run_state, RunState::Running);
    assert_eq!(state.run_id, 7);
    assert_eq!(state.scenario_name, "basket");
}

#[test]
fn composer_stop_reports_on_the_run() {
    let mut state = running(composer());
    let action: Action = state.step_at(DaemonEvent::Stop, 500);
    assert!(matches!(action, DaemonAction::StopLogger));
    let action: Action = state.step_at(DaemonEvent::LoggerStopped, 600);
    assert!(matches!(action, DaemonAction::Finalise { run_id: 7, stop_time: 600 }));
    assert_eq!(state.run_state, RunState::Waiting);
    let action: Action = state.step_at(DaemonEvent::Finalised, 700);
    assert!(matches!(
        action,
        DaemonAction::BuildDataset { scenario_name, run_id: 7, include_live: true }
            if scenario_name == "basket"
    ));
    let action: Action = state.step_at(DaemonEvent::DatasetBuilt { scenarios: 1 }, 800);
    assert!(matches!(action, DaemonAction::SplitByRun));
    let action: Action = state.step_at(DaemonEvent::RunsSplit { runs: 2 }, 800);
    assert!(matches!(action, DaemonAction::ApplyModel));
    let action: Action = state.step_at(DaemonEvent::Modelled(model_data()), 900);
    match action {
        DaemonAction::Stopped(Some(data)) => {
            let response = run_response(data);
            assert_eq!(response.region, Some("GB".to_string()));
            assert_eq!(response.start_time, 100);
            assert_eq!(response.duration, 0.5);
            assert_eq!(response.pow, 12.5);
            assert_eq!(response.co2, 3.0);
            assert_eq!(response.ci, 0.25);
            assert_eq!(response.processes.len(), 2);
            assert_eq!(response.processes[0].process_name, "api");
            assert_eq!(response.processes[0].pow_contrib_perc, 0.75);
            assert_eq!(response.processes[0].iteration_metrics, vec![1, 2]);
            assert_eq!(response.processes[1].process_name, "db");
            assert_eq!(response.processes[1].pow_contrib_perc, 0.25);
            assert_eq!(response.processes[1].iteration_metrics, vec![3]);
        }
        other => panic!("{:?}", other),
    }
    assert_eq!(state.phase, Phase::Idle);
}

#[test]
fn start_is_refused_while_running() {
    for mut state in [running(composer()), running(worker())] {
        let error = failure(state.step_at(
            DaemonEvent::Start(StartParams { scenario_name: "other".to_string(), run_id: Some(8) }),
            500,
        ));
        assert_eq!(error.message(), Some("Daemon is already running!".to_string()));
        assert_eq!(state.scenario_name, "basket");
        assert_eq!(state.run_id, 7);
        assert_eq!(state.run_state, RunState::Running);
    }
}

#[test]
fn stop_is_refused_while_waiting() {
    for mut state in [composer(), worker()] {
        let error = failure(state.step_at(DaemonEvent::Stop, 500));
        assert_eq!(error.message(), Some("Daemon is not running".to_string()));
        assert_eq!(state.run_state, RunState::Waiting);
    }
}

#[test]
fn worker_needs_a_run_id() {
    let mut state = worker();
    let error = failure(state.step_at(start(None), 100));
    assert_eq!(
        error.message(),
        Some("Daemon running as worker expects run_id to be provided by the composer".to_string())
    );
    assert_eq!(state.run_state, RunState::Waiting);
    assert_eq!(state.scenario_name, "basket");
    assert_eq!(state.run_id, 0);
}

#[test]
fn worker_collects_for_the_given_run_and_reports_nothing() {
    let mut state = worker();
    let action = state.step_at(start(Some(7)), 100);
    assert!(matches!(action, DaemonAction::StartLogger { run_id: 7 }));
    let action: Action = state.step_at(DaemonEvent::LoggerStarted, 200);
    assert!(matches!(action, DaemonAction::Started { run_id: 7 }));
    let action: Action = state.step_at(DaemonEvent::Stop, 300);
    assert!(matches!(action, DaemonAction::StopLogger));
    let action: Action = state.step_at(DaemonEvent::LoggerStopped, 400);
    assert!(matches!(action, DaemonAction::Stopped(None)));
    assert_eq!(state.run_state, RunState::Waiting);
}

#[test]
fn failed_start_can_be_repeated() {
    let mut state = composer();
    state.step_at(start(None), 100);
    let error = failure(state.step_at(DaemonEvent::Failed("locked"), 101));
    assert!(matches!(error, DaemonError::Step("locked")));
    assert_eq!(error.message(), None);
    assert_eq!(state.run_state, RunState::Waiting);

    state.step_at(start(None), 200);
    let error = failure(state.step_at(DaemonEvent::RunSaved(None), 201));
    assert!(matches!(error, DaemonError::NoRunId));
    assert_eq!(error.message(), Some("".to_string()));

    state.step_at(start(None), 300);
    let _: Action = state.step_at(DaemonEvent::RunSaved(Some(7)), 301);
    let _: Action = state.step_at(DaemonEvent::IterationSaved, 302);
    assert_eq!(state.run_id, 7);
    let error = failure(state.step_at(DaemonEvent::Failed("no such process"), 303));
    assert!(matches!(error, DaemonError::Step("no such process")));
    assert_eq!(state.run_state, RunState::Waiting);

    let action = state.step_at(start(None), 400);
    assert!(matches!(action, DaemonAction::SaveRun(_)));
}

#[test]
fn failed_iteration_keeps_the_old_run_id() {
    let mut state = composer();
    state.step_at(start(None), 100);
    let _: Action = state.step_at(DaemonEvent::RunSaved(Some(7)), 101);
    failure(state.step_at(DaemonEvent::Failed("locked"), 102));
    assert_eq!(state.run_id, 0);
}

#[test]
fn failed_report_leaves_the_daemon_waiting() {
    let mut state = running(composer());
    let _: Action = state.step_at(DaemonEvent::Stop, 500);
    let _: Action = state.step_at(DaemonEvent::LoggerStopped, 600);
    let error = failure(state.step_at(DaemonEvent::Failed("locked"), 700));
    assert!(matches!(error, DaemonError::Step("locked")));
    assert_eq!(state.run_state, RunState::Waiting);
    assert_eq!(state.phase, Phase::Idle);
}

#[test]
fn missing_data_is_an_error_without_words() {
    let mut state = running(composer());
    let _: Action = state.step_at(DaemonEvent::Stop, 500);
    let _: Action = state.step_at(DaemonEvent::LoggerStopped, 600);
    let _: Action = state.step_at(DaemonEvent::Finalised, 700);
    let error = failure(state.step_at(DaemonEvent::DatasetBuilt { scenarios: 0 }, 800));
    assert!(matches!(error, DaemonError::NoScenario));
    assert_eq!(error.message(), Some("".to_string()));

    let mut state = running(composer());
    let _: Action = state.step_at(DaemonEvent::Stop, 500);
    let _: Action = state.step_at(DaemonEvent::LoggerStopped, 600);
    let _: Action = state.step_at(DaemonEvent::Finalised, 700);
    let _: Action = state.step_at(DaemonEvent::DatasetBuilt { scenarios: 1 }, 800);
    let error = failure(state.step_at(DaemonEvent::RunsSplit { runs: 0 }, 900));
    assert!(matches!(error, DaemonError::NoRun));
    assert_eq!(error.message(), Some("".to_string()));
}

#[test]
fn only_one_of_several_starts_succeeds() {
    let mut state = running(composer());
    for run_id in [None, Some(8), None] {
        let error = failure(state.step_at(
            DaemonEvent::Start(StartParams { scenario_name: "other".to_string(), run_id }),
            500,
        ));
        assert!(matches!(error, DaemonError::AlreadyRunning));
        let action: Action = state.step_at(DaemonEvent::LoggerStarted, 501);
        assert!(matches!(action, DaemonAction::Ignore));
        assert_eq!(state.run_id, 7);
        assert_eq!(state.scenario_name, "basket");
        assert_eq!(state.run_state, RunState::Running);
    }
}

#[test]
fn abandoned_start_does_not_block_the_next_signal() {
    let mut state = composer();
    state.step_at(start(None), 100);
    let error = failure(state.step_at(DaemonEvent::Stop, 200));
    assert!(matches!(error, DaemonError::NotRunning));
    assert_eq!(state.phase, Phase::Idle);

    state.step_at(start(None), 300);
    let _: Action = state.step_at(DaemonEvent::RunSaved(Some(7)), 301);
    match state.step_at(start(None), 400) {
        DaemonAction::SaveRun(run) => assert_eq!(run.start_time, 400),
        other => panic!("{:?}", other),
    }
}

#[test]
fn abandoned_stop_does_not_block_the_next_signal() {
    let mut state = running(composer());
    let _: Action = state.step_at(DaemonEvent::Stop, 500);
    let error = failure(state.step_at(start(None), 600));
    assert!(matches!(error, DaemonError::AlreadyRunning));
    let action: Action = state.step_at(DaemonEvent::Stop, 700);
    assert!(matches!(action, DaemonAction::StopLogger));

    let _: Action = state.step_at(DaemonEvent::LoggerStopped, 800);
    assert_eq!(state.phase, Phase::Finalising);
    let action = state.step_at(start(None), 900);
    assert!(matches!(action, DaemonAction::SaveRun(_)));
}

#[test]
fn start_takes_the_present_time() {
    let mut state = composer();
    let before = chrono::Utc::now().timestamp_millis();
    let action = state.step(start(None));
    let after = chrono::Utc::now().timestamp_millis();
    match action {
        DaemonAction::SaveRun(run) => {
            assert!(before <= run.start_time && run.start_time <= after);
        }
        other => panic!("{:?}", other),
    }
}

#[test]
fn event_out_of_place_changes_nothing() {
    let mut state = composer();
    let action: Action = state.step_at(DaemonEvent::LoggerStarted, 100);
    assert!(matches!(action, DaemonAction::Ignore));
    let action: Action = state.step_at(DaemonEvent::Failed("locked"), 100);
    assert!(matches!(action, DaemonAction::Ignore));
    assert_eq!(state.run_state, RunState::Waiting);
    assert_eq!(state.phase, Phase::Idle);
}

#[test]
fn daemon_collects_from_a_start_that_succeeded_until_a_stop() {
    let mut state = worker();
    for run_id in [7, 8] {
        let action: Action = state.start(
            StartParams { scenario_name: "basket".to_string(), run_id: Some(run_id) },
            100,
        );
        assert!(matches!(action, DaemonAction::StartLogger { .. }));
        assert_eq!(state.run_state, RunState::Waiting);
        let action: Action = state.step_at(DaemonEvent::LoggerStarted, 101);
        assert!(matches!(action, DaemonAction::Started { run_id: id } if id == run_id));
        assert_eq!((state.run_state, state.phase), (RunState::Running, Phase::Idle));

        let action: Action = state.stop();
        assert!(matches!(action, DaemonAction::StopLogger));
        assert_eq!(state.phase, Phase::StoppingLogger);
        let action: Action = state.step_at(DaemonEvent::LoggerStopped, 102);
        assert!(matches!(action, DaemonAction::Stopped(None)));
        assert_eq!((state.run_state, state.phase), (RunState::Waiting, Phase::Idle));

        let error = failure(state.stop());
        assert!(matches!(error, DaemonError::NotRunning));
    }
}
