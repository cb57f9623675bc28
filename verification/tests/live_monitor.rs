use cardamon::execution_modes::live_monitor::{
    run_live, run_live_at, LiveAction, LiveEvent, LiveMonitor,
};

type Action = LiveAction<f64, &'static str>;
type Next = (LiveMonitor, Action);

#[test]
fn live_run_is_saved_and_monitored() {
    let (state, action): Next = run_live_at(4, None, 0.25, 100);
    match action {
        LiveAction::SaveRun(run) => {
            assert!(run.is_live);
            assert_eq!(run.cpu_id, 4);
            assert_eq!(run.region, None);
            assert_eq!(run.carbon_intensity, 0.25);
            assert_eq!(run.start_time, 100);
            assert_eq!(run.stop_time, None);
        }
        other => panic!("{:?}", other),
    }
    let (state, action): Next = state.step_at(LiveEvent::RunSaved(7), 150);
    match action {
        LiveAction::SaveIteration(iteration) => {
            assert_eq!(iteration.run_id, 7);
            assert_eq!(iteration.scenario_name, "live");
            assert_eq!(iteration.count, 1);
            assert_eq!(iteration.start_time, 150);
            assert_eq!(iteration.stop_time, None);
        }
        other => panic!("{:?}", other),
    }
    let (state, action): Next = state.step_at(LiveEvent::IterationSaved, 200);
    assert!(matches!(action, LiveAction::Monitor { run_id: 7 }));
    let (state, action): Next = state.step_at(LiveEvent::LoggerStarted, 200);
    assert!(matches!(action, LiveAction::Join));
    let (state, action): Next = state.step_at(LiveEvent::TaskEnded, 200);
    assert!(matches!(action, LiveAction::Join));
    assert_eq!(state, LiveMonitor::Logging { run_id: 7 });
    let (state, action): Next = state.step_at(LiveEvent::NoTaskLeft, 200);
    assert!(matches!(action, LiveAction::Finish));
    assert_eq!(state, LiveMonitor::Finished);
}

#[test]
fn failure_before_logging_ends_live_monitoring() {
    for state in [
        LiveMonitor::SavingRun,
        LiveMonitor::SavingIteration { run_id: 7 },
        LiveMonitor::StartingLogger { run_id: 7 },
    ] {
        let (state, action): Next = state.step_at(LiveEvent::Failed("locked"), 100);
        assert!(matches!(action, LiveAction::Fail("locked")));
        assert_eq!(state, LiveMonitor::Finished);
    }
}

#[test]
fn live_run_takes_the_present_time() {
    let before = chrono::Utc::now().timestamp_millis();
    let (state, action): Next = run_live(4, None, 0.25);
    let (_, iteration): Next = state.step(LiveEvent::RunSaved(7));
    let after = chrono::Utc::now().timestamp_millis();
    match (action, iteration) {
        (LiveAction::SaveRun(run), LiveAction::SaveIteration(iteration)) => {
            assert!(before <= run.start_time && run.start_time <= after);
            assert!(before <= iteration.start_time && iteration.start_time <= after);
        }
        other => panic!("{:?}", other),
    }
}
