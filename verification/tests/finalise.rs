use cardamon::execution_modes::{
    finalise_run, finalise_run_now, FinaliseAction, FinaliseError, FinaliseEvent, Finaliser,
};
use cardamon::records::{create_new_iteration, create_new_run, Iteration, Run};

fn run_row(id: i32) -> Run<f64> {
    Run {
        id,
        is_live: true,
        cpu_id: 4,
        region: Some("GB".to_string()),
        carbon_intensity: 0.25,
        start_time: 100,
        stop_time: None,
    }
}

fn iteration_row(id: i32, run_id: i32) -> Iteration {
    Iteration {
        id,
        run_id,
        scenario_name: "basket".to_string(),
        count: 1,
        start_time: 100,
        stop_time: None,
    }
}

#[test]
fn run_and_all_its_iterations_are_stopped() {
    let mut runs = vec![run_row(1), run_row(2)];
    let mut iterations = vec![iteration_row(10, 2), iteration_row(11, 1), iteration_row(12, 2)];
    let (mut state, mut action): (Finaliser, FinaliseAction<f64, ()>) = finalise_run(2, 900);
    let mut saves: Vec<i32> = vec![];
    loop {
        let event = match action {
            FinaliseAction::FindRun(id) => {
                let at = runs.iter().position(|r| r.id == id);
                FinaliseEvent::RunFound(at.map(|i| runs.remove(i)))
            }
            FinaliseAction::SaveRun(run) => {
                saves.push(run.id);
                runs.push(run);
                FinaliseEvent::RunSaved
            }
            FinaliseAction::FindIterations(run_id) => {
                let (found, other) = iterations.into_iter().partition(|i| i.run_id == run_id);
                iterations = other;
                FinaliseEvent::IterationsFound(found)
            }
            FinaliseAction::SaveIteration(iteration) => {
                saves.push(iteration.id);
                iterations.push(iteration);
                FinaliseEvent::IterationSaved
            }
            FinaliseAction::Finish => break,
            other => panic!("{:?}", other),
        };
        let next = state.step(event);
        state = next.0;
        action = next.1;
    }
    assert_eq!(saves, vec![2, 10, 12]);
    for run in runs.iter() {
        assert_eq!(run.stop_time, if run.id == 2 { Some(900) } else { None });
        assert_eq!(run.start_time, 100);
        assert_eq!(run.carbon_intensity, 0.25);
    }
    assert_eq!(iterations.len(), 3);
    for iteration in iterations.iter() {
        let expected = if iteration.run_id == 2 { Some(900) } else { None };
        assert_eq!(iteration.stop_time, expected);
        assert_eq!(iteration.scenario_name, "basket");
    }
}

#[test]
fn missing_run_is_named() {
    let (state, _) = finalise_run::<f64, ()>(-3, 900);
    let (state, action) = state.step::<f64, ()>(FinaliseEvent::RunFound(None));
    match action {
        FinaliseAction::Fail(error) => {
            assert!(matches!(error, FinaliseError::RunNotFound(-3)));
            assert_eq!(
                error.message(),
                Some("Expected to find a run with id -3".to_string())
            );
        }
        other => panic!("{:?}", other),
    }
    assert!(matches!(state, Finaliser::Finished));
}

#[test]
fn failed_save_leaves_iterations_alone() {
    let (state, _) = finalise_run::<f64, &str>(1, 900);
    let (state, _) = state.step::<f64, &str>(FinaliseEvent::RunFound(Some(run_row(1))));
    let (state, action) = state.step::<f64, &str>(FinaliseEvent::Failed("locked"));
    match action {
        FinaliseAction::Fail(error) => {
            assert!(matches!(error, FinaliseError::Database("locked")));
            assert_eq!(error.message(), None);
        }
        other => panic!("{:?}", other),
    }
    let (_, action) = state.step::<f64, &str>(FinaliseEvent::RunSaved);
    assert!(matches!(action, FinaliseAction::Ignore));
}

#[test]
fn run_without_iterations_is_stopped() {
    let (state, action) = finalise_run::<f64, ()>(1, 900);
    assert!(matches!(action, FinaliseAction::FindRun(1)));
    let (state, _) = state.step::<f64, ()>(FinaliseEvent::RunFound(Some(run_row(1))));
    let (state, action) = state.step::<f64, ()>(FinaliseEvent::RunSaved);
    assert!(matches!(action, FinaliseAction::FindIterations(1)));
    let (_, action) = state.step::<f64, ()>(FinaliseEvent::IterationsFound(vec![]));
    assert!(matches!(action, FinaliseAction::Finish));
}

#[test]
fn finalise_now_takes_the_present_time() {
    let before = chrono::Utc::now().timestamp_millis();
    let (state, _) = finalise_run_now::<f64, ()>(1);
    let after = chrono::Utc::now().timestamp_millis();
    match state {
        Finaliser::FindingRun { run_id, stop_time } => {
            assert_eq!(run_id, 1);
            assert!(before <= stop_time && stop_time <= after);
        }
        other => panic!("{:?}", other),
    }
}

#[test]
fn new_rows_are_not_stopped() {
    let run = create_new_run(4, Some("GB".to_string()), 0.25, 100);
    assert!(run.is_live);
    assert_eq!(run.cpu_id, 4);
    assert_eq!(run.region, Some("GB".to_string()));
    assert_eq!(run.carbon_intensity, 0.25);
    assert_eq!(run.start_time, 100);
    assert_eq!(run.stop_time, None);

    let iteration = create_new_iteration(9, "basket".to_string(), 100);
    assert_eq!(iteration.run_id, 9);
    assert_eq!(iteration.scenario_name, "basket");
    assert_eq!(iteration.count, 1);
    assert_eq!(iteration.start_time, 100);
    assert_eq!(iteration.stop_time, None);
}
