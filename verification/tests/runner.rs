use cardamon::config::{Cpu, Power, Process};
use cardamon::execution_modes::ExecutionMode;
use cardamon::execution_plan::ExecutionPlan;
use cardamon::run;
use cardamon::runner::{RunAction, RunEvent, Runner};

type Next<'a> = (
    Runner<'a, f64, String, u32>,
    RunAction<'a, f64, String, u32, &'static str>,
);

fn process(name: &str) -> Process {
    Process { name: name.to_string(), up: format!("./{}", name), deps: vec![] }
}

fn plan<'a>(
    processes: Vec<&'a Process>,
    external: Option<Vec<u32>>,
    power: Power<f64>,
    mode: ExecutionMode<'a, String>,
) -> ExecutionPlan<'a, f64, String, u32> {
    ExecutionPlan {
        cpu: Cpu { name: "AMD 5700X".to_string(), power },
        processes_to_execute: processes,
        external_processes_to_observe: external,
        execution_mode: mode,
    }
}

fn begin<'a>(plan: ExecutionPlan<'a, f64, String, u32>) -> Next<'a> {
    run(plan, Some("GB".to_string()), 0.25)
}

#[test]
fn processes_start_in_order_and_are_observed_behind_external_ones() {
    let (db, api) = (process("db"), process("api"));
    let (state, action) = begin(plan(
        vec![&db, &api],
        Some(vec![1, 2]),
        Power::Tdp(65.0),
        ExecutionMode::Daemon,
    ));
    assert!(matches!(action, RunAction::StartProcess(p) if p.name == "db" && p.up == "./db"));
    let (state, action): Next = state.step(RunEvent::ProcessStarted(3));
    assert!(matches!(action, RunAction::StartProcess(p) if p.name == "api"));
    let (state, action): Next = state.step(RunEvent::ProcessStarted(4));
    assert!(matches!(action, RunAction::Settle { millis: 2000 }));
    let (state, action): Next = state.step(RunEvent::Settled);
    assert!(matches!(action, RunAction::FindCpu(name) if name == "AMD 5700X"));
    let (state, action): Next = state.step(RunEvent::CpuFound(Some(9)));
    match action {
        RunAction::RunDaemon { cpu_id, region, ci, processes } => {
            assert_eq!(cpu_id, 9);
            assert_eq!(region, Some("GB".to_string()));
            assert_eq!(ci, 0.25);
            assert_eq!(processes, vec![1, 2, 3, 4]);
        }
        other => panic!("{:?}", other),
    }
    let (_, action): Next = state.step(RunEvent::ModeEnded);
    assert!(matches!(action, RunAction::Finish));
}

#[test]
fn plan_without_processes_settles_at_once() {
    let (_, action) = begin(plan(vec![], None, Power::Tdp(65.0), ExecutionMode::Live));
    assert!(matches!(action, RunAction::Settle { millis: 2000 }));
}

#[test]
fn unknown_cpu_is_saved_with_its_tdp() {
    let (state, _) = begin(plan(vec![], None, Power::Tdp(65.0), ExecutionMode::Live));
    let (state, _): Next = state.step(RunEvent::Settled);
    let (state, action): Next = state.step(RunEvent::CpuFound(None));
    match action {
        RunAction::SaveCpu(cpu) => {
            assert_eq!(cpu.name, "AMD 5700X");
            assert_eq!(cpu.tdp, Some(65.0));
            assert_eq!(cpu.power_curve_id, None);
        }
        other => panic!("{:?}", other),
    }
    let (_, action): Next = state.step(RunEvent::CpuSaved(11));
    assert!(matches!(
        action,
        RunAction::RunLive { cpu_id: 11, processes, .. } if processes.is_empty()
    ));
}

#[test]
fn unknown_cpu_is_saved_with_its_power_curve() {
    let scenario = "basket".to_string();
    let (state, _) = begin(plan(
        vec![],
        None,
        Power::Curve(1.0, 2.0, 3.0, 4.0),
        ExecutionMode::Observation(vec![&scenario]),
    ));
    let (state, _): Next = state.step(RunEvent::Settled);
    let (state, action): Next = state.step(RunEvent::CpuFound(None));
    match action {
        RunAction::SaveCurve(curve) => {
            assert_eq!((curve.a, curve.b, curve.c, curve.d), (1.0, 2.0, 3.0, 4.0));
        }
        other => panic!("{:?}", other),
    }
    let (state, action): Next = state.step(RunEvent::CurveSaved(5));
    match action {
        RunAction::SaveCpu(cpu) => {
            assert_eq!(cpu.name, "AMD 5700X");
            assert_eq!(cpu.tdp, None);
            assert_eq!(cpu.power_curve_id, Some(5));
        }
        other => panic!("{:?}", other),
    }
    let (_, action): Next = state.step(RunEvent::CpuSaved(11));
    match action {
        RunAction::RunScenarios { cpu_id, scenarios, .. } => {
            assert_eq!(cpu_id, 11);
            assert_eq!(scenarios, vec![&scenario]);
        }
        other => panic!("{:?}", other),
    }
}

#[test]
fn failed_process_ends_the_run() {
    let (db, api) = (process("db"), process("api"));
    let (state, _) = begin(plan(
        vec![&db, &api],
        None,
        Power::Tdp(65.0),
        ExecutionMode::Live,
    ));
    let (state, action): Next = state.step(RunEvent::Failed("no such command"));
    assert!(matches!(action, RunAction::Fail("no such command")));
    let (_, action): Next = state.step(RunEvent::ProcessStarted(3));
    assert!(matches!(action, RunAction::Ignore));
}

#[test]
fn failed_mode_fails_the_run() {
    let (state, _) = begin(plan(vec![], None, Power::Tdp(65.0), ExecutionMode::Live));
    let (state, _): Next = state.step(RunEvent::Settled);
    let (state, _): Next = state.step(RunEvent::CpuFound(Some(9)));
    let (_, action): Next = state.step(RunEvent::Failed("interrupted"));
    assert!(matches!(action, RunAction::Fail("interrupted")));
}

#[test]
fn second_run_for_the_same_cpu_saves_nothing() {
    let mut table: Vec<(String, i32)> = vec![];
    let mut ids = vec![];
    let mut saved = vec![];
    for power in [Power::Curve(1.0, 2.0, 3.0, 4.0), Power::Tdp(65.0)] {
        let (state, _) = begin(plan(vec![], None, power, ExecutionMode::Live));
        let (mut state, mut action): Next = state.step(RunEvent::Settled);
        let mut saves = 0;
        loop {
            let event = match action {
                RunAction::FindCpu(name) => {
                    RunEvent::CpuFound(table.iter().find(|row| row.0 == name).map(|row| row.1))
                }
                RunAction::SaveCurve(_) => {
                    saves += 1;
                    RunEvent::CurveSaved(5)
                }
                RunAction::SaveCpu(cpu) => {
                    saves += 1;
                    table.push((cpu.name, 11));
                    RunEvent::CpuSaved(11)
                }
                RunAction::RunLive { cpu_id, .. } => {
                    ids.push(cpu_id);
                    break;
                }
                other => panic!("{:?}", other),
            };
            let next: Next = state.step(event);
            state = next.0;
            action = next.1;
        }
        saved.push(saves);
    }
    assert_eq!(ids, vec![11, 11]);
    assert_eq!(saved, vec![2, 0]);
    assert_eq!(table, vec![("AMD 5700X".to_string(), 11)]);
}
