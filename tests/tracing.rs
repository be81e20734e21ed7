use tarpaulin_core::branching::{Branches, LineRange};
use tarpaulin_core::breakpoints::{trap_word, Breakpoints};
use tarpaulin_core::driver::{
    is_traced_config, report_targets, test_arguments, test_environment, CoverageRun, RunError,
    TraceRun,
};
use tarpaulin_core::statemachine::{signal_exit_code, TestState, TraceAction, TracerData, WaitEvent};
use tarpaulin_core::traces::{Trace, TraceMap};

const BASE: u64 = 0x1000;

fn target_map(file: &str, lines: std::ops::Range<usize>) -> TraceMap {
    let mut m = TraceMap::new();
    for l in lines {
        m.add_trace(Trace { file: file.to_string(), line: l, address: Some(BASE + 8 * l as u64), hits: 0 });
    }
    m
}

/// Drives the tracer over `events`, planting with the given original words;
/// the words written are checked against the trap word of each original.
fn drive(data: &mut TracerData, events: &[WaitEvent]) -> TestState {
    let mut state = TestState::Init;
    for e in events {
        let (next, action) = data.step(state, *e);
        if let TraceAction::PlantAll = action {
            let originals: Vec<Option<u64>> = data.addresses.iter().map(|a| Some(a * 3)).collect();
            let writes = data.plant_all(&originals);
            for (a, w) in writes {
                assert_eq!(w, trap_word(a * 3));
            }
        }
        if let TraceAction::Rewind { address, original } = action {
            assert_eq!(original, address * 3);
        }
        state = next;
    }
    state
}

#[test]
fn trap_word_replaces_lowest_byte() {
    assert_eq!(trap_word(0x1122334455667788), 0x11223344556677CC);
    assert_eq!(trap_word(0), 0xCC);
}

#[test]
fn breakpoints_plant_and_restore() {
    let mut b = Breakpoints::new();
    assert_eq!(b.plant(16, 0xAB00), 0xABCC);
    // planting again keeps the first original even if a trap word is read
    assert_eq!(b.plant(16, 0xABCC), 0xABCC);
    assert!(b.is_planted(16));
    assert_eq!(b.original(16), Some(0xAB00));
    assert_eq!(b.restore(16), Some(0xAB00));
    assert_eq!(b.restore(16), None);
    assert!(!b.is_planted(16));
    b.plant(8, 1);
    b.clear();
    assert!(!b.is_planted(8));
}

#[test]
fn plant_all_records_unreadable_addresses() {
    let mut d = TracerData::new(TraceMap::new(), vec![8, 16, 24]);
    let writes = d.plant_all(&vec![Some(0x100), None, Some(0x2FF)]);
    assert_eq!(writes, vec![(8, 0x1CC), (24, 0x2CC)]);
    assert_eq!(d.failed, vec![16]);
    assert!(d.breakpoints.is_planted(8));
    assert!(!d.breakpoints.is_planted(16));
}

#[test]
fn signal_exit_code_follows_shell_convention() {
    assert_eq!(signal_exit_code(11), 139);
    assert_eq!(signal_exit_code(9), 137);
    assert_eq!(signal_exit_code(0), 128);
    assert_eq!(signal_exit_code(-3), 128);
}

#[test]
fn step_transitions() {
    let mut d = TracerData::new(target_map("f", 1..3), vec![BASE + 8, BASE + 16]);
    assert_eq!(d.step(TestState::Init, WaitEvent::Stopped(10)), (TestState::Init, TraceAction::Resume(Some(10))));
    assert_eq!(d.step(TestState::Init, WaitEvent::Trapped(0)), (TestState::Running, TraceAction::PlantAll));
    d.plant_all(&vec![Some(7), Some(9)]);
    assert_eq!(d.step(TestState::Running, WaitEvent::Trapped(5)), (TestState::Running, TraceAction::Resume(None)));
    assert_eq!(
        d.step(TestState::Running, WaitEvent::Trapped(BASE + 9)),
        (TestState::Running, TraceAction::Rewind { address: BASE + 8, original: 7 })
    );
    // the trap is gone: a second trap there is not counted again
    assert_eq!(d.step(TestState::Running, WaitEvent::Trapped(BASE + 9)), (TestState::Running, TraceAction::Resume(None)));
    assert_eq!(d.step(TestState::Running, WaitEvent::Other), (TestState::Running, TraceAction::Resume(None)));
    assert_eq!(d.step(TestState::Running, WaitEvent::Exited(3)), (TestState::End(3), TraceAction::Finish));
    assert!(!d.breakpoints.is_planted(BASE + 16));
    assert_eq!(d.step(TestState::End(3), WaitEvent::Exited(0)), (TestState::End(3), TraceAction::Finish));
    assert!(TestState::End(0).is_finished());
    assert!(!TestState::Running.is_finished());
    assert_eq!(d.traces.get(&"f".to_string(), 1, Some(BASE + 8)), Some(1));
    assert_eq!(d.traces.get(&"f".to_string(), 2, Some(BASE + 16)), Some(0));
}

#[test]
fn if_else_run_taking_only_the_if_branch() {
    let file = "src/lib.rs".to_string();
    let map = target_map(&file, 10..15);
    let addresses = map.instrumentation_addresses();
    let mut d = TracerData::new(map, addresses);
    let events = [
        WaitEvent::Trapped(0),
        WaitEvent::Trapped(BASE + 8 * 10 + 1),
        WaitEvent::Trapped(BASE + 8 * 11 + 1),
        WaitEvent::Trapped(BASE + 8 * 12 + 1),
        WaitEvent::Exited(0),
    ];
    let end = drive(&mut d, &events);
    assert_eq!(end, TestState::End(0));
    for l in 10..13 {
        assert!(d.traces.get(&file, l, Some(BASE + 8 * l as u64)).unwrap() >= 1);
    }
    for l in 13..15 {
        assert_eq!(d.traces.get(&file, l, Some(BASE + 8 * l as u64)), Some(0));
    }
    let branches = Branches::new(vec![LineRange::new(10, 13), LineRange::new(13, 15)], false);
    assert_eq!(branches.taken_count(&d.traces, &file), 1);
    assert_eq!(branches.arm_count(), 2);
}

#[test]
fn crashing_executable_keeps_partial_hits_and_fails_the_run() {
    let file = "src/lib.rs".to_string();
    let map = target_map(&file, 1..5);
    let addresses = map.instrumentation_addresses();
    let mut d = TracerData::new(map, addresses);
    let events = [
        WaitEvent::Trapped(0),
        WaitEvent::Trapped(BASE + 8 + 1),
        WaitEvent::Stopped(11),
        WaitEvent::Signaled(11),
    ];
    let end = drive(&mut d, &events);
    assert_eq!(end, TestState::End(139));
    assert!(d.traces.is_line_hit(&file, 1));
    assert!(!d.traces.is_line_hit(&file, 2));
    let code = match end {
        TestState::End(c) => c,
        _ => unreachable!(),
    };
    let mut run = TraceRun::new();
    run.record(Ok((d.traces, code)));
    assert_eq!(run.finish().err(), Some(RunError::TestFailed));
}

#[test]
fn coverage_run_merges_and_ors_codes() {
    let mut c = CoverageRun::new();
    c.absorb(&target_map("f", 1..3), 0);
    c.absorb(&target_map("f", 2..4), 2);
    c.absorb(&TraceMap::new(), 4);
    let (m, code) = c.finish();
    assert_eq!(code, 6);
    let f = "f".to_string();
    for l in 1..4 {
        assert_eq!(m.get(&f, l, None), Some(0));
    }
}

#[test]
fn trace_run_keeps_first_failure() {
    let mut r = TraceRun::new();
    r.record(Ok((target_map("f", 1..2), 0)));
    r.record(Err(RunError::TestCoverage("fork failed".to_string())));
    r.record(Err(RunError::BuildFailure("no compiler".to_string())));
    assert_eq!(r.finish().err(), Some(RunError::TestCoverage("fork failed".to_string())));
}

#[test]
fn trace_run_succeeds_with_zero_codes() {
    let mut r = TraceRun::new();
    let mut m = target_map("f", 1..2);
    m.record_hit(BASE + 8);
    r.record(Ok((m, 0)));
    r.record(Ok((target_map("f", 1..2), 0)));
    let out = r.finish().unwrap();
    assert_eq!(out.get(&"f".to_string(), 1, None), Some(1));
}

#[test]
fn trace_run_reports_build_failure() {
    let mut r = TraceRun::new();
    r.record(Err(RunError::BuildFailure("bad manifest".to_string())));
    assert_eq!(r.finish().err(), Some(RunError::BuildFailure("bad manifest".to_string())));
}

#[test]
fn report_configs_are_not_traced() {
    assert!(!is_traced_config(&"report".to_string()));
    assert!(is_traced_config(&"default".to_string()));
    assert!(is_traced_config(&"".to_string()));
}

#[test]
fn report_targets_choice() {
    let names = |v: &[&str]| v.iter().map(|s| s.to_string()).collect::<Vec<_>>();
    assert_eq!(report_targets(&names(&[])), Vec::<usize>::new());
    assert_eq!(report_targets(&names(&["report"])), vec![0]);
    assert_eq!(report_targets(&names(&["a", "b"])), vec![0]);
    assert_eq!(report_targets(&names(&["a", "report", "b", "report"])), vec![1, 3]);
}

#[test]
fn child_arguments_and_environment() {
    let path = "/t/bin".to_string();
    let extra = vec!["--nocapture".to_string()];
    assert_eq!(test_arguments(&path, false, &extra), vec!["/t/bin".to_string(), "--nocapture".to_string()]);
    assert_eq!(
        test_arguments(&path, true, &vec![]),
        vec!["/t/bin".to_string(), "--ignored".to_string()]
    );
    let vars = vec![("HOME".to_string(), "/root".to_string()), ("A".to_string(), "".to_string())];
    assert_eq!(test_environment(&vars, false), vec!["HOME=/root".to_string(), "A=".to_string()]);
    assert_eq!(
        test_environment(&vars, true),
        vec!["HOME=/root".to_string(), "A=".to_string(), "RUST_BACKTRACE=1".to_string()]
    );
}
