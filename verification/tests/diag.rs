use bind::bind_core::command::Command;
use bind::bind_core::id::SessionId;
use bind::bind_core::model::{AttachSpec, TargetSpec};
use bind::debugger::mock::MockBackend;
use bind::debugger::worker::{WorkerCore, WorkerUpdate};
use bind::diag::run_diag;

#[test]
fn diag_runs_full_script_on_mock() {
    let mut backend = MockBackend::default();
    let report = run_diag(&mut backend, "mock", "helper");
    assert!(report.contains("backend: mock"));
    assert!(report.contains("process-launched"), "report:\n{report}");
    assert!(report.contains("breakpoint-hit"), "report:\n{report}");
    assert!(report.contains("helper"), "report:\n{report}");
    assert!(report.contains("diag complete"));
}

#[test]
fn diag_report_frames_each_step() {
    let mut backend = MockBackend::default();
    let report = run_diag(&mut backend, "mock", "helper");
    assert!(report.starts_with("bind diag \u{2014} backend: mock\n"));
    assert!(report.contains(
        "  (after Attach(Launch(TargetSpec { program: \"mock\", args: [], cwd: None, env: [], stop_at_entry: true })))\n"
    ));
    assert!(report.contains("  (after AddBreakpoint { location: Symbol(\"helper\"), condition: None })\n"));
    assert!(report.contains("  (after Continue)\n  ") || report.contains("  (after Continue)\n"));
    assert!(report.ends_with("  (after Step(Instruction))\ndiag complete\n"));
    assert!(report.contains("  snapshot: Stopped pc-frame="));
}

#[test]
fn worker_core_numbers_events_and_snapshots() {
    let mut backend = MockBackend::default();
    let mut core = WorkerCore::new(SessionId(1));
    let (updates, exit) = core.process(
        &mut backend,
        Command::Attach(AttachSpec::Launch(TargetSpec {
            program: "mock".into(),
            args: vec![],
            cwd: None,
            env: vec![],
            stop_at_entry: true,
        })),
        7,
    );
    assert!(!exit);
    assert_eq!(core.program_name(), Some("mock"));
    let mut n = 0u64;
    for u in &updates {
        if let WorkerUpdate::Event(se) = u {
            n += 1;
            assert_eq!(se.seq.0, n);
            assert_eq!(se.mono_nanos, 7);
        }
    }
    assert!(n > 0);
    assert!(matches!(updates.last(), Some(WorkerUpdate::Snapshot(_))));
    let (_, exit) = core.process(&mut backend, Command::Shutdown, 8);
    assert!(exit);
}
