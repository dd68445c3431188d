use bind::bind_core::address::Address;
use bind::bind_core::command::{Command, RunTarget, StepKind};
use bind::bind_core::error::BindError;
use bind::bind_core::event::DebugEvent;
use bind::bind_core::id::{BreakpointId, Pid, SessionId, ThreadId};
use bind::bind_core::model::{AttachSpec, BreakpointLocation, ProcessLifecycle, TargetSpec};
use bind::debugger::backend::DebugBackend;
use bind::debugger::mock::{addr_of, index_of, program, MockBackend};
use bind::debugger::worker::{attach_program, build_snapshot, changes_between, note_events, step_command};

fn launched() -> MockBackend {
    let mut b = MockBackend::default();
    b.attach(&AttachSpec::Launch(TargetSpec::program("mock"))).unwrap();
    let _ = b.poll_events();
    b
}

#[test]
fn launch_stops_at_entry() {
    let mut b = MockBackend::default();
    b.attach(&AttachSpec::Launch(TargetSpec::program("mock"))).unwrap();
    let evs = b.poll_events();
    assert!(evs.iter().any(|e| matches!(e, DebugEvent::ProcessLaunched { .. })));
    assert!(b.process_info().unwrap().lifecycle.is_stopped());
}

#[test]
fn stepping_changes_registers() {
    let mut b = launched();
    let before = b.registers(ThreadId::new(1)).unwrap();
    for _ in 0..4 {
        b.step(StepKind::Instruction).unwrap();
    }
    let after = b.registers(ThreadId::new(1)).unwrap();
    assert_ne!(before, after, "registers should change while stepping");
}

#[test]
fn breakpoint_by_symbol_is_hit_on_resume() {
    let mut b = launched();
    let bp = b.add_breakpoint(&BreakpointLocation::Symbol("helper".into()), None).unwrap();
    assert!(bp.is_resolved());
    let _ = b.poll_events();
    b.resume().unwrap();
    let evs = b.poll_events();
    assert!(evs.iter().any(|e| matches!(e, DebugEvent::BreakpointHit { .. })));
    let f = b.frames(ThreadId::new(1)).unwrap();
    assert_eq!(f[0].function.as_deref(), Some("helper"));
}

#[test]
fn stepping_out_returns_to_caller() {
    let mut b = launched();
    b.add_breakpoint(&BreakpointLocation::Symbol("helper".into()), None).unwrap();
    b.resume().unwrap();
    let _ = b.poll_events();
    b.step(StepKind::Out).unwrap();
    let f = b.frames(ThreadId::new(1)).unwrap();
    assert_eq!(f[0].function.as_deref(), Some("main"));
}

#[test]
fn queries_fail_when_not_stopped() {
    let mut b = MockBackend::default();
    assert!(b.registers(ThreadId::new(1)).is_err());
}

#[test]
fn not_stopped_error_names_the_state() {
    let mut b = MockBackend::default();
    match b.step(StepKind::Instruction) {
        Err(BindError::TargetState(m)) => {
            assert_eq!(m, "operation requires a stopped process, but process is Idle")
        }
        other => panic!("unexpected {other:?}"),
    }
    assert!(matches!(b.pause(), Err(BindError::CapabilityLimited(_))));
    assert!(matches!(b.attach(&AttachSpec::Pid(Pid::new(3))), Err(BindError::Unsupported(_))));
}

#[test]
fn program_table_and_addresses() {
    let p = program();
    assert_eq!(p.len(), 8);
    assert_eq!(p[4].mnemonic, "b.lt");
    assert_eq!(addr_of(6), Address::new(0x1018));
    assert_eq!(index_of(Address::new(0x101c)), Some(7));
    assert_eq!(index_of(Address::new(0x1002)), None);
    assert_eq!(index_of(Address::new(0x1020)), None);
    assert_eq!(index_of(Address::new(0x10)), None);
}

#[test]
fn resume_runs_the_loop_to_exit_without_breakpoints() {
    let mut b = launched();
    b.resume().unwrap();
    let evs = b.poll_events();
    assert!(matches!(evs.last(), Some(DebugEvent::ProcessExited { code: 0 })));
    assert_eq!(b.process_info().unwrap().lifecycle, ProcessLifecycle::Exited);
    assert_eq!(b.process_info().unwrap().exit_code, Some(0));
    assert!(b.registers(ThreadId::new(1)).is_err());
}

#[test]
fn breakpoint_hits_are_counted_and_can_be_disabled() {
    let mut b = launched();
    let bp = b.add_breakpoint(&BreakpointLocation::Address(Address::new(0x1008)), Some("x0 > 0")).unwrap();
    assert_eq!(bp.id, BreakpointId::new(1));
    assert_eq!(bp.condition.as_deref(), Some("x0 > 0"));
    b.resume().unwrap();
    b.resume().unwrap();
    let bps = b.breakpoints().unwrap();
    assert_eq!(bps[0].hit_count, 2);
    b.enable_breakpoint(bp.id, false).unwrap();
    assert!(!b.breakpoints().unwrap()[0].enabled);
    match b.enable_breakpoint(BreakpointId::new(9), true) {
        Err(BindError::UserInput(m)) => assert_eq!(m, "no breakpoint #9"),
        other => panic!("unexpected {other:?}"),
    }
    b.remove_breakpoint(bp.id).unwrap();
    assert!(b.breakpoints().unwrap().is_empty());
    let unresolved = b.add_breakpoint(&BreakpointLocation::Symbol("nowhere".into()), None).unwrap();
    assert!(!unresolved.is_resolved());
    assert_eq!(unresolved.id, BreakpointId::new(2));
}

#[test]
fn run_to_line_and_bad_target() {
    let mut b = launched();
    b.run_to(&RunTarget::Source { file: "mock.c".into(), line: 11 }).unwrap();
    let f = b.frames(ThreadId::new(1)).unwrap();
    assert_eq!(f[0].pc, Address::new(0x1018));
    assert_eq!(f.len(), 2);
    assert_eq!(f[1].pc, Address::new(0x1004));
    assert_eq!(f[1].function.as_deref(), Some("main"));
    assert!(matches!(b.run_to(&RunTarget::Address(Address::new(0x2000))), Err(BindError::UserInput(_))));
}

#[test]
fn memory_and_disassembly_views() {
    let mut b = launched();
    let m = b.read_memory(Address::new(0x1000), 6).unwrap();
    assert_eq!(m, vec![0x00, 0x00, 0x80, 0xd2, 0x05, 0x00]);
    let m = b.read_memory(Address::new(0x2001), 2).unwrap();
    assert_eq!(m, vec![0x01, 0x02]);
    let d = b.disassemble(Some(Address::new(0x1010)), 3).unwrap();
    assert_eq!(d.len(), 3);
    assert_eq!(d[0].address, Address::new(0x1008));
    assert_eq!(d[2].mnemonic, "b.lt");
    assert_eq!(d[2].symbol.as_ref().unwrap().offset, 0x10);
    let d = b.disassemble(None, 100).unwrap();
    assert_eq!(d.len(), 8);
    assert!(d[0].is_current);
    assert_eq!(b.modules().unwrap()[0].path, "mock");
    assert_eq!(b.memory_regions().unwrap()[0].end, Address::new(0x1020));
    assert_eq!(b.name(), "mock");
    assert!(b.capabilities().launch);
}

#[test]
fn worker_decisions() {
    assert_eq!(step_command(StepKind::Out), Command::Step(StepKind::Out));
    let mut sel = None;
    let evs = vec![
        DebugEvent::Continued,
        DebugEvent::Stopped { thread: ThreadId::new(7), reason: bind::bind_core::model::StopReason::Step, pc: None },
    ];
    assert!(note_events(&evs, &mut sel));
    assert_eq!(sel, Some(ThreadId::new(7)));
    let mut sel2 = Some(ThreadId::new(3));
    assert!(!note_events(&[DebugEvent::Continued], &mut sel2));
    assert_eq!(sel2, Some(ThreadId::new(3)));
    assert_eq!(attach_program(&AttachSpec::Pid(Pid::new(42))), "pid 42");
    assert_eq!(attach_program(&AttachSpec::Launch(TargetSpec::program("a.out"))), "a.out");
}

#[test]
fn snapshot_tracks_register_changes() {
    let mut b = launched();
    let mut prev = None;
    let snap = build_snapshot(&mut b, SessionId::new(1), &Some("mock".to_string()), None, &mut prev).unwrap();
    assert!(snap.process.lifecycle.is_stopped());
    assert!(!snap.disassembly.is_empty());
    assert!(snap.registers.is_some());
    assert!(snap.register_changes.is_empty());
    b.step(StepKind::Instruction).unwrap();
    b.step(StepKind::Instruction).unwrap();
    let snap = build_snapshot(&mut b, SessionId::new(1), &None, Some(ThreadId::new(1)), &mut prev).unwrap();
    let names: Vec<&str> = snap.register_changes.iter().map(|c| c.name.as_str()).collect();
    assert_eq!(names, vec!["x29", "sp", "pc"]);
    let before = snap.registers.clone().unwrap();
    b.step(StepKind::Instruction).unwrap();
    let now = b.registers(ThreadId::new(1)).unwrap();
    assert_eq!(changes_between(&now, &before).len(), 1);
    b.terminate().unwrap();
    let snap = build_snapshot(&mut b, SessionId::new(1), &None, None, &mut prev).unwrap();
    assert!(prev.is_none());
    assert!(snap.registers.is_none());
}
