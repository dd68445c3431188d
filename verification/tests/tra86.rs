use bind::tra86::analysis::{build_delta, classify_mnemonic, compute_register_delta};
use bind::tra86::model::{
    ControlFlowChange, ExecutionHint, RegisterBank, RegisterRole, RegisterValue, StopReason, TargetBinary,
};
use bind::tra86::runtime::{BackendCommand, MockFactory, WorkerRuntime};
use bind::tra86::ui::{BackendChoice, SessionPhase};

fn bank(values: &[(&str, &str)]) -> RegisterBank {
    RegisterBank {
        thread_id: 1,
        bank_name: "general".to_string(),
        registers: values
            .iter()
            .map(|(name, value)| RegisterValue {
                name: (*name).to_string(),
                value: (*value).to_string(),
                size_bits: 64,
                role: RegisterRole::General,
            })
            .collect(),
    }
}

fn mock_runtime() -> WorkerRuntime {
    WorkerRuntime::new(BackendChoice::Mock, Box::new(MockFactory))
}

#[test]
fn compute_register_delta_reports_changed_registers() {
    let previous = bank(&[("rax", "0x1"), ("rbx", "0x2")]);
    let current = bank(&[("rax", "0x3"), ("rbx", "0x2")]);

    let diff = compute_register_delta(&current, Some(&previous));
    assert_eq!(diff.len(), 1);
    assert_eq!(diff[0].name, "rax");
    assert_eq!(diff[0].old_value, "0x1");
    assert_eq!(diff[0].new_value, "0x3");
}

#[test]
fn classify_mnemonic_detects_control_flow() {
    assert_eq!(classify_mnemonic("call").0, ControlFlowChange::Call);
    assert_eq!(classify_mnemonic("ret").0, ControlFlowChange::Return);
    assert_eq!(classify_mnemonic("jne").0, ControlFlowChange::Jump);
    assert_eq!(classify_mnemonic("syscall").0, ControlFlowChange::Syscall);
    assert_eq!(classify_mnemonic("mov").0, ControlFlowChange::Linear);
}

#[test]
fn build_delta_carries_derived_hints() {
    let delta = build_delta("ret", Vec::new(), -8, Vec::new());
    assert_eq!(delta.control_flow, ControlFlowChange::Return);
    assert_eq!(delta.stack_pointer_delta, -8);
    assert!(delta.hints.contains(&ExecutionHint::Return));
    assert!(delta.hints.contains(&ExecutionHint::Epilogue));
}

#[test]
fn refresh_without_target_stays_idle_and_quiet() {
    let mut runtime = mock_runtime();
    let snapshot = runtime
        .handle_command(BackendCommand::Refresh)
        .expect("refresh should succeed");

    assert_eq!(snapshot.session.phase, SessionPhase::Idle);
    assert!(!snapshot.session.has_target);
    assert!(snapshot.output_lines.iter().all(|line| !line.contains("failed")));
    assert!(snapshot.disassembly.is_empty());
}

#[test]
fn open_target_creates_non_live_loaded_state() {
    let mut runtime = mock_runtime();
    let snapshot = runtime
        .handle_command(BackendCommand::OpenTarget("/tmp/mock-target".to_string()))
        .expect("open target should succeed");

    assert_eq!(snapshot.session.phase, SessionPhase::TargetLoaded);
    assert!(snapshot.session.has_target);
    assert!(!snapshot.session.has_live_process);
    assert!(!snapshot.disassembly.is_empty());
    assert!(snapshot.threads.is_empty());
}

#[test]
fn launch_and_stop_transition_through_stopped_and_exited() {
    let mut runtime = mock_runtime();
    let target = TargetBinary {
        program: "/tmp/mock-target".to_string(),
        args: Vec::new(),
        cwd: None,
        env: Vec::new(),
    };

    let launched = runtime
        .handle_command(BackendCommand::Launch(target.clone()))
        .expect("launch should succeed");
    assert_eq!(launched.session.phase, SessionPhase::Stopped);
    assert!(launched.session.has_live_process);
    assert!(!launched.threads.is_empty());

    let stopped = runtime
        .handle_command(BackendCommand::Stop)
        .expect("stop should succeed");
    assert_eq!(stopped.session.phase, SessionPhase::Exited);
    assert!(!stopped.session.has_live_process);
    assert!(stopped.threads.is_empty());
    assert!(matches!(stopped.stop_reason, StopReason::Exited(_)));
    assert!(!stopped.disassembly.is_empty());
}

#[test]
fn new_runtime_reports_backend_on_first_snapshot() {
    let mut runtime = mock_runtime();
    let snapshot = runtime.collect_snapshot().unwrap();
    assert_eq!(snapshot.output_lines, vec!["backend initialized: Mock".to_string()]);
    assert!(snapshot.status_line.starts_with("backend="));
    assert!(snapshot.status_line.ends_with(" idle"));
    let again = runtime.collect_snapshot().unwrap();
    assert!(again.output_lines.is_empty());
}

#[test]
fn toggling_a_breakpoint_twice_removes_it() {
    let mut runtime = mock_runtime();
    let target = TargetBinary { program: "/tmp/t".to_string(), args: Vec::new(), cwd: None, env: Vec::new() };
    runtime.handle_command(BackendCommand::Launch(target)).unwrap();
    let set = runtime.handle_command(BackendCommand::ToggleBreakpoint(0x401000)).unwrap();
    assert_eq!(set.breakpoints.len(), 1);
    let cleared = runtime.handle_command(BackendCommand::ToggleBreakpoint(0x401000)).unwrap();
    assert!(cleared.breakpoints.is_empty());
}

#[test]
fn failed_command_is_reported_and_kept_as_last_error() {
    let mut runtime = mock_runtime();
    let snapshot = runtime.handle_command(BackendCommand::Continue).unwrap();
    assert!(snapshot.output_lines.iter().any(|l| l.starts_with("command failed: ")));
    assert!(snapshot.session.last_error.is_some());
    assert_eq!(snapshot.session.phase, SessionPhase::Idle);
}

#[test]
fn switching_backend_resets_the_session() {
    let mut runtime = mock_runtime();
    runtime.handle_command(BackendCommand::OpenTarget("/tmp/x".to_string())).unwrap();
    let snapshot = runtime.handle_command(BackendCommand::SwitchBackend(BackendChoice::Mock)).unwrap();
    assert_eq!(snapshot.session.phase, SessionPhase::Idle);
    assert!(snapshot.output_lines.contains(&"switched backend to Mock".to_string()));
}

use bind::tra86::app::{AppAction, EventContext, RecentSession, RecentSessions, Tra86App};
use bind::tra86::model::DisassemblyLine;
use bind::tra86::runtime::{BackendSnapshot, WorkerMessage};
use bind::tra86::ui::{SessionStatus, UiEvent};

fn ctx(exists: bool) -> EventContext {
    EventContext { executable_exists: exists, picked_path: None }
}

fn empty_app() -> Tra86App {
    Tra86App::new(RecentSessions { items: Vec::new() })
}

fn line(address: u64, mnemonic: &str, current: bool) -> DisassemblyLine {
    DisassemblyLine {
        address,
        bytes: vec![0x90],
        mnemonic: mnemonic.to_string(),
        operands: String::new(),
        function: Some("main".to_string()),
        source: None,
        branch_target: None,
        is_current: current,
        has_breakpoint: false,
    }
}

fn snapshot(lines: Vec<DisassemblyLine>, live: bool, registers: Option<RegisterBank>) -> BackendSnapshot {
    let mut session = SessionStatus::default();
    session.phase = if live { SessionPhase::Stopped } else { SessionPhase::TargetLoaded };
    session.has_target = true;
    session.has_live_process = live;
    BackendSnapshot {
        status_line: "backend=mock thread_count=1".to_string(),
        session,
        stop_reason: StopReason::Step,
        threads: Vec::new(),
        frames: Vec::new(),
        disassembly: lines,
        function_rows: Vec::new(),
        registers,
        breakpoints: Vec::new(),
        memory_map_lines: Vec::new(),
        memory_bytes: Vec::new(),
        output_lines: vec!["worker line".to_string()],
    }
}

#[test]
fn new_window_fills_in_the_latest_program() {
    let recents = RecentSessions {
        items: vec![RecentSession {
            program: "/bin/demo".to_string(),
            args: vec!["-v".to_string(), "x".to_string()],
            timestamp_utc: "t".to_string(),
        }],
    };
    let app = Tra86App::new(recents);
    assert_eq!(app.ui.executable_path, "/bin/demo");
    assert_eq!(app.ui.launch_args, "-v x");
}

#[test]
fn launch_needs_a_path_and_an_existing_file() {
    let mut app = empty_app();
    let acts = app.handle_event(UiEvent::Launch, ctx(true));
    assert!(acts.is_empty());
    assert_eq!(app.ui.output_lines.last().unwrap(), "error: Set an executable path before launch");
    app.ui.executable_path = "  /bin/demo ".to_string();
    let acts = app.handle_event(UiEvent::Launch, ctx(false));
    assert!(acts.is_empty());
    assert_eq!(app.ui.session.last_error.as_deref(), Some("Executable path does not exist"));
}

#[test]
fn launch_remembers_the_run_and_sends_it() {
    let mut app = empty_app();
    app.ui.executable_path = "  /bin/demo ".to_string();
    app.ui.launch_args = "a  b".to_string();
    let acts = app.handle_event(UiEvent::Launch, ctx(true));
    assert_eq!(acts.len(), 2);
    assert!(matches!(acts[0], AppAction::SaveRecents));
    match &acts[1] {
        AppAction::Send(BackendCommand::Launch(t)) => {
            assert_eq!(t.program, "/bin/demo");
            assert_eq!(t.args, vec!["a", "b"]);
        }
        other => panic!("unexpected action {other:?}"),
    }
    assert!(app.ui.session.is_busy);
    assert_eq!(app.ui.status_line, "Launching target");
    assert_eq!(app.recents.items.len(), 1);
    assert_eq!(app.recents.items[0].program, "/bin/demo");
    let again = app.handle_event(UiEvent::Launch, ctx(true));
    assert!(again.is_empty());
    assert_eq!(
        app.ui.session.last_error.as_deref(),
        Some("Launch is not available while another backend operation is running")
    );
}

#[test]
fn remembered_runs_are_unique_and_at_most_twenty() {
    let mut app = empty_app();
    for i in 0..25 {
        let t = TargetBinary { program: format!("/p{i}"), args: Vec::new(), cwd: None, env: Vec::new() };
        assert!(app.remember_session_at(&t, format!("t{i}")));
    }
    assert_eq!(app.recents.items.len(), 20);
    assert_eq!(app.recents.items[0].program, "/p24");
    let t = TargetBinary { program: "/p10".to_string(), args: Vec::new(), cwd: None, env: Vec::new() };
    app.remember_session_at(&t, "again".to_string());
    assert_eq!(app.recents.items.len(), 20);
    assert_eq!(app.recents.items[0].program, "/p10");
    assert_eq!(app.recents.items.iter().filter(|r| r.program == "/p10").count(), 1);
    let nothing = TargetBinary { program: String::new(), args: Vec::new(), cwd: None, env: Vec::new() };
    assert!(!app.remember_session_at(&nothing, "x".to_string()));
}

#[test]
fn gated_actions_follow_the_session_state() {
    let mut app = empty_app();
    assert!(app.handle_event(UiEvent::Continue, ctx(true)).is_empty());
    assert_eq!(
        app.ui.output_lines.last().unwrap(),
        "error: Continue is not available in the current session state"
    );
    app.ui.session.phase = SessionPhase::Stopped;
    let acts = app.handle_event(UiEvent::StepOver, ctx(true));
    assert!(matches!(acts[..], [AppAction::Send(BackendCommand::StepOver)]));
    assert_eq!(app.ui.status_line, "Stepping over instruction");
    app.ui.session.is_busy = false;
    let acts = app.handle_event(UiEvent::JumpMemory(0x401000), ctx(true));
    assert!(matches!(acts[..], [AppAction::Send(BackendCommand::JumpMemory(0x401000))]));
    assert_eq!(app.ui.memory_base_input, "0x401000");
    assert_eq!(app.ui.status_line, "Loading memory around 0x401000");
    assert!(app.handle_event(UiEvent::Pause, ctx(true)).is_empty());
    assert!(matches!(app.handle_event(UiEvent::Quit, ctx(true))[..], [AppAction::Exit]));
}

#[test]
fn attach_reads_the_typed_pid() {
    let mut app = empty_app();
    app.ui.attach_pid = " 4242 ".to_string();
    let acts = app.handle_event(UiEvent::Attach, ctx(true));
    assert!(matches!(acts[..], [AppAction::Send(BackendCommand::Attach(4242))]));
    assert_eq!(app.ui.status_line, "Attaching to pid 4242");
    let mut app = empty_app();
    app.ui.attach_pid = "pid".to_string();
    assert!(app.handle_event(UiEvent::Attach, ctx(true)).is_empty());
    assert_eq!(app.ui.session.last_error.as_deref(), Some("Attach PID is invalid"));
}

#[test]
fn snapshots_add_each_new_stop_to_the_trace() {
    let mut app = empty_app();
    app.apply_worker_message(WorkerMessage::Snapshot(snapshot(vec![line(0x10, "push", true)], true, None)));
    assert_eq!(app.trace.len(), 1);
    assert_eq!(app.trace[0].instruction.address, 0x10);
    assert_eq!(app.trace[0].thread_id, 1);
    assert!(app.trace[0].delta.is_none());
    assert_eq!(app.ui.trace.len(), 1);
    assert!(!app.ui.session.is_busy);
    assert_eq!(app.ui.output_lines, vec!["worker line".to_string()]);
    app.apply_worker_message(WorkerMessage::Snapshot(snapshot(vec![line(0x10, "push", true)], true, None)));
    assert_eq!(app.trace.len(), 1);
    let regs = bank(&[("rsp", "0x100")]);
    app.apply_worker_message(WorkerMessage::Snapshot(snapshot(vec![line(0x11, "ret", true)], true, Some(regs))));
    assert_eq!(app.trace.len(), 2);
    let delta = app.trace[1].delta.as_ref().unwrap();
    assert_eq!(delta.control_flow, ControlFlowChange::Return);
    assert_eq!(app.previous_sp, Some(0x100));
    assert_eq!(app.ui.analysis_lines[0], "Trace events: 2");
}

#[test]
fn worker_errors_are_reported() {
    let mut app = empty_app();
    app.ui.session.is_busy = true;
    app.apply_worker_message(WorkerMessage::Error("boom".to_string()));
    assert!(!app.ui.session.is_busy);
    assert_eq!(app.ui.session.last_error.as_deref(), Some("boom"));
    assert_eq!(app.ui.output_lines, vec!["error: boom".to_string()]);
}

use bind::tra86::cli::{parse_address, parse_command_line, tokenize, CliCommand, StartupAction};

#[test]
fn tokenize_supports_quotes_and_escapes() {
    let tokens = tokenize("launch \"./target with spaces\" -- \"hello world\" plain\\ arg").unwrap();
    assert_eq!(
        tokens,
        vec!["launch", "./target with spaces", "--", "hello world", "plain arg",]
    );
}

#[test]
fn parse_address_supports_hex_and_decimal() {
    assert_eq!(parse_address("0x10").unwrap(), 16);
    assert_eq!(parse_address("42").unwrap(), 42);
}

#[test]
fn startup_launch_parses_tail_args() {
    let startup = StartupAction::parse(vec![
        "launch".to_string(),
        "./demo".to_string(),
        "--".to_string(),
        "one".to_string(),
        "two".to_string(),
    ])
    .unwrap();

    match startup {
        StartupAction::Launch(target) => {
            assert_eq!(target.program, "./demo");
            assert_eq!(target.args, vec!["one", "two"]);
        }
        _ => panic!("expected launch startup action"),
    }
}

#[test]
fn tokenize_rejects_an_open_quote() {
    assert_eq!(tokenize("open 'x").unwrap_err(), "unterminated quoted string");
    assert_eq!(tokenize("  ").unwrap(), Vec::<String>::new());
}

#[test]
fn parse_address_reports_the_failing_form() {
    assert_eq!(parse_address(" 0XfF ").unwrap(), 255);
    assert_eq!(parse_address("0xzz").unwrap_err(), "address must be valid hex");
    assert_eq!(parse_address("-1").unwrap_err(), "address must be valid integer");
}

#[test]
fn startup_words_are_checked() {
    assert!(matches!(StartupAction::parse(Vec::new()), Ok(StartupAction::NoAction)));
    assert!(matches!(StartupAction::parse(vec!["-h".to_string()]), Ok(StartupAction::Help)));
    assert_eq!(
        StartupAction::parse(vec!["open".to_string()]).unwrap_err(),
        "usage: tra86_cli open <program>"
    );
    assert_eq!(
        StartupAction::parse(vec!["attach".to_string(), "x".to_string()]).unwrap_err(),
        "attach pid must be an integer"
    );
    assert!(matches!(
        StartupAction::parse(vec!["attach".to_string(), "12".to_string()]),
        Ok(StartupAction::Attach(12))
    ));
    assert_eq!(
        StartupAction::parse(vec!["fly".to_string()]).unwrap_err(),
        "unknown startup command `fly`\ntry `tra86_cli --help` for usage"
    );
}

#[test]
fn prompt_lines_become_commands() {
    assert_eq!(parse_command_line("   ").unwrap(), None);
    assert_eq!(parse_command_line("c").unwrap(), Some(CliCommand::Continue));
    assert_eq!(parse_command_line("disasm").unwrap(), Some(CliCommand::Disassemble(16, None)));
    assert_eq!(
        parse_command_line("disasm 4 0x10").unwrap(),
        Some(CliCommand::Disassemble(4, Some(16)))
    );
    assert_eq!(parse_command_line("mem 0x20").unwrap(), Some(CliCommand::Memory(32, 64)));
    assert_eq!(parse_command_line("mem").unwrap_err(), "usage: mem <addr> [len]");
    assert_eq!(parse_command_line("mem 1 x").unwrap_err(), "memory length must be an integer");
    assert_eq!(parse_command_line("frames 3").unwrap(), Some(CliCommand::Frames(Some(3))));
    assert_eq!(parse_command_line("regs x").unwrap_err(), "thread id must be an integer");
    assert_eq!(parse_command_line("b 0x401000").unwrap(), Some(CliCommand::Break(0x401000)));
    assert_eq!(parse_command_line("delete").unwrap_err(), "usage: delete <breakpoint-id>");
    assert_eq!(parse_command_line("open").unwrap_err(), "usage: open <program>");
    assert_eq!(parse_command_line("zap").unwrap_err(), "unknown command `zap`; try `help`");
    match parse_command_line("launch ./a -- x").unwrap() {
        Some(CliCommand::Launch(t)) => {
            assert_eq!(t.program, "./a");
            assert_eq!(t.args, vec!["x"]);
        }
        other => panic!("unexpected {other:?}"),
    }
}

#[test]
fn memory_view_rows_and_integers() {
    let bytes: Vec<u8> = (0u8..20).collect();
    let rows = bind::tra86::ui::memory_rows(0x1000, &bytes);
    assert_eq!(rows.len(), 2);
    assert_eq!(
        rows[0],
        format!("0x{:016x}: {:<48}  {}", 0x1000, "00 01 02 03 04 05 06 07 08 09 0a 0b 0c 0d 0e 0f", "................")
    );
    assert_eq!(rows[1], format!("0x{:016x}: {:<48}  {}", 0x1010, "10 11 12 13", "...."));
    let v = [0x01u8, 0x02, 0x03, 0x04, 0x05, 0x06, 0x07, 0xf8];
    let (a, b, c, d, e) = bind::tra86::ui::memory_integers(&v);
    assert_eq!(a, u16::from_le_bytes([1, 2]));
    assert_eq!(b, u32::from_le_bytes([1, 2, 3, 4]));
    assert_eq!(c, u64::from_le_bytes(v));
    assert_eq!(d, i32::from_le_bytes([1, 2, 3, 4]));
    assert_eq!(e, i64::from_le_bytes(v));
}
