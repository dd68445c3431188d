use bind::tra86::backend::mock::MockBackend;
use bind::tra86::cli::StartupAction;
use bind::tra86::listing::{
    breakpoint_lines, format_address, memory_lines, source_lines, stop_reason_debug, summary_lines, symbol_lines,
};
use bind::tra86::model::{
    Breakpoint, BreakpointLocation, SourceLocation, StopReason, SymbolInfo, TargetBinary, ThreadState, ThreadStatus,
};
use bind::tra86::shell::{repl_help_lines, CliSession, ControlFlow};

#[test]
fn shell_banner_help_and_quit() {
    assert_eq!(CliSession::banner_lines(), vec!["tra86 CLI", "type `help` for commands, `quit` to exit"]);
    let mut backend = MockBackend::default();
    let mut s = CliSession::new();
    let mut out = Vec::new();
    assert_eq!(s.handle_line(&mut backend, "help", &mut out), Ok(ControlFlow::Continue));
    assert_eq!(out, repl_help_lines());
    assert_eq!(out.len(), 25);
    let mut out2 = Vec::new();
    assert_eq!(s.handle_line(&mut backend, "quit", &mut out2), Ok(ControlFlow::Exit));
    assert!(out2.is_empty());
    assert_eq!(s.handle_line(&mut backend, "   ", &mut out2), Ok(ControlFlow::Continue));
}

#[test]
fn shell_reports_parse_errors() {
    let mut backend = MockBackend::default();
    let mut s = CliSession::new();
    let mut out = Vec::new();
    assert_eq!(
        s.handle_line(&mut backend, "frobnicate", &mut out),
        Err("unknown command `frobnicate`; try `help`".to_string())
    );
    assert_eq!(s.handle_line(&mut backend, "open", &mut out), Err("usage: open <program>".to_string()));
    assert_eq!(s.handle_line(&mut backend, "open \"x", &mut out), Err("unterminated quoted string".to_string()));
    assert!(out.is_empty());
}

#[test]
fn shell_open_break_and_delete() {
    let mut backend = MockBackend::default();
    let mut s = CliSession::new();
    let mut out = Vec::new();
    assert!(s.handle_line(&mut backend, "open ./demo", &mut out).is_ok());
    assert_eq!(out[0], "loaded target ./demo");
    assert!(out.len() > 1);
    assert_eq!(s.target.as_ref().unwrap().program, "./demo");
    out.clear();
    assert!(s.handle_line(&mut backend, "break 0x401000", &mut out).is_ok());
    assert_eq!(s.breakpoints.len(), 1);
    let id = s.breakpoints[0].id;
    assert_eq!(out, vec![format!("breakpoint {id} set at 0x0000000000401000")]);
    out.clear();
    s.handle_line(&mut backend, "bp", &mut out).unwrap();
    assert_eq!(out, vec![format!("{id} 0x0000000000401000")]);
    out.clear();
    s.handle_line(&mut backend, &format!("delete {id}"), &mut out).unwrap();
    assert!(s.breakpoints.is_empty());
    assert_eq!(out, vec![format!("removed breakpoint {id}")]);
}

#[test]
fn shell_status_without_target() {
    let mut backend = MockBackend::default();
    let mut s = CliSession::new();
    let mut out = Vec::new();
    s.handle_line(&mut backend, "status", &mut out).unwrap();
    assert_eq!(out, vec!["no active target"]);
}

#[test]
fn shell_launch_summarizes() {
    let mut backend = MockBackend::default();
    let mut s = CliSession::new();
    let mut out = Vec::new();
    s.apply_startup(
        &mut backend,
        StartupAction::Launch(TargetBinary { program: "./demo".into(), args: vec![], cwd: None, env: vec![] }),
        &mut out,
    )
    .unwrap();
    assert_eq!(out[0], "launched ./demo");
    assert_eq!(out[1], "target: ./demo");
    assert!(out[2].starts_with("stop reason: "));
    assert!(out[3].starts_with("threads: "));
}

#[test]
fn listings_format_values() {
    assert_eq!(format_address(0x1234), "0x0000000000001234");
    let rows = memory_lines(0x10, &[0x41, 0x00, 0x7e]);
    assert_eq!(rows, vec![format!("0x0000000000000010  {:<47}  A.~", "41 00 7e")]);
    assert_eq!(memory_lines(0, &[]), vec!["no bytes read"]);
    let long: Vec<u8> = (0u8..20).collect();
    let rows = memory_lines(u64::MAX - 15, &long);
    assert_eq!(rows.len(), 2);
    assert!(rows[1].starts_with("0x0000000000000000  10 11 12 13"));
    assert_eq!(breakpoint_lines(&vec![]), vec!["no breakpoints"]);
    let bps = vec![Breakpoint { id: 3, location: BreakpointLocation::Symbol("main".into()), enabled: true, hit_count: 0 }];
    assert_eq!(breakpoint_lines(&bps), vec!["3 main"]);
    let sym = Some(SymbolInfo { name: "main".into(), module: None, offset: 0x1f });
    assert_eq!(symbol_lines(0x20, &sym), vec!["0x0000000000000020 - + 0x1f", "main"]);
    assert_eq!(symbol_lines(0x20, &None), vec!["no symbol for 0x0000000000000020"]);
    let src = Some(SourceLocation { file: "a.c".into(), line: 4, column: None });
    assert_eq!(source_lines(0, &src), vec!["a.c:4:0"]);
    assert_eq!(stop_reason_debug(&StopReason::NoReason), "None");
    assert_eq!(stop_reason_debug(&StopReason::Signal("SIGINT".into())), "Signal(\"SIGINT\")");
    assert_eq!(stop_reason_debug(&StopReason::Exited(-2)), "Exited(-2)");
    let threads = vec![ThreadState {
        id: 7,
        name: None,
        is_current: true,
        status: ThreadStatus::Stopped,
        stop_reason: StopReason::Step,
        instruction_pointer: None,
    }];
    assert_eq!(
        summary_lines(&None, Some(42), &StopReason::Step, &threads),
        vec!["attached pid: 42", "stop reason: Step", "threads: 1", "current thread: 7"]
    );
}

#[test]
fn shell_status_without_target_asks_nothing() {
    let mut backend = MockBackend::default();
    let mut s = CliSession::new();
    let mut out = Vec::new();
    assert_eq!(s.handle_line(&mut backend, "status", &mut out), Ok(ControlFlow::Continue));
    assert_eq!(out, vec!["no active target".to_string()]);
    assert!(s.target.is_none());
}

#[test]
fn shell_continue_without_process_reports_backend_error() {
    let mut backend = MockBackend::default();
    let mut s = CliSession::new();
    let mut out = Vec::new();
    assert_eq!(s.handle_line(&mut backend, "continue", &mut out), Err("process not running".to_string()));
    assert!(out.is_empty());
    assert_eq!(s.handle_line(&mut backend, "si", &mut out), Err("process not running".to_string()));
    assert!(out.is_empty());
}
