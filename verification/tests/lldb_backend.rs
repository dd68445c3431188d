use bind::tra86::backend::error::BackendError;
use bind::tra86::backend::traits::{DebugBackend, LaunchRequest};
use bind::tra86::lldb_backend::{LldbBackend, LldbCommands};
use bind::tra86::lldb_commands::{
    breakpoint_command, disassemble_command, launch_commands, memory_read_command, memory_write_command, parse_i32,
    stop_reason_after,
};
use bind::tra86::model::{BreakpointLocation, StopReason, TargetBinary};

/// Answers commands from a script and records what was asked.
struct Scripted {
    answers: Vec<(String, String)>,
    asked: Vec<String>,
    exists: bool,
}

impl Scripted {
    fn new(answers: &[(&str, &str)]) -> Self {
        Scripted {
            answers: answers.iter().map(|(c, o)| (c.to_string(), o.to_string())).collect(),
            asked: Vec::new(),
            exists: true,
        }
    }
}

impl LldbCommands for Scripted {
    fn run_command(&mut self, command: &str) -> Result<String, BackendError> {
        self.asked.push(command.to_string());
        match self.answers.iter().find(|(c, _)| c == command) {
            Some((_, o)) => Ok(o.clone()),
            None => Err(BackendError::Protocol(format!("unexpected command {command}"))),
        }
    }

    fn run_batch(&mut self, _first: &str, _second: &str) -> Result<Option<String>, BackendError> {
        Ok(None)
    }

    fn program_exists(&self, _program: &str) -> bool {
        self.exists
    }
}

#[test]
fn stop_reasons_follow_lldb_output() {
    assert_eq!(
        stop_reason_after(StopReason::NoReason, "Process 1 stopped\n* thread #1, stop reason = breakpoint 2.1"),
        StopReason::Breakpoint(0)
    );
    assert_eq!(stop_reason_after(StopReason::Step, "Process 1 exited with status = 3 (0x3)"), StopReason::Exited(0));
    assert_eq!(stop_reason_after(StopReason::Step, "Process 1 exited with status 3"), StopReason::Exited(3));
    assert_eq!(stop_reason_after(StopReason::Step, "nothing here"), StopReason::Step);
}

#[test]
fn signed_numbers_parse_like_std() {
    let p = |s: &str| parse_i32(&s.chars().collect::<Vec<_>>());
    assert_eq!(p("-12"), Some(-12));
    assert_eq!(p("+7"), Some(7));
    assert_eq!(p("-2147483648"), Some(i32::MIN));
    assert_eq!(p("2147483648"), None);
    assert_eq!(p("-+1"), None);
    assert_eq!(p("-"), None);
}

#[test]
fn command_lines() {
    assert_eq!(
        launch_commands("/bin/ls", &vec!["-l".to_string(), "a b".to_string()]),
        vec![
            "target create \"/bin/ls\"",
            "breakpoint set --name main",
            "settings set target.run-args \"-l\" \"a b\"",
            "process launch --stop-at-entry"
        ]
    );
    assert_eq!(launch_commands("x", &vec![]).len(), 3);
    assert_eq!(breakpoint_command(&BreakpointLocation::Address(0x1f)), "breakpoint set --address 0x1f");
    assert_eq!(breakpoint_command(&BreakpointLocation::Symbol("main".into())), "breakpoint set --name main");
    assert_eq!(memory_read_command(0x10, 4), "memory read --size 1 --count 4 0x10");
    assert_eq!(memory_write_command(0x10, &[1, 0xab]), "memory write --size 1 0x10 0x01 0xab");
    assert_eq!(disassemble_command(None, 8), "disassemble --pc --count 8");
    assert_eq!(disassemble_command(Some(0x20), 2), "disassemble --start-address 0x20 --count 2");
}

#[test]
fn breakpoints_take_lldb_ids() {
    let script = Scripted::new(&[
        ("breakpoint set --address 0x401000", "Breakpoint 5: where = a`main, address = 0x401000"),
        ("breakpoint set --name foo", "no id here"),
        ("breakpoint delete 5", ""),
    ]);
    let mut b = LldbBackend::new(script);
    let bp = b.set_breakpoint(BreakpointLocation::Address(0x401000)).unwrap();
    assert_eq!(bp.id, 5);
    assert_eq!(b.next_breakpoint_id, 6);
    let bp2 = b.set_breakpoint(BreakpointLocation::Symbol("foo".into())).unwrap();
    assert_eq!(bp2.id, 6);
    b.remove_breakpoint(5).unwrap();
    assert_eq!(b.breakpoints.len(), 1);
    assert_eq!(b.breakpoints[0].id, 6);
}

#[test]
fn missing_program_is_refused() {
    let mut script = Scripted::new(&[]);
    script.exists = false;
    let mut b = LldbBackend::new(script);
    match b.open_target("/nope") {
        Err(BackendError::InvalidRequest(m)) => assert_eq!(m, "program does not exist: /nope"),
        other => panic!("unexpected {other:?}"),
    }
    let req = LaunchRequest { target: TargetBinary { program: "/nope".into(), args: vec![], cwd: None, env: vec![] } };
    assert!(b.launch(req).is_err());
    assert!(b.commands.asked.is_empty());
}

#[test]
fn detach_and_kill_set_the_stop_reason() {
    let script = Scripted::new(&[("process detach", "ok"), ("process kill", "ok"), ("process continue", "* thread #1, stop reason = signal SIGINT")]);
    let mut b = LldbBackend::new(script);
    b.attached_pid = Some(3);
    b.detach().unwrap();
    assert_eq!(b.attached_pid, None);
    assert_eq!(b.current_stop_reason().unwrap(), StopReason::Detached);
    b.continue_exec().unwrap();
    assert!(matches!(b.current_stop_reason().unwrap(), StopReason::Signal(_)));
    b.kill().unwrap();
    assert_eq!(b.current_stop_reason().unwrap(), StopReason::Exited(0));
    assert_eq!(b.capabilities().len(), 17);
    assert_eq!(b.backend_name(), "lldb");
}

#[test]
fn memory_map_falls_back_to_one_image_region() {
    let script = Scripted::new(&[("memory region --all", "nothing useful"), ("image list", "abc")]);
    let mut b = LldbBackend::new(script);
    b.target_program = Some("/bin/true".to_string());
    let regions = b.memory_map().unwrap();
    assert_eq!(regions.len(), 1);
    assert_eq!(regions[0].start, 0);
    assert!(regions[0].permissions.read && regions[0].permissions.execute && !regions[0].permissions.write);
    assert_eq!(regions[0].pathname.as_deref(), Some("/bin/true"));
    assert_eq!(regions[0].label.as_deref(), Some("image list output 3 bytes"));
    assert_eq!(b.commands.asked, vec!["memory region --all", "image list"]);
}

#[test]
fn failed_commands_pass_their_error_on() {
    let script = Scripted::new(&[]);
    let mut b = LldbBackend::new(script);
    assert!(matches!(b.read_memory(0x10, 4), Err(BackendError::Protocol(_))));
    assert!(matches!(b.attach(42), Err(BackendError::Protocol(_))));
    assert_eq!(b.attached_pid, None);
    assert!(b.write_memory(0x10, &[]).is_ok());
    assert_eq!(b.commands.asked, vec!["memory read --size 1 --count 4 0x10", "process attach --pid 42"]);
}

#[test]
fn threads_fall_back_to_one_stopped_thread() {
    let script = Scripted::new(&[("thread list", "no threads")]);
    let mut b = LldbBackend::new(script);
    let threads = b.list_threads().unwrap();
    assert_eq!(threads.len(), 1);
    assert_eq!(threads[0].id, 1);
    assert_eq!(threads[0].name.as_deref(), Some("thread-1"));
    assert!(threads[0].is_current);
    assert_eq!(threads[0].instruction_pointer, None);
    assert_eq!(b.commands.asked, vec!["thread list", "disassemble --pc --count 1", "disassemble --name main --count 1"]);
}
