use bind::debugger::backend::DebugBackend;
use bind::debugger::select::{backend_to_try, fallback_warning, BackendKind};
use bind::bind_core::address::Address;
use bind::bind_core::arch::Architecture;
use bind::bind_core::error::BindError;
use bind::bind_core::event::DebugEvent;
use bind::bind_core::id::{BreakpointId, Pid, ThreadId};
use bind::bind_core::model::{BreakpointLocation, ProcessLifecycle, RegisterRole, StopReason};
use bind::lldb::decode::{arch_from_triple, decode_hex, parse_stop_reason};
use bind::lldb::json::{JsonNumber, JsonValue};
use bind::lldb::protocol::{parse_response, request_object};
use bind::lldb::replies::{disassembly_from, frames_from, modules_from, registers_from, threads_from};
use bind::lldb::requests::{breakpoint_request, step_request};
use bind::lldb::session::{is_available, python_from, LldbState};
use bind::bind_core::command::StepKind;

fn obj(fields: Vec<(&str, JsonValue)>) -> JsonValue {
    JsonValue::Object(fields.into_iter().map(|(k, v)| (k.to_string(), v)).collect())
}

fn num(n: u64) -> JsonValue {
    JsonValue::Number(JsonNumber::Unsigned(n))
}

fn text(s: &str) -> JsonValue {
    JsonValue::Str(s.to_string())
}

#[test]
fn hex_decode_roundtrip() {
    assert_eq!(decode_hex("e80f40b9"), vec![0xe8, 0x0f, 0x40, 0xb9]);
    assert_eq!(decode_hex(""), Vec::<u8>::new());
}

#[test]
fn hex_decode_skips_bad_pairs_and_odd_tail() {
    assert_eq!(decode_hex("zz41F"), vec![0x41]);
    assert_eq!(decode_hex("AbCd"), vec![0xab, 0xcd]);
}

#[test]
fn triple_arch_extraction() {
    assert_eq!(arch_from_triple("arm64-apple-macosx26.0.0"), Architecture::Aarch64);
    assert_eq!(arch_from_triple("x86_64-pc-linux-gnu"), Architecture::X86_64);
    assert_eq!(arch_from_triple(""), Architecture::Unknown);
}

#[test]
fn stop_reason_labels() {
    assert_eq!(parse_stop_reason("breakpoint:7"), StopReason::Breakpoint(BreakpointId(7)));
    assert_eq!(parse_stop_reason("breakpoint:x"), StopReason::Breakpoint(BreakpointId(0)));
    assert_eq!(parse_stop_reason("step"), StopReason::Step);
    assert_eq!(parse_stop_reason("signal:SIGSEGV"), StopReason::Signal("signal SIGSEGV".into()));
    assert_eq!(parse_stop_reason("exception:EXC_BAD_ACCESS"), StopReason::Exception("EXC_BAD_ACCESS".into()));
    assert_eq!(parse_stop_reason("none"), StopReason::Unknown("none".into()));
}

#[test]
fn responses_are_checked_by_id() {
    let ok = obj(vec![("id", num(3)), ("ok", JsonValue::Bool(true)), ("result", num(9))]);
    assert!(matches!(parse_response(3, ok), Ok(JsonValue::Number(JsonNumber::Unsigned(9)))));
    let no_result = obj(vec![("id", num(3)), ("ok", JsonValue::Bool(true))]);
    assert!(matches!(parse_response(3, no_result), Ok(JsonValue::Null)));
    let wrong = obj(vec![("id", num(4)), ("ok", JsonValue::Bool(true))]);
    match parse_response(3, wrong) {
        Err(BindError::Internal(m)) => assert_eq!(m, "driver response id mismatch: expected 3, got 4"),
        other => panic!("unexpected {other:?}"),
    }
    let failed = obj(vec![("id", num(3)), ("ok", JsonValue::Bool(false)), ("error", text("boom"))]);
    assert_eq!(parse_response(3, failed).unwrap_err(), BindError::Backend("boom".into()));
    let bare = obj(vec![("id", num(3))]);
    assert_eq!(parse_response(3, bare).unwrap_err(), BindError::Backend("unknown driver error".into()));
}

#[test]
fn requests_carry_id_and_op() {
    let r = request_object(5, "threads", obj(vec![("thread", num(2)), ("id", num(99))]));
    match r {
        JsonValue::Object(f) => {
            assert_eq!(f.len(), 3);
            assert_eq!(f[0].0, "thread");
            assert!(matches!(f[1], (ref k, JsonValue::Number(JsonNumber::Unsigned(5))) if k == "id"));
            assert!(matches!(f[2], (ref k, JsonValue::Str(ref op)) if k == "op" && op == "threads"));
        }
        _ => panic!("not an object"),
    }
    match request_object(1, "kill", JsonValue::Null) {
        JsonValue::Object(f) => assert_eq!(f.len(), 2),
        _ => panic!("not an object"),
    }
}

#[test]
fn step_and_breakpoint_requests() {
    match step_request(StepKind::Instruction) {
        JsonValue::Object(f) => assert!(matches!(f[0].1, JsonValue::Str(ref s) if s == "instruction")),
        _ => panic!(),
    }
    match breakpoint_request(&BreakpointLocation::Address(Address::new(0x10)), Some("x > 1")) {
        JsonValue::Object(f) => {
            assert_eq!(f.len(), 3);
            assert_eq!(f[2].0, "condition");
        }
        _ => panic!(),
    }
}

#[test]
fn stops_become_events() {
    let mut s = LldbState::new();
    let stop = obj(vec![
        ("stopped", JsonValue::Bool(true)),
        ("thread", num(2)),
        ("reason", text("breakpoint:1")),
        ("pc", num(0x1000)),
    ]);
    s.emit_stop(&stop, Some(Address::new(0xffc)));
    assert_eq!(s.lifecycle, ProcessLifecycle::Stopped);
    assert_eq!(s.selected_thread, Some(ThreadId(2)));
    assert_eq!(s.last_pc, Some(Address::new(0x1000)));
    let events = s.take_events();
    assert_eq!(events.len(), 3);
    assert_eq!(events[0], DebugEvent::BreakpointHit { breakpoint: BreakpointId(1), thread: ThreadId(2) });
    assert_eq!(
        events[1],
        DebugEvent::InstructionStepped { thread: ThreadId(2), from: Some(Address::new(0xffc)), to: Address::new(0x1000) }
    );
    assert!(s.take_events().is_empty());
    s.emit_stop(&obj(vec![("exited", num(3))]), None);
    assert_eq!(s.lifecycle, ProcessLifecycle::Exited);
    assert_eq!(s.exit_code, Some(3));
    s.terminated();
    assert_eq!(s.take_events().last(), Some(&DebugEvent::ProcessExited { code: 3 }));
    let before = s.lifecycle;
    s.emit_stop(&obj(vec![]), None);
    assert_eq!(s.lifecycle, before);
}

#[test]
fn launch_and_breakpoint_bookkeeping() {
    let mut s = LldbState::new();
    s.target_opened("./demo", &obj(vec![("triple", text("arm64-apple-macosx"))]));
    assert_eq!(s.arch, Architecture::Aarch64);
    s.launched(Some(77), &obj(vec![("stopped", JsonValue::Bool(true)), ("reason", text("step"))]));
    let events = s.take_events();
    assert_eq!(events[1], DebugEvent::ProcessLaunched { pid: Pid(77) });
    let resp = obj(vec![
        ("id", num(4)),
        ("resolved", JsonValue::Array(vec![obj(vec![("address", num(0x2000)), ("function", text("main"))])])),
    ]);
    let bp = s.breakpoint_added(&BreakpointLocation::Symbol("main".into()), None, &resp);
    assert_eq!(bp.id, BreakpointId(4));
    assert_eq!(bp.resolved.len(), 1);
    assert_eq!(bp.resolved[0].symbol.as_ref().unwrap().start, Some(Address::new(0x2000)));
    assert_eq!(
        s.take_events(),
        vec![DebugEvent::BreakpointResolved { breakpoint: BreakpointId(4), address: Address::new(0x2000) }]
    );
    assert!(s.enable_breakpoint(BreakpointId(4), false).is_ok());
    assert!(!s.breakpoints[0].enabled);
    assert_eq!(
        s.enable_breakpoint(BreakpointId(9), true).unwrap_err(),
        BindError::UserInput("no breakpoint #9".into())
    );
    s.breakpoint_removed(BreakpointId(4));
    assert!(s.breakpoints.is_empty());
    let info = s.process_info_from(&obj(vec![("state", text("running")), ("pid", num(77))]));
    assert_eq!(info.lifecycle, ProcessLifecycle::Running);
    assert_eq!(info.pid, Some(Pid(77)));
}

#[test]
fn replies_become_model_values() {
    let threads = JsonValue::Array(vec![obj(vec![("id", num(1)), ("name", text("main"))]), obj(vec![("id", num(2))])]);
    let t = threads_from(&threads, Some(ThreadId(2)));
    assert_eq!(t.len(), 2);
    assert!(!t[0].is_selected && t[1].is_selected);
    assert_eq!(t[0].name.as_deref(), Some("main"));

    let frames = JsonValue::Array(vec![obj(vec![
        ("pc", num(0x10)),
        ("function", text("f")),
        ("file", text("a.c")),
        ("line", num(0)),
    ])]);
    let f = frames_from(&frames, ThreadId(1));
    assert!(f[0].is_selected);
    assert!(f[0].source.is_none());
    assert_eq!(f[0].symbol.as_ref().unwrap().name, "f");

    let regs = JsonValue::Array(vec![
        obj(vec![("name", text("rip")), ("value", num(5))]),
        obj(vec![("value", num(1))]),
        obj(vec![("name", text("eax")), ("size", num(32))]),
    ]);
    let r = registers_from(&regs, Architecture::X86_64, ThreadId(1));
    assert_eq!(r.registers.len(), 2);
    assert_eq!(r.registers[0].role, RegisterRole::ProgramCounter);
    assert_eq!(r.registers[0].size_bits, 64);
    assert_eq!(r.registers[1].size_bits, 32);

    let insns = JsonValue::Array(vec![obj(vec![("address", num(0x2000)), ("bytes", text("90")), ("mnemonic", text("nop"))])]);
    let d = disassembly_from(&insns, Some(Address::new(0x2000)), &Vec::new());
    assert!(d[0].is_current && !d[0].has_breakpoint);
    assert_eq!(d[0].bytes, vec![0x90]);
    assert_eq!(d[0].operands, "");

    let mods = JsonValue::Array(vec![obj(vec![("path", text("/bin/ls")), ("has_debug", JsonValue::Bool(true))])]);
    let m = modules_from(&mods);
    assert_eq!(m[0].path, "/bin/ls");
    assert!(m[0].has_debug_info);
}

#[test]
fn lldb_discovery_outputs() {
    assert!(is_available(true, "/usr/lib/python3\n"));
    assert!(!is_available(true, "  \n"));
    assert!(!is_available(false, "/x"));
    assert_eq!(python_from(false, ""), "python3");
    assert_eq!(python_from(true, " /usr/bin/python3 \n"), "/usr/bin/python3");
}

/// A driver connection that answers each operation from a fixed list, in
/// order, and remembers what it was asked.
struct CannedDriver {
    replies: Vec<(&'static str, Result<JsonValue, BindError>)>,
    asked: Vec<String>,
}

impl bind::lldb::backend::DriverTransport for CannedDriver {
    fn request(&mut self, op: &str, _params: JsonValue) -> Result<JsonValue, BindError> {
        self.asked.push(op.to_string());
        let (expected, reply) = self.replies.remove(0);
        assert_eq!(expected, op);
        reply
    }
}

fn canned(replies: Vec<(&'static str, Result<JsonValue, BindError>)>) -> bind::lldb::backend::LldbBackend<CannedDriver> {
    bind::lldb::backend::LldbBackend::new(CannedDriver { replies, asked: Vec::new() })
}

#[test]
fn lldb_backend_reads_memory_from_hex_reply() {
    let reply = JsonValue::Object(vec![("hex".to_string(), JsonValue::Str("41ff00".to_string()))]);
    let mut b = canned(vec![("read_memory", Ok(reply))]);
    assert_eq!(b.read_memory(Address::new(0x1000), 3), Ok(vec![0x41, 0xff, 0x00]));
    assert_eq!(b.client_mut().asked, vec!["read_memory".to_string()]);
    assert_eq!(b.name(), "lldb");
}

#[test]
fn lldb_backend_passes_driver_errors_and_refuses_pause() {
    let mut b = canned(vec![("detach", Err(BindError::Backend("gone".to_string())))]);
    assert_eq!(b.detach(), Err(BindError::Backend("gone".to_string())));
    assert!(matches!(b.pause(), Err(BindError::CapabilityLimited(_))));
    assert!(b.client_mut().asked == vec!["detach".to_string()]);
}

#[test]
fn backend_choice_and_fallback_warning() {
    assert_eq!(backend_to_try(true, true), BackendKind::Mock);
    assert_eq!(backend_to_try(false, false), BackendKind::Mock);
    assert_eq!(backend_to_try(false, true), BackendKind::Lldb);
    assert_eq!(
        fallback_warning(Some("spawn failed")),
        "warning: LLDB backend unavailable (spawn failed); using mock backend"
    );
    assert_eq!(
        fallback_warning(None),
        "warning: LLDB SB-API not detected; using mock backend (`--mock` to silence)"
    );
}
