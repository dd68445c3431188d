use bind::bind_core::address::{Address, AddressRange};
use bind::bind_core::arch::{Architecture, Language};
use bind::bind_core::event::{nanos_since_epoch, wall_clock_nanos, DebugEvent, SequencedEvent};
use bind::bind_core::id::{EventSeq, FrameId, ThreadId, BreakpointId};
use bind::bind_core::model::{ProcessLifecycle, Register, RegisterRole, RegisterSet, StopReason};
use bind::bind_core::error::BindError;

#[test]
fn offset_saturates() {
    assert_eq!(Address(u64::MAX).offset(10), Address(u64::MAX));
    assert_eq!(Address(0x1000).offset(0x10), Address(0x1010));
}

#[test]
fn distance_is_signed() {
    assert_eq!(Address(0x1010).distance_from(Address(0x1000)), 0x10);
    assert_eq!(Address(0x1000).distance_from(Address(0x1010)), -0x10);
}

#[test]
fn range_contains_half_open() {
    let r = AddressRange::new(Address(0x1000), 0x20);
    assert!(r.contains(Address(0x1000)));
    assert!(r.contains(Address(0x101f)));
    assert!(!r.contains(Address(0x1020)));
    assert_eq!(r.end(), Address(0x1020));
}

#[test]
fn from_bounds_handles_inverted() {
    let r = AddressRange::from_bounds(Address(0x2000), Address(0x1000));
    assert!(r.is_empty());
}

#[test]
fn address_and_range_render_in_hex() {
    assert_eq!(Address(0x1f).to_display(), "0x1f");
    assert_eq!(Address(0).to_display(), "0x0");
    let r = AddressRange::new(Address(0x1000), 0x20);
    assert_eq!(r.to_display(), "[0x1000, 0x1020)");
}

#[test]
fn triple_arch_parsing() {
    assert_eq!(Architecture::from_triple_arch("x86_64-pc-linux"), Architecture::X86_64);
    assert_eq!(Architecture::from_triple_arch("arm64"), Architecture::Aarch64);
    assert_eq!(Architecture::from_triple_arch("aarch64-apple-darwin"), Architecture::Aarch64);
    assert_eq!(Architecture::from_triple_arch("mips"), Architecture::Unknown);
    assert_eq!(Architecture::from_triple_arch("  AMD64 "), Architecture::X86_64);
}

#[test]
fn register_roles_are_arch_specific() {
    assert_eq!(Architecture::X86_64.classify_register("rip"), RegisterRole::ProgramCounter);
    assert_eq!(Architecture::Aarch64.classify_register("pc"), RegisterRole::ProgramCounter);
    assert_ne!(Architecture::X86_64.classify_register("pc"), RegisterRole::ProgramCounter);
    assert_eq!(Architecture::Aarch64.classify_register("sp"), RegisterRole::StackPointer);
}

#[test]
fn register_role_table_covers_each_branch() {
    assert_eq!(Architecture::X86_64.classify_register("RFLAGS"), RegisterRole::Flags);
    assert_eq!(Architecture::X86_64.classify_register("rax"), RegisterRole::General);
    assert_eq!(Architecture::X86_64.classify_register("xmm0"), RegisterRole::Vector);
    assert_eq!(Architecture::X86_64.classify_register("cs"), RegisterRole::Other);
    assert_eq!(Architecture::Aarch64.classify_register("x29"), RegisterRole::FramePointer);
    assert_eq!(Architecture::Aarch64.classify_register("lr"), RegisterRole::General);
    assert_eq!(Architecture::Aarch64.classify_register("q3"), RegisterRole::Vector);
    assert_eq!(Architecture::Aarch64.classify_register("cpsr"), RegisterRole::Flags);
    assert_eq!(Architecture::Unknown.classify_register("pc"), RegisterRole::Other);
}

#[test]
fn architecture_names() {
    assert_eq!(Architecture::X86_64.display_name(), "x86-64");
    assert_eq!(Architecture::Aarch64.program_counter_name(), Some("pc"));
    assert_eq!(Architecture::X86_64.stack_pointer_name(), Some("rsp"));
    assert_eq!(Architecture::Unknown.program_counter_name(), None);
    assert_eq!(Architecture::Unknown.pointer_width_bits(), 64);
}

#[test]
fn language_parsing() {
    assert_eq!(Language::from_lldb("c++"), Language::Cpp);
    assert_eq!(Language::from_lldb("Rust"), Language::Rust);
    assert_eq!(Language::from_lldb(""), Language::Unknown);
    assert_eq!(Language::from_lldb("fortran"), Language::Other);
    assert_eq!(Language::ObjectiveC.display_name(), "Objective-C");
}

#[test]
fn ids_are_type_distinct_but_share_representation() {
    let t = ThreadId::new(7);
    let f = FrameId::new(7);
    assert_eq!(t.raw(), f.raw());
    assert_eq!(t.to_display(), "7");
}

#[test]
fn event_seq_advances_and_saturates() {
    assert_eq!(EventSeq::zero().next(), EventSeq(1));
    assert_eq!(EventSeq(u64::MAX).next(), EventSeq(u64::MAX));
}

#[test]
fn register_hex_respects_width() {
    let r = Register::new("w0", 0xab, 32, RegisterRole::General);
    assert_eq!(r.hex(), "0x000000ab");
    let r64 = Register::new("x0", 0xab, 64, RegisterRole::General);
    assert_eq!(r64.hex(), "0x00000000000000ab");
    let r0 = Register::new("z", 0x5, 0, RegisterRole::Other);
    assert_eq!(r0.hex(), "0x5");
}

#[test]
fn register_diff_matches_by_name() {
    let older = RegisterSet {
        thread_id: ThreadId::new(1),
        registers: vec![
            Register::new("x0", 1, 64, RegisterRole::General),
            Register::new("x1", 2, 64, RegisterRole::General),
        ],
    };
    let newer = RegisterSet {
        thread_id: ThreadId::new(1),
        registers: vec![
            Register::new("x0", 9, 64, RegisterRole::General),
            Register::new("x1", 2, 64, RegisterRole::General),
        ],
    };
    let changes = newer.diff(&older);
    assert_eq!(changes.len(), 1);
    assert_eq!(changes[0].name, "x0");
    assert_eq!(changes[0].old_value, 1);
    assert_eq!(changes[0].new_value, 9);
    assert_eq!(newer.get("x1").map(|r| r.value), Some(2));
    assert!(newer.get("x9").is_none());
    assert_eq!(newer.by_role(RegisterRole::General).map(|r| r.name.as_str()), Some("x0"));
}

#[test]
fn lifecycle_predicates() {
    assert!(ProcessLifecycle::Stopped.is_stopped());
    assert!(ProcessLifecycle::Stopped.is_alive());
    assert!(!ProcessLifecycle::Exited.is_alive());
}

#[test]
fn stop_reason_short_labels() {
    assert_eq!(StopReason::Breakpoint(BreakpointId::new(3)).short(), "breakpoint #3");
    assert_eq!(StopReason::Exited(-2).short(), "exited -2");
    assert_eq!(StopReason::Unknown("x".into()).short(), "stop (x)");
    assert_eq!(StopReason::NoReason.short(), "none");
}

#[test]
fn event_thread_extraction() {
    let e = DebugEvent::Stopped {
        thread: ThreadId::new(3),
        reason: StopReason::Step,
        pc: Some(Address::new(0x1000)),
    };
    assert_eq!(e.thread(), Some(ThreadId::new(3)));
    assert_eq!(DebugEvent::Continued.thread(), None);
    assert_eq!(e.kind(), "stopped");
    let s = SequencedEvent::new(EventSeq::new(4), 9, e.clone());
    assert_eq!(s.seq, EventSeq::new(4));
    assert!(s.wall.is_some());
}

#[test]
fn error_categories_and_messages() {
    let e = BindError::UserInput("bad".into());
    assert!(e.is_user_actionable());
    assert_eq!(e.category(), "input");
    assert_eq!(e.message(), "invalid input: bad");
    assert_eq!(BindError::CapabilityLimited("x".into()).category(), "unavailable");
}

#[test]
fn range_at_the_top_holds_its_start() {
    let r = AddressRange::new(Address(u64::MAX), 1);
    assert!(r.contains(Address(u64::MAX)));
    assert!(!r.contains(Address(u64::MAX - 1)));
    assert!(!AddressRange::new(Address(5), 0).contains(Address(5)));
}

#[test]
fn language_names_read_back() {
    for l in [
        Language::C,
        Language::Cpp,
        Language::Rust,
        Language::Swift,
        Language::ObjectiveC,
        Language::Zig,
        Language::Assembly,
        Language::Other,
        Language::Unknown,
    ] {
        assert_eq!(Language::from_lldb(l.display_name()), l);
    }
}

#[test]
fn event_kinds_tell_variants_apart() {
    let kinds = [
        DebugEvent::Continued.kind(),
        DebugEvent::ProcessDetached.kind(),
        DebugEvent::ProcessExited { code: 0 }.kind(),
        DebugEvent::ProcessExited { code: 7 }.kind(),
    ];
    assert_eq!(kinds[0], "continued");
    assert_eq!(kinds[1], "process-detached");
    assert_eq!(kinds[2], "process-exited");
    assert_eq!(kinds[2], kinds[3]);
    assert_ne!(kinds[0], kinds[1]);
    assert_ne!(kinds[1], kinds[2]);
}

#[test]
fn nanos_since_epoch_adds_seconds_and_nanos() {
    assert_eq!(nanos_since_epoch(1, 5), Some(1_000_000_005));
    assert_eq!(nanos_since_epoch(0, 0), Some(0));
}

#[test]
fn nanos_since_epoch_refuses_what_overflows() {
    assert_eq!(nanos_since_epoch(9_223_372_037, 0), None);
    assert_eq!(nanos_since_epoch(9_223_372_036, 854_775_807), Some(i64::MAX));
    assert_eq!(nanos_since_epoch(9_223_372_036, 854_775_808), None);
}

#[test]
fn wall_clock_is_after_the_epoch() {
    let t = wall_clock_nanos().expect("clock after the epoch");
    assert!(t > 1_600_000_000_000_000_000);
}
