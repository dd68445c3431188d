use bind::analysis::analyzer::{default_analyzers, AnalysisContext, AnalyzerSet};
use bind::analysis::analyzers::{FunctionTransitions, InstructionCounts, StopSummary};
use bind::analysis::classify::{classify, ControlFlow};
use bind::analysis::finding::{Confidence, Finding};
use bind::analysis::register::RegisterChurn;
use bind::bind_core::address::Address;
use bind::bind_core::arch::Architecture;
use bind::bind_core::event::{DebugEvent, SequencedEvent};
use bind::bind_core::id::{BreakpointId, EventSeq, ThreadId};
use bind::bind_core::model::{Register, RegisterRole, RegisterSet, StopReason};
use bind::symbols::index::SymbolIndex;

#[test]
fn x86_classification() {
    assert_eq!(classify(Architecture::X86_64, "call"), ControlFlow::Call);
    assert_eq!(classify(Architecture::X86_64, "ret"), ControlFlow::Return);
    assert_eq!(classify(Architecture::X86_64, "jne"), ControlFlow::ConditionalBranch);
    assert_eq!(classify(Architecture::X86_64, "mov"), ControlFlow::Linear);
}

#[test]
fn arm64_classification() {
    assert_eq!(classify(Architecture::Aarch64, "bl"), ControlFlow::Call);
    assert_eq!(classify(Architecture::Aarch64, "ret"), ControlFlow::Return);
    assert_eq!(classify(Architecture::Aarch64, "b.lt"), ControlFlow::ConditionalBranch);
    assert_eq!(classify(Architecture::Aarch64, "svc"), ControlFlow::Syscall);
    assert_eq!(classify(Architecture::Aarch64, "add"), ControlFlow::Linear);
}

#[test]
fn classification_normalizes_case_and_space() {
    assert_eq!(classify(Architecture::X86_64, "  CALL "), ControlFlow::Call);
    assert_eq!(classify(Architecture::X86_64, "retq"), ControlFlow::Return);
    assert_eq!(classify(Architecture::X86_64, "JMP"), ControlFlow::Jump);
    assert_eq!(classify(Architecture::X86_64, "sysenter"), ControlFlow::Syscall);
    assert_eq!(classify(Architecture::Aarch64, "cbnz"), ControlFlow::ConditionalBranch);
    assert_eq!(classify(Architecture::Aarch64, "br"), ControlFlow::Jump);
    assert_eq!(classify(Architecture::Unknown, "call"), ControlFlow::Unknown);
}

fn set(x0: u64, sp: u64) -> RegisterSet {
    RegisterSet {
        thread_id: ThreadId::new(1),
        registers: vec![
            Register::new("x0", x0, 64, RegisterRole::General),
            Register::new("sp", sp, 64, RegisterRole::StackPointer),
        ],
    }
}

#[test]
fn tracks_change_frequency() {
    let mut churn = RegisterChurn::new();
    assert!(churn.observe(&set(0, 100)).is_empty());
    assert_eq!(churn.observe(&set(1, 100)), vec!["x0"]);
    assert_eq!(churn.observe(&set(2, 90)), vec!["x0", "sp"]);
    let ranked = churn.ranked();
    assert_eq!(ranked[0].0, "x0");
    assert_eq!(ranked[0].1, 2);
    assert_eq!(ranked[1], ("sp".to_string(), 1));
    assert_eq!(churn.stops(), 3);
}

#[test]
fn churn_ignores_other_threads() {
    let mut churn = RegisterChurn::new();
    churn.observe(&set(0, 100));
    let mut other = set(5, 5);
    other.thread_id = ThreadId::new(2);
    assert!(churn.observe(&other).is_empty());
}

fn stepped(seq: u64, to: u64) -> SequencedEvent {
    SequencedEvent::new(
        EventSeq::new(seq),
        seq,
        DebugEvent::InstructionStepped { thread: ThreadId::new(1), from: None, to: Address::new(to) },
    )
}

fn symbols() -> SymbolIndex {
    let mut s = SymbolIndex::new();
    s.insert("main", Address::new(0x1000), 0x20, None);
    s.insert("helper", Address::new(0x1020), 0x10, None);
    s
}

#[test]
fn instruction_counts_group_by_function() {
    let mut syms = symbols();
    let mut counts = InstructionCounts::new();
    let mut trans = FunctionTransitions::new();
    let mut ctx = AnalysisContext::new(Some(&mut syms));
    for (seq, a) in [(1, 0x1000), (2, 0x1004), (3, 0x1020), (4, 0x1008)] {
        counts.on_event(&stepped(seq, a), &mut ctx);
        trans.on_event(&stepped(seq, a), &mut ctx);
    }
    let c = counts.findings();
    assert_eq!(c[0].analyzer, "instruction-counts");
    assert!(c[0].summary.contains("main"));
    let t = trans.findings();
    assert_eq!(t[0].analyzer, "function-transitions");
    assert!(t[0].summary.contains('2'));
}

#[test]
fn stop_summary_counts_reasons() {
    let mut a = StopSummary::new();
    let bp = SequencedEvent::new(
        EventSeq::new(1),
        0,
        DebugEvent::Stopped {
            thread: ThreadId::new(1),
            reason: StopReason::Breakpoint(BreakpointId::new(1)),
            pc: None,
        },
    );
    a.on_event(&bp);
    let f = a.findings();
    assert!(f[0].summary.contains("1 breakpoint"));
    assert_eq!(f[0].confidence, Confidence::High);
}

#[test]
fn stop_summary_text_and_evidence() {
    let mut a = StopSummary::new();
    let ev = |seq: u64, e: DebugEvent| SequencedEvent::untimed(EventSeq::new(seq), seq, e);
    a.on_event(&ev(1, DebugEvent::Stopped { thread: ThreadId::new(1), reason: StopReason::Step, pc: None }));
    a.on_event(&ev(2, DebugEvent::Stopped {
        thread: ThreadId::new(1),
        reason: StopReason::Signal("SIGINT".to_string()),
        pc: None,
    }));
    a.on_event(&ev(3, DebugEvent::SignalReceived { thread: ThreadId::new(1), signal: "SIGINT".to_string() }));
    a.on_event(&ev(4, DebugEvent::Stopped {
        thread: ThreadId::new(1),
        reason: StopReason::Exception("EXC_BAD_ACCESS".to_string()),
        pc: None,
    }));
    a.on_event(&ev(5, DebugEvent::ProcessExited { code: -3 }));
    let f = a.findings();
    assert_eq!(f.len(), 1);
    assert_eq!(f[0].summary, "3 stops: 0 breakpoint, 1 step; exited -3");
    assert_eq!(f[0].evidence, vec!["signal SIGINT x2".to_string(), "1 exception(s)".to_string()]);
    assert_eq!(a.name(), "stop-summary");
}

#[test]
fn hot_function_summary_and_percentage() {
    let mut syms = symbols();
    let mut counts = InstructionCounts::new();
    assert!(counts.findings().is_empty());
    let mut ctx = AnalysisContext::new(Some(&mut syms));
    for (seq, a) in [(1, 0x1000), (2, 0x1004), (3, 0x1020), (4, 0x5000)] {
        counts.on_event(&stepped(seq, a), &mut ctx);
    }
    let f = counts.findings();
    assert_eq!(f[0].summary, "4 stepped instruction(s); hottest: main (2 = 50%)");
    assert_eq!(f[0].location.as_deref(), Some("main"));
    assert_eq!(f[0].confidence, Confidence::Medium);
    assert_eq!(
        f[0].evidence,
        vec!["main: 2".to_string(), "<0x5000>: 1".to_string(), "helper: 1".to_string()]
    );
}

#[test]
fn percentage_rounds_half_to_even() {
    let mut counts = InstructionCounts::new();
    let mut ctx = AnalysisContext::empty();
    // 1 of 8 steps in the hottest bucket would be 12.5%; here 3 of 8 is 37.5%.
    for (seq, a) in [(1, 0x10), (2, 0x10), (3, 0x10), (4, 0x20), (5, 0x30), (6, 0x40), (7, 0x50), (8, 0x60)] {
        counts.on_event(&stepped(seq, a), &mut ctx);
    }
    let f = counts.findings();
    assert_eq!(f[0].summary, "8 stepped instruction(s); hottest: <0x10> (3 = 38%)");
}

#[test]
fn transitions_track_depth_and_returns() {
    let mut syms = symbols();
    syms.insert("leaf", Address::new(0x1040), 0x10, None);
    let mut trans = FunctionTransitions::new();
    assert!(trans.findings().is_empty());
    let mut ctx = AnalysisContext::new(Some(&mut syms));
    for (seq, a) in [(1, 0x1000), (2, 0x1020), (3, 0x1040), (4, 0x1004), (5, 0x1008)] {
        trans.on_event(&stepped(seq, a), &mut ctx);
    }
    let f = trans.findings();
    assert_eq!(f[0].summary, "3 function transition(s); inferred max stack depth 3");
    assert_eq!(f[0].related_events, vec![2, 3, 4]);
    assert_eq!(
        f[0].evidence,
        vec!["main -> helper".to_string(), "helper -> leaf".to_string(), "leaf -> main".to_string()]
    );
    assert_eq!(f[0].confidence, Confidence::Low);
    assert_eq!(FunctionTransitions::base_name("main+0x4"), "main");
    assert_eq!(FunctionTransitions::base_name("main"), "main");
}

#[test]
fn finding_builders_and_labels() {
    let f = Finding::new("a", "k", "s", Confidence::Low)
        .with_evidence("e1")
        .with_evidence("e2")
        .with_location("loc")
        .with_limitations("lim");
    assert_eq!(f.evidence, vec!["e1".to_string(), "e2".to_string()]);
    assert_eq!(f.location.as_deref(), Some("loc"));
    assert_eq!(f.limitations.as_deref(), Some("lim"));
    assert_eq!(Confidence::High.label(), "high");
    assert_eq!(Confidence::Medium.label(), "medium");
    assert_eq!(Confidence::Low.label(), "low");
}

#[test]
fn default_set_reports_stops_then_counts_then_transitions() {
    let mut syms = symbols();
    let mut set = default_analyzers();
    assert_eq!(set.len(), 3);
    assert!(!set.is_empty());
    let mut ctx = AnalysisContext::new(Some(&mut syms));
    for (seq, a) in [(1, 0x1000), (2, 0x1020)] {
        set.on_event(&stepped(seq, a), &mut ctx);
    }
    let f = set.findings();
    let names: Vec<&str> = f.iter().map(|x| x.analyzer.as_str()).collect();
    assert_eq!(names, vec!["stop-summary", "instruction-counts", "function-transitions"]);
    assert_eq!(f[0].summary, "0 stops: 0 breakpoint, 0 step");
    assert_eq!(f[1].summary, "2 stepped instruction(s); hottest: helper (1 = 50%)");
    assert_eq!(f[2].summary, "1 function transition(s); inferred max stack depth 2");
}

#[test]
fn empty_set_reports_nothing() {
    let set = AnalyzerSet::new();
    assert!(set.is_empty());
    assert_eq!(set.len(), 0);
    assert!(set.findings().is_empty());
}

#[test]
fn added_analyses_report_in_order_added() {
    let mut syms = symbols();
    let mut set = AnalyzerSet::new().with(Box::new(InstructionCounts::new()));
    set.push(Box::new(StopSummary::new()));
    assert_eq!(set.len(), 2);
    let mut ctx = AnalysisContext::new(Some(&mut syms));
    set.on_event(&stepped(1, 0x1000), &mut ctx);
    let f = set.findings();
    assert_eq!(f.len(), 2);
    assert_eq!(f[0].analyzer, "instruction-counts");
    assert_eq!(f[0].summary, "1 stepped instruction(s); hottest: main (1 = 100%)");
    assert_eq!(f[1].analyzer, "stop-summary");
}
