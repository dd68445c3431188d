use bind::bind_core::address::{Address, AddressRange};
use bind::bind_core::arch::Architecture;
use bind::bind_core::event::{DebugEvent, SequencedEvent};
use bind::bind_core::id::{EventSeq, ThreadId};
use bind::bind_core::model::StopReason;
use bind::trace::filter::TraceFilter;
use bind::trace::record::{sanitize_env, TraceMetadata, TraceRecord, SCHEMA_VERSION};
use bind::trace::recorder::{accept_trace, Replay, TraceRecorder};
use bind::trace::ring::RingBuffer;

#[test]
fn evicts_oldest_and_counts_drops() {
    let mut r = RingBuffer::new(3);
    for i in 0..5 {
        r.push(i);
    }
    assert_eq!(r.len(), 3);
    assert_eq!(r.dropped(), 2);
    assert_eq!(r.total(), 5);
    let items: Vec<_> = r.iter().copied().collect();
    assert_eq!(items, vec![2, 3, 4]);
}

#[test]
fn recent_returns_tail() {
    let mut r = RingBuffer::new(10);
    for i in 0..5 {
        r.push(i);
    }
    let last2: Vec<_> = r.recent(2).into_iter().copied().collect();
    assert_eq!(last2, vec![3, 4]);
}

#[test]
fn zero_capacity_is_clamped() {
    let mut r = RingBuffer::new(0);
    r.push(1);
    assert_eq!(r.len(), 1);
    assert_eq!(r.capacity(), 1);
}

#[test]
fn clear_resets_counters() {
    let mut r = RingBuffer::new(2);
    for i in 0..4 {
        r.push(i);
    }
    assert_eq!(r.last(), Some(&3));
    r.clear();
    assert!(r.is_empty());
    assert_eq!(r.total(), 0);
    assert_eq!(r.dropped(), 0);
}

fn stopped(thread: u64, pc: u64) -> SequencedEvent {
    SequencedEvent::new(
        EventSeq::new(1),
        0,
        DebugEvent::Stopped {
            thread: ThreadId::new(thread),
            reason: StopReason::Step,
            pc: Some(Address::new(pc)),
        },
    )
}

#[test]
fn kind_filter() {
    let f = TraceFilter::accept_all().with_kinds(&["continued"]);
    assert!(!f.accepts(&stopped(1, 0x1000)));
    let cont = SequencedEvent::new(EventSeq::new(1), 0, DebugEvent::Continued);
    assert!(f.accepts(&cont));
}

#[test]
fn thread_and_range_filter() {
    let f = TraceFilter::accept_all()
        .with_thread(ThreadId::new(1))
        .with_range(AddressRange::new(Address::new(0x1000), 0x100));
    assert!(f.accepts(&stopped(1, 0x1010)));
    assert!(!f.accepts(&stopped(2, 0x1010)));
    assert!(!f.accepts(&stopped(1, 0x2000)));
    assert!(!f.is_empty());
    assert!(TraceFilter::accept_all().is_empty());
}

#[test]
fn sanitize_drops_secrets() {
    let env = vec![
        ("PATH".to_string(), "/bin".to_string()),
        ("API_TOKEN".to_string(), "abc".to_string()),
        ("AWS_SECRET_ACCESS_KEY".to_string(), "xyz".to_string()),
        ("HOME".to_string(), "/home/x".to_string()),
    ];
    let clean = sanitize_env(&env);
    let keys: Vec<_> = clean.iter().map(|(k, _)| k.as_str()).collect();
    assert!(keys.contains(&"PATH"));
    assert!(keys.contains(&"HOME"));
    assert!(!keys.contains(&"API_TOKEN"));
    assert!(!keys.contains(&"AWS_SECRET_ACCESS_KEY"));
    assert_eq!(sanitize_env(&[("session_id".to_string(), "1".to_string())]).len(), 0);
}

#[test]
fn compatibility_check() {
    let mut m = TraceMetadata::new(Architecture::Aarch64);
    assert!(m.is_compatible());
    m.schema_version = SCHEMA_VERSION + 1;
    assert!(!m.is_compatible());
}

#[test]
fn incompatible_major_is_rejected() {
    let mut m = TraceMetadata::new(Architecture::Aarch64);
    m.schema_version = 999;
    let err = accept_trace(TraceRecord::new(m)).unwrap_err();
    assert_eq!(err.message(), "trace storage error: trace schema version 999 is newer than supported 1");
    assert!(accept_trace(TraceRecord::new(TraceMetadata::new(Architecture::Unknown))).is_ok());
}

fn ev(seq: u64) -> SequencedEvent {
    SequencedEvent::new(
        EventSeq::new(seq),
        seq,
        DebugEvent::Stopped { thread: ThreadId::new(1), reason: StopReason::Step, pc: None },
    )
}

#[test]
fn ring_bound_reports_drops() {
    let mut rec = TraceRecorder::new(TraceMetadata::new(Architecture::Unknown), 4);
    for i in 0..10 {
        rec.record(ev(i));
    }
    assert_eq!(rec.len(), 4);
    assert!(rec.dropped() >= 6);
    assert_eq!(rec.total(), 10);
}

#[test]
fn persisting_accumulates_every_accepted_event() {
    let mut rec = TraceRecorder::new(TraceMetadata::new(Architecture::Aarch64), 3);
    rec.record(ev(0));
    rec.start_persisting("t.bindtrace");
    assert!(rec.is_persisting());
    for i in 1..6 {
        rec.record(ev(i));
    }
    rec.set_filter(TraceFilter::accept_all().with_kinds(&["continued"]));
    rec.record(ev(6));
    let (record, path) = rec.stop_persisting().unwrap();
    assert_eq!(path, "t.bindtrace");
    assert_eq!(record.events.len(), 6);
    assert_eq!(record.metadata.dropped_events, 3 + 1);
    assert!(!rec.is_persisting());
    assert!(rec.stop_persisting().is_none());
    let mut replay = Replay::new(record);
    let mut count = 0;
    while replay.next_event().is_some() {
        count += 1;
    }
    assert_eq!(count, 6);
    assert_eq!(replay.position(), 6);
    replay.reset();
    assert_eq!(replay.position(), 0);
}

#[test]
fn recorder_metadata_changes_in_place() {
    let mut r = TraceRecorder::new(TraceMetadata::new(Architecture::Unknown), 4);
    r.metadata_mut().arch = Architecture::X86_64;
    r.metadata_mut().executable = Some("demo".to_string());
    assert_eq!(r.metadata().arch, Architecture::X86_64);
    assert_eq!(r.metadata().executable.as_deref(), Some("demo"));
    assert_eq!(r.total(), 0);
}
