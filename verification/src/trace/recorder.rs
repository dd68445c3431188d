//! Recording with a filter into a bounded ring, optional accumulation of the
//! full record for persistence, the compatibility gate for loaded traces, and
//! replay of a loaded trace with no debugger.
use vstd::prelude::*;
use std::collections::vec_deque::Iter;
use vstd::std_specs::iter::IteratorSpec;
use crate::bind_core::error::BindError;
use crate::bind_core::event::SequencedEvent;
use crate::bind_core::event::wall_clock_nanos;
use crate::num::{dec_digits, fmt_dec};
use crate::text::{push_chars, push_str, string_of};
use crate::trace::filter::{TraceFilter, accepts_spec};
use crate::trace::record::{SCHEMA_VERSION, TraceMetadata, TraceRecord};
use crate::trace::ring::{RingBuffer, min_nat};

verus! {

/// Default interactive retention: recent events kept in memory for the timeline.
pub const DEFAULT_RING_CAPACITY: usize = 50_000;

pub struct TraceRecorder {
    ring: RingBuffer<SequencedEvent>,
    filter: TraceFilter,
    /// When persisting: the accumulating full record and its destination.
    persistent: Option<(TraceRecord, String)>,
    /// Events rejected by the filter (still counted).
    filtered_out: u64,
    metadata: TraceMetadata,
}

impl TraceRecorder {
    pub closed spec fn wf(&self) -> bool {
        self.ring.wf()
    }

    /// The events kept in the interactive ring, oldest first.
    pub closed spec fn retained(&self) -> Seq<SequencedEvent> {
        self.ring.retained()
    }

    pub closed spec fn capacity(&self) -> nat {
        self.ring.cap()
    }

    /// Events that passed the filter.
    pub closed spec fn accepted_count(&self) -> nat {
        self.ring.total_count()
    }

    /// Events evicted from the ring.
    pub closed spec fn evicted_count(&self) -> nat {
        self.ring.dropped_count()
    }

    /// Events the filter rejected.
    pub closed spec fn rejected_count(&self) -> nat {
        self.filtered_out as nat
    }

    pub closed spec fn active_filter(&self) -> TraceFilter {
        self.filter
    }

    pub closed spec fn meta(&self) -> TraceMetadata {
        self.metadata
    }

    /// When persisting, the events accumulated for the record so far.
    pub closed spec fn persisted(&self) -> Option<Seq<SequencedEvent>> {
        match self.persistent {
            Some(p) => Some(p.0.events@),
            None => None,
        }
    }

    pub closed spec fn destination(&self) -> Option<Seq<char>> {
        match self.persistent {
            Some(p) => Some(p.1@),
            None => None,
        }
    }

    pub fn new(metadata: TraceMetadata, capacity: usize) -> (r: TraceRecorder)
        ensures
            r.wf(),
            r.meta() == metadata,
            r.capacity() == if capacity >= 1 {
                capacity as nat
            } else {
                1
            },
            r.retained().len() == 0,
            r.accepted_count() == 0,
            r.evicted_count() == 0,
            r.rejected_count() == 0,
            r.persisted() is None,
            r.active_filter().kinds@.len() == 0,
            r.active_filter().thread is None,
            r.active_filter().address_range is None,
    {
        TraceRecorder {
            ring: RingBuffer::new(capacity),
            filter: TraceFilter::accept_all(),
            persistent: None,
            filtered_out: 0,
            metadata,
        }
    }

    pub fn set_filter(&mut self, filter: TraceFilter)
        requires
            old(self).wf(),
        ensures
            final(self).wf(),
            final(self).active_filter() == filter,
            final(self).retained() == old(self).retained(),
            final(self).accepted_count() == old(self).accepted_count(),
            final(self).evicted_count() == old(self).evicted_count(),
            final(self).rejected_count() == old(self).rejected_count(),
            final(self).persisted() == old(self).persisted(),
            final(self).meta() == old(self).meta(),
    {
        self.filter = filter;
    }

    /// The session metadata, for reading.
    pub fn metadata(&self) -> (m: &TraceMetadata)
        ensures
            *m == self.meta(),
    {
        &self.metadata
    }

    /// The session metadata, to be changed in place; nothing else changes.
    pub fn metadata_mut(&mut self) -> (m: &mut TraceMetadata)
        ensures
            *m == old(self).meta(),
            final(self).meta() == *final(m),
            final(self).wf() == old(self).wf(),
            final(self).retained() == old(self).retained(),
            final(self).accepted_count() == old(self).accepted_count(),
            final(self).evicted_count() == old(self).evicted_count(),
            final(self).rejected_count() == old(self).rejected_count(),
            final(self).persisted() == old(self).persisted(),
            final(self).destination() == old(self).destination(),
            final(self).capacity() == old(self).capacity(),
            final(self).active_filter() == old(self).active_filter(),
    {
        &mut self.metadata
    }

    /// Replaces the session metadata (e.g. once the target's architecture is known).
    pub fn set_metadata(&mut self, metadata: TraceMetadata)
        requires
            old(self).wf(),
        ensures
            final(self).wf(),
            final(self).meta() == metadata,
            final(self).retained() == old(self).retained(),
            final(self).accepted_count() == old(self).accepted_count(),
            final(self).evicted_count() == old(self).evicted_count(),
            final(self).rejected_count() == old(self).rejected_count(),
            final(self).persisted() == old(self).persisted(),
            final(self).destination() == old(self).destination(),
            final(self).capacity() == old(self).capacity(),
            final(self).active_filter() == old(self).active_filter(),
    {
        self.metadata = metadata;
    }

    /// Begins persisting to `path`, seeding the record with the events already in
    /// the ring so that a mid-session start keeps the buffered history.
    pub fn start_persisting(&mut self, path: &str)
        requires
            old(self).wf(),
        ensures
            final(self).wf(),
            final(self).persisted() == Some(old(self).retained()),
            final(self).destination() == Some(path@),
            final(self).retained() == old(self).retained(),
            final(self).accepted_count() == old(self).accepted_count(),
            final(self).evicted_count() == old(self).evicted_count(),
            final(self).rejected_count() == old(self).rejected_count(),
            final(self).meta() == old(self).meta(),
            final(self).active_filter() == old(self).active_filter(),
    {
        let mut record = TraceRecord::new(self.metadata.dup());
        let n = self.ring.len();
        let items = self.ring.recent(n);
        let mut i: usize = 0;
        while i < items.len()
            invariant
                i <= items@.len(),
                items@.len() == self.ring.retained().len(),
                forall|j: int| 0 <= j < items@.len() ==> *items@[j] == self.ring.retained()[j],
                record.events@ =~= self.ring.retained().take(i as int),
            decreases items@.len() - i,
        {
            let e = items[i].dup();
            record.events.push(e);
            i = i + 1;
        }
        assert(self.ring.retained().take(i as int) =~= self.ring.retained());
        self.persistent = Some((record, path.to_owned()));
    }

    /// Stops persisting and hands back the finished record and its destination,
    /// with the drop count and end time filled in; `None` when not persisting.
    pub fn stop_persisting(&mut self) -> (r: Option<(TraceRecord, String)>)
        requires
            old(self).wf(),
            old(self).evicted_count() + old(self).rejected_count() <= u64::MAX,
        ensures
            final(self).wf(),
            final(self).persisted() is None,
            old(self).persisted() is None ==> r is None,
            old(self).persisted() is Some ==> r is Some,
            r matches Some((rec, path)) ==> {
                &&& Some(rec.events@) == old(self).persisted()
                &&& Some(path@) == old(self).destination()
                &&& rec.metadata.dropped_events == old(self).evicted_count() + old(self).rejected_count()
            },
            final(self).retained() == old(self).retained(),
            final(self).accepted_count() == old(self).accepted_count(),
            final(self).evicted_count() == old(self).evicted_count(),
            final(self).rejected_count() == old(self).rejected_count(),
            final(self).meta() == old(self).meta(),
            final(self).active_filter() == old(self).active_filter(),
    {
        let taken = self.persistent.take();
        match taken {
            Some((mut record, path)) => {
                record.metadata.dropped_events = self.ring.dropped() + self.filtered_out;
                record.metadata.ended_at = wall_clock_nanos();
                Some((record, path))
            },
            None => None,
        }
    }

    pub fn is_persisting(&self) -> (b: bool)
        ensures
            b == (self.persisted() is Some),
    {
        self.persistent.is_some()
    }

    /// Records one event subject to the active filter.
    pub fn record(&mut self, event: SequencedEvent)
        requires
            old(self).wf(),
            old(self).accepted_count() < u64::MAX,
            old(self).rejected_count() < u64::MAX,
        ensures
            final(self).wf(),
            final(self).meta() == old(self).meta(),
            final(self).active_filter() == old(self).active_filter(),
            final(self).capacity() == old(self).capacity(),
            final(self).destination() == old(self).destination(),
            accepts_spec(old(self).active_filter(), event.event) ==> {
                &&& final(self).retained() == if old(self).retained().len() == old(self).capacity() {
                    old(self).retained().drop_first().push(event)
                } else {
                    old(self).retained().push(event)
                }
                &&& final(self).accepted_count() == old(self).accepted_count() + 1
                &&& final(self).evicted_count() == old(self).evicted_count() + if old(self).retained().len() == old(self).capacity() {
                    1nat
                } else {
                    0nat
                }
                &&& final(self).rejected_count() == old(self).rejected_count()
                &&& final(self).persisted() == match old(self).persisted() {
                    Some(p) => Some(p.push(event)),
                    None => None,
                }
            },
            !accepts_spec(old(self).active_filter(), event.event) ==> {
                &&& final(self).retained() == old(self).retained()
                &&& final(self).accepted_count() == old(self).accepted_count()
                &&& final(self).evicted_count() == old(self).evicted_count()
                &&& final(self).rejected_count() == old(self).rejected_count() + 1
                &&& final(self).persisted() == old(self).persisted()
            },
    {
        if !self.filter.accepts(&event) {
            self.filtered_out = self.filtered_out + 1;
            return;
        }
        match &mut self.persistent {
            Some(p) => {
                p.0.events.push(event.dup());
            },
            None => {},
        }
        self.ring.push(event);
    }

    /// The most recent `n` retained events, oldest first.
    pub fn recent(&self, n: usize) -> (r: Vec<&SequencedEvent>)
        requires
            self.wf(),
        ensures
            r@.len() == min_nat(n as nat, self.retained().len()),
            forall|i: int|
                0 <= i < r@.len() ==> *r@[i] == self.retained()[self.retained().len() - r@.len()
                    + i],
    {
        self.ring.recent(n)
    }

    pub fn len(&self) -> (n: usize)
        requires
            self.wf(),
        ensures
            n == self.retained().len(),
    {
        self.ring.len()
    }

    pub fn is_empty(&self) -> (b: bool)
        requires
            self.wf(),
        ensures
            b == (self.retained().len() == 0),
    {
        self.ring.is_empty()
    }

    /// Whether another event can be recorded with every count still in range.
    pub fn room_to_record(&self) -> (b: bool)
        requires
            self.wf(),
            self.evicted_count() + self.rejected_count() <= u64::MAX,
        ensures
            b == (self.accepted_count() < u64::MAX && self.evicted_count() + self.rejected_count() < u64::MAX),
    {
        let total = self.ring.total();
        let dropped = self.dropped();
        total < u64::MAX && dropped < u64::MAX
    }

    /// Events that passed the filter (retained + evicted).
    pub fn total(&self) -> (n: u64)
        requires
            self.wf(),
        ensures
            n == self.accepted_count(),
    {
        self.ring.total()
    }

    /// Events not retained in memory: evicted plus filtered out.
    pub fn dropped(&self) -> (n: u64)
        requires
            self.wf(),
            self.evicted_count() + self.rejected_count() <= u64::MAX,
        ensures
            n == self.evicted_count() + self.rejected_count(),
    {
        self.ring.dropped() + self.filtered_out
    }

    pub fn last(&self) -> (r: Option<&SequencedEvent>)
        requires
            self.wf(),
        ensures
            self.retained().len() == 0 ==> r is None,
            self.retained().len() > 0 ==> r == Some(&self.retained().last()),
    {
        self.ring.last()
    }

    pub fn iter(&self) -> (it: Iter<'_, SequencedEvent>)
        requires
            self.wf(),
        ensures
            it.remaining() == self.retained().map_values(|x: SequencedEvent| &x),
    {
        self.ring.iter()
    }
}

/// The text of the error that refuses a trace of a newer major version.
pub open spec fn newer_schema_message(v: u32) -> Seq<char> {
    "trace schema version "@ + dec_digits(v as nat) + " is newer than supported "@ + dec_digits(
        SCHEMA_VERSION as nat,
    )
}

/// Accepts a decoded trace unless its schema major is newer than this reader's.
pub fn accept_trace(record: TraceRecord) -> (r: Result<TraceRecord, BindError>)
    ensures
        record.metadata.schema_version <= SCHEMA_VERSION ==> r == Ok::<TraceRecord, BindError>(
            record,
        ),
        record.metadata.schema_version > SCHEMA_VERSION ==> (r matches Err(BindError::Trace(m))
            && m@ == newer_schema_message(record.metadata.schema_version)),
{
    if !record.metadata.is_compatible() {
        let mut v: Vec<char> = Vec::new();
        push_str(&mut v, "trace schema version ");
        let a = fmt_dec(record.metadata.schema_version as u64);
        push_chars(&mut v, a.as_slice());
        push_str(&mut v, " is newer than supported ");
        let b = fmt_dec(SCHEMA_VERSION as u64);
        push_chars(&mut v, b.as_slice());
        return Err(BindError::Trace(string_of(v.as_slice())));
    }
    Ok(record)
}

/// A replay cursor over a loaded trace.
pub struct Replay {
    record: TraceRecord,
    pos: usize,
}

impl Replay {
    pub closed spec fn events_spec(&self) -> Seq<SequencedEvent> {
        self.record.events@
    }

    pub closed spec fn pos_spec(&self) -> nat {
        self.pos as nat
    }

    pub closed spec fn meta(&self) -> TraceMetadata {
        self.record.metadata
    }

    pub closed spec fn wf(&self) -> bool {
        self.pos <= self.record.events@.len()
    }

    pub fn new(record: TraceRecord) -> (r: Replay)
        ensures
            r.wf(),
            r.events_spec() == record.events@,
            r.meta() == record.metadata,
            r.pos_spec() == 0,
    {
        Replay { record, pos: 0 }
    }

    pub fn metadata(&self) -> (m: &TraceMetadata)
        ensures
            *m == self.meta(),
    {
        &self.record.metadata
    }

    pub fn len(&self) -> (n: usize)
        ensures
            n == self.events_spec().len(),
    {
        self.record.events.len()
    }

    pub fn is_empty(&self) -> (b: bool)
        ensures
            b == (self.events_spec().len() == 0),
    {
        self.record.events.len() == 0
    }

    pub fn position(&self) -> (n: usize)
        ensures
            n == self.pos_spec(),
    {
        self.pos
    }

    pub fn reset(&mut self)
        requires
            old(self).wf(),
        ensures
            final(self).wf(),
            final(self).pos_spec() == 0,
            final(self).events_spec() == old(self).events_spec(),
            final(self).meta() == old(self).meta(),
    {
        self.pos = 0;
    }

    /// Advances to and returns the next event; `None` (and no move) at the end.
    pub fn next_event(&mut self) -> (r: Option<&SequencedEvent>)
        requires
            old(self).wf(),
        ensures
            final(self).wf(),
            final(self).events_spec() == old(self).events_spec(),
            final(self).meta() == old(self).meta(),
            old(self).pos_spec() < old(self).events_spec().len() ==> r == Some(
                &old(self).events_spec()[old(self).pos_spec() as int],
            ) && final(self).pos_spec() == old(self).pos_spec() + 1,
            old(self).pos_spec() == old(self).events_spec().len() ==> r is None && final(self).pos_spec() == old(self).pos_spec(),
    {
        if self.pos < self.record.events.len() {
            let i = self.pos;
            self.pos = self.pos + 1;
            Some(&self.record.events[i])
        } else {
            None
        }
    }

    pub fn events(&self) -> (r: &[SequencedEvent])
        ensures
            r@ == self.events_spec(),
    {
        self.record.events.as_slice()
    }
}

} // verus!
