//! The interface state and its input handling.
//!
//! `UiState` is a pure state machine: it folds worker updates into a
//! renderable model and turns key events into typed commands for the
//! worker while changing its own view state directly. It performs no I/O:
//! writing a finished trace and running the analyzers are the caller's part.
use std::collections::VecDeque;
use vstd::prelude::*;
use crate::analysis::analyzer::{AnalysisContext, AnalyzerSet, default_analyzers, lemma_context_done, set_reported, set_took};
use crate::analysis::finding::Finding;
use crate::bind_core::address::Address;
use crate::bind_core::arch::Architecture;
use crate::bind_core::command::{Command, StepKind};
use crate::bind_core::error::{category_of, message_of};
use crate::bind_core::event::SequencedEvent;
use crate::bind_core::model::{BreakpointLocation, Instruction, Frame, dup_opt_string};
use crate::bind_core::snapshot::{SessionSnapshot, selected_index_frames};
use crate::debugger::worker::WorkerUpdate;
use crate::num::{dec_digits, fmt_dec, hex_addr};
use crate::storage::Preferences;
use crate::symbols::index::{SymbolIndex, first_named};
use crate::text::{chars_of, push_chars, push_str, string_of, trim, words};
use crate::trace::record::{TraceMetadata, TraceRecord};
use crate::trace::recorder::TraceRecorder;
use crate::tui::palette::{
    LayoutMode, Panel, Parsed, UiAction, parse, palette_parsed, simple_command, lemma_palette_execution_commands,
};

verus! {

/// How many recent events the interactive timeline keeps.
pub const TIMELINE_CAP: usize = 1000;

#[derive(Debug, Clone, Copy, PartialEq, Eq, Structural)]
pub enum Mode {
    Normal,
    Palette,
    Help,
}

/// A memory view request and its result.
#[derive(Debug, Clone)]
pub struct MemoryView {
    pub addr: Address,
    pub len: usize,
    pub bytes: Vec<u8>,
}

impl Default for MemoryView {
    fn default() -> (m: MemoryView)
        ensures
            m.addr == Address(0) && m.len == 0 && m.bytes@.len() == 0,
    {
        MemoryView { addr: Address(0), len: 0, bytes: Vec::new() }
    }
}

/// A key, as far as the interface tells keys apart.
#[derive(Debug, Clone, Copy, PartialEq, Eq, Structural)]
pub enum KeyCode {
    Char(char),
    Tab,
    BackTab,
    Up,
    Down,
    Esc,
    Backspace,
    Enter,
    Other,
}

/// A key press and whether Control was held.
#[derive(Debug, Clone, Copy, PartialEq, Eq, Structural)]
pub struct KeyEvent {
    pub code: KeyCode,
    pub ctrl: bool,
}

impl KeyEvent {
    pub fn new(code: KeyCode, ctrl: bool) -> (k: KeyEvent)
        ensures
            k == (KeyEvent { code, ctrl }),
    {
        KeyEvent { code, ctrl }
    }
}

pub struct UiState {
    pub snapshot: SessionSnapshot,
    pub timeline: VecDeque<SequencedEvent>,
    pub focus: Panel,
    pub layout: LayoutMode,
    pub mode: Mode,
    pub palette_input: String,
    pub status: String,
    pub error: Option<String>,
    pub help_topic: Option<String>,
    pub selected_timeline: usize,
    pub memory: Option<MemoryView>,
    pub findings: Vec<Finding>,
    pub prefs: Preferences,
    pub should_quit: bool,
    /// The symbols seen so far, for the analyses.
    pub symbols: SymbolIndex,
    /// The analyses run over the events.
    pub analyzers: AnalyzerSet,
    /// The bounded trace recorder.
    pub recorder: TraceRecorder,
    /// A memory read requested and not yet answered.
    pub pending_memory: Option<(Address, usize)>,
    /// A trace that was stopped and is to be written out.
    pub trace_to_write: Option<(TraceRecord, String)>,
}

/// The panel after `p` in the focus cycle.
pub open spec fn next_panel_spec(p: Panel) -> Panel {
    match p {
        Panel::Code => Panel::Registers,
        Panel::Registers => Panel::Stack,
        Panel::Stack => Panel::Timeline,
        Panel::Timeline => Panel::Code,
    }
}

/// The panel before `p` in the focus cycle.
pub open spec fn prev_panel_spec(p: Panel) -> Panel {
    match p {
        Panel::Code => Panel::Timeline,
        Panel::Registers => Panel::Code,
        Panel::Stack => Panel::Registers,
        Panel::Timeline => Panel::Stack,
    }
}

pub fn next_panel(p: Panel) -> (r: Panel)
    ensures
        r == next_panel_spec(p),
{
    match p {
        Panel::Code => Panel::Registers,
        Panel::Registers => Panel::Stack,
        Panel::Stack => Panel::Timeline,
        Panel::Timeline => Panel::Code,
    }
}

pub fn prev_panel(p: Panel) -> (r: Panel)
    ensures
        r == prev_panel_spec(p),
{
    match p {
        Panel::Code => Panel::Timeline,
        Panel::Registers => Panel::Code,
        Panel::Stack => Panel::Registers,
        Panel::Timeline => Panel::Stack,
    }
}

/// The timeline selection moved by `delta`, kept within the timeline; only
/// while the timeline has the focus and holds events.
pub open spec fn moved_selection(s: UiState, delta: int) -> usize {
    if s.focus == Panel::Timeline && s.timeline@.len() > 0 {
        let cur = s.selected_timeline + delta;
        let max = s.timeline@.len() - 1;
        (if cur < 0 { 0 } else if cur > max { max } else { cur }) as usize
    } else {
        s.selected_timeline
    }
}

/// The address of the first current instruction, else the selected frame's pc.
pub open spec fn current_pc(snap: SessionSnapshot) -> Option<Address> {
    if exists|i: int| 0 <= i < snap.disassembly@.len() && snap.disassembly@[i].is_current {
        Some(snap.disassembly@[choose|i: int| 0 <= i < snap.disassembly@.len() && snap.disassembly@[i].is_current
            && forall|j: int| 0 <= j < i ==> !snap.disassembly@[j].is_current].address)
    } else if selected_index_frames(snap.frames@) >= 0 {
        Some(snap.frames@[selected_index_frames(snap.frames@)].pc)
    } else {
        None
    }
}

/// The first breakpoint resolved at `pc`, by index; -1 if none.
pub open spec fn breakpoint_at_from(snap: SessionSnapshot, pc: Address, i: int) -> int
    decreases snap.breakpoints@.len() - i,
{
    if i < 0 || i >= snap.breakpoints@.len() {
        -1
    } else if exists|k: int| 0 <= k < snap.breakpoints@[i].resolved@.len() && (#[trigger] snap.breakpoints@[i].resolved@[k]).address == pc {
        i
    } else {
        breakpoint_at_from(snap, pc, i + 1)
    }
}

/// Toggling the breakpoint at the current instruction: removing the first
/// breakpoint resolved there, else adding one by address.
pub open spec fn toggled(a: UiState, b: UiState, cmds: Seq<Command>) -> bool {
    match current_pc(a.snapshot) {
        None => {
            &&& b == (UiState { error: b.error, ..a })
            &&& b.error matches Some(e) && e@ == "no current instruction to toggle a breakpoint on"@
            &&& cmds.len() == 0
        },
        Some(pc) => {
            let k = breakpoint_at_from(a.snapshot, pc, 0);
            &&& b == (UiState { status: b.status, ..a })
            &&& if k >= 0 {
                let id = a.snapshot.breakpoints@[k].id;
                &&& b.status@ == "removing breakpoint #"@ + dec_digits(id.0 as nat) + " at "@ + hex_addr(pc.0 as nat)
                &&& cmds == seq![Command::RemoveBreakpoint(id)]
            } else {
                &&& b.status@ == "breakpoint at "@ + hex_addr(pc.0 as nat)
                &&& cmds == seq![Command::AddBreakpoint { location: BreakpointLocation::Address(pc), condition: None }]
            }
        },
    }
}

/// A key in normal mode (any error is cleared first).
pub open spec fn normal_key(a: UiState, code: KeyCode, b: UiState, cmds: Seq<Command>) -> bool {
    let a1 = UiState { error: None, ..a };
    match code {
        KeyCode::Char(':') => b == (UiState { mode: Mode::Palette, palette_input: b.palette_input, ..a1 })
            && b.palette_input@.len() == 0 && cmds.len() == 0,
        KeyCode::Char('?') => b == (UiState { mode: Mode::Help, ..a1 }) && cmds.len() == 0,
        KeyCode::Char('q') => b == (UiState { should_quit: true, ..a1 }) && cmds.len() == 0,
        KeyCode::Tab => b == (UiState { focus: next_panel_spec(a.focus), ..a1 }) && cmds.len() == 0,
        KeyCode::BackTab => b == (UiState { focus: prev_panel_spec(a.focus), ..a1 }) && cmds.len() == 0,
        KeyCode::Char('c') => b == a1 && cmds == seq![Command::Continue],
        KeyCode::Char('s') => b == a1 && cmds == seq![Command::Step(StepKind::Into)],
        KeyCode::Char('n') => b == a1 && cmds == seq![Command::Step(StepKind::Over)],
        KeyCode::Char('o') => b == a1 && cmds == seq![Command::Step(StepKind::Out)],
        KeyCode::Char('i') => b == a1 && cmds == seq![Command::Step(StepKind::Instruction)],
        KeyCode::Char('p') => b == a1 && cmds == seq![Command::Pause],
        KeyCode::Char('b') => toggled(a1, b, cmds),
        KeyCode::Up => b == (UiState { selected_timeline: moved_selection(a, -1), ..a1 }) && cmds.len() == 0,
        KeyCode::Char('k') => b == (UiState { selected_timeline: moved_selection(a, -1), ..a1 }) && cmds.len() == 0,
        KeyCode::Down => b == (UiState { selected_timeline: moved_selection(a, 1), ..a1 }) && cmds.len() == 0,
        KeyCode::Char('j') => b == (UiState { selected_timeline: moved_selection(a, 1), ..a1 }) && cmds.len() == 0,
        _ => b == a1 && cmds.len() == 0,
    }
}

/// Two trace headers agree apart from the target's architecture and
/// executable.
pub open spec fn meta_agrees(x: TraceMetadata, y: TraceMetadata) -> bool {
    &&& x.schema_version == y.schema_version
    &&& x.bind_version == y.bind_version
    &&& x.lldb_version == y.lldb_version
    &&& x.host_os == y.host_os
    &&& x.executable_hash == y.executable_hash
    &&& x.command_line@ == y.command_line@
    &&& x.environment@ == y.environment@
    &&& x.modules@ == y.modules@
    &&& x.started_at == y.started_at
    &&& x.ended_at == y.ended_at
    &&& x.policy == y.policy
    &&& x.dropped_events == y.dropped_events
}

/// Two recorders agree apart from their header.
pub open spec fn recorder_agrees(x: TraceRecorder, y: TraceRecorder) -> bool {
    &&& x.wf() == y.wf()
    &&& x.retained() == y.retained()
    &&& x.capacity() == y.capacity()
    &&& x.accepted_count() == y.accepted_count()
    &&& x.evicted_count() == y.evicted_count()
    &&& x.rejected_count() == y.rejected_count()
    &&& x.persisted() == y.persisted()
    &&& x.destination() == y.destination()
    &&& x.active_filter() == y.active_filter()
}

/// The symbol names (with their starts) gathered from a snapshot: each
/// instruction symbol with a start, then each frame's function with a
/// start, when the name is not yet known.
pub open spec fn named_views(s: Seq<(String, Address)>) -> Seq<(Seq<char>, Address)> {
    s.map_values(|p: (String, Address)| (p.0@, p.1))
}

pub open spec fn knows(v: Seq<(Seq<char>, Address)>, n: Seq<char>) -> bool {
    exists|i: int| 0 <= i < v.len() && (#[trigger] v[i]).0 == n
}

pub open spec fn learn(v: Seq<(Seq<char>, Address)>, n: Seq<char>, start: Option<Address>) -> Seq<(Seq<char>, Address)> {
    match start {
        Some(a) => if knows(v, n) { v } else { v.push((n, a)) },
        None => v,
    }
}

pub open spec fn learn_insns(v: Seq<(Seq<char>, Address)>, insns: Seq<Instruction>) -> Seq<(Seq<char>, Address)>
    decreases insns.len(),
{
    if insns.len() == 0 {
        v
    } else {
        let w = learn_insns(v, insns.drop_last());
        match insns.last().symbol {
            Some(sym) => learn(w, sym.name@, sym.start),
            None => w,
        }
    }
}

pub open spec fn learn_frames(v: Seq<(Seq<char>, Address)>, frames: Seq<Frame>) -> Seq<(Seq<char>, Address)>
    decreases frames.len(),
{
    if frames.len() == 0 {
        v
    } else {
        let w = learn_frames(v, frames.drop_last());
        match (frames.last().symbol, frames.last().function) {
            (Some(sym), Some(func)) => learn(w, func@, sym.start),
            _ => w,
        }
    }
}

proof fn lemma_first_named_none(s: Seq<(String, Address)>, n: Seq<char>, i: int)
    requires
        0 <= i,
        crate::symbols::index::first_named_from(s, n, i) is None,
    ensures
        forall|j: int| i <= j < s.len() ==> (#[trigger] s[j]).0@ != n,
    decreases s.len() - i,
{
    if i < s.len() {
        lemma_first_named_none(s, n, i + 1);
    }
}

proof fn lemma_first_named_some(s: Seq<(String, Address)>, n: Seq<char>, i: int)
    requires
        0 <= i,
        crate::symbols::index::first_named_from(s, n, i) is Some,
    ensures
        exists|j: int| i <= j < s.len() && (#[trigger] s[j]).0@ == n,
    decreases s.len() - i,
{
    if i < s.len() && s[i].0@ != n {
        lemma_first_named_some(s, n, i + 1);
    }
}

/// The state is well formed: its index and recorder are, and the
/// recorder's drop count is in range.
pub open spec fn state_wf(s: UiState) -> bool {
    &&& s.symbols.wf()
    &&& s.analyzers.wf()
    &&& s.recorder.wf()
    &&& s.recorder.evicted_count() + s.recorder.rejected_count() <= u64::MAX
    &&& s.timeline@.len() <= TIMELINE_CAP
}

/// The timeline after an event: the oldest dropped at the cap; the
/// selection follows the newest event when it was at the end.
pub open spec fn timeline_after(t: Seq<SequencedEvent>, sel: usize, ev: SequencedEvent) -> (Seq<SequencedEvent>, usize) {
    let t1 = if t.len() == TIMELINE_CAP { t.drop_first() } else { t };
    let t2 = t1.push(ev);
    (t2, if sel + 1 >= t1.len() { (t2.len() - 1) as usize } else { sel })
}

/// What the recorder's `record` does with an event.
pub open spec fn recorded_into(x: TraceRecorder, ev: SequencedEvent, y: TraceRecorder) -> bool {
    &&& y.wf()
    &&& y.meta() == x.meta()
    &&& y.active_filter() == x.active_filter()
    &&& y.capacity() == x.capacity()
    &&& y.destination() == x.destination()
    &&& if crate::trace::filter::accepts_spec(x.active_filter(), ev.event) {
        &&& y.retained() == if x.retained().len() == x.capacity() { x.retained().drop_first().push(ev) } else { x.retained().push(ev) }
        &&& y.accepted_count() == x.accepted_count() + 1
        &&& y.evicted_count() == x.evicted_count() + if x.retained().len() == x.capacity() { 1nat } else { 0nat }
        &&& y.rejected_count() == x.rejected_count()
        &&& y.persisted() == match x.persisted() {
            Some(p) => Some(p.push(ev)),
            None => None,
        }
    } else {
        &&& y.retained() == x.retained()
        &&& y.accepted_count() == x.accepted_count()
        &&& y.evicted_count() == x.evicted_count()
        &&& y.rejected_count() == x.rejected_count() + 1
        &&& y.persisted() == x.persisted()
    }
}

/// What a worker update does to the state.
pub open spec fn update_applied(a: UiState, u: WorkerUpdate, b: UiState) -> bool {
    match u {
        WorkerUpdate::Snapshot(snap) => {
            &&& b.snapshot == *snap
            &&& named_views(b.symbols.named()) == learn_frames(learn_insns(named_views(a.symbols.named()), snap.disassembly@), snap.frames@)
            &&& recorder_agrees(b.recorder, a.recorder)
            &&& meta_agrees(b.recorder.meta(), a.recorder.meta())
            &&& b.recorder.meta().arch == if a.recorder.meta().arch == Architecture::Unknown { snap.process.arch } else { a.recorder.meta().arch }
            &&& b.recorder.meta().executable == if a.recorder.meta().executable is None { snap.program } else { a.recorder.meta().executable }
            &&& b == (UiState { snapshot: b.snapshot, symbols: b.symbols, recorder: b.recorder, ..a })
        },
        WorkerUpdate::Event(ev) => {
            let (t, sel) = timeline_after(a.timeline@, a.selected_timeline, ev);
            &&& b.timeline@ == t
            &&& b.selected_timeline == sel
            &&& if a.recorder.accepted_count() < u64::MAX && a.recorder.evicted_count() + a.recorder.rejected_count() < u64::MAX {
                recorded_into(a.recorder, ev, b.recorder)
            } else {
                b.recorder == a.recorder
            }
            &&& set_took(a.analyzers, ev, Some(a.symbols), b.analyzers)
            &&& set_reported(b.analyzers, b.findings@)
            &&& b.symbols.entries() == a.symbols.entries() && b.symbols.named() == a.symbols.named()
            &&& b == (UiState {
                timeline: b.timeline,
                selected_timeline: b.selected_timeline,
                recorder: b.recorder,
                analyzers: b.analyzers,
                findings: b.findings,
                symbols: b.symbols,
                ..a
            })
        },
        WorkerUpdate::Memory { addr, bytes } => {
            let len = match a.pending_memory {
                Some((pa, l)) => if pa == addr { l } else { bytes@.len() as usize },
                None => bytes@.len() as usize,
            };
            b == (UiState {
                memory: Some(MemoryView { addr, len, bytes }),
                pending_memory: None,
                focus: Panel::Registers,
                ..a
            })
        },
        WorkerUpdate::CommandError(err) => {
            &&& b == (UiState { error: b.error, ..a })
            &&& b.error matches Some(e) && e@ == seq!['['] + category_of(err) + "] "@ + message_of(err)
        },
        WorkerUpdate::Shutdown => b == (UiState { status: b.status, ..a }) && b.status@ == "debugger stopped"@,
    }
}

/// Starting a trace: the header names the program; with a path the
/// recorder persists there.
pub open spec fn trace_started(a: UiState, path: Option<String>, b: UiState) -> bool {
    &&& b == (UiState { recorder: b.recorder, status: b.status, ..a })
    &&& state_wf(b)
    &&& meta_agrees(b.recorder.meta(), a.recorder.meta())
    &&& b.recorder.meta().arch == a.recorder.meta().arch
    &&& b.recorder.meta().executable == a.snapshot.program
    &&& b.recorder.retained() == a.recorder.retained()
    &&& b.recorder.accepted_count() == a.recorder.accepted_count()
    &&& b.recorder.evicted_count() == a.recorder.evicted_count()
    &&& b.recorder.rejected_count() == a.recorder.rejected_count()
    &&& b.recorder.active_filter() == a.recorder.active_filter()
    &&& path is Some ==> {
        &&& b.recorder.persisted() == Some(a.recorder.retained())
        &&& b.recorder.destination() == Some(path->0@)
        &&& b.status@ == "recording trace -> "@ + path->0@
    }
    &&& path is None ==> {
        &&& b.recorder.persisted() == a.recorder.persisted()
        &&& b.recorder.destination() == a.recorder.destination()
        &&& b.status@ == "recording trace (in-memory ring)"@
    }
}

/// Stopping a trace: a persisted one is handed out to be written;
/// otherwise the status says there was none.
pub open spec fn trace_stopped(a: UiState, b: UiState) -> bool {
    &&& state_wf(b)
    &&& b.recorder.persisted() is None
    &&& b.recorder.retained() == a.recorder.retained()
    &&& b.recorder.meta() == a.recorder.meta()
    &&& match a.recorder.persisted() {
        Some(events) => {
            &&& b == (UiState { recorder: b.recorder, trace_to_write: b.trace_to_write, ..a })
            &&& b.trace_to_write matches Some((rec, path)) && rec.events@ == events && Some(path@) == a.recorder.destination()
                && rec.metadata.dropped_events == a.recorder.evicted_count() + a.recorder.rejected_count()
        },
        None => {
            &&& b == (UiState { recorder: b.recorder, status: b.status, ..a })
            &&& b.status@ == "trace stopped (was not persisting)"@
        },
    }
}

/// What an interface action does.
pub open spec fn ui_action_done(a: UiState, act: UiAction, b: UiState, cmds: Seq<Command>) -> bool {
    match act {
        UiAction::Quit => b == (UiState { should_quit: true, ..a }) && cmds.len() == 0,
        UiAction::Help(t) => b == (UiState { help_topic: t, mode: Mode::Help, ..a }) && cmds.len() == 0,
        UiAction::Layout(m) => b == (UiState { layout: m, ..a }) && cmds.len() == 0,
        UiAction::FocusPanel(p) => b == (UiState { focus: p, ..a }) && cmds.len() == 0,
        UiAction::Search(term) => b == (UiState { status: b.status, ..a }) && b.status@ == "search: "@ + term@
            && cmds.len() == 0,
        UiAction::ShowMemory { addr, len } => {
            &&& b == (UiState { pending_memory: Some((addr, len)), status: b.status, ..a })
            &&& b.status@ == "reading "@ + dec_digits(len as nat) + " bytes at "@ + hex_addr(addr.0 as nat)
            &&& cmds == seq![Command::ReadMemory { addr, len }]
        },
        UiAction::TraceStart { path } => trace_started(a, path, b) && cmds.len() == 0,
        UiAction::TraceStop => trace_stopped(a, b) && cmds.len() == 0,
    }
}

/// What a palette line does, `r` being its parse.
pub open spec fn palette_ran(a: UiState, input: Seq<char>, r: Result<Option<Parsed>, String>, b: UiState, cmds: Seq<Command>) -> bool {
    match r {
        Ok(None) => b == a && cmds.len() == 0,
        Ok(Some(Parsed::Command(c))) => b == (UiState { status: b.status, ..a }) && b.status@ == "> "@ + input
            && cmds == seq![c],
        Ok(Some(Parsed::Ui(act))) => ui_action_done(a, act, b, cmds),
        Err(m) => b == (UiState { error: Some(m), ..a }) && cmds.len() == 0,
    }
}

/// A key in palette mode: editing the line, leaving, or running it.
pub open spec fn palette_key(a: UiState, code: KeyCode, b: UiState, cmds: Seq<Command>) -> bool {
    match code {
        KeyCode::Esc => b == (UiState { mode: Mode::Normal, palette_input: b.palette_input, ..a })
            && b.palette_input@.len() == 0 && cmds.len() == 0,
        KeyCode::Backspace => b == (UiState { palette_input: b.palette_input, ..a })
            && b.palette_input@ == (if a.palette_input@.len() > 0 { a.palette_input@.drop_last() } else { a.palette_input@ })
            && cmds.len() == 0,
        KeyCode::Char(c) => b == (UiState { palette_input: b.palette_input, ..a })
            && b.palette_input@ == a.palette_input@.push(c) && cmds.len() == 0,
        KeyCode::Enter => b.palette_input@.len() == 0 && exists|r: Result<Option<Parsed>, String>|
            #[trigger] palette_parsed(a.palette_input@, r)
                && palette_ran(UiState { mode: Mode::Normal, palette_input: b.palette_input, ..a }, a.palette_input@, r, b, cmds),
        _ => b == a && cmds.len() == 0,
    }
}

/// What a key does: Control-C quits from any mode; in help any key returns
/// to normal mode.
pub open spec fn key_handled(a: UiState, key: KeyEvent, b: UiState, cmds: Seq<Command>) -> bool {
    if key.code == KeyCode::Char('c') && key.ctrl {
        b == (UiState { should_quit: true, ..a }) && cmds.len() == 0
    } else {
        match a.mode {
            Mode::Normal => normal_key(a, key.code, b, cmds),
            Mode::Palette => palette_key(a, key.code, b, cmds),
            Mode::Help => b == (UiState { mode: Mode::Normal, ..a }) && cmds.len() == 0,
        }
    }
}

proof fn lemma_knows_first_named(s: Seq<(String, Address)>, n: Seq<char>)
    ensures
        knows(named_views(s), n) <==> first_named(s, n) is Some,
{
    let v = named_views(s);
    if first_named(s, n) is Some {
        lemma_first_named_some(s, n, 0);
        let j = choose|j: int| 0 <= j < s.len() && (#[trigger] s[j]).0@ == n;
        assert(v[j].0 == n);
    } else {
        lemma_first_named_none(s, n, 0);
        assert forall|i: int| 0 <= i < v.len() implies (#[trigger] v[i]).0 != n by {
            assert(s[i].0@ != n);
        }
    }
}

/// Learns one symbol name into the index when it has a start and is not
/// yet known.
fn learn_one(symbols: &mut SymbolIndex, name: &str, start: Option<Address>, module: Option<String>)
    requires
        old(symbols).wf(),
    ensures
        final(symbols).wf(),
        named_views(final(symbols).named()) == learn(named_views(old(symbols).named()), name@, start),
{
    proof {
        lemma_knows_first_named(symbols.named(), name@);
    }
    match start {
        Some(a) => {
            if symbols.address_of(name).is_none() {
                let ghost before = symbols.named();
                symbols.insert(name, a, 0, module);
                proof {
                    let after = symbols.named();
                    assert(after == before.push(after.last()));
                    assert(named_views(after) =~= named_views(before).push((name@, a)));
                }
            }
        },
        None => {},
    }
}

/// Learns the symbols a snapshot names: each instruction's symbol with a
/// start, then each frame's function with a start, first name wins.
fn ingest_symbols(symbols: &mut SymbolIndex, snap: &SessionSnapshot)
    requires
        old(symbols).wf(),
    ensures
        final(symbols).wf(),
        named_views(final(symbols).named()) == learn_frames(
            learn_insns(named_views(old(symbols).named()), snap.disassembly@),
            snap.frames@,
        ),
{
    let ghost v0 = named_views(symbols.named());
    let mut i: usize = 0;
    while i < snap.disassembly.len()
        invariant
            i <= snap.disassembly@.len(),
            symbols.wf(),
            named_views(symbols.named()) == learn_insns(v0, snap.disassembly@.take(i as int)),
        decreases snap.disassembly@.len() - i,
    {
        let insn = &snap.disassembly[i];
        proof {
            let t = snap.disassembly@.take(i as int + 1);
            assert(t.drop_last() =~= snap.disassembly@.take(i as int));
            assert(t.last() == snap.disassembly@[i as int]);
        }
        match &insn.symbol {
            Some(sym) => {
                learn_one(symbols, sym.name.as_str(), sym.start, dup_opt_string(&sym.module));
            },
            None => {},
        }
        i = i + 1;
    }
    proof {
        assert(snap.disassembly@.take(i as int) =~= snap.disassembly@);
    }
    let ghost v1 = named_views(symbols.named());
    let mut k: usize = 0;
    while k < snap.frames.len()
        invariant
            k <= snap.frames@.len(),
            symbols.wf(),
            named_views(symbols.named()) == learn_frames(v1, snap.frames@.take(k as int)),
        decreases snap.frames@.len() - k,
    {
        let frame = &snap.frames[k];
        proof {
            let t = snap.frames@.take(k as int + 1);
            assert(t.drop_last() =~= snap.frames@.take(k as int));
            assert(t.last() == snap.frames@[k as int]);
        }
        match (&frame.symbol, &frame.function) {
            (Some(sym), Some(func)) => {
                learn_one(symbols, func.as_str(), sym.start, dup_opt_string(&sym.module));
            },
            _ => {},
        }
        k = k + 1;
    }
    proof {
        assert(snap.frames@.take(k as int) =~= snap.frames@);
    }
}

/// The address of the first current instruction, else the selected
/// frame's pc.
fn current_pc_of(snap: &SessionSnapshot) -> (r: Option<Address>)
    ensures
        r == current_pc(*snap),
{
    let mut i: usize = 0;
    while i < snap.disassembly.len()
        invariant
            i <= snap.disassembly@.len(),
            forall|j: int| 0 <= j < i ==> !snap.disassembly@[j].is_current,
        decreases snap.disassembly@.len() - i,
    {
        if snap.disassembly[i].is_current {
            proof {
                let d = snap.disassembly@;
                let k = choose|k: int| 0 <= k < d.len() && d[k].is_current
                    && forall|j: int| 0 <= j < k ==> !d[j].is_current;
                assert(0 <= i < d.len() && d[i as int].is_current
                    && forall|j: int| 0 <= j < i ==> !d[j].is_current);
                if k < i {
                    assert(!d[k].is_current);
                } else if k > i {
                    assert(!d[i as int].is_current);
                }
            }
            return Some(snap.disassembly[i].address);
        }
        i = i + 1;
    }
    match snap.selected_frame() {
        Some(f) => Some(f.pc),
        None => None,
    }
}

/// The index of the first breakpoint resolved at `pc`.
fn breakpoint_index(snap: &SessionSnapshot, pc: Address) -> (r: Option<usize>)
    ensures
        match r {
            Some(k) => k as int == breakpoint_at_from(*snap, pc, 0) && k < snap.breakpoints@.len(),
            None => breakpoint_at_from(*snap, pc, 0) == -1,
        },
{
    let mut i: usize = 0;
    while i < snap.breakpoints.len()
        invariant
            i <= snap.breakpoints@.len(),
            breakpoint_at_from(*snap, pc, 0) == breakpoint_at_from(*snap, pc, i as int),
        decreases snap.breakpoints@.len() - i,
    {
        let bp = &snap.breakpoints[i];
        let mut j: usize = 0;
        while j < bp.resolved.len()
            invariant
                j <= bp.resolved@.len(),
                i < snap.breakpoints@.len(),
                *bp == snap.breakpoints@[i as int],
                breakpoint_at_from(*snap, pc, 0) == breakpoint_at_from(*snap, pc, i as int),
                forall|m: int| 0 <= m < j ==> (#[trigger] bp.resolved@[m]).address != pc,
            decreases bp.resolved@.len() - j,
        {
            if bp.resolved[j].address == pc {
                proof {
                    assert(snap.breakpoints@[i as int].resolved@[j as int].address == pc);
                    assert(breakpoint_at_from(*snap, pc, i as int) == i);
                }
                return Some(i);
            }
            j = j + 1;
        }
        i = i + 1;
    }
    None
}

/// A command list of one command.
fn one(c: Command) -> (v: Vec<Command>)
    ensures
        v@ == seq![c],
{
    let mut v: Vec<Command> = Vec::new();
    v.push(c);
    assert(v@ =~= seq![c]);
    v
}

/// A string holding `s` followed by `t`.
fn concat(s: &str, t: &str) -> (r: String)
    ensures
        r@ == s@ + t@,
{
    let mut v: Vec<char> = Vec::new();
    push_str(&mut v, s);
    push_str(&mut v, t);
    string_of(v.as_slice())
}

impl UiState {
    pub fn new(snapshot: SessionSnapshot, prefs: Preferences) -> (s: UiState)
        ensures
            state_wf(s),
            s.snapshot == snapshot,
            s.timeline@.len() == 0,
            s.focus == Panel::Code,
            s.layout == LayoutMode::Mixed,
            s.mode == Mode::Normal,
            s.palette_input@.len() == 0,
            s.status@ == "ready"@,
            s.error is None,
            s.help_topic is None,
            s.selected_timeline == 0,
            s.memory is None,
            s.findings@.len() == 0,
            s.prefs == prefs,
            !s.should_quit,
            s.symbols.named().len() == 0,
            s.symbols.entries().len() == 0,
            s.recorder.meta().arch == snapshot.process.arch,
            s.recorder.meta().executable is None,
            s.recorder.capacity() == if prefs.ring_capacity >= 1 { prefs.ring_capacity as nat } else { 1 },
            s.recorder.retained().len() == 0,
            s.recorder.accepted_count() == 0,
            s.recorder.evicted_count() == 0,
            s.recorder.rejected_count() == 0,
            s.recorder.persisted() is None,
            s.recorder.active_filter().kinds@.len() == 0,
            s.recorder.active_filter().thread is None,
            s.recorder.active_filter().address_range is None,
            s.pending_memory is None,
            s.trace_to_write is None,
    {
        let recorder = TraceRecorder::new(TraceMetadata::new(snapshot.process.arch), prefs.ring_capacity);
        UiState {
            snapshot,
            timeline: VecDeque::new(),
            focus: Panel::Code,
            layout: LayoutMode::Mixed,
            mode: Mode::Normal,
            palette_input: String::new(),
            status: "ready".to_owned(),
            error: None,
            help_topic: None,
            selected_timeline: 0,
            memory: None,
            findings: Vec::new(),
            prefs,
            should_quit: false,
            symbols: SymbolIndex::new(),
            analyzers: default_analyzers(),
            recorder,
            pending_memory: None,
            trace_to_write: None,
        }
    }

    /// Events that passed the recorder's filter this session.
    pub fn trace_total(&self) -> (n: u64)
        requires
            state_wf(*self),
        ensures
            n == self.recorder.accepted_count(),
    {
        self.recorder.total()
    }

    /// Events not retained in the interactive ring (evicted or filtered out).
    pub fn trace_dropped(&self) -> (n: u64)
        requires
            state_wf(*self),
        ensures
            n == self.recorder.evicted_count() + self.recorder.rejected_count(),
    {
        self.recorder.dropped()
    }

    /// Whether a trace is being accumulated for writing.
    pub fn trace_persisting(&self) -> (b: bool)
        ensures
            b == (self.recorder.persisted() is Some),
    {
        self.recorder.is_persisting()
    }

    /// Begins recording a trace, persisting to `path` when given.
    pub fn start_trace(&mut self, path: Option<String>)
        requires
            state_wf(*old(self)),
        ensures
            trace_started(*old(self), path, *final(self)),
    {
        let mut meta = self.recorder.metadata().dup();
        meta.executable = dup_opt_string(&self.snapshot.program);
        self.recorder.set_metadata(meta);
        match &path {
            Some(p) => {
                self.recorder.start_persisting(p.as_str());
                self.status = concat("recording trace -> ", p.as_str());
            },
            None => {
                self.status = "recording trace (in-memory ring)".to_owned();
            },
        }
    }

    /// Appends an event to the timeline, dropping the oldest at the cap;
    /// the selection follows the newest event when it was at the end.
    fn push_timeline(&mut self, ev: SequencedEvent)
        requires
            old(self).timeline@.len() <= TIMELINE_CAP,
        ensures
            (final(self).timeline@, final(self).selected_timeline) == timeline_after(old(self).timeline@, old(self).selected_timeline, ev),
            *final(self) == (UiState { timeline: final(self).timeline, selected_timeline: final(self).selected_timeline, ..*old(self) }),
    {
        if self.timeline.len() == TIMELINE_CAP {
            let _ = self.timeline.pop_front();
        }
        let follow = self.selected_timeline >= self.timeline.len() || self.selected_timeline + 1 >= self.timeline.len();
        self.timeline.push_back(ev);
        if follow {
            self.selected_timeline = self.timeline.len() - 1;
        }
    }

    /// Folds one worker update into the state.
    pub fn apply_update(&mut self, update: WorkerUpdate)
        requires
            state_wf(*old(self)),
        ensures
            state_wf(*final(self)),
            update_applied(*old(self), update, *final(self)),
    {
        match update {
            WorkerUpdate::Snapshot(snap) => {
                ingest_symbols(&mut self.symbols, &snap);
                let mut meta = self.recorder.metadata().dup();
                if meta.arch == Architecture::Unknown {
                    meta.arch = snap.process.arch;
                }
                if meta.executable.is_none() {
                    meta.executable = dup_opt_string(&snap.program);
                }
                self.recorder.set_metadata(meta);
                self.snapshot = *snap;
            },
            WorkerUpdate::Event(ev) => {
                {
                    let mut ctx = AnalysisContext::new(Some(&mut self.symbols));
                    self.analyzers.on_event(&ev, &mut ctx);
                    proof {
                        lemma_context_done(ctx);
                    }
                }
                self.findings = self.analyzers.findings();
                if self.recorder.room_to_record() {
                    self.recorder.record(ev.dup());
                }
                self.push_timeline(ev);
            },
            WorkerUpdate::Memory { addr, bytes } => {
                let len = match self.pending_memory {
                    Some((a, l)) => if a == addr { l } else { bytes.len() },
                    None => bytes.len(),
                };
                self.memory = Some(MemoryView { addr, len, bytes });
                self.pending_memory = None;
                self.focus = Panel::Registers;
            },
            WorkerUpdate::CommandError(err) => {
                let mut v: Vec<char> = Vec::new();
                v.push('[');
                push_str(&mut v, err.category());
                push_str(&mut v, "] ");
                let m = err.message();
                push_str(&mut v, m.as_str());
                self.error = Some(string_of(v.as_slice()));
            },
            WorkerUpdate::Shutdown => {
                self.status = "debugger stopped".to_owned();
            },
        }
    }

    /// Handles a key, returning the worker commands it asks for.
    pub fn handle_key(&mut self, key: KeyEvent) -> (cmds: Vec<Command>)
        requires
            state_wf(*old(self)),
        ensures
            state_wf(*final(self)),
            key_handled(*old(self), key, *final(self), cmds@),
    {
        if key.code == KeyCode::Char('c') && key.ctrl {
            self.should_quit = true;
            return Vec::new();
        }
        match self.mode {
            Mode::Normal => self.handle_normal(key.code),
            Mode::Palette => self.handle_palette(key.code),
            Mode::Help => {
                self.mode = Mode::Normal;
                Vec::new()
            },
        }
    }

    fn handle_normal(&mut self, code: KeyCode) -> (cmds: Vec<Command>)
        requires
            state_wf(*old(self)),
        ensures
            state_wf(*final(self)),
            normal_key(*old(self), code, *final(self), cmds@),
    {
        self.error = None;
        match code {
            KeyCode::Char(':') => {
                self.mode = Mode::Palette;
                self.palette_input = String::new();
                Vec::new()
            },
            KeyCode::Char('?') => {
                self.mode = Mode::Help;
                Vec::new()
            },
            KeyCode::Char('q') => {
                self.should_quit = true;
                Vec::new()
            },
            KeyCode::Tab => {
                self.focus = next_panel(self.focus);
                Vec::new()
            },
            KeyCode::BackTab => {
                self.focus = prev_panel(self.focus);
                Vec::new()
            },
            KeyCode::Char('c') => one(Command::Continue),
            KeyCode::Char('s') => one(Command::Step(StepKind::Into)),
            KeyCode::Char('n') => one(Command::Step(StepKind::Over)),
            KeyCode::Char('o') => one(Command::Step(StepKind::Out)),
            KeyCode::Char('i') => one(Command::Step(StepKind::Instruction)),
            KeyCode::Char('p') => one(Command::Pause),
            KeyCode::Char('b') => self.toggle_breakpoint_at_current(),
            KeyCode::Up | KeyCode::Char('k') => {
                self.move_selection(-1);
                Vec::new()
            },
            KeyCode::Down | KeyCode::Char('j') => {
                self.move_selection(1);
                Vec::new()
            },
            _ => Vec::new(),
        }
    }

    fn move_selection(&mut self, delta: i64)
        ensures
            *final(self) == (UiState { selected_timeline: moved_selection(*old(self), delta as int), ..*old(self) }),
    {
        if self.focus == Panel::Timeline && self.timeline.len() > 0 {
            let max = self.timeline.len() - 1;
            let cur: i128 = self.selected_timeline as i128 + delta as i128;
            let clamped: i128 = if cur < 0 {
                0
            } else if cur > max as i128 {
                max as i128
            } else {
                cur
            };
            self.selected_timeline = clamped as usize;
        }
    }

    /// Toggles a breakpoint at the current instruction (or the selected
    /// frame's pc): removes one resolved there, else adds one by address.
    fn toggle_breakpoint_at_current(&mut self) -> (cmds: Vec<Command>)
        ensures
            toggled(*old(self), *final(self), cmds@),
    {
        let pc = match current_pc_of(&self.snapshot) {
            Some(pc) => pc,
            None => {
                self.error = Some("no current instruction to toggle a breakpoint on".to_owned());
                return Vec::new();
            },
        };
        match breakpoint_index(&self.snapshot, pc) {
            Some(k) => {
                let id = self.snapshot.breakpoints[k].id;
                let mut v: Vec<char> = Vec::new();
                push_str(&mut v, "removing breakpoint #");
                let d = fmt_dec(id.0);
                push_chars(&mut v, d.as_slice());
                push_str(&mut v, " at ");
                let a = pc.to_display();
                push_str(&mut v, a.as_str());
                self.status = string_of(v.as_slice());
                one(Command::RemoveBreakpoint(id))
            },
            None => {
                let a = pc.to_display();
                self.status = concat("breakpoint at ", a.as_str());
                one(Command::AddBreakpoint { location: BreakpointLocation::Address(pc), condition: None })
            },
        }
    }

    fn handle_palette(&mut self, code: KeyCode) -> (cmds: Vec<Command>)
        requires
            state_wf(*old(self)),
        ensures
            state_wf(*final(self)),
            palette_key(*old(self), code, *final(self), cmds@),
    {
        match code {
            KeyCode::Esc => {
                self.mode = Mode::Normal;
                self.palette_input = String::new();
                Vec::new()
            },
            KeyCode::Backspace => {
                let mut v = chars_of(self.palette_input.as_str());
                if v.len() > 0 {
                    v.pop();
                }
                self.palette_input = string_of(v.as_slice());
                Vec::new()
            },
            KeyCode::Char(c) => {
                let mut v = chars_of(self.palette_input.as_str());
                v.push(c);
                self.palette_input = string_of(v.as_slice());
                Vec::new()
            },
            KeyCode::Enter => {
                let input = self.palette_input.clone();
                self.palette_input = String::new();
                self.mode = Mode::Normal;
                self.run_palette(input.as_str())
            },
            _ => Vec::new(),
        }
    }

    /// Parses and applies a palette line, returning worker commands.
    pub fn run_palette(&mut self, input: &str) -> (cmds: Vec<Command>)
        requires
            state_wf(*old(self)),
        ensures
            state_wf(*final(self)),
            exists|r: Result<Option<Parsed>, String>|
                #[trigger] palette_parsed(input@, r) && palette_ran(*old(self), input@, r, *final(self), cmds@),
    {
        let r = parse(input);
        let ghost gr = r;
        let cmds = match r {
            Ok(None) => Vec::new(),
            Ok(Some(Parsed::Command(cmd))) => {
                self.status = concat("> ", input);
                one(cmd)
            },
            Ok(Some(Parsed::Ui(action))) => self.apply_ui_action(action),
            Err(msg) => {
                self.error = Some(msg);
                Vec::new()
            },
        };
        assert(palette_parsed(input@, gr) && palette_ran(*old(self), input@, gr, *self, cmds@));
        cmds
    }

    fn apply_ui_action(&mut self, action: UiAction) -> (cmds: Vec<Command>)
        requires
            state_wf(*old(self)),
        ensures
            state_wf(*final(self)),
            ui_action_done(*old(self), action, *final(self), cmds@),
    {
        match action {
            UiAction::Quit => {
                self.should_quit = true;
                Vec::new()
            },
            UiAction::Help(topic) => {
                self.help_topic = topic;
                self.mode = Mode::Help;
                Vec::new()
            },
            UiAction::Layout(mode) => {
                self.layout = mode;
                Vec::new()
            },
            UiAction::FocusPanel(p) => {
                self.focus = p;
                Vec::new()
            },
            UiAction::Search(term) => {
                self.status = concat("search: ", term.as_str());
                Vec::new()
            },
            UiAction::ShowMemory { addr, len } => {
                self.pending_memory = Some((addr, len));
                let mut v: Vec<char> = Vec::new();
                push_str(&mut v, "reading ");
                let d = fmt_dec(len as u64);
                push_chars(&mut v, d.as_slice());
                push_str(&mut v, " bytes at ");
                let a = addr.to_display();
                push_str(&mut v, a.as_str());
                self.status = string_of(v.as_slice());
                one(Command::ReadMemory { addr, len })
            },
            UiAction::TraceStart { path } => {
                self.start_trace(path);
                Vec::new()
            },
            UiAction::TraceStop => {
                match self.recorder.stop_persisting() {
                    Some(done) => {
                        self.trace_to_write = Some(done);
                    },
                    None => {
                        self.status = "trace stopped (was not persisting)".to_owned();
                    },
                }
                Vec::new()
            },
        }
    }

    /// Reports how writing a stopped trace went: the path it was saved to,
    /// or the error.
    pub fn trace_written(&mut self, outcome: Result<String, String>)
        ensures
            match outcome {
                Ok(p) => *final(self) == (UiState { status: final(self).status, trace_to_write: None, ..*old(self) })
                    && final(self).status@ == "trace saved: "@ + p@,
                Err(e) => *final(self) == (UiState { error: Some(e), trace_to_write: None, ..*old(self) }),
            },
    {
        self.trace_to_write = None;
        match outcome {
            Ok(p) => {
                self.status = concat("trace saved: ", p.as_str());
            },
            Err(e) => {
                self.error = Some(e);
            },
        }
    }

    /// The timeline event under the selection.
    pub fn selected_event(&self) -> (r: Option<&SequencedEvent>)
        ensures
            self.selected_timeline < self.timeline@.len() ==> r == Some(&self.timeline@[self.selected_timeline as int]),
            self.selected_timeline >= self.timeline@.len() ==> r is None,
    {
        if self.selected_timeline < self.timeline.len() {
            Some(&self.timeline[self.selected_timeline])
        } else {
            None
        }
    }
}

/// In normal mode the single-key bindings run the commands their letters
/// stand for in the palette: `c` continues, and `s`, `n`, `o`, `i` step into,
/// over, out and by one instruction, four distinct step kinds. Each yields
/// exactly one command, the one the palette's command table gives for that
/// letter, and changes nothing but clearing the error.
pub proof fn lemma_step_keys(a: UiState, key: KeyEvent, b: UiState, cmds: Seq<Command>)
    requires
        a.mode == Mode::Normal,
        !key.ctrl,
        key_handled(a, key, b, cmds),
        key.code == KeyCode::Char('c') || key.code == KeyCode::Char('s') || key.code == KeyCode::Char('n')
            || key.code == KeyCode::Char('o') || key.code == KeyCode::Char('i'),
    ensures
        cmds.len() == 1,
        b == (UiState { error: None, ..a }),
        key.code matches KeyCode::Char(ch) && simple_command(seq![ch], Seq::empty())
            == Some(Ok::<Parsed, Seq<char>>(Parsed::Command(cmds[0]))),
        key.code == KeyCode::Char('c') ==> cmds == seq![Command::Continue],
        key.code == KeyCode::Char('s') ==> cmds == seq![Command::Step(StepKind::Into)],
        key.code == KeyCode::Char('n') ==> cmds == seq![Command::Step(StepKind::Over)],
        key.code == KeyCode::Char('o') ==> cmds == seq![Command::Step(StepKind::Out)],
        key.code == KeyCode::Char('i') ==> cmds == seq![Command::Step(StepKind::Instruction)],
{
    reveal_strlit("continue");
    reveal_strlit("c");
    reveal_strlit("pause");
    reveal_strlit("step");
    reveal_strlit("s");
    reveal_strlit("next");
    reveal_strlit("n");
    reveal_strlit("finish");
    reveal_strlit("o");
    reveal_strlit("step-instruction");
    reveal_strlit("si");
    reveal_strlit("i");
    assert("c"@ =~= seq!['c']);
    assert("s"@ =~= seq!['s']);
    assert("n"@ =~= seq!['n']);
    assert("o"@ =~= seq!['o']);
    assert("i"@ =~= seq!['i']);
    assert("continue"@.len() == 8 && "pause"@.len() == 5 && "step"@.len() == 4 && "next"@.len() == 4);
    assert("finish"@.len() == 6 && "step-instruction"@.len() == 16 && "si"@.len() == 2);
    let ch = key.code->Char_0;
    let w = seq![ch];
    assert(w[0] == ch && w.len() == 1);
    if ch != 'c' {
        assert(w != "c"@);
    }
    if ch != 's' {
        assert(w != "s"@);
    }
    if ch != 'n' {
        assert(w != "n"@);
    }
    if ch != 'o' {
        assert(w != "o"@);
    }
}

/// In normal mode, the key `c`, `s`, `n`, `o` or `i` asks for exactly what
/// the palette gives for any line whose first word is that letter.
pub proof fn lemma_step_keys_match_palette(
    a: UiState,
    key: KeyEvent,
    b: UiState,
    cmds: Seq<Command>,
    line: Seq<char>,
    r: Result<Option<Parsed>, String>,
)
    requires
        a.mode == Mode::Normal,
        !key.ctrl,
        key_handled(a, key, b, cmds),
        key.code == KeyCode::Char('c') || key.code == KeyCode::Char('s') || key.code == KeyCode::Char('n')
            || key.code == KeyCode::Char('o') || key.code == KeyCode::Char('i'),
        palette_parsed(line, r),
        key.code matches KeyCode::Char(ch) && words(trim(line)).len() > 0 && words(trim(line))[0] == seq![ch],
    ensures
        cmds.len() == 1,
        r == Ok::<Option<Parsed>, String>(Some(Parsed::Command(cmds[0]))),
{
    lemma_step_keys(a, key, b, cmds);
    lemma_palette_execution_commands(line, r);
}


/// In normal mode `p` asks the debugger to pause and `q` quits the
/// interface without asking it anything; Control-C quits from any mode.
pub proof fn lemma_pause_and_quit_keys(a: UiState, key: KeyEvent, b: UiState, cmds: Seq<Command>)
    requires
        key_handled(a, key, b, cmds),
    ensures
        a.mode == Mode::Normal && !key.ctrl && key.code == KeyCode::Char('p')
            ==> cmds == seq![Command::Pause] && b == (UiState { error: None, ..a }),
        a.mode == Mode::Normal && key.code == KeyCode::Char('q') ==> b.should_quit && cmds.len() == 0,
        key.ctrl && key.code == KeyCode::Char('c') ==> b.should_quit && cmds.len() == 0,
{
}

} // verus!
