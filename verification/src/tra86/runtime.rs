//! The tracer's worker: its session state machine, the commands it takes,
//! and the snapshots it assembles from the active backend.
use vstd::prelude::*;
use crate::num::{dec_digits, fmt_dec, fmt_hex_padded, hex_digits, pad_left, parse_radix, parse_uint};
use crate::text::{chars_of, push_chars, push_str, split_whitespace, string_of, words, views, starts, slice_of, starts_with_lit};
use crate::tra86::model::{DisassemblyLine, RegisterBank, StopReason, first_register, find_register};
use crate::text::{lex_lt, lex_less, lemma_lex_order};
use crate::tra86::ui::{SessionPhase, SessionStatus};
use crate::analysis::analyzers::string_views;
use crate::analysis::tally::{tally_view, tally_all, tally_bump, tally_index, tally_add, rank_tallies, ranked_order, lemma_tally_index_found};
use crate::tra86::model::TraceEvent;
use crate::text::{lower_seq, lower_all, occurs, contains_char, contains_lit, is_word};
use crate::num::pad;
use crate::tra86::backend::error::{BackendError, backend_error_text};
use crate::tra86::backend::mock::MockBackend;
use crate::tra86::backend::orchestrator::{ActiveBackend, BackendOrchestrator};
use crate::tra86::backend::traits::{DebugBackend, LaunchRequest, Request};
use crate::tra86::model::{Breakpoint, BreakpointLocation, FrameState, MemoryRegion, TargetBinary, ThreadState};
use crate::tra86::ui::BackendChoice;

verus! {

#[derive(Debug, Clone, Copy, PartialEq, Eq, Structural)]
pub enum RuntimePhase {
    Idle,
    TargetLoaded,
    Stopped,
    Exited,
    Detached,
}

/// What the worker knows about the session.
#[derive(Debug, Clone)]
pub struct RuntimeSession {
    pub phase: RuntimePhase,
    pub target_program: Option<String>,
    pub attached_pid: Option<u32>,
    pub has_live_process: bool,
    pub last_error: Option<String>,
}

impl Default for RuntimeSession {
    fn default() -> (s: RuntimeSession)
        ensures
            s.phase == RuntimePhase::Idle,
            s.target_program is None,
            s.attached_pid is None,
            !s.has_live_process,
            s.last_error is None,
    {
        RuntimeSession {
            phase: RuntimePhase::Idle,
            target_program: None,
            attached_pid: None,
            has_live_process: false,
            last_error: None,
        }
    }
}

/// The phase shown to the user for a runtime phase.
pub open spec fn ui_phase(p: RuntimePhase) -> SessionPhase {
    match p {
        RuntimePhase::Idle => SessionPhase::Idle,
        RuntimePhase::TargetLoaded => SessionPhase::TargetLoaded,
        RuntimePhase::Stopped => SessionPhase::Stopped,
        RuntimePhase::Exited => SessionPhase::Exited,
        RuntimePhase::Detached => SessionPhase::Detached,
    }
}

/// The status line of a session that is not busy.
pub open spec fn status_detail(s: RuntimeSession) -> Seq<char> {
    match s.phase {
        RuntimePhase::Idle => "No target loaded"@,
        RuntimePhase::TargetLoaded => match s.target_program {
            Some(p) => "Target loaded: "@ + p@,
            None => "Target loaded"@,
        },
        RuntimePhase::Stopped => match s.attached_pid {
            Some(pid) => "Attached to pid "@ + dec_digits(pid as nat) + " and stopped"@,
            None => match s.target_program {
                Some(p) => "Stopped in "@ + p@,
                None => "Stopped"@,
            },
        },
        RuntimePhase::Exited => "Process exited"@,
        RuntimePhase::Detached => "Detached from process"@,
    }
}

/// The session after reconciling it with a fresh look at the backend.
pub open spec fn reconciled(s: RuntimeSession, stop: StopReason, live: bool) -> RuntimeSession {
    match stop {
        StopReason::Exited(_) => RuntimeSession {
            has_live_process: false,
            attached_pid: None,
            phase: RuntimePhase::Exited,
            ..s
        },
        StopReason::Detached => RuntimeSession {
            has_live_process: false,
            attached_pid: None,
            phase: RuntimePhase::Detached,
            ..s
        },
        _ => if live {
            RuntimeSession { has_live_process: true, phase: RuntimePhase::Stopped, last_error: None, ..s }
        } else if s.target_program is Some || s.attached_pid is Some {
            RuntimeSession {
                has_live_process: false,
                phase: if s.phase == RuntimePhase::Stopped { RuntimePhase::TargetLoaded } else { s.phase },
                ..s
            }
        } else {
            RuntimeSession { phase: RuntimePhase::Idle, ..s }
        },
    }
}

fn dup_opt(s: &Option<String>) -> (r: Option<String>)
    ensures
        r == *s,
{
    match s {
        Some(x) => Some(x.clone()),
        None => None,
    }
}

impl RuntimeSession {
    pub fn reset(&mut self)
        ensures
            final(self).phase == RuntimePhase::Idle,
            final(self).target_program is None,
            final(self).attached_pid is None,
            !final(self).has_live_process,
            final(self).last_error is None,
    {
        *self = RuntimeSession::default();
    }

    pub open spec fn target_known(&self) -> bool {
        self.target_program is Some || self.attached_pid is Some
    }

    pub fn has_target(&self) -> (r: bool)
        ensures
            r == self.target_known(),
    {
        self.target_program.is_some() || self.attached_pid.is_some()
    }

    pub fn can_restart(&self) -> (r: bool)
        ensures
            r == self.target_program is Some,
    {
        self.target_program.is_some()
    }

    /// A program was loaded (not yet running).
    pub fn set_target_program(&mut self, program: String)
        ensures
            *final(self) == (RuntimeSession {
                phase: RuntimePhase::TargetLoaded,
                target_program: Some(program),
                attached_pid: None,
                has_live_process: false,
                last_error: None,
            }),
    {
        self.target_program = Some(program);
        self.attached_pid = None;
        self.has_live_process = false;
        self.phase = RuntimePhase::TargetLoaded;
        self.last_error = None;
    }

    /// Attached to a running process, now stopped.
    pub fn set_attached_pid(&mut self, pid: u32)
        ensures
            *final(self) == (RuntimeSession {
                phase: RuntimePhase::Stopped,
                target_program: None,
                attached_pid: Some(pid),
                has_live_process: true,
                last_error: None,
            }),
    {
        self.attached_pid = Some(pid);
        self.target_program = None;
        self.has_live_process = true;
        self.phase = RuntimePhase::Stopped;
        self.last_error = None;
    }

    pub fn mark_process_stopped(&mut self)
        ensures
            *final(self) == (RuntimeSession {
                has_live_process: true,
                phase: RuntimePhase::Stopped,
                last_error: None,
                ..*old(self)
            }),
    {
        self.has_live_process = true;
        self.phase = RuntimePhase::Stopped;
        self.last_error = None;
    }

    pub fn mark_exited(&mut self)
        ensures
            *final(self) == (RuntimeSession {
                has_live_process: false,
                attached_pid: None,
                phase: RuntimePhase::Exited,
                ..*old(self)
            }),
    {
        self.has_live_process = false;
        self.attached_pid = None;
        self.phase = RuntimePhase::Exited;
    }

    pub fn mark_detached(&mut self)
        ensures
            *final(self) == (RuntimeSession {
                has_live_process: false,
                attached_pid: None,
                phase: RuntimePhase::Detached,
                ..*old(self)
            }),
    {
        self.has_live_process = false;
        self.attached_pid = None;
        self.phase = RuntimePhase::Detached;
    }

    pub fn note_error(&mut self, error: String)
        ensures
            *final(self) == (RuntimeSession { last_error: Some(error), ..*old(self) }),
    {
        self.last_error = Some(error);
    }

    /// Reconciles the session with what the backend reports: an exit or a
    /// detach ends it; a live process means stopped; otherwise a known target
    /// falls back from stopped to loaded, and no target means idle.
    pub fn reconcile_from_snapshot(&mut self, stop_reason: &StopReason, has_live_process: bool)
        ensures
            *final(self) == reconciled(*old(self), *stop_reason, has_live_process),
    {
        match stop_reason {
            StopReason::Exited(_) => self.mark_exited(),
            StopReason::Detached => self.mark_detached(),
            _ => {
                if has_live_process {
                    self.mark_process_stopped();
                } else if self.has_target() {
                    self.has_live_process = false;
                    if self.phase == RuntimePhase::Stopped {
                        self.phase = RuntimePhase::TargetLoaded;
                    }
                } else {
                    self.phase = RuntimePhase::Idle;
                }
            },
        }
    }

    /// The status shown to the user.
    pub fn to_ui_status(&self, is_busy: bool) -> (st: SessionStatus)
        ensures
            st.phase == ui_phase(self.phase),
            st.detail@ == if is_busy {
                match self.last_error {
                    Some(e) => e@,
                    None => "Working..."@,
                }
            } else {
                status_detail(*self)
            },
            st.is_busy == is_busy,
            st.has_target == self.target_known(),
            st.has_live_process == self.has_live_process,
            st.can_restart == self.target_program is Some,
            st.last_error == self.last_error,
    {
        let detail: String = if is_busy {
            match &self.last_error {
                Some(e) => e.clone(),
                None => "Working...".to_owned(),
            }
        } else {
            match self.phase {
                RuntimePhase::Idle => "No target loaded".to_owned(),
                RuntimePhase::TargetLoaded => match &self.target_program {
                    Some(p) => {
                        let mut v = chars_of("Target loaded: ");
                        let pc = chars_of(p.as_str());
                        push_chars(&mut v, pc.as_slice());
                        string_of(v.as_slice())
                    },
                    None => "Target loaded".to_owned(),
                },
                RuntimePhase::Stopped => match self.attached_pid {
                    Some(pid) => {
                        let mut v = chars_of("Attached to pid ");
                        let d = fmt_dec(pid as u64);
                        push_chars(&mut v, d.as_slice());
                        push_str(&mut v, " and stopped");
                        string_of(v.as_slice())
                    },
                    None => match &self.target_program {
                        Some(p) => {
                            let mut v = chars_of("Stopped in ");
                            let pc = chars_of(p.as_str());
                            push_chars(&mut v, pc.as_slice());
                            string_of(v.as_slice())
                        },
                        None => "Stopped".to_owned(),
                    },
                },
                RuntimePhase::Exited => "Process exited".to_owned(),
                RuntimePhase::Detached => "Detached from process".to_owned(),
            }
        };
        SessionStatus {
            phase: match self.phase {
                RuntimePhase::Idle => SessionPhase::Idle,
                RuntimePhase::TargetLoaded => SessionPhase::TargetLoaded,
                RuntimePhase::Stopped => SessionPhase::Stopped,
                RuntimePhase::Exited => SessionPhase::Exited,
                RuntimePhase::Detached => SessionPhase::Detached,
            },
            detail,
            is_busy,
            has_target: self.has_target(),
            has_live_process: self.has_live_process,
            can_restart: self.can_restart(),
            last_error: dup_opt(&self.last_error),
        }
    }
}

/// The whitespace-separated words of an argument line.
pub fn split_args(input: &str) -> (r: Vec<String>)
    ensures
        string_views(r@) == words(input@),
{
    let c = chars_of(input);
    let ws = split_whitespace(c.as_slice());
    let mut out: Vec<String> = Vec::new();
    let mut i: usize = 0;
    while i < ws.len()
        invariant
            i <= ws@.len(),
            views(ws@) == words(input@),
            string_views(out@) == views(ws@).take(i as int),
        decreases ws@.len() - i,
    {
        let w = string_of(ws[i].as_slice());
        let ghost before = out@;
        out.push(w);
        proof {
            assert(views(ws@)[i as int] == ws@[i as int]@);
            assert(string_views(out@) =~= string_views(before).push(w@));
            assert(views(ws@).take(i + 1) =~= views(ws@).take(i as int).push(ws@[i as int]@));
            assert(string_views(out@) =~= views(ws@).take(i + 1));
        }
        i = i + 1;
    }
    proof {
        assert(views(ws@).take(ws@.len() as int) =~= views(ws@));
    }
    out
}

/// The value of a register shown as hex (with or without `0x`).
pub open spec fn hex_register_value(bank: RegisterBank, name: Seq<char>) -> Option<nat> {
    let k = first_register(bank.registers@, name);
    if k < 0 {
        None
    } else {
        let v = bank.registers@[k].value@;
        parse_uint(if starts(v, "0x"@) { v.skip(2) } else { v }, 16, u64::MAX as nat)
    }
}

/// Reads a register's hex value.
pub fn parse_hex_register(registers: &RegisterBank, name: &str) -> (r: Option<u64>)
    ensures
        match hex_register_value(*registers, name@) {
            Some(v) => r == Some(v as u64),
            None => r is None,
        },
{
    let key = name.to_owned();
    match find_register(&registers.registers, &key) {
        Some(reg) => {
            let v = chars_of(reg.value.as_str());
            if starts_with_lit(v.as_slice(), "0x") {
                proof {
                    reveal_strlit("0x");
                }
                let rest = slice_of(v.as_slice(), 2, v.len());
                assert(rest@ =~= v@.skip(2));
                parse_radix(rest.as_slice(), 16, u64::MAX)
            } else {
                parse_radix(v.as_slice(), 16, u64::MAX)
            }
        },
        None => None,
    }
}

/// The first address at which each function appears in `lines`.
pub open spec fn fn_map(lines: Seq<DisassemblyLine>) -> Map<Seq<char>, u64>
    decreases lines.len(),
{
    if lines.len() == 0 {
        Map::empty()
    } else {
        let m = fn_map(lines.drop_last());
        match lines.last().function {
            Some(n) => if m.dom().contains(n@) {
                m
            } else {
                m.insert(n@, lines.last().address)
            },
            None => m,
        }
    }
}

/// `0x` and sixteen hex digits of an address.
pub open spec fn addr16(a: u64) -> Seq<char> {
    seq!['0', 'x'] + pad_left(hex_digits(a as nat), 16, '0')
}

/// Names strictly increasing.
pub open spec fn names_ascending(p: Seq<(Seq<char>, u64)>) -> bool {
    forall|i: int, j: int| 0 <= i < j < p.len() ==> lex_lt(#[trigger] p[i].0, #[trigger] p[j].0)
}

/// `p` lists exactly the entries of `m`.
pub open spec fn lists_map(p: Seq<(Seq<char>, u64)>, m: Map<Seq<char>, u64>) -> bool {
    &&& forall|i: int| 0 <= i < p.len() ==> m.dom().contains(#[trigger] p[i].0) && m[p[i].0] == p[i].1
    &&& forall|n: Seq<char>| m.dom().contains(n) ==> exists|i: int| 0 <= i < p.len() && (#[trigger] p[i]).0 == n
}

/// The rows of the function list: one per function in name order, else the
/// first 32 instructions.
pub open spec fn function_rows_ok(rows: Seq<Seq<char>>, lines: Seq<DisassemblyLine>) -> bool {
    if fn_map(lines).dom().len() == 0 {
        let shown = lines.take(if lines.len() < 32 { lines.len() as int } else { 32 });
        rows == shown.map_values(|l: DisassemblyLine| addr16(l.address) + " "@ + l.mnemonic@)
    } else {
        exists|p: Seq<(Seq<char>, u64)>| names_ascending(p) && lists_map(p, fn_map(lines))
            && rows == p.map_values(|e: (Seq<char>, u64)| addr16(e.1) + " "@ + e.0)
    }
}

fn row_text(addr: u64, label: &String) -> (r: String)
    ensures
        r@ == addr16(addr) + " "@ + label@,
{
    let mut v = fmt_hex_padded(addr, 16);
    v.push(' ');
    let l = chars_of(label.as_str());
    push_chars(&mut v, l.as_slice());
    proof {
        reveal_strlit(" ");
    }
    assert(v@ =~= addr16(addr) + " "@ + label@);
    string_of(v.as_slice())
}

/// The function list of a disassembly.
pub fn build_function_rows(disassembly: &[DisassemblyLine]) -> (rows: Vec<String>)
    ensures
        function_rows_ok(string_views(rows@), disassembly@),
{
    let ghost lines = disassembly@;
    let mut table: Vec<(String, u64)> = Vec::new();
    let mut j: usize = 0;
    while j < disassembly.len()
        invariant
            j <= lines.len(),
            lines == disassembly@,
            names_ascending(tally_view(table@)),
            lists_map(tally_view(table@), fn_map(lines.take(j as int))),
            fn_map(lines.take(j as int)).dom().finite(),
            fn_map(lines.take(j as int)).dom().len() == table@.len(),
        decreases lines.len() - j,
    {
        proof {
            assert(lines.take(j + 1).drop_last() =~= lines.take(j as int));
            assert(lines.take(j + 1).last() == lines[j as int]);
        }
        match &disassembly[j].function {
            Some(name) => {
                let nc = chars_of(name.as_str());
                let mut k: usize = 0;
                while k < table.len() && lex_less(chars_of(table[k].0.as_str()).as_slice(), nc.as_slice())
                    invariant
                        k <= table@.len(),
                        nc@ == name@,
                        forall|q: int| 0 <= q < k ==> lex_lt(#[trigger] tally_view(table@)[q].0, name@),
                    decreases table@.len() - k,
                {
                    k = k + 1;
                }
                let ghost tp = tally_view(table@);
                let ghost m = fn_map(lines.take(j as int));
                let present = k < table.len() && table[k].0 == *name;
                proof {
                    if !present {
                        if k < tp.len() {
                            assert(!lex_lt(tp[k as int].0, name@));
                            assert(tp[k as int].0 != name@);
                            lemma_lex_order(tp[k as int].0, name@, name@);
                            assert(lex_lt(name@, tp[k as int].0));
                        }
                        assert forall|q: int| k <= q < tp.len() implies lex_lt(name@, #[trigger] tp[q].0) by {
                            if q > k {
                                assert(lex_lt(tp[k as int].0, tp[q].0));
                                lemma_lex_order(name@, tp[k as int].0, tp[q].0);
                            }
                        }
                        assert(!m.dom().contains(name@)) by {
                            if m.dom().contains(name@) {
                                let i = choose|i: int| 0 <= i < tp.len() && (#[trigger] tp[i]).0 == name@;
                                lemma_lex_order(tp[i].0, name@, name@);
                            }
                        }
                    } else {
                        assert(tp[k as int].0 == name@);
                        assert(m.dom().contains(name@));
                    }
                }
                if !present {
                    let addr = disassembly[j].address;
                    table.insert(k, (name.clone(), addr));
                    proof {
                        let np = tally_view(table@);
                        assert(np =~= tp.insert(k as int, (name@, addr)));
                        let m2 = m.insert(name@, addr);
                        assert forall|a: int, b: int| 0 <= a < b < np.len() implies lex_lt(#[trigger] np[a].0, #[trigger] np[b].0) by {
                            if b < k {
                            } else if b == k {
                            } else if a < k {
                                lemma_lex_order(np[a].0, name@, np[b].0);
                            } else if a == k {
                            } else {
                            }
                        }
                        assert forall|i: int| 0 <= i < np.len() implies m2.dom().contains(#[trigger] np[i].0) && m2[np[i].0] == np[i].1 by {
                            if i < k {
                                assert(np[i] == tp[i]);
                            } else if i > k {
                                assert(np[i] == tp[i - 1]);
                            }
                        }
                        assert forall|n: Seq<char>| m2.dom().contains(n) implies exists|i: int| 0 <= i < np.len() && (#[trigger] np[i]).0 == n by {
                            if n == name@ {
                                assert(np[k as int].0 == n);
                            } else {
                                let i = choose|i: int| 0 <= i < tp.len() && (#[trigger] tp[i]).0 == n;
                                if i < k {
                                    assert(np[i].0 == n);
                                } else {
                                    assert(np[i + 1].0 == n);
                                }
                            }
                        }
                        assert(m2.dom() =~= m.dom().insert(name@));
                    }
                }
            },
            None => {},
        }
        j = j + 1;
    }
    proof {
        assert(lines.take(lines.len() as int) =~= lines);
    }
    let mut rows: Vec<String> = Vec::new();
    if table.len() == 0 {
        let limit: usize = if disassembly.len() < 32 { disassembly.len() } else { 32 };
        let mut i: usize = 0;
        while i < limit
            invariant
                i <= limit <= lines.len(),
                lines == disassembly@,
                limit == if lines.len() < 32 { lines.len() as int } else { 32 },
                string_views(rows@) == lines.take(i as int).map_values(|l: DisassemblyLine| addr16(l.address) + " "@ + l.mnemonic@),
            decreases limit - i,
        {
            let r = row_text(disassembly[i].address, &disassembly[i].mnemonic);
            let ghost before = rows@;
            rows.push(r);
            proof {
                assert(string_views(rows@) =~= string_views(before).push(r@));
                assert(lines.take(i + 1).map_values(|l: DisassemblyLine| addr16(l.address) + " "@ + l.mnemonic@)
                    =~= lines.take(i as int).map_values(|l: DisassemblyLine| addr16(l.address) + " "@ + l.mnemonic@).push(r@));
            }
            i = i + 1;
        }
    } else {
        let ghost tp = tally_view(table@);
        let mut i: usize = 0;
        while i < table.len()
            invariant
                i <= table@.len(),
                tp == tally_view(table@),
                string_views(rows@) == tp.take(i as int).map_values(|e: (Seq<char>, u64)| addr16(e.1) + " "@ + e.0),
            decreases table@.len() - i,
        {
            let r = row_text(table[i].1, &table[i].0);
            let ghost before = rows@;
            rows.push(r);
            proof {
                assert(string_views(rows@) =~= string_views(before).push(r@));
                assert(tp.take(i + 1).map_values(|e: (Seq<char>, u64)| addr16(e.1) + " "@ + e.0)
                    =~= tp.take(i as int).map_values(|e: (Seq<char>, u64)| addr16(e.1) + " "@ + e.0).push(r@));
            }
            i = i + 1;
        }
        proof {
            assert(tp.take(tp.len() as int) =~= tp);
        }
    }
    rows
}

/// Rows of kind 0 (branch), 1 (call), 2 (return) or 3 (memory access).
pub open spec fn row_kind(l: DisassemblyLine, kind: int) -> bool {
    if kind == 0 {
        is_branch_row(l)
    } else if kind == 1 {
        is_call_row(l)
    } else if kind == 2 {
        is_ret_row(l)
    } else {
        is_mem_row(l)
    }
}

/// How many rows of `s` are of the given kind.
pub open spec fn count_where(s: Seq<DisassemblyLine>, kind: int) -> nat
    decreases s.len(),
{
    if s.len() == 0 {
        0
    } else {
        count_where(s.drop_last(), kind) + if row_kind(s.last(), kind) { 1nat } else { 0nat }
    }
}

pub open spec fn is_branch_row(l: DisassemblyLine) -> bool {
    let m = lower_seq(l.mnemonic@);
    m.len() > 0 && m[0] == 'j'
}

pub open spec fn is_call_row(l: DisassemblyLine) -> bool {
    lower_seq(l.mnemonic@) == "call"@ || lower_seq(l.mnemonic@) == "bl"@
}

pub open spec fn is_ret_row(l: DisassemblyLine) -> bool {
    lower_seq(l.mnemonic@) == "ret"@
}

/// Operands that look like a memory access: a `[` or `ptr` in them.
pub open spec fn is_mem_row(l: DisassemblyLine) -> bool {
    l.operands@.contains('[') || occurs(l.operands@, "ptr"@)
}

/// The changed-register names of the latest (at most 500) trace events,
/// newest event first.
pub open spec fn heat_names(trace: Seq<TraceEvent>, n: int) -> Seq<Seq<char>>
    decreases n,
{
    if n <= 0 {
        Seq::empty()
    } else {
        let ev = trace[trace.len() - n];
        heat_names(trace, n - 1).add(match ev.delta {
            Some(d) => d.changed_registers@.map_values(|r: crate::tra86::model::RegisterDiff| r.name@),
            None => Seq::empty(),
        })
    }
}

/// How many of the latest events the heat map looks at.
pub open spec fn heat_window(trace: Seq<TraceEvent>) -> int {
    if trace.len() < 500 { trace.len() as int } else { 500 }
}

/// `  name  count` lines of the first (at most) twelve ranked entries, the
/// name right-aligned in eight columns.
pub open spec fn top_lines(rk: Seq<(Seq<char>, u64)>) -> Seq<Seq<char>> {
    rk.take(if rk.len() < 12 { rk.len() as int } else { 12 }).map_values(|e: (Seq<char>, u64)|
        "  "@ + pad_left(e.0, 8, ' ') + "  "@ + dec_digits(e.1 as nat))
}

/// `rk` ranks the counts of `names` (most frequent first, ties by name).
pub open spec fn ranks_names(rk: Seq<(Seq<char>, u64)>, names: Seq<Seq<char>>) -> bool {
    ranked_order(rk) && rk.to_multiset() == tally_all(Seq::empty(), names).to_multiset()
}

/// The analysis summary of a disassembly and a trace.
pub open spec fn analysis_lines_ok(lines: Seq<Seq<char>>, dis: Seq<DisassemblyLine>, trace: Seq<TraceEvent>) -> bool {
    exists|mk: Seq<(Seq<char>, u64)>, rk: Seq<(Seq<char>, u64)>|
        ranks_names(mk, dis.map_values(|l: DisassemblyLine| l.mnemonic@))
        && ranks_names(rk, heat_names(trace, heat_window(trace)))
        && lines == seq!["Trace events: "@ + dec_digits(trace.len()), "Disassembly rows loaded: "@ + dec_digits(dis.len()),
            "Top mnemonics:"@] + top_lines(mk) + seq![
            "Control-flow: branches="@ + dec_digits(count_where(dis, 0)) + " calls="@
                + dec_digits(count_where(dis, 1)) + " returns="@
                + dec_digits(count_where(dis, 2)),
            "Memory-access-looking instructions: "@ + dec_digits(count_where(dis, 3)),
            "Changed-register heat (recent trace):"@] + top_lines(rk)
}

fn labeled_count(label: &str, n: u64) -> (r: Vec<char>)
    ensures
        r@ == label@ + dec_digits(n as nat),
{
    let mut v = chars_of(label);
    let d = fmt_dec(n);
    push_chars(&mut v, d.as_slice());
    v
}

fn push_line(lines: &mut Vec<String>, v: &Vec<char>)
    ensures
        string_views(final(lines)@) == string_views(old(lines)@).push(v@),
{
    let s = string_of(v.as_slice());
    lines.push(s);
    assert(string_views(lines@) =~= string_views(old(lines)@).push(v@));
}

fn push_top(lines: &mut Vec<String>, ranked: &Vec<(String, u64)>)
    ensures
        string_views(final(lines)@) == string_views(old(lines)@) + top_lines(tally_view(ranked@)),
{
    let ghost rk = tally_view(ranked@);
    let limit: usize = if ranked.len() < 12 { ranked.len() } else { 12 };
    let mut i: usize = 0;
    while i < limit
        invariant
            i <= limit <= ranked@.len(),
            rk == tally_view(ranked@),
            limit == if rk.len() < 12 { rk.len() as int } else { 12 },
            string_views(lines@) == string_views(old(lines)@) + rk.take(i as int).map_values(|e: (Seq<char>, u64)|
                "  "@ + pad_left(e.0, 8, ' ') + "  "@ + dec_digits(e.1 as nat)),
        decreases limit - i,
    {
        let mut v = chars_of("  ");
        let name = pad(chars_of(ranked[i].0.as_str()), 8, ' ');
        push_chars(&mut v, name.as_slice());
        push_str(&mut v, "  ");
        let d = fmt_dec(ranked[i].1);
        push_chars(&mut v, d.as_slice());
        let ghost before = string_views(lines@);
        push_line(lines, &v);
        proof {
            assert(rk[i as int] == (ranked@[i as int].0@, ranked@[i as int].1));
            assert(rk.take(i + 1).map_values(|e: (Seq<char>, u64)| "  "@ + pad_left(e.0, 8, ' ') + "  "@ + dec_digits(e.1 as nat))
                =~= rk.take(i as int).map_values(|e: (Seq<char>, u64)| "  "@ + pad_left(e.0, 8, ' ') + "  "@ + dec_digits(e.1 as nat)).push(v@));
        }
        i = i + 1;
    }
}

/// Every count is at most `k`.
pub open spec fn counts_at_most(s: Seq<(Seq<char>, u64)>, k: int) -> bool {
    forall|i: int| 0 <= i < s.len() ==> (#[trigger] s[i]).1 <= k
}

proof fn lemma_bump_at_most(s: Seq<(Seq<char>, u64)>, n: Seq<char>, k: int)
    requires
        counts_at_most(s, k),
        k >= 0,
        k < u64::MAX,
    ensures
        counts_at_most(tally_bump(s, n), k + 1),
{
    lemma_tally_index_found(s, n, 0);
    let t = tally_bump(s, n);
    assert forall|i: int| 0 <= i < t.len() implies (#[trigger] t[i]).1 <= k + 1 by {
        if tally_index(s, n) >= 0 {
            if i != tally_index(s, n) {
                assert(t[i] == s[i]);
            }
        } else if i < s.len() {
            assert(t[i] == s[i]);
        }
    }
}

fn tally_bounded(v: &mut Vec<(String, u64)>, name: &str, k: u64)
    requires
        counts_at_most(tally_view(old(v)@), k as int),
        k < u64::MAX,
    ensures
        tally_view(final(v)@) == tally_bump(tally_view(old(v)@), name@),
        counts_at_most(tally_view(final(v)@), k + 1),
{
    proof {
        assert forall|i: int| 0 <= i < old(v)@.len() && (#[trigger] old(v)@[i]).0@ == name@ implies old(v)@[i].1 < u64::MAX by {
            assert(tally_view(old(v)@)[i].1 == old(v)@[i].1);
        }
        lemma_bump_at_most(tally_view(old(v)@), name@, k as int);
    }
    tally_add(v, name);
}

/// The analysis summary shown beside the disassembly: counts, the top
/// mnemonics, control-flow and memory-access tallies, and the registers that
/// changed most often in the latest 500 trace events.
pub fn build_analysis_lines(disassembly: &[DisassemblyLine], trace: &[TraceEvent]) -> (lines: Vec<String>)
    requires
        heat_names(trace@, heat_window(trace@)).len() < u64::MAX,
    ensures
        analysis_lines_ok(string_views(lines@), disassembly@, trace@),
{
    let ghost dis = disassembly@;
    let mut lines: Vec<String> = Vec::new();
    push_line(&mut lines, &labeled_count("Trace events: ", trace.len() as u64));
    push_line(&mut lines, &labeled_count("Disassembly rows loaded: ", disassembly.len() as u64));
    let ghost mnames = dis.map_values(|l: DisassemblyLine| l.mnemonic@);
    let mut counts: Vec<(String, u64)> = Vec::new();
    let mut i: usize = 0;
    while i < disassembly.len()
        invariant
            i <= dis.len(),
            dis == disassembly@,
            mnames == dis.map_values(|l: DisassemblyLine| l.mnemonic@),
            tally_view(counts@) == tally_all(Seq::empty(), mnames.take(i as int)),
            counts_at_most(tally_view(counts@), i as int),
        decreases dis.len() - i,
    {
        proof {
            assert(mnames.take(i + 1).drop_last() =~= mnames.take(i as int));
            assert(mnames.take(i + 1).last() == dis[i as int].mnemonic@);
        }
        tally_bounded(&mut counts, disassembly[i].mnemonic.as_str(), i as u64);
        i = i + 1;
    }
    proof {
        assert(mnames.take(dis.len() as int) =~= mnames);
    }
    let mranked = rank_tallies(&counts);
    push_line(&mut lines, &chars_of("Top mnemonics:"));
    push_top(&mut lines, &mranked);
    let ghost part1 = string_views(lines@);
    proof {
        assert(part1 =~= seq!["Trace events: "@ + dec_digits(trace@.len()), "Disassembly rows loaded: "@ + dec_digits(dis.len()),
            "Top mnemonics:"@] + top_lines(tally_view(mranked@)));
    }
    let mut branches: usize = 0;
    let mut calls: usize = 0;
    let mut rets: usize = 0;
    let mut mems: usize = 0;
    let mut i: usize = 0;
    while i < disassembly.len()
        invariant
            i <= dis.len(),
            dis == disassembly@,
            branches == count_where(dis.take(i as int), 0),
            calls == count_where(dis.take(i as int), 1),
            rets == count_where(dis.take(i as int), 2),
            mems == count_where(dis.take(i as int), 3),
            branches <= i && calls <= i && rets <= i && mems <= i,
        decreases dis.len() - i,
    {
        proof {
            assert(dis.take(i + 1).drop_last() =~= dis.take(i as int));
            assert(dis.take(i + 1).last() == dis[i as int]);
        }
        let row = &disassembly[i];
        let mn = lower_all(chars_of(row.mnemonic.as_str()).as_slice());
        if mn.len() > 0 && mn[0] == 'j' {
            branches = branches + 1;
        }
        if is_word(mn.as_slice(), "call") || is_word(mn.as_slice(), "bl") {
            calls = calls + 1;
        }
        if is_word(mn.as_slice(), "ret") {
            rets = rets + 1;
        }
        let ops = chars_of(row.operands.as_str());
        if contains_char(ops.as_slice(), '[') || contains_lit(ops.as_slice(), "ptr") {
            mems = mems + 1;
        }
        i = i + 1;
    }
    proof {
        assert(dis.take(dis.len() as int) =~= dis);
    }
    let mut cf = labeled_count("Control-flow: branches=", branches as u64);
    push_chars(&mut cf, labeled_count(" calls=", calls as u64).as_slice());
    push_chars(&mut cf, labeled_count(" returns=", rets as u64).as_slice());
    assert(cf@ =~= "Control-flow: branches="@ + dec_digits(count_where(dis, 0)) + " calls="@
        + dec_digits(count_where(dis, 1)) + " returns="@ + dec_digits(count_where(dis, 2)));
    push_line(&mut lines, &cf);
    push_line(&mut lines, &labeled_count("Memory-access-looking instructions: ", mems as u64));
    push_line(&mut lines, &chars_of("Changed-register heat (recent trace):"));
    let ghost part2 = string_views(lines@);
    proof {
        assert(part2 =~= part1 + seq![
            "Control-flow: branches="@ + dec_digits(count_where(dis, 0)) + " calls="@
                + dec_digits(count_where(dis, 1)) + " returns="@
                + dec_digits(count_where(dis, 2)),
            "Memory-access-looking instructions: "@ + dec_digits(count_where(dis, 3)),
            "Changed-register heat (recent trace):"@]);
    }
    let window: usize = if trace.len() < 500 { trace.len() } else { 500 };
    let ghost hn = heat_names(trace@, window as int);
    let mut heat: Vec<(String, u64)> = Vec::new();
    let mut seen: u64 = 0;
    let mut e: usize = 0;
    while e < window
        invariant
            e <= window <= trace@.len(),
            window == heat_window(trace@),
            hn == heat_names(trace@, window as int),
            hn.len() < u64::MAX,
            tally_view(heat@) == tally_all(Seq::empty(), heat_names(trace@, e as int)),
            seen as int == heat_names(trace@, e as int).len(),
            counts_at_most(tally_view(heat@), seen as int),
            heat_names(trace@, e as int).len() <= hn.len(),
        decreases window - e,
    {
        let ev = &trace[trace.len() - 1 - e];
        let ghost before_names = heat_names(trace@, e as int);
        proof {
            lemma_heat_prefix(trace@, e as int + 1, window as int);
        }
        match &ev.delta {
            Some(d) => {
                let mut q: usize = 0;
                while q < d.changed_registers.len()
                    invariant
                        q <= d.changed_registers@.len(),
                        hn.len() < u64::MAX,
                        before_names.len() + d.changed_registers@.len() <= hn.len(),
                        tally_view(heat@) == tally_all(Seq::empty(), before_names
                            + d.changed_registers@.map_values(|r: crate::tra86::model::RegisterDiff| r.name@).take(q as int)),
                        seen as int == before_names.len() + q,
                        counts_at_most(tally_view(heat@), seen as int),
                    decreases d.changed_registers@.len() - q,
                {
                    let ghost part = d.changed_registers@.map_values(|r: crate::tra86::model::RegisterDiff| r.name@);
                    proof {
                        assert((before_names + part.take(q + 1)).drop_last() =~= before_names + part.take(q as int));
                        assert((before_names + part.take(q + 1)).last() == d.changed_registers@[q as int].name@);
                    }
                    tally_bounded(&mut heat, d.changed_registers[q].name.as_str(), seen);
                    seen = seen + 1;
                    q = q + 1;
                }
                proof {
                    let part = d.changed_registers@.map_values(|r: crate::tra86::model::RegisterDiff| r.name@);
                    assert(part.take(part.len() as int) =~= part);
                }
            },
            None => {
                proof {
                    assert(before_names + Seq::<Seq<char>>::empty() =~= before_names);
                }
            },
        }
        e = e + 1;
    }
    let hranked = rank_tallies(&heat);
    push_top(&mut lines, &hranked);
    proof {
        let mk = tally_view(mranked@);
        let rk = tally_view(hranked@);
        assert(ranks_names(mk, dis.map_values(|l: DisassemblyLine| l.mnemonic@)));
        assert(ranks_names(rk, heat_names(trace@, heat_window(trace@))));
        assert(string_views(lines@) == part2 + top_lines(rk));
        assert(string_views(lines@) =~= seq!["Trace events: "@ + dec_digits(trace@.len()), "Disassembly rows loaded: "@ + dec_digits(dis.len()),
            "Top mnemonics:"@] + top_lines(mk) + seq![
            "Control-flow: branches="@ + dec_digits(count_where(dis, 0)) + " calls="@
                + dec_digits(count_where(dis, 1)) + " returns="@
                + dec_digits(count_where(dis, 2)),
            "Memory-access-looking instructions: "@ + dec_digits(count_where(dis, 3)),
            "Changed-register heat (recent trace):"@] + top_lines(rk));
    }
    lines
}

/// How many names the heat map of `trace` looks at.
fn heat_total(trace: &[TraceEvent]) -> (r: u128)
    ensures
        r == heat_names(trace@, heat_window(trace@)).len(),
{
    let n = trace.len();
    let w: usize = if n < 500 { n } else { 500 };
    let mut total: u128 = 0;
    let mut k: usize = 0;
    while k < w
        invariant
            w == heat_window(trace@),
            n == trace@.len(),
            k <= w <= 500,
            total == heat_names(trace@, k as int).len(),
            total <= k * 0x1_0000_0000_0000_0000,
        decreases w - k,
    {
        let ev = &trace[n - (k + 1)];
        let c: usize = match &ev.delta {
            Some(d) => d.changed_registers.len(),
            None => 0,
        };
        proof {
            let e = trace@[n - (k + 1)];
            let names = match e.delta {
                Some(d) => d.changed_registers@.map_values(|r: crate::tra86::model::RegisterDiff| r.name@),
                None => Seq::empty(),
            };
            assert(heat_names(trace@, k + 1) == heat_names(trace@, k as int).add(names));
            assert(names.len() == c);
        }
        total = total + c as u128;
        k = k + 1;
    }
    total
}

/// The analysis summary, when its heat list can be counted: `None` only
/// when that list has `u64::MAX` names or more.
pub fn analysis_lines_checked(disassembly: &[DisassemblyLine], trace: &[TraceEvent]) -> (r: Option<Vec<String>>)
    ensures
        r is Some <==> heat_names(trace@, heat_window(trace@)).len() < u64::MAX,
        r matches Some(lines) ==> analysis_lines_ok(string_views(lines@), disassembly@, trace@),
{
    if heat_total(trace) < u64::MAX as u128 {
        Some(build_analysis_lines(disassembly, trace))
    } else {
        None
    }
}

proof fn lemma_heat_prefix(trace: Seq<TraceEvent>, a: int, b: int)
    requires
        0 <= a <= b <= trace.len(),
    ensures
        heat_names(trace, a).len() <= heat_names(trace, b).len(),
    decreases b - a,
{
    if a < b {
        lemma_heat_prefix(trace, a, b - 1);
    }
}

/// Makes the backend for a choice.
pub trait BackendFactory: Send {
    /// Puts a fresh backend for `choice` into `slot`.
    fn make_backend(&self, choice: BackendChoice, slot: &mut Box<dyn DebugBackend>);
}

/// Makes the simulated backend, whatever the choice.
pub struct MockFactory;

impl BackendFactory for MockFactory {
    fn make_backend(&self, choice: BackendChoice, slot: &mut Box<dyn DebugBackend>) {
        *slot = Box::new(MockBackend::default());
    }
}

/// What the user interface asks of the worker.
#[derive(Debug)]
pub enum BackendCommand {
    SwitchBackend(BackendChoice),
    OpenTarget(String),
    Launch(TargetBinary),
    Attach(u32),
    Continue,
    Pause,
    StepInto,
    StepOver,
    StepOut,
    Restart(TargetBinary),
    Stop,
    Refresh,
    ToggleBreakpoint(u64),
    RemoveBreakpoint(u64),
    JumpMemory(u64),
    JumpDisassembly(u64),
}

/// What the worker sends back.
#[derive(Debug)]
pub enum WorkerMessage {
    Snapshot(BackendSnapshot),
    Error(String),
}

/// A consistent read of the backend for the user interface.
#[derive(Debug)]
pub struct BackendSnapshot {
    pub status_line: String,
    pub session: SessionStatus,
    pub stop_reason: StopReason,
    pub threads: Vec<ThreadState>,
    pub frames: Vec<FrameState>,
    pub disassembly: Vec<DisassemblyLine>,
    pub function_rows: Vec<String>,
    pub registers: Option<RegisterBank>,
    pub breakpoints: Vec<Breakpoint>,
    pub memory_map_lines: Vec<String>,
    pub memory_bytes: Vec<u8>,
    pub output_lines: Vec<String>,
}

/// The `Debug` name of a backend choice.
pub open spec fn choice_name(c: BackendChoice) -> Seq<char> {
    match c {
        BackendChoice::Mock => "Mock"@,
        BackendChoice::Lldb => "Lldb"@,
    }
}

pub fn choice_label(c: BackendChoice) -> (r: &'static str)
    ensures
        r@ == choice_name(c),
{
    match c {
        BackendChoice::Mock => "Mock",
        BackendChoice::Lldb => "Lldb",
    }
}

/// `p` then `x`.
fn text2(p: &str, x: &[char]) -> (r: String)
    ensures
        r@ == p@ + x@,
{
    let mut v = chars_of(p);
    push_chars(&mut v, x);
    string_of(v.as_slice())
}

/// The session's stop reason while no process is live.
pub open spec fn idle_stop(phase: RuntimePhase) -> StopReason {
    match phase {
        RuntimePhase::Exited => StopReason::Exited(0),
        RuntimePhase::Detached => StopReason::Detached,
        _ => StopReason::NoReason,
    }
}

/// A memory-map row: `0x<start>-0x<end> rwx label`.
pub open spec fn region_line(r: MemoryRegion) -> Seq<char> {
    addr16(r.start) + seq!['-'] + addr16(r.end) + seq![' ', if r.permissions.read { 'r' } else { '-' },
        if r.permissions.write { 'w' } else { '-' }, if r.permissions.execute { 'x' } else { '-' }, ' ']
        + match r.label {
        Some(l) => l@,
        None => match r.pathname {
            Some(p) => p@,
            None => "anonymous"@,
        },
    }
}

#[verifier::rlimit(50)]
pub fn memory_map_line(r: &MemoryRegion) -> (s: String)
    ensures
        s@ == region_line(*r),
{
    let mut v = fmt_hex_padded(r.start, 16);
    v.push('-');
    let e = fmt_hex_padded(r.end, 16);
    push_chars(&mut v, e.as_slice());
    v.push(' ');
    v.push(if r.permissions.read { 'r' } else { '-' });
    v.push(if r.permissions.write { 'w' } else { '-' });
    v.push(if r.permissions.execute { 'x' } else { '-' });
    v.push(' ');
    let label = match &r.label {
        Some(l) => chars_of(l.as_str()),
        None => match &r.pathname {
            Some(p) => chars_of(p.as_str()),
            None => chars_of("anonymous"),
        },
    };
    push_chars(&mut v, label.as_slice());
    assert(v@ =~= region_line(*r));
    string_of(v.as_slice())
}

/// Marks the line at `ip` as the current one (and no other).
pub fn mark_current(lines: &mut Vec<DisassemblyLine>, ip: Option<u64>)
    ensures
        final(lines)@.len() == old(lines)@.len(),
        forall|i: int| 0 <= i < old(lines)@.len() ==> #[trigger] final(lines)@[i] == (DisassemblyLine {
            is_current: match ip {
                Some(a) => old(lines)@[i].address == a,
                None => false,
            },
            ..old(lines)@[i]
        }),
{
    let mut i: usize = 0;
    while i < lines.len()
        invariant
            i <= lines@.len(),
            lines@.len() == old(lines)@.len(),
            forall|j: int| 0 <= j < i ==> #[trigger] lines@[j] == (DisassemblyLine {
                is_current: match ip {
                    Some(a) => old(lines)@[j].address == a,
                    None => false,
                },
                ..old(lines)@[j]
            }),
            forall|j: int| i <= j < lines@.len() ==> #[trigger] lines@[j] == old(lines)@[j],
        decreases lines@.len() - i,
    {
        let mut l = lines.remove(i);
        l.is_current = match ip {
            Some(a) => l.address == a,
            None => false,
        };
        lines.insert(i, l);
        i = i + 1;
    }
}

/// The pc when the backend reports none: the line marked current, else the
/// first line.
pub open spec fn fallback_ip(lines: Seq<DisassemblyLine>) -> Option<u64> {
    if exists|i: int| 0 <= i < lines.len() && lines[i].is_current {
        Some(lines[choose|i: int| 0 <= i < lines.len() && lines[i].is_current
            && forall|j: int| 0 <= j < i ==> !lines[j].is_current].address)
    } else if lines.len() > 0 {
        Some(lines[0].address)
    } else {
        None
    }
}

pub fn first_current_or_first(lines: &Vec<DisassemblyLine>) -> (r: Option<u64>)
    ensures
        r == fallback_ip(lines@),
{
    let mut i: usize = 0;
    while i < lines.len()
        invariant
            i <= lines@.len(),
            forall|j: int| 0 <= j < i ==> !lines@[j].is_current,
        decreases lines@.len() - i,
    {
        if lines[i].is_current {
            proof {
                let c = choose|k: int| 0 <= k < lines@.len() && lines@[k].is_current
                    && forall|j: int| 0 <= j < k ==> !lines@[j].is_current;
                assert(0 <= i < lines@.len() && lines@[i as int].is_current
                    && forall|j: int| 0 <= j < i ==> !lines@[j].is_current);
                if c < i {
                    assert(!lines@[c].is_current);
                }
                if c > i {
                    assert(!lines@[i as int].is_current);
                }
            }
            return Some(lines[i].address);
        }
        i = i + 1;
    }
    if lines.len() > 0 {
        Some(lines[0].address)
    } else {
        None
    }
}

/// The session a successful command leaves behind.
pub open spec fn session_after(s: RuntimeSession, cmd: BackendCommand) -> RuntimeSession {
    match cmd {
        BackendCommand::SwitchBackend(_) => RuntimeSession {
            phase: RuntimePhase::Idle,
            target_program: None,
            attached_pid: None,
            has_live_process: false,
            last_error: None,
        },
        BackendCommand::OpenTarget(p) => RuntimeSession {
            phase: RuntimePhase::TargetLoaded,
            target_program: Some(p),
            attached_pid: None,
            has_live_process: false,
            last_error: None,
        },
        BackendCommand::Launch(t) => RuntimeSession {
            phase: RuntimePhase::Stopped,
            target_program: Some(t.program),
            attached_pid: None,
            has_live_process: true,
            last_error: None,
        },
        BackendCommand::Restart(t) => RuntimeSession {
            phase: RuntimePhase::Stopped,
            target_program: Some(t.program),
            attached_pid: None,
            has_live_process: true,
            last_error: None,
        },
        BackendCommand::Attach(pid) => RuntimeSession {
            phase: RuntimePhase::Stopped,
            target_program: None,
            attached_pid: Some(pid),
            has_live_process: true,
            last_error: None,
        },
        BackendCommand::Stop => RuntimeSession {
            has_live_process: false,
            attached_pid: None,
            phase: RuntimePhase::Exited,
            ..s
        },
        _ => s,
    }
}

/// The output line a successful command adds, if any.
pub open spec fn command_note(cmd: BackendCommand) -> Seq<Seq<char>> {
    match cmd {
        BackendCommand::SwitchBackend(c) => seq!["switched backend to "@ + choice_name(c)],
        BackendCommand::OpenTarget(p) => seq!["loaded target "@ + p@],
        BackendCommand::Launch(t) => seq!["launched "@ + t.program@],
        BackendCommand::Attach(pid) => seq!["attached to pid "@ + dec_digits(pid as nat)],
        BackendCommand::Restart(t) => seq!["restarted "@ + t.program@],
        _ => Seq::empty(),
    }
}

/// The breakpoints other than the one numbered `id`.
pub open spec fn bps_without(bps: Seq<Breakpoint>, id: u64) -> Seq<Breakpoint>
    decreases bps.len(),
{
    if bps.len() == 0 {
        bps
    } else {
        let rest = bps_without(bps.drop_last(), id);
        if bps.last().id != id {
            rest.push(bps.last())
        } else {
            rest
        }
    }
}

/// The number of the first breakpoint at `a`, looking from index `i`.
pub open spec fn first_at_address_from(bps: Seq<Breakpoint>, a: u64, i: int) -> Option<u64>
    decreases bps.len() - i,
{
    if i < 0 || i >= bps.len() {
        None
    } else if bps[i].location == BreakpointLocation::Address(a) {
        Some(bps[i].id)
    } else {
        first_at_address_from(bps, a, i + 1)
    }
}

/// The breakpoints after a successful command: toggling removes the first
/// breakpoint at the address, or adds the one the backend set.
pub open spec fn bps_after_ok(old_bps: Seq<Breakpoint>, cmd: BackendCommand, new_bps: Seq<Breakpoint>) -> bool {
    match cmd {
        BackendCommand::SwitchBackend(_) => new_bps.len() == 0,
        BackendCommand::ToggleBreakpoint(a) => match first_at_address_from(old_bps, a, 0) {
            Some(id) => new_bps == bps_without(old_bps, id),
            None => new_bps.len() == old_bps.len() + 1 && new_bps.drop_last() == old_bps,
        },
        BackendCommand::RemoveBreakpoint(id) => new_bps == bps_without(old_bps, id),
        _ => new_bps == old_bps,
    }
}

/// The worker: the active backend, the session and what the views follow.
pub struct WorkerRuntime {
    pub orchestrator: BackendOrchestrator,
    pub backend_choice: BackendChoice,
    pub session: RuntimeSession,
    pub breakpoints: Vec<Breakpoint>,
    pub memory_address: u64,
    pub disassembly_address: Option<u64>,
    pub output_lines: Vec<String>,
    pub factory: Box<dyn BackendFactory>,
}

/// Commands whose outcome the backend decides; the others always succeed.
pub open spec fn reaches_backend(c: BackendCommand) -> bool {
    !(c is SwitchBackend || c is Refresh || c is JumpMemory || c is JumpDisassembly)
}

/// The requests `apply_command` made of the backend: those the command
/// asks for, each answer passed on as the command's result.
pub open spec fn requested(a: WorkerRuntime, cmd: BackendCommand, r: Result<(), BackendError>, b: WorkerRuntime) -> bool {
    let before = a.orchestrator.received();
    let after = b.orchestrator.received();
    match cmd {
        BackendCommand::SwitchBackend(_) => true,
        BackendCommand::OpenTarget(p) => after == before.push(Request::OpenTarget { program: p@, answer: r }),
        BackendCommand::Launch(t) => after == before.push(Request::Launch { request: LaunchRequest { target: t }, answer: r }),
        BackendCommand::Attach(pid) => after == before.push(Request::Attach { pid, answer: r }),
        BackendCommand::Continue => after == before.push(Request::Continue { answer: r }),
        BackendCommand::Pause => after == before.push(Request::Pause { answer: r }),
        BackendCommand::StepInto => after == before.push(Request::StepInto { answer: r }),
        BackendCommand::StepOver => after == before.push(Request::StepOver { answer: r }),
        BackendCommand::StepOut => after == before.push(Request::StepOut { answer: r }),
        BackendCommand::Restart(t) => exists|k: Result<(), BackendError>|
            after == #[trigger] before.push(Request::Kill { answer: k }).push(
                Request::Launch { request: LaunchRequest { target: t }, answer: r },
            ),
        BackendCommand::Stop => after == before.push(Request::Kill { answer: r }),
        BackendCommand::Refresh => after == before,
        BackendCommand::ToggleBreakpoint(addr) => match first_at_address_from(a.breakpoints@, addr, 0) {
            Some(id) => after == before.push(Request::RemoveBreakpoint { id, answer: r }),
            None => exists|ans: Result<Breakpoint, BackendError>|
                after == #[trigger] before.push(Request::SetBreakpoint { location: BreakpointLocation::Address(addr), answer: ans })
                && match ans {
                    Ok(bp) => r is Ok && b.breakpoints@ == a.breakpoints@.push(bp),
                    Err(e) => r == Err::<(), BackendError>(e),
                },
        },
        BackendCommand::RemoveBreakpoint(id) => after == before.push(Request::RemoveBreakpoint { id, answer: r }),
        BackendCommand::JumpMemory(_) => after == before,
        BackendCommand::JumpDisassembly(_) => after == before,
    }
}

/// The simulated backend through a command: a switch to it makes a fresh
/// one; any other command keeps the kind of backend, a consistent simulated
/// backend consistent and a loaded target loaded; opening, launching or
/// restarting a target loads it; the simulated backend opens, launches,
/// restarts and stops without fail.
pub open spec fn mock_followed(a: WorkerRuntime, cmd: BackendCommand, r: Result<(), BackendError>, b: WorkerRuntime) -> bool {
    &&& (cmd is OpenTarget || cmd is Launch || cmd is Restart || cmd is Stop) && a.orchestrator.active is Mock ==> r is Ok
    &&& match cmd {
        BackendCommand::SwitchBackend(c) => c == BackendChoice::Mock ==> b.orchestrator.mock_ready(),
        _ => {
            &&& b.orchestrator.kept_from(a.orchestrator)
            &&& (cmd is OpenTarget || cmd is Launch || cmd is Restart) && a.orchestrator.mock_ready()
                ==> b.orchestrator.mock_loaded()
        },
    }
}

/// What `apply_command` did to the worker, apart from the backend: on
/// success the command's effect, on failure nothing.
pub open spec fn applied(a: WorkerRuntime, cmd: BackendCommand, r: Result<(), BackendError>, b: WorkerRuntime) -> bool {
    match r {
        Ok(_) => {
            &&& b.session == session_after(a.session, cmd)
            &&& bps_after_ok(a.breakpoints@, cmd, b.breakpoints@)
            &&& b.memory_address == match cmd {
                BackendCommand::SwitchBackend(_) => 0x1000u64,
                BackendCommand::JumpMemory(x) => x,
                _ => a.memory_address,
            }
            &&& b.disassembly_address == match cmd {
                BackendCommand::SwitchBackend(_) => None,
                BackendCommand::JumpDisassembly(x) => Some(x),
                _ => a.disassembly_address,
            }
            &&& b.backend_choice == match cmd {
                BackendCommand::SwitchBackend(c) => c,
                _ => a.backend_choice,
            }
            &&& string_views(b.output_lines@) == string_views(a.output_lines@) + command_note(cmd)
        },
        Err(_) => {
            &&& b.session == a.session
            &&& b.breakpoints@ == a.breakpoints@
            &&& b.memory_address == a.memory_address
            &&& b.disassembly_address == a.disassembly_address
            &&& b.backend_choice == a.backend_choice
            &&& b.output_lines@ == a.output_lines@
        },
    }
}

fn push_string(lines: &mut Vec<String>, line: String)
    ensures
        string_views(final(lines)@) == string_views(old(lines)@).push(line@),
{
    lines.push(line);
    assert(string_views(lines@) =~= string_views(old(lines)@).push(line@));
}

/// The breakpoints of `bps` not numbered `id`, in order.
fn retain_other(bps: &mut Vec<Breakpoint>, id: u64)
    ensures
        final(bps)@ == bps_without(old(bps)@, id),
{
    let mut all: Vec<Breakpoint> = Vec::new();
    std::mem::swap(&mut all, bps);
    let ghost src = all@;
    let mut i: usize = 0;
    while i < all.len()
        invariant
            i <= src.len(),
            src == all@,
            src == old(bps)@,
            bps@ == bps_without(src.take(i as int), id),
        decreases src.len() - i,
    {
        proof {
            assert(src.take(i + 1).drop_last() =~= src.take(i as int));
            assert(src.take(i + 1).last() == src[i as int]);
        }
        if all[i].id != id {
            bps.push(all[i].dup());
        }
        i = i + 1;
    }
    proof {
        assert(src.take(src.len() as int) =~= src);
    }
}

/// The number of the first breakpoint set at `address`.
fn find_at_address(bps: &Vec<Breakpoint>, address: u64) -> (r: Option<u64>)
    ensures
        r == first_at_address_from(bps@, address, 0),
{
    let mut i: usize = 0;
    while i < bps.len()
        invariant
            i <= bps@.len(),
            first_at_address_from(bps@, address, 0) == first_at_address_from(bps@, address, i as int),
        decreases bps@.len() - i,
    {
        let here = match &bps[i].location {
            BreakpointLocation::Address(x) => *x == address,
            _ => false,
        };
        if here {
            return Some(bps[i].id);
        }
        i = i + 1;
    }
    None
}

/// The backend for `choice`: the simulated one for `Mock`, else the one
/// `factory` makes.
fn backend_for(choice: BackendChoice, factory: &Box<dyn BackendFactory>) -> (b: ActiveBackend)
    ensures
        choice == BackendChoice::Mock ==> (b matches ActiveBackend::Mock(m) && m.wf() && m.target() is None),
        choice != BackendChoice::Mock ==> b is Other,
{
    match choice {
        BackendChoice::Mock => ActiveBackend::Mock(MockBackend::default()),
        _ => {
            let mut backend: Box<dyn DebugBackend> = Box::new(MockBackend::default());
            factory.make_backend(choice, &mut backend);
            ActiveBackend::Other(backend)
        },
    }
}

impl WorkerRuntime {
    /// A worker on the simulated backend for `Mock`, else on the backend
    /// that `factory` makes for `initial`.
    pub fn new(initial: BackendChoice, factory: Box<dyn BackendFactory>) -> (w: WorkerRuntime)
        ensures
            w.backend_choice == initial,
            w.session.phase == RuntimePhase::Idle,
            w.session.target_program is None,
            w.session.attached_pid is None,
            !w.session.has_live_process,
            w.session.last_error is None,
            w.breakpoints@.len() == 0,
            w.memory_address == 0x1000,
            w.disassembly_address is None,
            string_views(w.output_lines@) == seq!["backend initialized: "@ + choice_name(initial)],
            initial == BackendChoice::Mock ==> (w.orchestrator.mock_ready() && !w.orchestrator.mock_loaded()),
    {
        let backend = backend_for(initial, &factory);
        let label = chars_of(choice_label(initial));
        let mut output_lines: Vec<String> = Vec::new();
        push_string(&mut output_lines, text2("backend initialized: ", label.as_slice()));
        WorkerRuntime {
            orchestrator: BackendOrchestrator { active: backend },
            backend_choice: initial,
            session: RuntimeSession::default(),
            breakpoints: Vec::new(),
            memory_address: 0x1000,
            disassembly_address: None,
            output_lines,
            factory,
        }
    }

    /// Carries out one command on the backend and follows it in the session.
    pub fn apply_command(&mut self, command: BackendCommand) -> (r: Result<(), BackendError>)
        ensures
            applied(*old(self), command, r, *final(self)),
            requested(*old(self), command, r, *final(self)),
            mock_followed(*old(self), command, r, *final(self)),
            !reaches_backend(command) ==> r is Ok,
    {
        let ghost pre = *self;
        let ghost cmd = command;
        match command {
            BackendCommand::SwitchBackend(choice) => {
                self.backend_choice = choice;
                let backend = backend_for(choice, &self.factory);
                let _ = self.orchestrator.replace_backend(backend);
                self.session.reset();
                self.breakpoints.clear();
                assert(self.breakpoints@.len() == 0);
                self.memory_address = 0x1000;
                self.disassembly_address = None;
                let label = chars_of(choice_label(choice));
                push_string(&mut self.output_lines, text2("switched backend to ", label.as_slice()));
            },
            BackendCommand::OpenTarget(program) => {
                let r = self.orchestrator.open_target(program.as_str());
                match r {
                    Ok(_) => {},
                    Err(e) => {
                        return Err(e);
                    },
                }
                let pc = chars_of(program.as_str());
                self.session.set_target_program(program);
                push_string(&mut self.output_lines, text2("loaded target ", pc.as_slice()));
            },
            BackendCommand::Launch(target) => {
                let pc = chars_of(target.program.as_str());
                let program = target.program.clone();
                let r = self.orchestrator.launch(LaunchRequest { target });
                match r {
                    Ok(_) => {},
                    Err(e) => {
                        return Err(e);
                    },
                }
                self.session.set_target_program(program);
                self.session.mark_process_stopped();
                push_string(&mut self.output_lines, text2("launched ", pc.as_slice()));
            },
            BackendCommand::Attach(pid) => {
                let r = self.orchestrator.attach(pid);
                match r {
                    Ok(_) => {},
                    Err(e) => {
                        return Err(e);
                    },
                }
                self.session.set_attached_pid(pid);
                let d = fmt_dec(pid as u64);
                push_string(&mut self.output_lines, text2("attached to pid ", d.as_slice()));
            },
            BackendCommand::Continue => {
                let r = self.orchestrator.continue_exec();
                match r {
                    Ok(_) => {},
                    Err(e) => {
                        return Err(e);
                    },
                }
            },
            BackendCommand::Pause => {
                let r = self.orchestrator.pause();
                match r {
                    Ok(_) => {},
                    Err(e) => {
                        return Err(e);
                    },
                }
            },
            BackendCommand::StepInto => {
                let r = self.orchestrator.step_into();
                match r {
                    Ok(_) => {},
                    Err(e) => {
                        return Err(e);
                    },
                }
            },
            BackendCommand::StepOver => {
                let r = self.orchestrator.step_over();
                match r {
                    Ok(_) => {},
                    Err(e) => {
                        return Err(e);
                    },
                }
            },
            BackendCommand::StepOut => {
                let r = self.orchestrator.step_out();
                match r {
                    Ok(_) => {},
                    Err(e) => {
                        return Err(e);
                    },
                }
            },
            BackendCommand::Restart(target) => {
                let pc = chars_of(target.program.as_str());
                let program = target.program.clone();
                let ghost t = target;
                let k = self.orchestrator.kill();
                let ghost r0 = self.orchestrator.received();
                let r = self.orchestrator.launch(LaunchRequest { target });
                proof {
                    assert(r0 == pre.orchestrator.received().push(Request::Kill { answer: k }));
                }
                match r {
                    Ok(_) => {},
                    Err(e) => {
                        return Err(e);
                    },
                }
                self.session.set_target_program(program);
                self.session.mark_process_stopped();
                push_string(&mut self.output_lines, text2("restarted ", pc.as_slice()));
            },
            BackendCommand::Stop => {
                let r = self.orchestrator.kill();
                match r {
                    Ok(_) => {},
                    Err(e) => {
                        return Err(e);
                    },
                }
                self.session.mark_exited();
            },
            BackendCommand::Refresh => {},
            BackendCommand::ToggleBreakpoint(address) => {
                match find_at_address(&self.breakpoints, address) {
                    Some(existing_id) => {
                        let r = self.orchestrator.remove_breakpoint(existing_id);
                        match r {
                            Ok(_) => {},
                            Err(e) => {
                                return Err(e);
                            },
                        }
                        retain_other(&mut self.breakpoints, existing_id);
                    },
                    None => {
                        let r = self.orchestrator.set_breakpoint(BreakpointLocation::Address(address));
                        let ghost ans = r;
                        match r {
                            Ok(bp) => {
                                self.breakpoints.push(bp);
                                assert(self.breakpoints@.drop_last() =~= pre.breakpoints@);
                                assert(self.breakpoints@ == pre.breakpoints@.push(ans->Ok_0));
                            },
                            Err(e) => {
                                return Err(e);
                            },
                        }
                    },
                }
            },
            BackendCommand::RemoveBreakpoint(id) => {
                let r = self.orchestrator.remove_breakpoint(id);
                match r {
                    Ok(_) => {},
                    Err(e) => {
                        return Err(e);
                    },
                }
                retain_other(&mut self.breakpoints, id);
            },
            BackendCommand::JumpMemory(address) => {
                self.memory_address = address;
            },
            BackendCommand::JumpDisassembly(address) => {
                self.disassembly_address = Some(address);
            },
        }
        assert(command_note(cmd).len() == 0 ==> string_views(self.output_lines@) =~= string_views(pre.output_lines@) + command_note(cmd));
        assert(self.session == session_after(pre.session, cmd));
        assert(bps_after_ok(pre.breakpoints@, cmd, self.breakpoints@));
        assert(string_views(self.output_lines@) == string_views(pre.output_lines@) + command_note(cmd));
        Ok(())
    }
}

/// The status of a session that is not busy, as shown to the user.
pub open spec fn shows_status(st: SessionStatus, s: RuntimeSession) -> bool {
    &&& st.phase == ui_phase(s.phase)
    &&& st.detail@ == status_detail(s)
    &&& !st.is_busy
    &&& st.has_target == s.target_known()
    &&& st.has_live_process == s.has_live_process
    &&& st.can_restart == s.target_program is Some
    &&& st.last_error == s.last_error
}

/// The rows shown for a disassembly answer, whatever the current marks:
/// its rows; none where it failed.
pub open spec fn rows_up_to_marks(ans: Result<Vec<DisassemblyLine>, BackendError>, rows: Seq<DisassemblyLine>) -> bool {
    match ans {
        Ok(d) => rows.len() == d@.len() && forall|i: int| 0 <= i < rows.len() ==> #[trigger] rows[i] == (DisassemblyLine {
            is_current: rows[i].is_current,
            ..d@[i]
        }),
        Err(_) => rows.len() == 0,
    }
}

/// The `k`th request received is a disassembly from `addr`, answered `ans`.
pub open spec fn disassembled_at(
    recv: Seq<Request>,
    k: int,
    addr: Option<u64>,
    ans: Result<Vec<DisassemblyLine>, BackendError>,
) -> bool {
    0 <= k < recv.len() && recv[k] == Request::Disassemble { address: addr, count: loaded_count(addr), answer: ans }
}

/// How many rows of a loaded target are asked for: a window around a chosen
/// address, else the whole program.
pub open spec fn loaded_count(anchor: Option<u64>) -> usize {
    if anchor is Some {
        192
    } else {
        4096
    }
}

/// The rows shown for a disassembly answer: its rows, none marked current;
/// none where it failed.
pub open spec fn loaded_rows(ans: Result<Vec<DisassemblyLine>, BackendError>, rows: Seq<DisassemblyLine>) -> bool {
    match ans {
        Ok(d) => rows.len() == d@.len() && forall|i: int| 0 <= i < rows.len() ==> #[trigger] rows[i] == (DisassemblyLine {
            is_current: false,
            ..d@[i]
        }),
        Err(_) => rows.len() == 0,
    }
}

/// A line that reports a failed read of the backend.
pub open spec fn is_failure_line(l: Seq<char>) -> bool {
    starts(l, "snapshot: failed to "@)
}

/// `out` is `base` followed by failure reports only.
pub open spec fn failures_after(out: Seq<Seq<char>>, base: Seq<Seq<char>>) -> bool {
    &&& base.len() <= out.len()
    &&& out.take(base.len() as int) == base
    &&& forall|i: int| base.len() <= i < out.len() ==> is_failure_line(#[trigger] out[i])
}

/// The memory-map rows of `m`.
pub open spec fn region_lines(m: Seq<MemoryRegion>) -> Seq<Seq<char>> {
    m.map_values(|r: MemoryRegion| region_line(r))
}

/// A live read: `backend_ip` is what the backend reported as the current
/// instruction, `ip` the one marked (the backend's, else the disassembly's
/// own current line, else its first).
pub open spec fn live_read(a: WorkerRuntime, snap: BackendSnapshot, b: WorkerRuntime, backend_ip: Option<u64>, ip: Option<u64>) -> bool {
    &&& (backend_ip is Some ==> ip == backend_ip)
    &&& (ip is None ==> snap.disassembly@.len() == 0)
    &&& (ip matches Some(x) ==> forall|i: int| 0 <= i < snap.disassembly@.len()
        ==> (#[trigger] snap.disassembly@[i]).is_current == (snap.disassembly@[i].address == x))
    &&& b.session == reconciled(a.session, snap.stop_reason,
        snap.threads@.len() > 0 || snap.registers is Some || backend_ip is Some)
    &&& b.memory_address == (if a.memory_address == 0x1000 && ip is Some { ip->0 } else { a.memory_address })
}

/// What `collect_snapshot` reports of the worker `a`, and leaves as `b`.
///
/// With no target it reports the idle session; with a loaded program that
/// is not running, the program's disassembly with no current line; else it
/// reads the process, reconciles the session with it, marks the current
/// instruction, and moves the memory view to it while the view is still at
/// its starting address. Every read that fails adds a failure line.
pub open spec fn collected(a: WorkerRuntime, snap: BackendSnapshot, b: WorkerRuntime) -> bool {
    &&& b.orchestrator.kept_from(a.orchestrator)
    &&& b.output_lines@.len() == 0
    &&& b.breakpoints@ == a.breakpoints@
    &&& snap.breakpoints@ == a.breakpoints@
    &&& b.backend_choice == a.backend_choice
    &&& b.disassembly_address == a.disassembly_address
    &&& shows_status(snap.session, b.session)
    &&& failures_after(string_views(snap.output_lines@), string_views(a.output_lines@))
    &&& if !a.session.target_known() {
        &&& snap.status_line@ == "backend="@ + a.orchestrator.name_view() + " idle"@
        &&& b.session == a.session
        &&& b.memory_address == a.memory_address
        &&& snap.stop_reason == StopReason::NoReason
        &&& snap.threads@.len() == 0 && snap.frames@.len() == 0 && snap.disassembly@.len() == 0
        &&& snap.function_rows@.len() == 0 && snap.registers is None
        &&& snap.memory_map_lines@.len() == 0 && snap.memory_bytes@.len() == 0
        &&& string_views(snap.output_lines@) == string_views(a.output_lines@)
        &&& b.orchestrator.received() == a.orchestrator.received()
    } else if !a.session.has_live_process && a.session.target_program is Some {
        &&& snap.status_line@ == "backend="@ + a.orchestrator.name_view() + " target_loaded"@
        &&& b.session == a.session
        &&& b.memory_address == a.memory_address
        &&& snap.stop_reason == idle_stop(a.session.phase)
        &&& snap.threads@.len() == 0 && snap.frames@.len() == 0 && snap.registers is None
        &&& snap.memory_map_lines@.len() == 0 && snap.memory_bytes@.len() == 0
        &&& forall|i: int| 0 <= i < snap.disassembly@.len() ==> !(#[trigger] snap.disassembly@[i]).is_current
        &&& function_rows_ok(string_views(snap.function_rows@), snap.disassembly@)
        &&& exists|ans: Result<Vec<DisassemblyLine>, BackendError>| {
            &&& b.orchestrator.received() == #[trigger] a.orchestrator.received().push(Request::Disassemble {
                address: a.disassembly_address,
                count: loaded_count(a.disassembly_address),
                answer: ans,
            })
            &&& loaded_rows(ans, snap.disassembly@)
            &&& ans is Ok ==> string_views(snap.output_lines@) == string_views(a.output_lines@)
            &&& a.orchestrator.mock_loaded() ==> (ans matches Ok(d) && d@.len() == loaded_count(a.disassembly_address))
        }
    } else {
        &&& snap.status_line@ == "backend="@ + a.orchestrator.name_view() + " thread_count="@ + dec_digits(snap.threads@.len())
        &&& exists|backend_ip: Option<u64>, ip: Option<u64>| #[trigger] live_read(a, snap, b, backend_ip, ip)
        &&& exists|k: int, addr: Option<u64>, ans: Result<Vec<DisassemblyLine>, BackendError>| {
            &&& #[trigger] disassembled_at(b.orchestrator.received(), k, addr, ans)
            &&& a.orchestrator.received().len() <= k
            &&& (a.disassembly_address is Some ==> addr == a.disassembly_address)
            &&& rows_up_to_marks(ans, snap.disassembly@)
        }
        &&& exists|m: Seq<MemoryRegion>| #[trigger] region_lines(m) == string_views(snap.memory_map_lines@)
        &&& exists|prog: Seq<DisassemblyLine>| #[trigger] function_rows_ok(string_views(snap.function_rows@), prog)
    }
}

proof fn lemma_failure_pushed(out: Seq<Seq<char>>, base: Seq<Seq<char>>, l: Seq<char>)
    requires
        failures_after(out, base),
        is_failure_line(l),
    ensures
        failures_after(out.push(l), base),
{
    assert(out.push(l).take(base.len() as int) =~= out.take(base.len() as int));
    assert forall|i: int| base.len() <= i < out.push(l).len() implies is_failure_line(#[trigger] out.push(l)[i]) by {
        if i < out.len() {
            assert(out.push(l)[i] == out[i]);
        }
    }
}

/// Adds the failure line for a read of `what`.
fn report_failure(lines: &mut Vec<String>, what: &str, e: &BackendError, Ghost(base): Ghost<Seq<Seq<char>>>)
    requires
        failures_after(string_views(old(lines)@), base),
    ensures
        failures_after(string_views(final(lines)@), base),
        string_views(final(lines)@) == string_views(old(lines)@).push("snapshot: failed to "@ + what@ + ": "@ + backend_error_text(*e)),
{
    let mut v = chars_of("snapshot: failed to ");
    push_str(&mut v, what);
    push_str(&mut v, ": ");
    let m = e.message();
    let mc = chars_of(m.as_str());
    push_chars(&mut v, mc.as_slice());
    let ghost l = "snapshot: failed to "@ + what@ + ": "@ + backend_error_text(*e);
    let ghost before = string_views(lines@);
    assert(v@ =~= l);
    assert(l.take("snapshot: failed to "@.len() as int) =~= "snapshot: failed to "@);
    push_string(lines, string_of(v.as_slice()));
    proof {
        lemma_failure_pushed(before, base, l);
    }
}

/// `"backend=" + name + tail`.
fn status_text(name: &str, tail: &[char]) -> (r: String)
    ensures
        r@ == "backend="@ + name@ + tail@,
{
    let mut v = chars_of("backend=");
    push_str(&mut v, name);
    push_chars(&mut v, tail);
    string_of(v.as_slice())
}

fn take_lines(lines: &mut Vec<String>) -> (r: Vec<String>)
    ensures
        r@ == old(lines)@,
        final(lines)@.len() == 0,
{
    let mut out: Vec<String> = Vec::new();
    std::mem::swap(&mut out, lines);
    out
}

fn dup_bps(bps: &Vec<Breakpoint>) -> (r: Vec<Breakpoint>)
    ensures
        r@ == bps@,
{
    let mut out: Vec<Breakpoint> = Vec::new();
    let mut i: usize = 0;
    while i < bps.len()
        invariant
            i <= bps@.len(),
            out@ == bps@.take(i as int),
        decreases bps@.len() - i,
    {
        out.push(bps[i].dup());
        proof {
            assert(out@ =~= bps@.take(i + 1));
        }
        i = i + 1;
    }
    proof {
        assert(bps@.take(bps@.len() as int) =~= bps@);
    }
    out
}

impl WorkerRuntime {
    /// Reads everything the views show from the backend.
    pub fn collect_snapshot(&mut self) -> (r: Result<BackendSnapshot, BackendError>)
        ensures
            r matches Ok(snap) && collected(*old(self), snap, *final(self)),
    {
        let ghost a = *self;
        let name = self.orchestrator.backend_name();
        proof {
            assert(string_views(self.output_lines@).take(string_views(a.output_lines@).len() as int) =~= string_views(a.output_lines@));
        }
        if !self.session.has_target() {
            let output_lines = take_lines(&mut self.output_lines);
            let tail = chars_of(" idle");
            let status_line = status_text(name, tail.as_slice());
            assert(status_line@ == "backend="@ + name@ + " idle"@);
            let snap = BackendSnapshot {
                status_line,
                session: self.session.to_ui_status(false),
                stop_reason: StopReason::NoReason,
                threads: Vec::new(),
                frames: Vec::new(),
                disassembly: Vec::new(),
                function_rows: Vec::new(),
                registers: None,
                breakpoints: dup_bps(&self.breakpoints),
                memory_map_lines: Vec::new(),
                memory_bytes: Vec::new(),
                output_lines,
            };
            return Ok(snap);
        }
        if !self.session.has_live_process && self.session.target_program.is_some() {
            let count: usize = if self.disassembly_address.is_some() { 192 } else { 4096 };
            let answer = self.orchestrator.disassemble(self.disassembly_address, count);
            let ghost ans = answer;
            let mut disassembly = match answer {
                Ok(d) => d,
                Err(e) => {
                    report_failure(&mut self.output_lines, "disassemble loaded target", &e,
                        Ghost(string_views(a.output_lines@)));
                    Vec::new()
                },
            };
            mark_current(&mut disassembly, None);
            let function_rows = build_function_rows(disassembly.as_slice());
            let output_lines = take_lines(&mut self.output_lines);
            let tail = chars_of(" target_loaded");
            let status_line = status_text(name, tail.as_slice());
            assert(status_line@ == "backend="@ + name@ + " target_loaded"@);
            let stop_reason = match self.session.phase {
                RuntimePhase::Exited => StopReason::Exited(0),
                RuntimePhase::Detached => StopReason::Detached,
                _ => StopReason::NoReason,
            };
            let snap = BackendSnapshot {
                status_line,
                session: self.session.to_ui_status(false),
                stop_reason,
                threads: Vec::new(),
                frames: Vec::new(),
                disassembly,
                function_rows,
                registers: None,
                breakpoints: dup_bps(&self.breakpoints),
                memory_map_lines: Vec::new(),
                memory_bytes: Vec::new(),
                output_lines,
            };
            return Ok(snap);
        }
        self.collect_live(name)
    }
}

/// The backend's stop reason; none when it cannot say.
fn read_stop(o: &mut BackendOrchestrator, lines: &mut Vec<String>, Ghost(base): Ghost<Seq<Seq<char>>>) -> (r: StopReason)
    requires
        failures_after(string_views(old(lines)@), base),
    ensures
        final(o).kept_from(*old(o)),
        failures_after(string_views(final(lines)@), base),
{
    match o.current_stop_reason() {
        Ok(reason) => reason,
        Err(e) => {
            report_failure(lines, "read stop reason", &e, Ghost(base));
            StopReason::NoReason
        },
    }
}

fn read_threads(o: &mut BackendOrchestrator, lines: &mut Vec<String>, Ghost(base): Ghost<Seq<Seq<char>>>) -> (r: Vec<ThreadState>)
    requires
        failures_after(string_views(old(lines)@), base),
    ensures
        final(o).kept_from(*old(o)),
        failures_after(string_views(final(lines)@), base),
{
    match o.list_threads() {
        Ok(t) => t,
        Err(e) => {
            report_failure(lines, "list threads", &e, Ghost(base));
            Vec::new()
        },
    }
}

fn read_frames(o: &mut BackendOrchestrator, tid: u64, lines: &mut Vec<String>, Ghost(base): Ghost<Seq<Seq<char>>>) -> (r: Vec<FrameState>)
    requires
        failures_after(string_views(old(lines)@), base),
    ensures
        final(o).kept_from(*old(o)),
        failures_after(string_views(final(lines)@), base),
{
    match o.list_frames(tid) {
        Ok(f) => f,
        Err(e) => {
            report_failure(lines, "list frames", &e, Ghost(base));
            Vec::new()
        },
    }
}

fn read_regs(o: &mut BackendOrchestrator, tid: u64, lines: &mut Vec<String>, Ghost(base): Ghost<Seq<Seq<char>>>) -> (r: Option<RegisterBank>)
    requires
        failures_after(string_views(old(lines)@), base),
    ensures
        final(o).kept_from(*old(o)),
        failures_after(string_views(final(lines)@), base),
{
    match o.read_registers(tid) {
        Ok(regs) => Some(regs),
        Err(e) => {
            report_failure(lines, "read registers", &e, Ghost(base));
            None
        },
    }
}

fn read_ip(o: &mut BackendOrchestrator, tid: u64, lines: &mut Vec<String>, Ghost(base): Ghost<Seq<Seq<char>>>) -> (r: Option<u64>)
    requires
        failures_after(string_views(old(lines)@), base),
    ensures
        final(o).kept_from(*old(o)),
        failures_after(string_views(final(lines)@), base),
{
    match o.current_instruction(tid) {
        Ok(ip) => ip,
        Err(e) => {
            report_failure(lines, "read current instruction", &e, Ghost(base));
            None
        },
    }
}

fn read_disassembly(
    o: &mut BackendOrchestrator,
    anchor: Option<u64>,
    count: usize,
    what: &str,
    lines: &mut Vec<String>,
    Ghost(base): Ghost<Seq<Seq<char>>>,
) -> (r: Vec<DisassemblyLine>)
    requires
        failures_after(string_views(old(lines)@), base),
    ensures
        final(o).kept_from(*old(o)),
        exists|ans: Result<Vec<DisassemblyLine>, BackendError>| {
            &&& final(o).received() == #[trigger] old(o).received().push(
                Request::Disassemble { address: anchor, count, answer: ans },
            )
            &&& match ans {
                Ok(d) => r@ == d@,
                Err(_) => r@.len() == 0,
            }
        },
        failures_after(string_views(final(lines)@), base),
        final(lines)@ == old(lines)@ || (r@.len() == 0 && exists|e: BackendError|
            string_views(final(lines)@) == string_views(old(lines)@).push(
                "snapshot: failed to "@ + what@ + ": "@ + #[trigger] backend_error_text(e),
            )),
{
    let answer = o.disassemble(anchor, count);
    rows_or_reported(answer, what, lines, Ghost(base))
}

/// The rows a disassembly answered; where it failed, none, and the failure
/// is reported.
fn rows_or_reported(
    answer: Result<Vec<DisassemblyLine>, BackendError>,
    what: &str,
    lines: &mut Vec<String>,
    Ghost(base): Ghost<Seq<Seq<char>>>,
) -> (r: Vec<DisassemblyLine>)
    requires
        failures_after(string_views(old(lines)@), base),
    ensures
        failures_after(string_views(final(lines)@), base),
        match answer {
            Ok(d) => r@ == d@ && final(lines)@ == old(lines)@,
            Err(e) => r@.len() == 0 && string_views(final(lines)@) == string_views(old(lines)@).push(
                "snapshot: failed to "@ + what@ + ": "@ + backend_error_text(e),
            ),
        },
{
    match answer {
        Ok(d) => d,
        Err(e) => {
            report_failure(lines, what, &e, Ghost(base));
            Vec::new()
        },
    }
}

/// The function list of the whole program, else of `fallback`.
fn read_function_rows(
    o: &mut BackendOrchestrator,
    fallback: &Vec<DisassemblyLine>,
    lines: &mut Vec<String>,
    Ghost(base): Ghost<Seq<Seq<char>>>,
) -> (r: Vec<String>)
    requires
        failures_after(string_views(old(lines)@), base),
    ensures
        final(o).kept_from(*old(o)),
        failures_after(string_views(final(lines)@), base),
        exists|prog: Seq<DisassemblyLine>| #[trigger] function_rows_ok(string_views(r@), prog),
{
    match o.disassemble(None, 4096) {
        Ok(d) => build_function_rows(d.as_slice()),
        Err(e) => {
            report_failure(lines, "load full program disassembly", &e, Ghost(base));
            build_function_rows(fallback.as_slice())
        },
    }
}

fn read_memory_map_lines(o: &mut BackendOrchestrator, lines: &mut Vec<String>, Ghost(base): Ghost<Seq<Seq<char>>>) -> (r: Vec<String>)
    requires
        failures_after(string_views(old(lines)@), base),
    ensures
        final(o).kept_from(*old(o)),
        failures_after(string_views(final(lines)@), base),
        exists|m: Seq<MemoryRegion>| #[trigger] region_lines(m) == string_views(r@),
{
    let memory_map = match o.memory_map() {
        Ok(m) => m,
        Err(e) => {
            report_failure(lines, "read memory map", &e, Ghost(base));
            Vec::new()
        },
    };
    let mut out: Vec<String> = Vec::new();
    let mut k: usize = 0;
    while k < memory_map.len()
        invariant
            k <= memory_map@.len(),
            string_views(out@) == region_lines(memory_map@.take(k as int)),
        decreases memory_map@.len() - k,
    {
        push_string(&mut out, memory_map_line(&memory_map[k]));
        proof {
            assert(region_lines(memory_map@.take(k + 1))
                =~= region_lines(memory_map@.take(k as int)).push(region_line(memory_map@[k as int])));
        }
        k = k + 1;
    }
    proof {
        assert(memory_map@.take(memory_map@.len() as int) =~= memory_map@);
    }
    out
}

fn read_bytes(o: &mut BackendOrchestrator, address: u64, lines: &mut Vec<String>, Ghost(base): Ghost<Seq<Seq<char>>>) -> (r: Vec<u8>)
    requires
        failures_after(string_views(old(lines)@), base),
    ensures
        final(o).kept_from(*old(o)),
        failures_after(string_views(final(lines)@), base),
{
    match o.read_memory(address, 0x200) {
        Ok(m) => m,
        Err(e) => {
            report_failure(lines, "read memory", &e, Ghost(base));
            Vec::new()
        },
    }
}

impl WorkerRuntime {
    /// The snapshot of a running (or attached) process.
    fn collect_live(&mut self, name: &str) -> (r: Result<BackendSnapshot, BackendError>)
        requires
            old(self).session.target_known(),
            old(self).session.has_live_process || old(self).session.target_program is None,
            name@ == old(self).orchestrator.name_view(),
        ensures
            r matches Ok(snap) && collected(*old(self), snap, *final(self)),
    {
        let ghost a = *self;
        let ghost base = string_views(a.output_lines@);
        proof {
            assert(base.take(base.len() as int) =~= base);
        }
        let stop_reason = read_stop(&mut self.orchestrator, &mut self.output_lines, Ghost(base));
        let threads = read_threads(&mut self.orchestrator, &mut self.output_lines, Ghost(base));
        let current_thread_id: u64 = if threads.len() > 0 { threads[0].id } else { 1 };
        let frames = read_frames(&mut self.orchestrator, current_thread_id, &mut self.output_lines, Ghost(base));
        let registers = read_regs(&mut self.orchestrator, current_thread_id, &mut self.output_lines, Ghost(base));
        let backend_ip = read_ip(&mut self.orchestrator, current_thread_id, &mut self.output_lines, Ghost(base));
        let live = threads.len() > 0 || registers.is_some() || backend_ip.is_some();
        self.session.reconcile_from_snapshot(&stop_reason, live);
        let anchor = match self.disassembly_address {
            Some(x) => Some(x),
            None => backend_ip,
        };
        let count: usize = if anchor.is_some() { 192 } else { 4096 };
        let ghost recv0 = self.orchestrator.received();
        let mut disassembly = read_disassembly(&mut self.orchestrator, anchor, count, "disassemble",
            &mut self.output_lines, Ghost(base));
        let ghost ans = choose|ans: Result<Vec<DisassemblyLine>, BackendError>| {
            &&& self.orchestrator.received() == #[trigger] recv0.push(Request::Disassemble { address: anchor, count, answer: ans })
            &&& match ans {
                Ok(d) => disassembly@ == d@,
                Err(_) => disassembly@.len() == 0,
            }
        };
        let ip = match backend_ip {
            Some(x) => Some(x),
            None => first_current_or_first(&disassembly),
        };
        if ip.is_some() {
            mark_current(&mut disassembly, ip);
        }
        let function_rows = read_function_rows(&mut self.orchestrator, &disassembly, &mut self.output_lines, Ghost(base));
        let ghost prog = choose|prog: Seq<DisassemblyLine>| #[trigger] function_rows_ok(string_views(function_rows@), prog);
        assert(function_rows_ok(string_views(function_rows@), prog));
        let memory_map_lines = read_memory_map_lines(&mut self.orchestrator, &mut self.output_lines, Ghost(base));
        if self.memory_address == 0x1000 {
            if let Some(x) = ip {
                self.memory_address = x;
            }
        }
        let memory_bytes = read_bytes(&mut self.orchestrator, self.memory_address, &mut self.output_lines, Ghost(base));
        let output_lines = take_lines(&mut self.output_lines);
        let mut tail = chars_of(" thread_count=");
        let d = fmt_dec(threads.len() as u64);
        push_chars(&mut tail, d.as_slice());
        let status_line = status_text(name, tail.as_slice());
        assert(status_line@ == "backend="@ + name@ + " thread_count="@ + dec_digits(threads@.len()));
        let snap = BackendSnapshot {
            status_line,
            session: self.session.to_ui_status(false),
            stop_reason,
            threads,
            frames,
            disassembly,
            function_rows,
            registers,
            breakpoints: dup_bps(&self.breakpoints),
            memory_map_lines,
            memory_bytes,
            output_lines,
        };
        proof {
            let k = recv0.len() as int;
            assert(self.orchestrator.received()[k] == recv0.push(Request::Disassemble { address: anchor, count, answer: ans })[k]);
            assert(disassembled_at(self.orchestrator.received(), k, anchor, ans));
            assert(rows_up_to_marks(ans, snap.disassembly@));
            assert(live_read(a, snap, *self, backend_ip, ip));
            assert(self.output_lines@.len() == 0);
            assert(snap.breakpoints@ == a.breakpoints@);
            assert(shows_status(snap.session, self.session));
            assert(failures_after(string_views(snap.output_lines@), string_views(a.output_lines@)));
            assert(snap.status_line@ == "backend="@ + a.orchestrator.name_view() + " thread_count="@ + dec_digits(snap.threads@.len()));
            assert(function_rows_ok(string_views(snap.function_rows@), prog));
        }
        Ok(snap)
    }
}

/// The fields the views follow, apart from the session and output, agree.
pub open spec fn kept(x: WorkerRuntime, y: WorkerRuntime) -> bool {
    &&& x.orchestrator == y.orchestrator
    &&& x.backend_choice == y.backend_choice
    &&& x.breakpoints@ == y.breakpoints@
    &&& x.memory_address == y.memory_address
    &&& x.disassembly_address == y.disassembly_address
}

/// The steps of `handle_command` before its snapshot: the last error is
/// cleared (`m0`), the command applied (`m1`, with result `res`), and a
/// failure reported in the output and kept as the session's last error (`m2`).
pub open spec fn handled(
    a: WorkerRuntime,
    cmd: BackendCommand,
    m0: WorkerRuntime,
    m1: WorkerRuntime,
    res: Result<(), BackendError>,
    m2: WorkerRuntime,
) -> bool {
    &&& m0.session == RuntimeSession { last_error: None, ..a.session }
    &&& kept(a, m0)
    &&& m0.output_lines@ == a.output_lines@
    &&& applied(m0, cmd, res, m1)
    &&& requested(m0, cmd, res, m1)
    &&& mock_followed(m0, cmd, res, m1)
    &&& kept(m1, m2)
    &&& match res {
        Ok(_) => m2.session == m1.session && m2.output_lines@ == m1.output_lines@,
        Err(e) => {
            &&& m2.session.last_error matches Some(t) && t@ == backend_error_text(e)
            &&& RuntimeSession { last_error: None, ..m2.session } == RuntimeSession { last_error: None, ..m1.session }
            &&& string_views(m2.output_lines@) == string_views(m1.output_lines@).push("command failed: "@ + backend_error_text(e))
        },
    }
}

impl WorkerRuntime {
    /// Carries out a command, reports a failure, and returns a fresh snapshot.
    pub fn handle_command(&mut self, command: BackendCommand) -> (r: Result<BackendSnapshot, BackendError>)
        ensures
            r matches Ok(snap) && exists|m0: WorkerRuntime, m1: WorkerRuntime, res: Result<(), BackendError>, m2: WorkerRuntime|
                #[trigger] handled(*old(self), command, m0, m1, res, m2) && collected(m2, snap, *final(self)),
    {
        let ghost cmd = command;
        self.session.last_error = None;
        let ghost m0 = *self;
        let res = self.apply_command(command);
        let ghost m1 = *self;
        if let Err(e) = &res {
            let message = e.message();
            let mc = chars_of(message.as_str());
            push_string(&mut self.output_lines, text2("command failed: ", mc.as_slice()));
            self.session.note_error(message);
        }
        let ghost m2 = *self;
        let r = self.collect_snapshot();
        proof {
            assert(handled(*old(self), cmd, m0, m1, res, m2));
        }
        r
    }
}

} // verus!
