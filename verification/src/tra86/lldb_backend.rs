//! The tracer's LLDB backend: which LLDB commands each request sends, with
//! which fallbacks, and what it keeps from the answers. Running LLDB is the
//! part of the `LldbCommands` given to it; the backend logs each exchange,
//! and every request is stated over the exchanges it adds.
use vstd::prelude::*;
use vstd::string::StrSliceExecFns;
use crate::tra86::backend::error::BackendError;
use crate::tra86::backend::traits::{DebugBackend, LaunchRequest, Request};
use crate::tra86::lldb_commands::{
    breakpoint_command_text, byte_words, hex0x, launch_script,
    address_command, breakpoint_command, disassemble_command, disassemble_main_command, launch_commands,
    memory_read_command, memory_write_command, numbered_command, reason_walk, stop_reason_after, target_create_command,
};
use crate::tra86::lldb_output::{
    parse_breakpoint_id, parse_disassembly, parse_frames, parse_memory_bytes, parse_memory_regions,
    parse_pc_from_register_output, parse_pid, parse_registers, parse_registers_loose, parse_source_location,
    parse_symbol_info, parse_text_section_base, parse_threads,
};
use crate::tra86::model::{
    Address, Breakpoint, BreakpointId, BreakpointLocation, DisassemblyLine, FrameState, MemoryPermissions,
    MemoryRegion, RegisterBank, RegisterRole, RegisterValue, SourceLocation, StopReason, SymbolInfo, ThreadId,
    ThreadState, ThreadStatus, TargetBinary,
};
use crate::text::{chars_of, contains_lit, lines_of, occurs, push_chars, push_str, string_of};
use crate::tra86::lldb_output::{
    bytes_of_lines, frame_read, lines_with, region_is, regions_of, source_from, source_is, symbol_name_of, thread_read,
};
use crate::num::{dec_digits, fmt_dec, fmt_hex_padded};
use crate::tra86::lldb_exchange::{
    added, answer_view, answered, batch_done, create_text, disassembled, explicit_registers, first_address, follows,
    grew, lemma_grew_push, lemma_grew_refl, lemma_grew_trans, main_then_batch, ok_out, passed_on,
    pid_read, pc_read, ran_script, refreshed, registers_answer, reply_view, sent, bp_id_read, Exchange, all_ok, glued,
    outputs,
};

verus! {

/// Running LLDB: one command in the long-lived session, or a one-off batch
/// run of two commands against a fresh LLDB.
pub trait LldbCommands {
    /// Runs one command in the session and hands back its output.
    fn run_command(&mut self, command: &str) -> Result<String, BackendError>;

    /// Runs `lldb --batch` with the two commands; `None` when it failed.
    fn run_batch(&mut self, first: &str, second: &str) -> Result<Option<String>, BackendError>;

    /// Whether a program file exists.
    fn program_exists(&self, program: &str) -> bool;
}

pub struct LldbBackend<C: LldbCommands> {
    pub commands: C,
    pub target_program: Option<String>,
    pub attached_pid: Option<u32>,
    pub text_base: Option<Address>,
    pub breakpoints: Vec<Breakpoint>,
    pub next_breakpoint_id: BreakpointId,
    pub last_stop_reason: StopReason,
    /// Every exchange with LLDB so far, in order.
    pub log: Ghost<Seq<Exchange>>,
    /// Every request served so far, with its answer.
    pub requests: Ghost<Seq<Request>>,
}

/// The breakpoint id an answer gives, else the next unused one.
pub open spec fn chosen_id(parsed: Option<u64>, next: u64) -> u64 {
    match parsed {
        Some(id) => id,
        None => next,
    }
}

/// The next unused id after `id` was given out.
pub open spec fn next_after(next: u64, id: u64) -> u64 {
    let after: u64 = if id == u64::MAX { u64::MAX } else { (id + 1) as u64 };
    if next >= after { next } else { after }
}

/// The error for a program file that is not there.
pub open spec fn missing<T>(r: Result<T, BackendError>, program: Seq<char>) -> bool {
    r matches Err(BackendError::InvalidRequest(m)) && m@ == "program does not exist: "@ + program
}

fn program_missing(program: &str) -> (e: BackendError)
    ensures
        e matches BackendError::InvalidRequest(m) && m@ == "program does not exist: "@ + program@,
{
    let mut v = chars_of("program does not exist: ");
    push_str(&mut v, program);
    BackendError::InvalidRequest(string_of(v.as_slice()))
}

impl<C: LldbCommands> LldbBackend<C> {
    /// All but the log and the connection are as in `other`.
    pub open spec fn keeps(self, other: Self) -> bool {
        &&& self.target_program == other.target_program
        &&& self.attached_pid == other.attached_pid
        &&& self.text_base == other.text_base
        &&& self.breakpoints@ == other.breakpoints@
        &&& self.next_breakpoint_id == other.next_breakpoint_id
        &&& self.last_stop_reason == other.last_stop_reason
    }

    /// The exchanges made since `before`.
    pub open spec fn since(self, before: Self) -> Seq<Exchange> {
        added(before.log@, self.log@)
    }

    /// The log only grew since `before`.
    pub open spec fn grown(self, before: Self) -> bool {
        grew(before.log@, self.log@)
    }

    pub fn new(commands: C) -> (b: LldbBackend<C>)
        ensures
            b.target_program is None,
            b.attached_pid is None,
            b.text_base is None,
            b.breakpoints@.len() == 0,
            b.next_breakpoint_id == 1,
            b.last_stop_reason == StopReason::NoReason,
            b.log@.len() == 0,
    {
        LldbBackend {
            commands,
            target_program: None,
            attached_pid: None,
            text_base: None,
            breakpoints: Vec::new(),
            next_breakpoint_id: 1,
            last_stop_reason: StopReason::NoReason,
            log: Ghost(Seq::empty()),
            requests: Ghost(Seq::empty()),
        }
    }

    /// Runs one command and notes the exchange.
    fn ask(&mut self, command: &str) -> (r: Result<String, BackendError>)
        ensures
            final(self).requests == old(self).requests,
            final(self).log@ == old(self).log@.push(Exchange::Command { command: command@, answer: answer_view(r) }),
            final(self).keeps(*old(self)),
            final(self).grown(*old(self)),
            final(self).since(*old(self)) == seq![Exchange::Command { command: command@, answer: answer_view(r) }],
    {
        let r = self.commands.run_command(command);
        let ghost x = Exchange::Command { command: command@, answer: answer_view(r) };
        proof {
            lemma_grew_refl(self.log@);
            lemma_grew_push(self.log@, self.log@, x);
        }
        self.log = Ghost(self.log@.push(x));
        assert(seq![x] =~= Seq::<Exchange>::empty().push(x));
        r
    }

    /// Runs a batch and notes the exchange.
    fn ask_batch(&mut self, first: &str, second: &str) -> (r: Result<Option<String>, BackendError>)
        ensures
            final(self).requests == old(self).requests,
            final(self).keeps(*old(self)),
            final(self).grown(*old(self)),
            final(self).since(*old(self)) == seq![Exchange::Batch { first: first@, second: second@, reply: reply_view(r) }],
    {
        let r = self.commands.run_batch(first, second);
        let ghost x = Exchange::Batch { first: first@, second: second@, reply: reply_view(r) };
        proof {
            lemma_grew_refl(self.log@);
            lemma_grew_push(self.log@, self.log@, x);
        }
        self.log = Ghost(self.log@.push(x));
        assert(seq![x] =~= Seq::<Exchange>::empty().push(x));
        r
    }

    /// Whether the program file is there; the exchange is noted.
    fn found(&mut self, program: &str) -> (b: bool)
        ensures
            final(self).requests == old(self).requests,
            final(self).keeps(*old(self)),
            final(self).grown(*old(self)),
            final(self).since(*old(self)) == seq![Exchange::Exists { program: program@, found: b }],
    {
        let b = self.commands.program_exists(program);
        let ghost x = Exchange::Exists { program: program@, found: b };
        proof {
            lemma_grew_refl(self.log@);
            lemma_grew_push(self.log@, self.log@, x);
        }
        self.log = Ghost(self.log@.push(x));
        assert(seq![x] =~= Seq::<Exchange>::empty().push(x));
        b
    }

    /// Runs the commands in order, up to the first failure; their outputs
    /// joined by newlines.
    fn run_commands(&mut self, commands: &Vec<String>) -> (r: Result<String, BackendError>)
        ensures
            final(self).requests == old(self).requests,
            final(self).keeps(*old(self)),
            final(self).grown(*old(self)),
            ran_script(final(self).since(*old(self)), commands@.map_values(|s: String| s@), answer_view(r)),
    {
        let ghost l0 = self.log@;
        let ghost cmds = commands@.map_values(|s: String| s@);
        let ghost pre = *self;
        let mut out: Vec<char> = Vec::new();
        let mut i: usize = 0;
        proof {
            lemma_grew_refl(l0);
        }
        while i < commands.len()
            invariant
                i <= commands@.len(),
                cmds == commands@.map_values(|s: String| s@),
                l0 == old(self).log@,
                self.keeps(*old(self)),
                self.requests == old(self).requests,
                grew(l0, self.log@),
                added(l0, self.log@).len() == i,
                forall|j: int| 0 <= j < i ==> sent(#[trigger] added(l0, self.log@)[j], cmds[j]),
                all_ok(added(l0, self.log@)),
                out@ == glued(outputs(added(l0, self.log@))),
            decreases commands@.len() - i,
        {
            let ghost before = self.log@;
            let a = self.ask(commands[i].as_str());
            let ghost x = Exchange::Command { command: commands@[i as int]@, answer: answer_view(a) };
            proof {
                lemma_grew_trans(l0, before, self.log@);
                assert(added(before, self.log@) == seq![x]);
                assert(added(l0, self.log@) =~= added(l0, before).push(x));
                assert(outputs(added(l0, self.log@)) =~= outputs(added(l0, before)).push(match ok_out(x) {
                    Some(o) => o,
                    None => Seq::<char>::empty(),
                }));
            }
            match a {
                Ok(result) => {
                    if out.len() > 0 {
                        out.push('\n');
                    }
                    push_str(&mut out, result.as_str());
                    proof {
                        let xs = added(l0, self.log@);
                        assert(outputs(xs).drop_last() =~= outputs(added(l0, before)));
                        assert forall|j: int| 0 <= j < xs.len() implies (#[trigger] ok_out(xs[j])) is Some by {
                            if j < i {
                                assert(xs[j] == added(l0, before)[j]);
                            }
                        }
                        assert forall|j: int| 0 <= j < i + 1 implies sent(#[trigger] xs[j], cmds[j]) by {
                            if j < i {
                                assert(xs[j] == added(l0, before)[j]);
                            }
                        }
                    }
                },
                Err(e) => {
                    proof {
                        let xs = added(l0, self.log@);
                        assert(xs.drop_last() =~= added(l0, before));
                        assert forall|j: int| 0 <= j < xs.len() implies sent(#[trigger] xs[j], cmds[j]) by {
                            if j < i {
                                assert(xs[j] == added(l0, before)[j]);
                            }
                        }
                    }
                    return Err(e);
                },
            }
            i = i + 1;
        }
        Ok(string_of(out.as_slice()))
    }

    /// Follows the stop reason through an answer.
    fn note_output(&mut self, output: &str)
        ensures
            final(self).requests == old(self).requests,
            follows(old(self).last_stop_reason, output@, final(self).last_stop_reason),
            final(self).target_program == old(self).target_program,
            final(self).attached_pid == old(self).attached_pid,
            final(self).breakpoints == old(self).breakpoints,
            final(self).next_breakpoint_id == old(self).next_breakpoint_id,
            final(self).text_base == old(self).text_base,
            final(self).log == old(self).log,
    {
        let current = crate::tra86::model::StopReason::dup(&self.last_stop_reason);
        self.last_stop_reason = stop_reason_after(current, output);
    }

    fn select_thread(&mut self, thread_id: ThreadId) -> (r: Result<(), BackendError>)
        ensures
            final(self).requests == old(self).requests,
            final(self).keeps(*old(self)),
            final(self).grown(*old(self)),
            final(self).since(*old(self)).len() == 1,
            answered(final(self).since(*old(self))[0], "thread select "@ + dec_digits(thread_id as nat), r, |o: Seq<char>, u: ()| true),
    {
        let cmd = numbered_command("thread select ", thread_id);
        match self.ask(cmd.as_str()) {
            Ok(_) => Ok(()),
            Err(e) => Err(e),
        }
    }

    fn refresh_text_base(&mut self)
        ensures
            final(self).requests == old(self).requests,
            final(self).grown(*old(self)),
            final(self).since(*old(self)).len() == 1,
            refreshed(final(self).since(*old(self))[0], old(self).text_base, final(self).text_base),
            final(self).target_program == old(self).target_program,
            final(self).attached_pid == old(self).attached_pid,
            final(self).breakpoints@ == old(self).breakpoints@,
            final(self).next_breakpoint_id == old(self).next_breakpoint_id,
            final(self).last_stop_reason == old(self).last_stop_reason,
    {
        match self.ask("image dump sections") {
            Ok(sections) => {
                self.text_base = parse_text_section_base(sections.as_str());
            },
            Err(_) => {},
        }
    }

    /// Disassembles with a fresh batch LLDB against the target's file.
    fn batch_disassemble(&mut self, address: Option<Address>, count: usize) -> (r: Result<Vec<DisassemblyLine>, BackendError>)
        ensures
            final(self).requests == old(self).requests,
            final(self).keeps(*old(self)),
            final(self).grown(*old(self)),
            batch_done(old(self).target_program, old(self).breakpoints@, address, count, final(self).since(*old(self)), r),
    {
        proof {
            lemma_grew_refl(self.log@);
        }
        let target = match &self.target_program {
            Some(t) => t.clone(),
            None => {
                return Ok(Vec::new());
            },
        };
        let create = target_create_command(target.as_str());
        let dis = match address {
            Some(a) => disassemble_command(Some(a), count),
            None => disassemble_main_command(count),
        };
        match self.ask_batch(create.as_str(), dis.as_str()) {
            Ok(Some(out)) => Ok(parse_disassembly(out.as_str(), self.breakpoints.as_slice())),
            Ok(None) => Ok(Vec::new()),
            Err(e) => Err(e),
        }
    }

    /// Disassembles `main` in the session; where that shows nothing, the
    /// program file in a batch run.
    fn disassemble_main_or_file(&mut self, address: Option<Address>, count: usize) -> (r: Result<Vec<DisassemblyLine>, BackendError>)
        ensures
            final(self).requests == old(self).requests,
            final(self).keeps(*old(self)),
            final(self).grown(*old(self)),
            main_then_batch(old(self).target_program, old(self).breakpoints@, address, count, final(self).since(*old(self)), r),
    {
        let ghost l0 = self.log@;
        let by_main = disassemble_main_command(count);
        let a = self.ask(by_main.as_str());
        let ghost l1 = self.log@;
        match a {
            Ok(output) => {
                let parsed = parse_disassembly(output.as_str(), self.breakpoints.as_slice());
                if parsed.len() > 0 {
                    return Ok(parsed);
                }
            },
            Err(_) => {},
        }
        let b = self.batch_disassemble(address, count);
        proof {
            lemma_grew_trans(l0, l1, self.log@);
            assert(added(l0, self.log@).skip(1) =~= added(l1, self.log@));
        }
        b
    }

    /// Runs one command and follows the stop reason through its answer.
    fn run_and_note(&mut self, command: &str) -> (r: Result<(), BackendError>)
        ensures
            final(self).requests == old(self).requests,
            final(self).grown(*old(self)),
            final(self).since(*old(self)).len() == 1,
            answered(final(self).since(*old(self))[0], command@, r, |o: Seq<char>, u: ()| true),
            match ok_out(final(self).since(*old(self))[0]) {
                Some(o) => follows(old(self).last_stop_reason, o, final(self).last_stop_reason),
                None => final(self).last_stop_reason == old(self).last_stop_reason,
            },
            final(self).target_program == old(self).target_program,
            final(self).attached_pid == old(self).attached_pid,
            final(self).breakpoints@ == old(self).breakpoints@,
            final(self).next_breakpoint_id == old(self).next_breakpoint_id,
            final(self).text_base == old(self).text_base,
    {
        match self.ask(command) {
            Ok(output) => {
                self.note_output(output.as_str());
                Ok(())
            },
            Err(e) => Err(e),
        }
    }
}

/// An open request: the file is checked, the target loaded and the text
/// base read; the stop reason follows the loader's answer.
pub open spec fn opened<C: LldbCommands>(a: LldbBackend<C>, program: Seq<char>, r: Result<(), BackendError>, b: LldbBackend<C>) -> bool {
    let xs = b.since(a);
    &&& b.grown(a)
    &&& xs.len() >= 1
    &&& b.breakpoints@ == a.breakpoints@
    &&& b.next_breakpoint_id == a.next_breakpoint_id
    &&& match xs[0] {
        Exchange::Exists { program: p, found } => p == program && (if !found {
            xs.len() == 1 && b.keeps(a) && missing(r, program)
        } else {
            &&& (b.target_program matches Some(t) && t@ == program)
            &&& xs.len() >= 3
            &&& sent(xs[1], "target delete 0"@)
            &&& sent(xs[2], create_text(program))
            &&& match ok_out(xs[2]) {
                Some(o) => {
                    &&& xs.len() == 4
                    &&& r is Ok
                    &&& b.attached_pid is None
                    &&& follows(a.last_stop_reason, o, b.last_stop_reason)
                    &&& refreshed(xs[3], a.text_base, b.text_base)
                },
                None => {
                    &&& xs.len() == 3
                    &&& passed_on(xs[2], r)
                    &&& b.attached_pid == a.attached_pid
                    &&& b.last_stop_reason == a.last_stop_reason
                    &&& b.text_base == a.text_base
                },
            }
        }),
        _ => false,
    }
}

/// After the launch script ran as `seg`: the process status is asked, a
/// running process interrupted, and the text base read.
pub open spec fn status_checked<C: LldbCommands>(
    out: Seq<char>,
    rest: Seq<Exchange>,
    a: LldbBackend<C>,
    reason: StopReason,
    text_base: Option<u64>,
) -> bool {
    &&& rest.len() >= 2
    &&& sent(rest[0], "process status"@)
    &&& exists|mid: StopReason| #[trigger] follows(a.last_stop_reason, out, mid) && (match ok_out(rest[0]) {
        Some(st) => if occurs(st, "running"@) {
            &&& rest.len() == 3
            &&& sent(rest[1], "process interrupt"@)
            &&& follows(mid, st, reason)
            &&& refreshed(rest[2], a.text_base, text_base)
        } else {
            &&& rest.len() == 2
            &&& follows(mid, st, reason)
            &&& refreshed(rest[1], a.text_base, text_base)
        },
        None => rest.len() == 2 && reason == mid && refreshed(rest[1], a.text_base, text_base),
    })
}

/// The launch script ran as `seg`, and `rest` followed.
pub open spec fn launch_rest<C: LldbCommands>(
    seg: Seq<Exchange>,
    rest: Seq<Exchange>,
    script: Seq<Seq<char>>,
    a: LldbBackend<C>,
    r: Result<(), BackendError>,
    pid: Option<u32>,
    reason: StopReason,
    text_base: Option<u64>,
) -> bool {
    exists|res: Result<Seq<char>, BackendError>| #[trigger] ran_script(seg, script, res) && (match res {
        Err(e) => {
            &&& rest.len() == 0
            &&& r == Err::<(), BackendError>(e)
            &&& pid == a.attached_pid
            &&& reason == a.last_stop_reason
            &&& text_base == a.text_base
        },
        Ok(out) => r is Ok && pid == pid_read(out) && status_checked(out, rest, a, reason, text_base),
    })
}

/// A launch: the file is checked, the old target dropped, the launch
/// script run, the process status checked and the text base read.
pub open spec fn launched<C: LldbCommands>(a: LldbBackend<C>, target: TargetBinary, r: Result<(), BackendError>, b: LldbBackend<C>) -> bool {
    let xs = b.since(a);
    let program = target.program@;
    &&& b.grown(a)
    &&& xs.len() >= 1
    &&& b.breakpoints@ == a.breakpoints@
    &&& b.next_breakpoint_id == a.next_breakpoint_id
    &&& match xs[0] {
        Exchange::Exists { program: p, found } => p == program && (if !found {
            xs.len() == 1 && b.keeps(a) && missing(r, program)
        } else {
            &&& (b.target_program matches Some(t) && t@ == program)
            &&& xs.len() >= 2
            &&& sent(xs[1], "target delete 0"@)
            &&& exists|k: int| 2 <= k <= xs.len() && #[trigger] launch_rest(xs.subrange(2, k), xs.skip(k), launch_script(program, target.args@), a, r, b.attached_pid, b.last_stop_reason, b.text_base)
        }),
        _ => false,
    }
}

/// One command that moves the process; the stop reason follows its answer.
pub open spec fn stepped<C: LldbCommands>(a: LldbBackend<C>, command: Seq<char>, r: Result<(), BackendError>, b: LldbBackend<C>) -> bool {
    let xs = b.since(a);
    &&& b.grown(a)
    &&& xs.len() == 1
    &&& answered(xs[0], command, r, |o: Seq<char>, u: ()| true)
    &&& match ok_out(xs[0]) {
        Some(o) => follows(a.last_stop_reason, o, b.last_stop_reason),
        None => b.last_stop_reason == a.last_stop_reason,
    }
    &&& b.target_program == a.target_program
    &&& b.attached_pid == a.attached_pid
    &&& b.text_base == a.text_base
    &&& b.breakpoints@ == a.breakpoints@
    &&& b.next_breakpoint_id == a.next_breakpoint_id
}

/// The register bank of thread `tid` read from the answer `o`.
pub open spec fn bank_from<C: LldbCommands>(a: LldbBackend<C>, tid: u64, o: Seq<char>, rest: Seq<Exchange>, r: Result<RegisterBank, BackendError>) -> bool {
    r matches Ok(bank) && bank.thread_id == tid && bank.bank_name@ == "general"@
        && registers_answer(o, rest, a.text_base, a.target_program, a.breakpoints@, bank.registers@)
}

/// A register read: the thread is selected, the explicit list asked for,
/// else all registers.
pub open spec fn registers_read<C: LldbCommands>(a: LldbBackend<C>, tid: u64, xs: Seq<Exchange>, r: Result<RegisterBank, BackendError>) -> bool {
    &&& xs.len() >= 2
    &&& sent(xs[0], "thread select "@ + dec_digits(tid as nat))
    &&& sent(xs[1], explicit_registers())
    &&& match ok_out(xs[1]) {
        Some(o) => bank_from(a, tid, o, xs.skip(2), r),
        None => xs.len() >= 3 && sent(xs[2], "register read --all"@) && (match ok_out(xs[2]) {
            Some(o) => bank_from(a, tid, o, xs.skip(3), r),
            None => xs.len() == 3 && passed_on(xs[2], r),
        }),
    }
}

/// The thread that stands for the process when no thread could be read.
pub open spec fn lone_thread(t: ThreadState, reason: StopReason, ip: Option<u64>) -> bool {
    &&& t.id == 1
    &&& (t.name matches Some(n) && n@ == "thread-1"@)
    &&& t.is_current
    &&& t.status == ThreadStatus::Stopped
    &&& t.stop_reason == reason
    &&& t.instruction_pointer == ip
}

/// A thread listing: the threads LLDB lists, else one thread at the pc of
/// a one-row disassembly.
pub open spec fn threads_listed<C: LldbCommands>(a: LldbBackend<C>, xs: Seq<Exchange>, r: Result<Vec<ThreadState>, BackendError>) -> bool {
    &&& xs.len() >= 1
    &&& sent(xs[0], "thread list"@)
    &&& match ok_out(xs[0]) {
        Some(o) => {
            let ls = lines_with(lines_of(o), "thread #"@);
            if ls.len() > 0 {
                xs.len() == 1 && (r matches Ok(v) && v@.len() == ls.len()
                    && forall|i: int| 0 <= i < v@.len() ==> thread_read(ls[i], a.last_stop_reason, #[trigger] v@[i]))
            } else {
                exists|dr: Result<Vec<DisassemblyLine>, BackendError>| #[trigger] disassembled(a.text_base, a.target_program, a.breakpoints@, None, 1, xs.skip(1), dr)
                    && (r matches Ok(v) && v@.len() == 1 && lone_thread(v@[0], a.last_stop_reason, first_address(dr)))
            }
        },
        None => xs.len() == 1 && passed_on(xs[0], r),
    }
}

/// The frames an answer shows, for thread `tid`.
pub open spec fn frames_read(o: Seq<char>, tid: u64, v: Seq<FrameState>) -> bool {
    let ls = lines_with(lines_of(o), "frame #"@);
    v.len() == ls.len() && forall|i: int| 0 <= i < v.len() ==> frame_read(ls[i], tid, #[trigger] v[i])
}

/// The symbol an answer names for `address` in `module`.
pub open spec fn symbol_read(o: Seq<char>, address: u64, module: Option<String>, v: Option<SymbolInfo>) -> bool {
    match symbol_name_of(lines_of(o)) {
        Some(n) => (v matches Some(s) && s.name@ == n && s.module == module && s.offset == address),
        None => v is None,
    }
}

/// The region that stands for the program when no map could be read.
pub open spec fn image_region(m: MemoryRegion, target: Option<String>) -> bool {
    &&& m.start == 0
    &&& m.end == 0
    &&& m.permissions.read && !m.permissions.write && m.permissions.execute
    &&& m.pathname == target
    &&& (m.label matches Some(l) && exists|n: nat| l@ == "image list output "@ + #[trigger] dec_digits(n) + " bytes"@)
}

/// A memory map: the regions LLDB lists, else one region for the program
/// once `image list` answers.
pub open spec fn mapped(target: Option<String>, xs: Seq<Exchange>, r: Result<Vec<MemoryRegion>, BackendError>) -> bool {
    &&& xs.len() >= 1
    &&& sent(xs[0], "memory region --all"@)
    &&& match ok_out(xs[0]) {
        Some(o) => {
            let rows = regions_of(lines_of(o));
            if rows.len() > 0 {
                xs.len() == 1 && (r matches Ok(v) && v@.len() == rows.len()
                    && forall|i: int| 0 <= i < v@.len() ==> region_is(#[trigger] v@[i], rows[i]))
            } else {
                xs.len() == 2 && sent(xs[1], "image list"@) && (match ok_out(xs[1]) {
                    Some(_) => (r matches Ok(v) && v@.len() == 1 && image_region(v@[0], target)),
                    None => passed_on(xs[1], r),
                })
            }
        },
        None => xs.len() == 1 && passed_on(xs[0], r),
    }
}

impl<C: LldbCommands + Send> LldbBackend<C> {
    fn open_target_inner(&mut self, program: &str) -> (r: Result<(), BackendError>)
        ensures
            final(self).requests == old(self).requests,
            opened(*old(self), program@, r, *final(self)),
    {
        let ghost l0 = self.log@;
        if !self.found(program) {
            return Err(program_missing(program));
        }
        let ghost l1 = self.log@;
        self.target_program = Some(program.to_owned());
        let _ = self.ask("target delete 0");
        let ghost l2 = self.log@;
        let create = target_create_command(program);
        let a = self.ask(create.as_str());
        let ghost l3 = self.log@;
        proof {
            lemma_grew_trans(l0, l1, l2);
            lemma_grew_trans(l0, l2, l3);
        }
        match a {
            Ok(output) => {
                self.note_output(output.as_str());
            },
            Err(e) => {
                return Err(e);
            },
        }
        self.attached_pid = None;
        self.refresh_text_base();
        proof {
            lemma_grew_trans(l0, l3, self.log@);
        }
        Ok(())
    }

    fn launch_inner(&mut self, request: LaunchRequest) -> (r: Result<(), BackendError>)
        ensures
            final(self).requests == old(self).requests,
            launched(*old(self), request.target, r, *final(self)),
    {
        let ghost a0 = *self;
        let ghost l0 = self.log@;
        if !self.found(request.target.program.as_str()) {
            return Err(program_missing(request.target.program.as_str()));
        }
        let ghost l1 = self.log@;
        self.target_program = Some(request.target.program.clone());
        let _ = self.ask("target delete 0");
        let ghost l2 = self.log@;
        proof {
            lemma_grew_trans(l0, l1, l2);
        }
        let cmds = launch_commands(request.target.program.as_str(), &request.target.args);
        let ran = self.run_commands(&cmds);
        let ghost l3 = self.log@;
        let ghost seg = added(l2, l3);
        let ghost res = answer_view(ran);
        proof {
            lemma_grew_trans(l0, l2, l3);
            assert(added(l0, l3).subrange(2, 2 + seg.len() as int) =~= seg);
        }
        let output = match ran {
            Ok(o) => o,
            Err(e) => {
                proof {
                    assert(added(l0, l3).skip(2 + seg.len() as int) =~= Seq::<Exchange>::empty());
                    assert(launch_rest(seg, Seq::<Exchange>::empty(), launch_script(request.target.program@, request.target.args@), a0, Err::<(), BackendError>(e), self.attached_pid, self.last_stop_reason, self.text_base));
                }
                return Err(e);
            },
        };
        self.attached_pid = parse_pid(output.as_str());
        let ghost r0 = self.last_stop_reason;
        self.note_output(output.as_str());
        let ghost mid = self.last_stop_reason;
        let st = self.ask("process status");
        let ghost l4 = self.log@;
        proof {
            lemma_grew_refl(l4);
        }
        match st {
            Ok(status) => {
                if contains_lit(chars_of(status.as_str()).as_slice(), "running") {
                    let _ = self.ask("process interrupt");
                }
                self.note_output(status.as_str());
            },
            Err(_) => {},
        }
        let ghost l5 = self.log@;
        self.refresh_text_base();
        proof {
            lemma_grew_trans(l3, l4, l5);
            lemma_grew_trans(l3, l5, self.log@);
            lemma_grew_trans(l0, l3, self.log@);
            let rest = added(l3, self.log@);
            assert(added(l0, self.log@).subrange(2, 2 + seg.len() as int) =~= seg);
            assert(added(l0, self.log@).skip(2 + seg.len() as int) =~= rest);
            assert(follows(r0, output@, mid));
            assert(launch_rest(seg, rest, launch_script(request.target.program@, request.target.args@), a0, Ok::<(), BackendError>(()), self.attached_pid, self.last_stop_reason, self.text_base));
        }
        Ok(())
    }

    fn attach_inner(&mut self, pid: u32) -> (r: Result<(), BackendError>)
        ensures
            final(self).requests == old(self).requests,
            final(self).grown(*old(self)),
            final(self).since(*old(self)).len() == 1,
            answered(final(self).since(*old(self))[0], "process attach --pid "@ + dec_digits(pid as nat), r, |o: Seq<char>, u: ()| true),
            match ok_out(final(self).since(*old(self))[0]) {
                Some(o) => final(self).attached_pid == Some(pid) && follows(old(self).last_stop_reason, o, final(self).last_stop_reason),
                None => final(self).attached_pid == old(self).attached_pid && final(self).last_stop_reason == old(self).last_stop_reason,
            },
            final(self).target_program == old(self).target_program,
            final(self).text_base == old(self).text_base,
            final(self).breakpoints@ == old(self).breakpoints@,
            final(self).next_breakpoint_id == old(self).next_breakpoint_id,
    {
        let cmd = numbered_command("process attach --pid ", pid as u64);
        match self.ask(cmd.as_str()) {
            Ok(output) => {
                self.attached_pid = Some(pid);
                self.note_output(output.as_str());
                Ok(())
            },
            Err(e) => Err(e),
        }
    }

    fn detach_inner(&mut self) -> (r: Result<(), BackendError>)
        ensures
            final(self).requests == old(self).requests,
            final(self).grown(*old(self)),
            final(self).since(*old(self)).len() == 1,
            answered(final(self).since(*old(self))[0], "process detach"@, r, |o: Seq<char>, u: ()| true),
            r is Ok ==> final(self).attached_pid is None && final(self).last_stop_reason == StopReason::Detached,
            r is Err ==> final(self).keeps(*old(self)),
            final(self).target_program == old(self).target_program,
            final(self).text_base == old(self).text_base,
            final(self).breakpoints@ == old(self).breakpoints@,
            final(self).next_breakpoint_id == old(self).next_breakpoint_id,
    {
        match self.ask("process detach") {
            Ok(_) => {
                self.attached_pid = None;
                self.last_stop_reason = StopReason::Detached;
                Ok(())
            },
            Err(e) => Err(e),
        }
    }

    fn kill_inner(&mut self) -> (r: Result<(), BackendError>)
        ensures
            final(self).requests == old(self).requests,
            final(self).grown(*old(self)),
            final(self).since(*old(self)).len() == 1,
            answered(final(self).since(*old(self))[0], "process kill"@, r, |o: Seq<char>, u: ()| true),
            r is Ok ==> final(self).last_stop_reason == StopReason::Exited(0),
            r is Err ==> final(self).last_stop_reason == old(self).last_stop_reason,
            final(self).target_program == old(self).target_program,
            final(self).attached_pid == old(self).attached_pid,
            final(self).text_base == old(self).text_base,
            final(self).breakpoints@ == old(self).breakpoints@,
            final(self).next_breakpoint_id == old(self).next_breakpoint_id,
    {
        match self.ask("process kill") {
            Ok(_) => {
                self.last_stop_reason = StopReason::Exited(0);
                Ok(())
            },
            Err(e) => Err(e),
        }
    }

    fn continue_exec_inner(&mut self) -> (r: Result<(), BackendError>)
        ensures
            final(self).requests == old(self).requests,
            stepped(*old(self), "process continue"@, r, *final(self)),
    {
        self.run_and_note("process continue")
    }

    fn step_into_inner(&mut self) -> (r: Result<(), BackendError>)
        ensures
            final(self).requests == old(self).requests,
            stepped(*old(self), "thread step-in"@, r, *final(self)),
    {
        self.run_and_note("thread step-in")
    }

    fn step_over_inner(&mut self) -> (r: Result<(), BackendError>)
        ensures
            final(self).requests == old(self).requests,
            stepped(*old(self), "thread step-over"@, r, *final(self)),
    {
        self.run_and_note("thread step-over")
    }

    fn step_out_inner(&mut self) -> (r: Result<(), BackendError>)
        ensures
            final(self).requests == old(self).requests,
            stepped(*old(self), "thread step-out"@, r, *final(self)),
    {
        self.run_and_note("thread step-out")
    }

    fn pause_inner(&mut self) -> (r: Result<(), BackendError>)
        ensures
            final(self).requests == old(self).requests,
            stepped(*old(self), "process interrupt"@, r, *final(self)),
    {
        self.run_and_note("process interrupt")
    }

    fn read_registers_inner(&mut self, thread_id: ThreadId) -> (r: Result<RegisterBank, BackendError>)
        ensures
            final(self).requests == old(self).requests,
            final(self).keeps(*old(self)),
            final(self).grown(*old(self)),
            registers_read(*old(self), thread_id, final(self).since(*old(self)), r),
    {
        let ghost a0 = *self;
        let ghost l0 = self.log@;
        let _ = self.select_thread(thread_id);
        let ghost l1 = self.log@;
        let explicit = "register read rip rsp rbp rflags rax rbx rcx rdx rsi rdi r8 r9 r10 r11 r12 r13 r14 r15 pc sp fp x0 x1 x2 x3 x4 x5 x6 x7 x8 x9 x10 x11 x12 x13 x14 x15 x16 x17 x18 x19 x20 x21 x22 x23 x24 x25 x26 x27 x28 x29 x30 cpsr";
        let first = self.ask(explicit);
        let ghost l2 = self.log@;
        proof {
            lemma_grew_trans(l0, l1, l2);
        }
        let output = match first {
            Ok(o) => o,
            Err(_) => {
                let second = self.ask("register read --all");
                proof {
                    lemma_grew_trans(l0, l2, self.log@);
                    let xs = added(l0, self.log@);
                    assert(xs[0] == added(l0, l2)[0]);
                    assert(xs[1] == added(l0, l2)[1]);
                }
                match second {
                    Ok(o) => o,
                    Err(e) => {
                        return Err(e);
                    },
                }
            },
        };
        let ghost l3 = self.log@;
        let ghost o = output@;
        proof {
            lemma_grew_refl(l3);
        }
        let mut registers = parse_registers(output.as_str());
        if registers.len() == 0 {
            registers = parse_registers_loose(output.as_str());
        }
        if registers.len() == 0 {
            let rows = self.disassemble_inner(None, 1);
            let ghost dr = rows;
            proof {
                lemma_grew_trans(l3, l3, self.log@);
            }
            match rows {
                Ok(rows) => {
                    if rows.len() > 0 {
                        let v = fmt_hex_padded(rows[0].address, 16);
                        registers.push(RegisterValue {
                            name: "pc".to_owned(),
                            value: string_of(v.as_slice()),
                            size_bits: 64,
                            role: RegisterRole::InstructionPointer,
                        });
                    }
                },
                Err(_) => {},
            }
            proof {
                assert(disassembled(a0.text_base, a0.target_program, a0.breakpoints@, None, 1, added(l3, self.log@), dr));
                assert(registers_answer(o, added(l3, self.log@), a0.text_base, a0.target_program, a0.breakpoints@, registers@));
            }
        }
        proof {
            lemma_grew_trans(l0, l3, self.log@);
            let xs = added(l0, self.log@);
            let n = added(l0, l3).len() as int;
            assert(xs.skip(n) =~= added(l3, self.log@));
            assert(xs[0] == added(l0, l3)[0]);
            assert(xs[1] == added(l0, l3)[1]);
            if n == 3 {
                assert(xs[2] == added(l0, l3)[2]);
            }
            assert(registers_answer(o, xs.skip(n), a0.text_base, a0.target_program, a0.breakpoints@, registers@));
        }
        Ok(RegisterBank { thread_id, bank_name: "general".to_owned(), registers })
    }

    fn read_memory_inner(&mut self, address: Address, length: usize) -> (r: Result<Vec<u8>, BackendError>)
        ensures
            final(self).requests == old(self).requests,
            final(self).keeps(*old(self)),
            final(self).grown(*old(self)),
            final(self).since(*old(self)).len() == 1,
            answered(
                final(self).since(*old(self))[0],
                "memory read --size 1 --count "@ + dec_digits(length as nat) + " "@ + hex0x(address),
                r,
                |o: Seq<char>, v: Vec<u8>| v@ == bytes_of_lines(lines_of(o)),
            ),
    {
        let cmd = memory_read_command(address, length);
        match self.ask(cmd.as_str()) {
            Ok(output) => Ok(parse_memory_bytes(output.as_str())),
            Err(e) => Err(e),
        }
    }

    fn write_memory_inner(&mut self, address: Address, bytes: &[u8]) -> (r: Result<(), BackendError>)
        ensures
            final(self).requests == old(self).requests,
            final(self).keeps(*old(self)),
            final(self).grown(*old(self)),
            bytes@.len() == 0 ==> r is Ok && final(self).since(*old(self)).len() == 0,
            bytes@.len() > 0 ==> final(self).since(*old(self)).len() == 1 && answered(
                final(self).since(*old(self))[0],
                "memory write --size 1 "@ + hex0x(address) + " "@ + byte_words(bytes@),
                r,
                |o: Seq<char>, u: ()| true,
            ),
    {
        proof {
            lemma_grew_refl(self.log@);
        }
        if bytes.len() == 0 {
            return Ok(());
        }
        let cmd = memory_write_command(address, bytes);
        match self.ask(cmd.as_str()) {
            Ok(_) => Ok(()),
            Err(e) => Err(e),
        }
    }

    fn list_threads_inner(&mut self) -> (r: Result<Vec<ThreadState>, BackendError>)
        ensures
            final(self).requests == old(self).requests,
            final(self).keeps(*old(self)),
            final(self).grown(*old(self)),
            threads_listed(*old(self), final(self).since(*old(self)), r),
    {
        let ghost a0 = *self;
        let ghost l0 = self.log@;
        let output = match self.ask("thread list") {
            Ok(o) => o,
            Err(e) => {
                return Err(e);
            },
        };
        let ghost l1 = self.log@;
        let reason = crate::tra86::model::StopReason::dup(&self.last_stop_reason);
        let parsed = parse_threads(output.as_str(), reason);
        if parsed.len() > 0 {
            return Ok(parsed);
        }
        let rows = self.disassemble_inner(None, 1);
        proof {
            lemma_grew_trans(l0, l1, self.log@);
            assert(disassembled(a0.text_base, a0.target_program, a0.breakpoints@, None, 1, added(l1, self.log@), rows));
            assert(added(l0, self.log@).skip(1) =~= added(l1, self.log@));
        }
        let ip = match rows {
            Ok(rows) => if rows.len() > 0 {
                Some(rows[0].address)
            } else {
                None
            },
            Err(_) => None,
        };
        let mut threads: Vec<ThreadState> = Vec::new();
        threads.push(ThreadState {
            id: 1,
            name: Some("thread-1".to_owned()),
            is_current: true,
            status: ThreadStatus::Stopped,
            stop_reason: crate::tra86::model::StopReason::dup(&self.last_stop_reason),
            instruction_pointer: ip,
        });
        Ok(threads)
    }

    fn list_frames_inner(&mut self, thread_id: ThreadId) -> (r: Result<Vec<FrameState>, BackendError>)
        ensures
            final(self).requests == old(self).requests,
            final(self).keeps(*old(self)),
            final(self).grown(*old(self)),
            ({
                let xs = final(self).since(*old(self));
                &&& xs.len() >= 1
                &&& sent(xs[0], "thread select "@ + dec_digits(thread_id as nat))
                &&& match ok_out(xs[0]) {
                    Some(_) => xs.len() == 2 && answered(xs[1], "thread backtrace"@, r, |o: Seq<char>, v: Vec<FrameState>| frames_read(o, thread_id, v@)),
                    None => xs.len() == 1 && passed_on(xs[0], r),
                }
            }),
    {
        let ghost l0 = self.log@;
        match self.select_thread(thread_id) {
            Ok(()) => {},
            Err(e) => {
                return Err(e);
            },
        }
        let ghost l1 = self.log@;
        let a = self.ask("thread backtrace");
        proof {
            lemma_grew_trans(l0, l1, self.log@);
        }
        match a {
            Ok(output) => Ok(parse_frames(output.as_str(), thread_id)),
            Err(e) => Err(e),
        }
    }

    fn set_breakpoint_inner(&mut self, location: BreakpointLocation) -> (r: Result<Breakpoint, BackendError>)
        ensures
            final(self).requests == old(self).requests,
            final(self).grown(*old(self)),
            final(self).since(*old(self)).len() == 1,
            answered(
                final(self).since(*old(self))[0],
                breakpoint_command_text(location),
                r,
                |o: Seq<char>, bp: Breakpoint| bp == (Breakpoint {
                    id: chosen_id(bp_id_read(o), old(self).next_breakpoint_id),
                    location,
                    enabled: true,
                    hit_count: 0,
                }),
            ),
            r matches Ok(bp) ==> (final(self).breakpoints@ == old(self).breakpoints@.push(bp)
                && final(self).next_breakpoint_id == next_after(old(self).next_breakpoint_id, bp.id)),
            r is Err ==> final(self).keeps(*old(self)),
            final(self).target_program == old(self).target_program,
            final(self).attached_pid == old(self).attached_pid,
            final(self).text_base == old(self).text_base,
            final(self).last_stop_reason == old(self).last_stop_reason,
    {
        let cmd = breakpoint_command(&location);
        let output = match self.ask(cmd.as_str()) {
            Ok(o) => o,
            Err(e) => {
                return Err(e);
            },
        };
        let id = match parse_breakpoint_id(output.as_str()) {
            Some(id) => id,
            None => self.next_breakpoint_id,
        };
        let after = id.saturating_add(1);
        if self.next_breakpoint_id < after {
            self.next_breakpoint_id = after;
        }
        let stored = Breakpoint { id, location: location.dup(), enabled: true, hit_count: 0 };
        self.breakpoints.push(stored);
        Ok(Breakpoint { id, location, enabled: true, hit_count: 0 })
    }

    fn remove_breakpoint_inner(&mut self, id: BreakpointId) -> (r: Result<(), BackendError>)
        ensures
            final(self).requests == old(self).requests,
            final(self).grown(*old(self)),
            final(self).since(*old(self)).len() == 1,
            answered(final(self).since(*old(self))[0], "breakpoint delete "@ + dec_digits(id as nat), r, |o: Seq<char>, u: ()| true),
            r is Ok ==> final(self).breakpoints@ == old(self).breakpoints@.filter(|b: Breakpoint| b.id != id),
            r is Err ==> final(self).breakpoints@ == old(self).breakpoints@,
            final(self).target_program == old(self).target_program,
            final(self).attached_pid == old(self).attached_pid,
            final(self).text_base == old(self).text_base,
            final(self).next_breakpoint_id == old(self).next_breakpoint_id,
            final(self).last_stop_reason == old(self).last_stop_reason,
    {
        let ghost a0 = *self;
        let cmd = numbered_command("breakpoint delete ", id);
        match self.ask(cmd.as_str()) {
            Ok(_) => {},
            Err(e) => {
                return Err(e);
            },
        }
        let ghost a1 = *self;
        let mut rest: Vec<Breakpoint> = Vec::new();
        std::mem::swap(&mut rest, &mut self.breakpoints);
        let ghost all = rest@;
        let n = rest.len();
        let mut kept: Vec<Breakpoint> = Vec::new();
        let mut i: usize = 0;
        while rest.len() > 0
            invariant
                i <= all.len(),
                all.len() == n,
                i + rest@.len() == all.len(),
                rest@ == all.skip(i as int),
                kept@ == all.take(i as int).filter(|x: Breakpoint| x.id != id),
                all == a0.breakpoints@,
                self.requests == a0.requests,
            decreases rest@.len(),
        {
            let b = rest.remove(0);
            proof {
                assert(b == all[i as int]);
                assert(all.take(i as int + 1).drop_last() =~= all.take(i as int));
                assert(all.take(i as int + 1).last() == all[i as int]);
                reveal(Seq::filter);
                assert(rest@ =~= all.skip(i as int + 1));
            }
            if b.id != id {
                kept.push(b);
            }
            i = i + 1;
        }
        assert(all.take(i as int) =~= all);
        self.breakpoints = kept;
        assert(self.log == a1.log);
        Ok(())
    }

    fn disassemble_inner(&mut self, address: Option<Address>, count: usize) -> (r: Result<Vec<DisassemblyLine>, BackendError>)
        ensures
            final(self).requests == old(self).requests,
            final(self).keeps(*old(self)),
            final(self).grown(*old(self)),
            disassembled(
                old(self).text_base,
                old(self).target_program,
                old(self).breakpoints@,
                address,
                count,
                final(self).since(*old(self)),
                r,
            ),
    {
        let ghost a0 = *self;
        let ghost l0 = self.log@;
        let primary = disassemble_command(address, count);
        let first = self.ask(primary.as_str());
        let ghost l1 = self.log@;
        match first {
            Ok(output) => {
                let parsed = parse_disassembly(output.as_str(), self.breakpoints.as_slice());
                if parsed.len() > 0 {
                    return Ok(parsed);
                }
                let b = self.batch_disassemble(address, count);
                proof {
                    lemma_grew_trans(l0, l1, self.log@);
                    assert(added(l0, self.log@).skip(1) =~= added(l1, self.log@));
                }
                b
            },
            Err(_) => {
                match self.text_base {
                    Some(base) => {
                        let by_base = disassemble_command(Some(base), count);
                        let second = self.ask(by_base.as_str());
                        let ghost l2 = self.log@;
                        proof {
                            lemma_grew_trans(l0, l1, l2);
                        }
                        match second {
                            Ok(output) => {
                                let parsed = parse_disassembly(output.as_str(), self.breakpoints.as_slice());
                                if parsed.len() > 0 {
                                    return Ok(parsed);
                                }
                            },
                            Err(_) => {},
                        }
                        let rest = self.disassemble_main_or_file(address, count);
                        proof {
                            lemma_grew_trans(l0, l2, self.log@);
                            assert(added(l0, self.log@).skip(2) =~= added(l2, self.log@));
                        }
                        rest
                    },
                    None => {
                        let rest = self.disassemble_main_or_file(address, count);
                        proof {
                            lemma_grew_trans(l0, l1, self.log@);
                            assert(added(l0, self.log@).skip(1) =~= added(l1, self.log@));
                        }
                        rest
                    },
                }
            },
        }
    }

    fn memory_map_inner(&mut self) -> (r: Result<Vec<MemoryRegion>, BackendError>)
        ensures
            final(self).requests == old(self).requests,
            final(self).keeps(*old(self)),
            final(self).grown(*old(self)),
            mapped(old(self).target_program, final(self).since(*old(self)), r),
    {
        let ghost l0 = self.log@;
        let output = match self.ask("memory region --all") {
            Ok(o) => o,
            Err(e) => {
                return Err(e);
            },
        };
        let ghost l1 = self.log@;
        let regions = parse_memory_regions(output.as_str());
        if regions.len() > 0 {
            return Ok(regions);
        }
        let second = self.ask("image list");
        proof {
            lemma_grew_trans(l0, l1, self.log@);
        }
        let fallback = match second {
            Ok(o) => o,
            Err(e) => {
                return Err(e);
            },
        };
        let size = fallback.as_str().as_bytes_vec().len();
        let mut label = chars_of("image list output ");
        let d = fmt_dec(size as u64);
        push_chars(&mut label, d.as_slice());
        push_str(&mut label, " bytes");
        let mut out: Vec<MemoryRegion> = Vec::new();
        out.push(MemoryRegion {
            start: 0,
            end: 0,
            permissions: MemoryPermissions { read: true, write: false, execute: true },
            pathname: crate::bind_core::model::dup_opt_string(&self.target_program),
            label: Some(string_of(label.as_slice())),
        });
        Ok(out)
    }

    fn current_instruction_inner(&mut self, thread_id: ThreadId) -> (r: Result<Option<Address>, BackendError>)
        ensures
            final(self).requests == old(self).requests,
            final(self).keeps(*old(self)),
            final(self).grown(*old(self)),
            ({
                let xs = final(self).since(*old(self));
                &&& xs.len() >= 1
                &&& sent(xs[0], "thread select "@ + dec_digits(thread_id as nat))
                &&& match ok_out(xs[0]) {
                    Some(_) => xs.len() == 2 && answered(xs[1], "register read rip pc eip"@, r, |o: Seq<char>, v: Option<Address>| v == pc_read(o)),
                    None => xs.len() == 1 && passed_on(xs[0], r),
                }
            }),
    {
        let ghost l0 = self.log@;
        match self.select_thread(thread_id) {
            Ok(()) => {},
            Err(e) => {
                return Err(e);
            },
        }
        let ghost l1 = self.log@;
        let a = self.ask("register read rip pc eip");
        proof {
            lemma_grew_trans(l0, l1, self.log@);
        }
        match a {
            Ok(output) => Ok(parse_pc_from_register_output(output.as_str())),
            Err(e) => Err(e),
        }
    }

    fn current_stop_reason_inner(&mut self) -> (r: Result<StopReason, BackendError>)
        ensures
            final(self).requests == old(self).requests,
            r == Ok::<StopReason, BackendError>(old(self).last_stop_reason),
    {
        Ok(crate::tra86::model::StopReason::dup(&self.last_stop_reason))
    }

    fn source_location_inner(&mut self, address: Address) -> (r: Result<Option<SourceLocation>, BackendError>)
        ensures
            final(self).requests == old(self).requests,
            final(self).keeps(*old(self)),
            final(self).grown(*old(self)),
            final(self).since(*old(self)).len() == 1,
            answered(
                final(self).since(*old(self))[0],
                "image lookup --address "@ + hex0x(address),
                r,
                |o: Seq<char>, v: Option<SourceLocation>| source_is(v, source_from(lines_of(o), 0)),
            ),
    {
        let cmd = address_command("image lookup --address ", address);
        match self.ask(cmd.as_str()) {
            Ok(output) => Ok(parse_source_location(output.as_str())),
            Err(e) => Err(e),
        }
    }

    fn symbolicate_inner(&mut self, address: Address) -> (r: Result<Option<SymbolInfo>, BackendError>)
        ensures
            final(self).requests == old(self).requests,
            final(self).keeps(*old(self)),
            final(self).grown(*old(self)),
            final(self).since(*old(self)).len() == 1,
            answered(
                final(self).since(*old(self))[0],
                "image lookup --address "@ + hex0x(address),
                r,
                |o: Seq<char>, v: Option<SymbolInfo>| symbol_read(o, address, old(self).target_program, v),
            ),
    {
        let cmd = address_command("image lookup --address ", address);
        match self.ask(cmd.as_str()) {
            Ok(output) => {
                let module = crate::bind_core::model::dup_opt_string(&self.target_program);
                Ok(parse_symbol_info(output.as_str(), address, module))
            },
            Err(e) => Err(e),
        }
    }
}

impl<C: LldbCommands + Send> DebugBackend for LldbBackend<C> {
    open spec fn received(&self) -> Seq<Request> {
        self.requests@
    }

    open spec fn name_view(&self) -> Seq<char> {
        "lldb"@
    }

    fn backend_name(&self) -> (r: &'static str)
        ensures
            r@ == "lldb"@,
    {
        "lldb"
    }

    fn open_target(&mut self, program: &str) -> (r: Result<(), BackendError>)
        ensures
            opened(*old(self), program@, r, *final(self)),
            final(self).received() == old(self).received().push(Request::OpenTarget { program: program@, answer: r }),
    {
        let r = self.open_target_inner(program);
        self.requests = Ghost(self.requests@.push(Request::OpenTarget { program: program@, answer: r }));
        r
    }

    fn launch(&mut self, request: LaunchRequest) -> (r: Result<(), BackendError>)
        ensures
            launched(*old(self), request.target, r, *final(self)),
            final(self).received() == old(self).received().push(Request::Launch { request, answer: r }),
    {
        let ghost req = request;
        let r = self.launch_inner(request);
        self.requests = Ghost(self.requests@.push(Request::Launch { request: req, answer: r }));
        r
    }

    fn attach(&mut self, pid: u32) -> (r: Result<(), BackendError>)
        ensures
            final(self).grown(*old(self)),
            final(self).since(*old(self)).len() == 1,
            answered(final(self).since(*old(self))[0], "process attach --pid "@ + dec_digits(pid as nat), r, |o: Seq<char>, u: ()| true),
            match ok_out(final(self).since(*old(self))[0]) {
                Some(o) => final(self).attached_pid == Some(pid) && follows(old(self).last_stop_reason, o, final(self).last_stop_reason),
                None => final(self).attached_pid == old(self).attached_pid && final(self).last_stop_reason == old(self).last_stop_reason,
            },
            final(self).target_program == old(self).target_program,
            final(self).text_base == old(self).text_base,
            final(self).breakpoints@ == old(self).breakpoints@,
            final(self).next_breakpoint_id == old(self).next_breakpoint_id,
            final(self).received() == old(self).received().push(Request::Attach { pid, answer: r }),
    {
        let r = self.attach_inner(pid);
        self.requests = Ghost(self.requests@.push(Request::Attach { pid, answer: r }));
        r
    }

    fn detach(&mut self) -> (r: Result<(), BackendError>)
        ensures
            final(self).grown(*old(self)),
            final(self).since(*old(self)).len() == 1,
            answered(final(self).since(*old(self))[0], "process detach"@, r, |o: Seq<char>, u: ()| true),
            r is Ok ==> final(self).attached_pid is None && final(self).last_stop_reason == StopReason::Detached,
            r is Err ==> final(self).keeps(*old(self)),
            final(self).target_program == old(self).target_program,
            final(self).text_base == old(self).text_base,
            final(self).breakpoints@ == old(self).breakpoints@,
            final(self).next_breakpoint_id == old(self).next_breakpoint_id,
            final(self).received() == old(self).received().push(Request::Detach { answer: r }),
    {
        let r = self.detach_inner();
        self.requests = Ghost(self.requests@.push(Request::Detach { answer: r }));
        r
    }

    fn kill(&mut self) -> (r: Result<(), BackendError>)
        ensures
            final(self).grown(*old(self)),
            final(self).since(*old(self)).len() == 1,
            answered(final(self).since(*old(self))[0], "process kill"@, r, |o: Seq<char>, u: ()| true),
            r is Ok ==> final(self).last_stop_reason == StopReason::Exited(0),
            r is Err ==> final(self).last_stop_reason == old(self).last_stop_reason,
            final(self).target_program == old(self).target_program,
            final(self).attached_pid == old(self).attached_pid,
            final(self).text_base == old(self).text_base,
            final(self).breakpoints@ == old(self).breakpoints@,
            final(self).next_breakpoint_id == old(self).next_breakpoint_id,
            final(self).received() == old(self).received().push(Request::Kill { answer: r }),
    {
        let r = self.kill_inner();
        self.requests = Ghost(self.requests@.push(Request::Kill { answer: r }));
        r
    }

    fn continue_exec(&mut self) -> (r: Result<(), BackendError>)
        ensures
            stepped(*old(self), "process continue"@, r, *final(self)),
            final(self).received() == old(self).received().push(Request::Continue { answer: r }),
    {
        let r = self.continue_exec_inner();
        self.requests = Ghost(self.requests@.push(Request::Continue { answer: r }));
        r
    }

    fn step_into(&mut self) -> (r: Result<(), BackendError>)
        ensures
            stepped(*old(self), "thread step-in"@, r, *final(self)),
            final(self).received() == old(self).received().push(Request::StepInto { answer: r }),
    {
        let r = self.step_into_inner();
        self.requests = Ghost(self.requests@.push(Request::StepInto { answer: r }));
        r
    }

    fn step_over(&mut self) -> (r: Result<(), BackendError>)
        ensures
            stepped(*old(self), "thread step-over"@, r, *final(self)),
            final(self).received() == old(self).received().push(Request::StepOver { answer: r }),
    {
        let r = self.step_over_inner();
        self.requests = Ghost(self.requests@.push(Request::StepOver { answer: r }));
        r
    }

    fn step_out(&mut self) -> (r: Result<(), BackendError>)
        ensures
            stepped(*old(self), "thread step-out"@, r, *final(self)),
            final(self).received() == old(self).received().push(Request::StepOut { answer: r }),
    {
        let r = self.step_out_inner();
        self.requests = Ghost(self.requests@.push(Request::StepOut { answer: r }));
        r
    }

    fn pause(&mut self) -> (r: Result<(), BackendError>)
        ensures
            stepped(*old(self), "process interrupt"@, r, *final(self)),
            final(self).received() == old(self).received().push(Request::Pause { answer: r }),
    {
        let r = self.pause_inner();
        self.requests = Ghost(self.requests@.push(Request::Pause { answer: r }));
        r
    }

    fn read_registers(&mut self, thread_id: ThreadId) -> (r: Result<RegisterBank, BackendError>)
        ensures
            final(self).keeps(*old(self)),
            final(self).grown(*old(self)),
            registers_read(*old(self), thread_id, final(self).since(*old(self)), r),
            final(self).received() == old(self).received().push(Request::ReadRegisters { thread_id, answer: r }),
    {
        let r = self.read_registers_inner(thread_id);
        self.requests = Ghost(self.requests@.push(Request::ReadRegisters { thread_id, answer: r }));
        r
    }

    fn read_memory(&mut self, address: Address, length: usize) -> (r: Result<Vec<u8>, BackendError>)
        ensures
            final(self).keeps(*old(self)),
            final(self).grown(*old(self)),
            final(self).since(*old(self)).len() == 1,
            answered(
                final(self).since(*old(self))[0],
                "memory read --size 1 --count "@ + dec_digits(length as nat) + " "@ + hex0x(address),
                r,
                |o: Seq<char>, v: Vec<u8>| v@ == bytes_of_lines(lines_of(o)),
            ),
            final(self).received() == old(self).received().push(Request::ReadMemory { address, length, answer: r }),
    {
        let r = self.read_memory_inner(address, length);
        self.requests = Ghost(self.requests@.push(Request::ReadMemory { address, length, answer: r }));
        r
    }

    fn write_memory(&mut self, address: Address, bytes: &[u8]) -> (r: Result<(), BackendError>)
        ensures
            final(self).keeps(*old(self)),
            final(self).grown(*old(self)),
            bytes@.len() == 0 ==> r is Ok && final(self).since(*old(self)).len() == 0,
            bytes@.len() > 0 ==> final(self).since(*old(self)).len() == 1 && answered(
                final(self).since(*old(self))[0],
                "memory write --size 1 "@ + hex0x(address) + " "@ + byte_words(bytes@),
                r,
                |o: Seq<char>, u: ()| true,
            ),
            final(self).received() == old(self).received().push(Request::WriteMemory { address, bytes: bytes@, answer: r }),
    {
        let r = self.write_memory_inner(address, bytes);
        self.requests = Ghost(self.requests@.push(Request::WriteMemory { address, bytes: bytes@, answer: r }));
        r
    }

    fn list_threads(&mut self) -> (r: Result<Vec<ThreadState>, BackendError>)
        ensures
            final(self).keeps(*old(self)),
            final(self).grown(*old(self)),
            threads_listed(*old(self), final(self).since(*old(self)), r),
            final(self).received() == old(self).received().push(Request::ListThreads { answer: r }),
    {
        let r = self.list_threads_inner();
        self.requests = Ghost(self.requests@.push(Request::ListThreads { answer: r }));
        r
    }

    fn list_frames(&mut self, thread_id: ThreadId) -> (r: Result<Vec<FrameState>, BackendError>)
        ensures
            final(self).keeps(*old(self)),
            final(self).grown(*old(self)),
            ({
                let xs = final(self).since(*old(self));
                &&& xs.len() >= 1
                &&& sent(xs[0], "thread select "@ + dec_digits(thread_id as nat))
                &&& match ok_out(xs[0]) {
                    Some(_) => xs.len() == 2 && answered(xs[1], "thread backtrace"@, r, |o: Seq<char>, v: Vec<FrameState>| frames_read(o, thread_id, v@)),
                    None => xs.len() == 1 && passed_on(xs[0], r),
                }
            }),
            final(self).received() == old(self).received().push(Request::ListFrames { thread_id, answer: r }),
    {
        let r = self.list_frames_inner(thread_id);
        self.requests = Ghost(self.requests@.push(Request::ListFrames { thread_id, answer: r }));
        r
    }

    fn set_breakpoint(&mut self, location: BreakpointLocation) -> (r: Result<Breakpoint, BackendError>)
        ensures
            final(self).grown(*old(self)),
            final(self).since(*old(self)).len() == 1,
            answered(
                final(self).since(*old(self))[0],
                breakpoint_command_text(location),
                r,
                |o: Seq<char>, bp: Breakpoint| bp == (Breakpoint {
                    id: chosen_id(bp_id_read(o), old(self).next_breakpoint_id),
                    location,
                    enabled: true,
                    hit_count: 0,
                }),
            ),
            r matches Ok(bp) ==> (final(self).breakpoints@ == old(self).breakpoints@.push(bp)
                && final(self).next_breakpoint_id == next_after(old(self).next_breakpoint_id, bp.id)),
            r is Err ==> final(self).keeps(*old(self)),
            final(self).target_program == old(self).target_program,
            final(self).attached_pid == old(self).attached_pid,
            final(self).text_base == old(self).text_base,
            final(self).last_stop_reason == old(self).last_stop_reason,
            final(self).received() == old(self).received().push(Request::SetBreakpoint { location, answer: r }),
    {
        let ghost loc = location;
        let r = self.set_breakpoint_inner(location);
        self.requests = Ghost(self.requests@.push(Request::SetBreakpoint { location: loc, answer: r }));
        r
    }

    fn remove_breakpoint(&mut self, id: BreakpointId) -> (r: Result<(), BackendError>)
        ensures
            final(self).grown(*old(self)),
            final(self).since(*old(self)).len() == 1,
            answered(final(self).since(*old(self))[0], "breakpoint delete "@ + dec_digits(id as nat), r, |o: Seq<char>, u: ()| true),
            r is Ok ==> final(self).breakpoints@ == old(self).breakpoints@.filter(|b: Breakpoint| b.id != id),
            r is Err ==> final(self).breakpoints@ == old(self).breakpoints@,
            final(self).target_program == old(self).target_program,
            final(self).attached_pid == old(self).attached_pid,
            final(self).text_base == old(self).text_base,
            final(self).next_breakpoint_id == old(self).next_breakpoint_id,
            final(self).last_stop_reason == old(self).last_stop_reason,
            final(self).received() == old(self).received().push(Request::RemoveBreakpoint { id, answer: r }),
    {
        let r = self.remove_breakpoint_inner(id);
        self.requests = Ghost(self.requests@.push(Request::RemoveBreakpoint { id, answer: r }));
        r
    }

    fn disassemble(&mut self, address: Option<Address>, count: usize) -> (r: Result<Vec<DisassemblyLine>, BackendError>)
        ensures
            final(self).keeps(*old(self)),
            final(self).grown(*old(self)),
            disassembled(
                old(self).text_base,
                old(self).target_program,
                old(self).breakpoints@,
                address,
                count,
                final(self).since(*old(self)),
                r,
            ),
            final(self).received() == old(self).received().push(Request::Disassemble { address, count, answer: r }),
    {
        let r = self.disassemble_inner(address, count);
        self.requests = Ghost(self.requests@.push(Request::Disassemble { address, count, answer: r }));
        r
    }

    fn memory_map(&mut self) -> (r: Result<Vec<MemoryRegion>, BackendError>)
        ensures
            final(self).keeps(*old(self)),
            final(self).grown(*old(self)),
            mapped(old(self).target_program, final(self).since(*old(self)), r),
            final(self).received() == old(self).received().push(Request::MemoryMap { answer: r }),
    {
        let r = self.memory_map_inner();
        self.requests = Ghost(self.requests@.push(Request::MemoryMap { answer: r }));
        r
    }

    fn current_instruction(&mut self, thread_id: ThreadId) -> (r: Result<Option<Address>, BackendError>)
        ensures
            final(self).keeps(*old(self)),
            final(self).grown(*old(self)),
            ({
                let xs = final(self).since(*old(self));
                &&& xs.len() >= 1
                &&& sent(xs[0], "thread select "@ + dec_digits(thread_id as nat))
                &&& match ok_out(xs[0]) {
                    Some(_) => xs.len() == 2 && answered(xs[1], "register read rip pc eip"@, r, |o: Seq<char>, v: Option<Address>| v == pc_read(o)),
                    None => xs.len() == 1 && passed_on(xs[0], r),
                }
            }),
            final(self).received() == old(self).received().push(Request::CurrentInstruction { thread_id, answer: r }),
    {
        let r = self.current_instruction_inner(thread_id);
        self.requests = Ghost(self.requests@.push(Request::CurrentInstruction { thread_id, answer: r }));
        r
    }

    fn current_stop_reason(&mut self) -> (r: Result<StopReason, BackendError>)
        ensures
            r == Ok::<StopReason, BackendError>(old(self).last_stop_reason),
            final(self).received() == old(self).received().push(Request::CurrentStopReason { answer: r }),
    {
        let r = self.current_stop_reason_inner();
        self.requests = Ghost(self.requests@.push(Request::CurrentStopReason { answer: r }));
        r
    }

    fn source_location(&mut self, address: Address) -> (r: Result<Option<SourceLocation>, BackendError>)
        ensures
            final(self).keeps(*old(self)),
            final(self).grown(*old(self)),
            final(self).since(*old(self)).len() == 1,
            answered(
                final(self).since(*old(self))[0],
                "image lookup --address "@ + hex0x(address),
                r,
                |o: Seq<char>, v: Option<SourceLocation>| source_is(v, source_from(lines_of(o), 0)),
            ),
            final(self).received() == old(self).received().push(Request::SourceLocation { address, answer: r }),
    {
        let r = self.source_location_inner(address);
        self.requests = Ghost(self.requests@.push(Request::SourceLocation { address, answer: r }));
        r
    }

    fn symbolicate(&mut self, address: Address) -> (r: Result<Option<SymbolInfo>, BackendError>)
        ensures
            final(self).keeps(*old(self)),
            final(self).grown(*old(self)),
            final(self).since(*old(self)).len() == 1,
            answered(
                final(self).since(*old(self))[0],
                "image lookup --address "@ + hex0x(address),
                r,
                |o: Seq<char>, v: Option<SymbolInfo>| symbol_read(o, address, old(self).target_program, v),
            ),
            final(self).received() == old(self).received().push(Request::Symbolicate { address, answer: r }),
    {
        let r = self.symbolicate_inner(address);
        self.requests = Ghost(self.requests@.push(Request::Symbolicate { address, answer: r }));
        r
    }

    fn capabilities(&self) -> (r: Vec<(String, bool)>)
        ensures
            r@.len() == 17,
            forall|i: int| 0 <= i < r@.len() ==> (#[trigger] r@[i]).1,
    {
        let names: Vec<&'static str> = vec![
            "attach",
            "breakpoints",
            "continue",
            "disassemble",
            "launch",
            "list_frames",
            "list_threads",
            "memory_map",
            "pause",
            "read_memory",
            "read_registers",
            "source_location",
            "step_into",
            "step_out",
            "step_over",
            "symbolicate",
            "write_memory",
        ];
        let mut r: Vec<(String, bool)> = Vec::new();
        let mut i: usize = 0;
        while i < names.len()
            invariant
                i <= names@.len(),
                names@.len() == 17,
                r@.len() == i,
                forall|j: int| 0 <= j < r@.len() ==> (#[trigger] r@[j]).1,
            decreases names@.len() - i,
        {
            r.push((names[i].to_owned(), true));
            i = i + 1;
        }
        r
    }
}

} // verus!
