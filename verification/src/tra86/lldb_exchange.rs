//! What the LLDB backend sends and what comes back. The backend keeps a log
//! of its exchanges with LLDB; each request is stated as the exchanges it
//! adds to that log and what it makes of their answers.
use vstd::prelude::*;
use crate::num::{dec_digits, hex_digits, pad_left};
use crate::text::lines_of;
use crate::tra86::backend::error::BackendError;
use crate::tra86::lldb_commands::{disassemble_command_text, reason_walk};
use crate::tra86::lldb_output::{
    bytes_of_lines, disasm_fold, disassembly_is, first_found, pc_value, pid_line, breakpoint_line, quote_escaped,
    registers_are, registers_of, role_of, text_line,
};
use crate::tra86::model::{Breakpoint, DisassemblyLine, RegisterRole, RegisterValue, StopReason};

verus! {

/// One exchange with LLDB, as the backend saw it.
pub enum Exchange {
    /// A command run in the session, and its output or error.
    Command { command: Seq<char>, answer: Result<Seq<char>, BackendError> },
    /// A one-off batch run of two commands; `None` when the run failed.
    Batch { first: Seq<char>, second: Seq<char>, reply: Result<Option<Seq<char>>, BackendError> },
    /// Whether a program file was found.
    Exists { program: Seq<char>, found: bool },
}

/// The answer of a command as text.
pub open spec fn answer_view(r: Result<String, BackendError>) -> Result<Seq<char>, BackendError> {
    match r {
        Ok(s) => Ok(s@),
        Err(e) => Err(e),
    }
}

/// The answer of a batch run as text.
pub open spec fn reply_view(r: Result<Option<String>, BackendError>) -> Result<Option<Seq<char>>, BackendError> {
    match r {
        Ok(Some(s)) => Ok(Some(s@)),
        Ok(None) => Ok(None),
        Err(e) => Err(e),
    }
}

/// `after` is `before` with more exchanges at its end.
pub open spec fn grew(before: Seq<Exchange>, after: Seq<Exchange>) -> bool {
    before.len() <= after.len() && after.take(before.len() as int) == before
}

/// The exchanges `after` has beyond `before`.
pub open spec fn added(before: Seq<Exchange>, after: Seq<Exchange>) -> Seq<Exchange> {
    after.skip(before.len() as int)
}

pub proof fn lemma_grew_refl(a: Seq<Exchange>)
    ensures
        grew(a, a),
        added(a, a) == Seq::<Exchange>::empty(),
{
    assert(a.take(a.len() as int) =~= a);
    assert(added(a, a) =~= Seq::<Exchange>::empty());
}

pub proof fn lemma_grew_push(a: Seq<Exchange>, b: Seq<Exchange>, x: Exchange)
    requires
        grew(a, b),
    ensures
        grew(a, b.push(x)),
        added(a, b.push(x)) == added(a, b).push(x),
{
    assert(b.push(x).take(a.len() as int) =~= b.take(a.len() as int));
    assert(added(a, b.push(x)) =~= added(a, b).push(x));
}

pub proof fn lemma_grew_trans(a: Seq<Exchange>, b: Seq<Exchange>, c: Seq<Exchange>)
    requires
        grew(a, b),
        grew(b, c),
    ensures
        grew(a, c),
        added(a, c) == added(a, b) + added(b, c),
{
    assert(c.take(a.len() as int) =~= b.take(a.len() as int));
    assert(added(a, c) =~= added(a, b) + added(b, c));
}

/// `x` ran the command `c`.
pub open spec fn sent(x: Exchange, c: Seq<char>) -> bool {
    match x {
        Exchange::Command { command, .. } => command == c,
        _ => false,
    }
}

/// The output of `x`, where it is a command that succeeded.
pub open spec fn ok_out(x: Exchange) -> Option<Seq<char>> {
    match x {
        Exchange::Command { answer: Ok(o), .. } => Some(o),
        _ => None,
    }
}

/// `x` is a command that failed with `e`.
pub open spec fn failed_with(x: Exchange, e: BackendError) -> bool {
    match x {
        Exchange::Command { answer: Err(f), .. } => f == e,
        _ => false,
    }
}

/// `x` is a command that failed, and `r` is its error.
pub open spec fn passed_on<T>(x: Exchange, r: Result<T, BackendError>) -> bool {
    match x {
        Exchange::Command { answer: Err(e), .. } => r == Err::<T, BackendError>(e),
        _ => false,
    }
}

/// `x` ran `c`, and `r` is its error as it came, or else what `ok` makes of
/// its output.
pub open spec fn answered<T>(x: Exchange, c: Seq<char>, r: Result<T, BackendError>, ok: spec_fn(Seq<char>, T) -> bool) -> bool {
    match x {
        Exchange::Command { command, answer } => command == c && (match answer {
            Ok(o) => (r matches Ok(v) && ok(o, v)),
            Err(e) => r == Err::<T, BackendError>(e),
        }),
        _ => false,
    }
}

/// The stop reason `r` is where `cur` goes after following the lines of
/// `output`.
pub open spec fn follows(cur: StopReason, output: Seq<char>, r: StopReason) -> bool {
    exists|rs: Seq<StopReason>| #[trigger] reason_walk(cur, lines_of(output), rs, r)
}

/// The process number an answer reports.
pub open spec fn pid_read(o: Seq<char>) -> Option<u32> {
    match first_found(lines_of(o), |l: Seq<char>| pid_line(l), 0) {
        Some(v) => Some(v as u32),
        None => None,
    }
}

/// The breakpoint number an answer reports.
pub open spec fn bp_id_read(o: Seq<char>) -> Option<u64> {
    match first_found(lines_of(o), |l: Seq<char>| breakpoint_line(l), 0) {
        Some(v) => Some(v as u64),
        None => None,
    }
}

/// The start of the text section an answer reports.
pub open spec fn text_base_read(o: Seq<char>) -> Option<u64> {
    match first_found(lines_of(o), |l: Seq<char>| text_line(l), 0) {
        Some(a) => Some(a as u64),
        None => None,
    }
}

/// The program counter an answer reports.
pub open spec fn pc_read(o: Seq<char>) -> Option<u64> {
    match pc_value(o) {
        Some(a) => Some(a as u64),
        None => None,
    }
}

/// `v` is the disassembly an answer shows, marked against `bps`.
pub open spec fn disasm_read(o: Seq<char>, bps: Seq<Breakpoint>, v: Seq<DisassemblyLine>) -> bool {
    disassembly_is(v, disasm_fold(lines_of(o)).1, bps)
}

/// The answer shows at least one instruction.
pub open spec fn disasm_found(o: Seq<char>) -> bool {
    disasm_fold(lines_of(o)).1.len() > 0
}

/// The command that loads a program.
pub open spec fn create_text(program: Seq<char>) -> Seq<char> {
    "target create "@ + seq!['"'] + quote_escaped(program) + seq!['"']
}

/// The command that disassembles `main`.
pub open spec fn main_text(count: usize) -> Seq<char> {
    "disassemble --name main --count "@ + dec_digits(count as nat)
}

/// What a batch run disassembles: from `address`, else `main`.
pub open spec fn batch_text(address: Option<u64>, count: usize) -> Seq<char> {
    match address {
        Some(a) => disassemble_command_text(Some(a), count),
        None => main_text(count),
    }
}

/// `x` ran `image dump sections`, and the text base went from `tb0` to `tb1`.
pub open spec fn refreshed(x: Exchange, tb0: Option<u64>, tb1: Option<u64>) -> bool {
    &&& sent(x, "image dump sections"@)
    &&& tb1 == match ok_out(x) {
        Some(s) => text_base_read(s),
        None => tb0,
    }
}

/// A batch disassembly of the loaded program: none without one.
pub open spec fn batch_done(
    target: Option<String>,
    bps: Seq<Breakpoint>,
    address: Option<u64>,
    count: usize,
    xs: Seq<Exchange>,
    r: Result<Vec<DisassemblyLine>, BackendError>,
) -> bool {
    match target {
        None => xs.len() == 0 && (r matches Ok(v) && v@.len() == 0),
        Some(t) => xs.len() == 1 && match xs[0] {
            Exchange::Batch { first, second, reply } => {
                &&& first == create_text(t@)
                &&& second == batch_text(address, count)
                &&& match reply {
                    Ok(Some(o)) => (r matches Ok(v) && disasm_read(o, bps, v@)),
                    Ok(None) => (r matches Ok(v) && v@.len() == 0),
                    Err(e) => r == Err::<Vec<DisassemblyLine>, BackendError>(e),
                }
            },
            _ => false,
        },
    }
}

/// `x` answered with at least one instruction.
pub open spec fn found_in(x: Exchange) -> bool {
    match ok_out(x) {
        Some(o) => disasm_found(o),
        None => false,
    }
}

/// `v` is the disassembly `x` answered.
pub open spec fn rows_of(x: Exchange, bps: Seq<Breakpoint>, v: Seq<DisassemblyLine>) -> bool {
    match ok_out(x) {
        Some(o) => disasm_read(o, bps, v),
        None => false,
    }
}

/// `xs[0]` ran `c`; where it showed instructions they are the result,
/// otherwise `rest` goes on.
pub open spec fn tried(x: Exchange, c: Seq<char>, bps: Seq<Breakpoint>, more: int, r: Result<Vec<DisassemblyLine>, BackendError>, rest: bool) -> bool {
    &&& sent(x, c)
    &&& if found_in(x) {
        more == 0 && (r matches Ok(v) && rows_of(x, bps, v@))
    } else {
        rest
    }
}

/// Disassembly of `main`, then of the program file.
pub open spec fn main_then_batch(
    target: Option<String>,
    bps: Seq<Breakpoint>,
    address: Option<u64>,
    count: usize,
    xs: Seq<Exchange>,
    r: Result<Vec<DisassemblyLine>, BackendError>,
) -> bool {
    xs.len() >= 1 && tried(xs[0], main_text(count), bps, xs.len() - 1, r, batch_done(target, bps, address, count, xs.skip(1), r))
}

/// A disassembly request: from `address` (else the pc); where the session
/// answers with nothing, the program file in a batch run; where it fails,
/// the text base, `main` and the program file in turn.
pub open spec fn disassembled(
    text_base: Option<u64>,
    target: Option<String>,
    bps: Seq<Breakpoint>,
    address: Option<u64>,
    count: usize,
    xs: Seq<Exchange>,
    r: Result<Vec<DisassemblyLine>, BackendError>,
) -> bool {
    &&& xs.len() >= 1
    &&& sent(xs[0], disassemble_command_text(address, count))
    &&& match ok_out(xs[0]) {
        Some(o) => if disasm_found(o) {
            xs.len() == 1 && (r matches Ok(v) && disasm_read(o, bps, v@))
        } else {
            batch_done(target, bps, address, count, xs.skip(1), r)
        },
        None => match text_base {
            Some(b) => xs.len() >= 2 && tried(
                xs[1],
                disassemble_command_text(Some(b), count),
                bps,
                xs.len() - 2,
                r,
                main_then_batch(target, bps, address, count, xs.skip(2), r),
            ),
            None => main_then_batch(target, bps, address, count, xs.skip(1), r),
        },
    }
}

/// The address of the first row of a disassembly that succeeded.
pub open spec fn first_address(r: Result<Vec<DisassemblyLine>, BackendError>) -> Option<u64> {
    match r {
        Ok(rows) => if rows@.len() > 0 {
            Some(rows@[0].address)
        } else {
            None
        },
        Err(_) => None,
    }
}

/// The outputs of the commands in `xs`.
pub open spec fn outputs(xs: Seq<Exchange>) -> Seq<Seq<char>> {
    xs.map_values(|x: Exchange| match ok_out(x) {
        Some(o) => o,
        None => Seq::<char>::empty(),
    })
}

/// Outputs joined as the session joins them: a newline before each, once
/// what came before is not empty.
pub open spec fn glued(outs: Seq<Seq<char>>) -> Seq<char>
    decreases outs.len(),
{
    if outs.len() == 0 {
        Seq::empty()
    } else {
        let pre = glued(outs.drop_last());
        if pre.len() > 0 {
            pre + seq!['\n'] + outs.last()
        } else {
            outs.last()
        }
    }
}

/// Every exchange of `xs` is a command that succeeded.
pub open spec fn all_ok(xs: Seq<Exchange>) -> bool {
    forall|j: int| 0 <= j < xs.len() ==> (#[trigger] ok_out(xs[j])) is Some
}

/// `xs` ran `cmds` in order until the first failure, and `r` is the joined
/// outputs, or that failure.
pub open spec fn ran_script(xs: Seq<Exchange>, cmds: Seq<Seq<char>>, r: Result<Seq<char>, BackendError>) -> bool {
    &&& xs.len() <= cmds.len()
    &&& forall|j: int| 0 <= j < xs.len() ==> sent(#[trigger] xs[j], cmds[j])
    &&& match r {
        Ok(s) => xs.len() == cmds.len() && all_ok(xs) && s == glued(outputs(xs)),
        Err(e) => xs.len() > 0 && all_ok(xs.drop_last()) && failed_with(xs.last(), e),
    }
}

/// The register a disassembly row stands in for when none could be read.
pub open spec fn pc_register_from(row_address: u64, v: RegisterValue) -> bool {
    &&& v.name@ == "pc"@
    &&& v.value@ == seq!['0', 'x'] + pad_left(hex_digits(row_address as nat), 16, '0')
    &&& v.size_bits == 64
    &&& v.role == RegisterRole::InstructionPointer
}

/// The registers an answer shows: the strict reading, else the loose one,
/// else the program counter of a disassembly made in `rest`.
pub open spec fn registers_answer(
    o: Seq<char>,
    rest: Seq<Exchange>,
    text_base: Option<u64>,
    target: Option<String>,
    bps: Seq<Breakpoint>,
    regs: Seq<RegisterValue>,
) -> bool {
    let strict = registers_of(lines_of(o), false);
    let loose = registers_of(lines_of(o), true);
    if strict.len() > 0 {
        rest.len() == 0 && registers_are(regs, strict)
    } else if loose.len() > 0 {
        rest.len() == 0 && registers_are(regs, loose)
    } else {
        exists|dr: Result<Vec<DisassemblyLine>, BackendError>| #[trigger] disassembled(text_base, target, bps, None, 1, rest, dr)
            && match first_address(dr) {
            Some(a) => regs.len() == 1 && pc_register_from(a, regs[0]),
            None => regs.len() == 0,
        }
    }
}

/// The explicit register list asked for first.
pub open spec fn explicit_registers() -> Seq<char> {
    "register read rip rsp rbp rflags rax rbx rcx rdx rsi rdi r8 r9 r10 r11 r12 r13 r14 r15 pc sp fp x0 x1 x2 x3 x4 x5 x6 x7 x8 x9 x10 x11 x12 x13 x14 x15 x16 x17 x18 x19 x20 x21 x22 x23 x24 x25 x26 x27 x28 x29 x30 cpsr"@
}

} // verus!
