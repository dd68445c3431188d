//! The text the command-line shell prints for what the backend reports:
//! threads, frames, registers, disassembly, memory rows, breakpoints,
//! symbols, source positions and the session summary.
use vstd::prelude::*;
use crate::num::{dec_digits, fmt_dec, fmt_hex, fmt_hex_padded, fmt_signed, hex_digits, pad, pad_left, signed_dec};
use crate::text::{debug_quoted, push_chars, push_str, quoted, string_of};
use crate::tui::view::{hex_byte, lemma_row_count, row_chunk, row_count, shown_char};
use crate::tra86::model::{
    Address, Breakpoint, BreakpointLocation, DisassemblyLine, FrameState, RegisterBank, SourceLocation, StopReason,
    SymbolInfo, TargetBinary, ThreadId, ThreadState, ThreadStatus,
};

verus! {

/// An address as the shell prints it: `0x` and sixteen hex digits.
pub open spec fn addr_text(a: u64) -> Seq<char> {
    seq!['0', 'x'] + pad_left(hex_digits(a as nat), 16, '0')
}

pub fn format_address(a: Address) -> (s: String)
    ensures
        s@ == addr_text(a),
{
    let v = fmt_hex_padded(a, 16);
    string_of(v.as_slice())
}

/// An optional address, `-` when absent.
pub open spec fn opt_addr_text(a: Option<u64>) -> Seq<char> {
    match a {
        Some(x) => addr_text(x),
        None => "-"@,
    }
}

fn push_opt_addr(v: &mut Vec<char>, a: Option<Address>)
    ensures
        final(v)@ == old(v)@ + opt_addr_text(a),
{
    match a {
        Some(x) => {
            let s = format_address(x);
            push_str(v, s.as_str());
        },
        None => push_str(v, "-"),
    }
}

/// An optional text, `dflt` when absent.
pub open spec fn text_or(s: Option<String>, dflt: Seq<char>) -> Seq<char> {
    match s {
        Some(x) => x@,
        None => dflt,
    }
}

/// The name `{:?}` prints for a thread status.
pub open spec fn status_name(s: ThreadStatus) -> Seq<char> {
    match s {
        ThreadStatus::Running => "Running"@,
        ThreadStatus::Stopped => "Stopped"@,
        ThreadStatus::Sleeping => "Sleeping"@,
        ThreadStatus::Unknown => "Unknown"@,
    }
}

/// What `{:?}` prints for a stop reason (the reason of no stop prints as
/// `None`).
pub open spec fn stop_reason_debug_text(r: StopReason) -> Seq<char> {
    match r {
        StopReason::NoReason => "None"@,
        StopReason::Breakpoint(id) => "Breakpoint("@ + dec_digits(id as nat) + ")"@,
        StopReason::Watchpoint(id) => "Watchpoint("@ + dec_digits(id as nat) + ")"@,
        StopReason::Step => "Step"@,
        StopReason::Signal(s) => "Signal("@ + debug_quoted(s@) + ")"@,
        StopReason::Exception(s) => "Exception("@ + debug_quoted(s@) + ")"@,
        StopReason::Exited(c) => "Exited("@ + signed_dec(c as int) + ")"@,
        StopReason::Detached => "Detached"@,
        StopReason::Unknown(s) => "Unknown("@ + debug_quoted(s@) + ")"@,
    }
}

pub fn stop_reason_debug(r: &StopReason) -> (s: String)
    ensures
        s@ == stop_reason_debug_text(*r),
{
    let mut v: Vec<char> = Vec::new();
    match r {
        StopReason::NoReason => push_str(&mut v, "None"),
        StopReason::Breakpoint(id) => {
            push_str(&mut v, "Breakpoint(");
            let d = fmt_dec(*id);
            push_chars(&mut v, d.as_slice());
            push_str(&mut v, ")");
        },
        StopReason::Watchpoint(id) => {
            push_str(&mut v, "Watchpoint(");
            let d = fmt_dec(*id);
            push_chars(&mut v, d.as_slice());
            push_str(&mut v, ")");
        },
        StopReason::Step => push_str(&mut v, "Step"),
        StopReason::Signal(s) => {
            push_str(&mut v, "Signal(");
            let q = quoted(s.as_str());
            push_str(&mut v, q.as_str());
            push_str(&mut v, ")");
        },
        StopReason::Exception(s) => {
            push_str(&mut v, "Exception(");
            let q = quoted(s.as_str());
            push_str(&mut v, q.as_str());
            push_str(&mut v, ")");
        },
        StopReason::Exited(c) => {
            push_str(&mut v, "Exited(");
            let d = fmt_signed(*c as i64);
            push_chars(&mut v, d.as_slice());
            push_str(&mut v, ")");
        },
        StopReason::Detached => push_str(&mut v, "Detached"),
        StopReason::Unknown(s) => {
            push_str(&mut v, "Unknown(");
            let q = quoted(s.as_str());
            push_str(&mut v, q.as_str());
            push_str(&mut v, ")");
        },
    }
    string_of(v.as_slice())
}

/// The views of printed lines.
pub open spec fn line_views(v: Seq<String>) -> Seq<Seq<char>> {
    v.map_values(|s: String| s@)
}

/// One line of the thread list.
pub open spec fn thread_line(t: ThreadState) -> Seq<char> {
    (if t.is_current { "*"@ } else { " "@ }) + " tid="@ + dec_digits(t.id as nat) + " status="@ + status_name(t.status)
        + " stop="@ + stop_reason_debug_text(t.stop_reason) + " ip="@ + opt_addr_text(t.instruction_pointer)
        + " name="@ + text_or(t.name, "-"@)
}

/// The thread list, or a note that there is none.
pub open spec fn thread_listing(ts: Seq<ThreadState>) -> Seq<Seq<char>> {
    if ts.len() == 0 {
        seq!["no threads"@]
    } else {
        ts.map_values(|t: ThreadState| thread_line(t))
    }
}

fn status_text(s: ThreadStatus) -> (r: &'static str)
    ensures
        r@ == status_name(s),
{
    match s {
        ThreadStatus::Running => "Running",
        ThreadStatus::Stopped => "Stopped",
        ThreadStatus::Sleeping => "Sleeping",
        ThreadStatus::Unknown => "Unknown",
    }
}

fn one_line(s: &str) -> (r: Vec<String>)
    ensures
        line_views(r@) == seq![s@],
{
    let mut r: Vec<String> = Vec::new();
    r.push(s.to_owned());
    assert(line_views(r@) =~= seq![s@]);
    r
}

pub fn thread_lines(threads: &Vec<ThreadState>) -> (r: Vec<String>)
    ensures
        line_views(r@) == thread_listing(threads@),
{
    if threads.len() == 0 {
        return one_line("no threads");
    }
    let mut r: Vec<String> = Vec::new();
    let mut i: usize = 0;
    while i < threads.len()
        invariant
            i <= threads@.len(),
            line_views(r@) =~= threads@.take(i as int).map_values(|t: ThreadState| thread_line(t)),
        decreases threads@.len() - i,
    {
        let t = &threads[i];
        let mut v: Vec<char> = Vec::new();
        push_str(&mut v, if t.is_current { "*" } else { " " });
        push_str(&mut v, " tid=");
        let d = fmt_dec(t.id);
        push_chars(&mut v, d.as_slice());
        push_str(&mut v, " status=");
        push_str(&mut v, status_text(t.status));
        push_str(&mut v, " stop=");
        let sr = stop_reason_debug(&t.stop_reason);
        push_str(&mut v, sr.as_str());
        push_str(&mut v, " ip=");
        push_opt_addr(&mut v, t.instruction_pointer);
        push_str(&mut v, " name=");
        match &t.name {
            Some(n) => push_str(&mut v, n.as_str()),
            None => push_str(&mut v, "-"),
        }
        let line = string_of(v.as_slice());
        assert(line@ =~= thread_line(threads@[i as int]));
        let ghost before = r@;
        r.push(line);
        proof {
            assert(threads@.take(i as int + 1) =~= threads@.take(i as int).push(threads@[i as int]));
            assert(threads@.take(i as int + 1).map_values(|t: ThreadState| thread_line(t)) =~= threads@.take(i as int).map_values(|t: ThreadState| thread_line(t)).push(thread_line(threads@[i as int])));
            assert(line_views(r@) =~= line_views(before).push(line@));
        }
        i = i + 1;
    }
    assert(threads@.take(i as int) =~= threads@);
    r
}

/// One line of the frame list.
pub open spec fn frame_line(f: FrameState) -> Seq<char> {
    seq!['#'] + dec_digits(f.index as nat) + " ip="@ + addr_text(f.instruction_pointer) + " sp="@ + opt_addr_text(
        f.stack_pointer,
    ) + " fp="@ + opt_addr_text(f.frame_pointer) + " "@ + text_or(f.function, "<unknown>"@) + " "@ + match f.source {
        Some(s) => s.file@ + ":"@ + dec_digits(s.line as nat),
        None => "-"@,
    }
}

pub open spec fn frame_listing(tid: ThreadId, fs: Seq<FrameState>) -> Seq<Seq<char>> {
    if fs.len() == 0 {
        seq!["no frames for thread "@ + dec_digits(tid as nat)]
    } else {
        fs.map_values(|f: FrameState| frame_line(f))
    }
}

fn with_number(prefix: &str, n: u64) -> (r: Vec<String>)
    ensures
        line_views(r@) == seq![prefix@ + dec_digits(n as nat)],
{
    let mut v: Vec<char> = Vec::new();
    push_str(&mut v, prefix);
    let d = fmt_dec(n);
    push_chars(&mut v, d.as_slice());
    let mut r: Vec<String> = Vec::new();
    r.push(string_of(v.as_slice()));
    assert(line_views(r@) =~= seq![prefix@ + dec_digits(n as nat)]);
    r
}

pub fn frame_lines(thread_id: ThreadId, frames: &Vec<FrameState>) -> (r: Vec<String>)
    ensures
        line_views(r@) == frame_listing(thread_id, frames@),
{
    if frames.len() == 0 {
        return with_number("no frames for thread ", thread_id);
    }
    let mut r: Vec<String> = Vec::new();
    let mut i: usize = 0;
    while i < frames.len()
        invariant
            i <= frames@.len(),
            line_views(r@) =~= frames@.take(i as int).map_values(|f: FrameState| frame_line(f)),
        decreases frames@.len() - i,
    {
        let f = &frames[i];
        let mut v: Vec<char> = Vec::new();
        v.push('#');
        let d = fmt_dec(f.index as u64);
        push_chars(&mut v, d.as_slice());
        push_str(&mut v, " ip=");
        let ip = format_address(f.instruction_pointer);
        push_str(&mut v, ip.as_str());
        push_str(&mut v, " sp=");
        push_opt_addr(&mut v, f.stack_pointer);
        push_str(&mut v, " fp=");
        push_opt_addr(&mut v, f.frame_pointer);
        push_str(&mut v, " ");
        match &f.function {
            Some(n) => push_str(&mut v, n.as_str()),
            None => push_str(&mut v, "<unknown>"),
        }
        push_str(&mut v, " ");
        match &f.source {
            Some(s) => {
                push_str(&mut v, s.file.as_str());
                push_str(&mut v, ":");
                let l = fmt_dec(s.line as u64);
                push_chars(&mut v, l.as_slice());
            },
            None => push_str(&mut v, "-"),
        }
        let line = string_of(v.as_slice());
        assert(line@ =~= frame_line(frames@[i as int]));
        let ghost before = r@;
        r.push(line);
        proof {
            assert(frames@.take(i as int + 1) =~= frames@.take(i as int).push(frames@[i as int]));
            assert(frames@.take(i as int + 1).map_values(|f: FrameState| frame_line(f)) =~= frames@.take(i as int).map_values(|f: FrameState| frame_line(f)).push(frame_line(frames@[i as int])));
            assert(line_views(r@) =~= line_views(before).push(line@));
        }
        i = i + 1;
    }
    assert(frames@.take(i as int) =~= frames@);
    r
}

/// `s` right-padded with spaces to at least `width` characters.
pub open spec fn padded(s: Seq<char>, width: nat) -> Seq<char> {
    if s.len() >= width {
        s
    } else {
        s + Seq::new((width - s.len()) as nat, |i: int| ' ')
    }
}

fn push_padded(v: &mut Vec<char>, s: &str, width: usize)
    ensures
        final(v)@ == old(v)@ + padded(s@, width as nat),
{
    let c = crate::text::chars_of(s);
    push_chars(v, c.as_slice());
    let ghost mid = v@;
    if c.len() < width {
        let k = width - c.len();
        let mut j: usize = 0;
        while j < k
            invariant
                j <= k,
                v@ =~= mid + Seq::new(j as nat, |x: int| ' '),
            decreases k - j,
        {
            v.push(' ');
            j = j + 1;
        }
    }
    assert(v@ =~= old(v)@ + padded(s@, width as nat));
}

pub open spec fn register_listing(tid: ThreadId, bank: RegisterBank) -> Seq<Seq<char>> {
    if bank.registers@.len() == 0 {
        seq!["no registers for thread "@ + dec_digits(tid as nat)]
    } else {
        bank.registers@.map_values(|r: crate::tra86::model::RegisterValue| padded(r.name@, 8) + " "@ + r.value@)
    }
}

pub fn register_lines(thread_id: ThreadId, bank: &RegisterBank) -> (r: Vec<String>)
    ensures
        line_views(r@) == register_listing(thread_id, *bank),
{
    if bank.registers.len() == 0 {
        return with_number("no registers for thread ", thread_id);
    }
    let mut r: Vec<String> = Vec::new();
    let mut i: usize = 0;
    while i < bank.registers.len()
        invariant
            i <= bank.registers@.len(),
            line_views(r@) =~= bank.registers@.take(i as int).map_values(
                |r: crate::tra86::model::RegisterValue| padded(r.name@, 8) + " "@ + r.value@,
            ),
        decreases bank.registers@.len() - i,
    {
        let reg = &bank.registers[i];
        let mut v: Vec<char> = Vec::new();
        push_padded(&mut v, reg.name.as_str(), 8);
        push_str(&mut v, " ");
        push_str(&mut v, reg.value.as_str());
        let line = string_of(v.as_slice());
        assert(line@ =~= padded(bank.registers@[i as int].name@, 8) + " "@ + bank.registers@[i as int].value@);
        let ghost before = r@;
        r.push(line);
        proof {
            assert(bank.registers@.take(i as int + 1) =~= bank.registers@.take(i as int).push(bank.registers@[i as int]));
            assert(bank.registers@.take(i as int + 1).map_values(|r: crate::tra86::model::RegisterValue| padded(r.name@, 8) + " "@ + r.value@) =~= bank.registers@.take(i as int).map_values(|r: crate::tra86::model::RegisterValue| padded(r.name@, 8) + " "@ + r.value@).push(padded(bank.registers@[i as int].name@, 8) + " "@ + bank.registers@[i as int].value@));
            assert(line_views(r@) =~= line_views(before).push(line@));
        }
        i = i + 1;
    }
    assert(bank.registers@.take(i as int) =~= bank.registers@);
    r
}

/// One line of the disassembly: the current mark, the address, the
/// mnemonic padded to eight, the operands, and the function when known.
pub open spec fn disassembly_line(l: DisassemblyLine) -> Seq<char> {
    (if l.is_current { "=>"@ } else { "  "@ }) + " "@ + addr_text(l.address) + " "@ + padded(l.mnemonic@, 8) + " "@
        + l.operands@ + match l.function {
        Some(f) => if f@.len() == 0 { Seq::empty() } else { " ; "@ + f@ },
        None => Seq::empty(),
    }
}

pub open spec fn disassembly_listing(ls: Seq<DisassemblyLine>) -> Seq<Seq<char>> {
    if ls.len() == 0 {
        seq!["no disassembly available"@]
    } else {
        ls.map_values(|l: DisassemblyLine| disassembly_line(l))
    }
}

pub fn disassembly_lines(lines: &Vec<DisassemblyLine>) -> (r: Vec<String>)
    ensures
        line_views(r@) == disassembly_listing(lines@),
{
    if lines.len() == 0 {
        return one_line("no disassembly available");
    }
    let mut r: Vec<String> = Vec::new();
    let mut i: usize = 0;
    while i < lines.len()
        invariant
            i <= lines@.len(),
            line_views(r@) =~= lines@.take(i as int).map_values(|l: DisassemblyLine| disassembly_line(l)),
        decreases lines@.len() - i,
    {
        let l = &lines[i];
        let mut v: Vec<char> = Vec::new();
        push_str(&mut v, if l.is_current { "=>" } else { "  " });
        push_str(&mut v, " ");
        let a = format_address(l.address);
        push_str(&mut v, a.as_str());
        push_str(&mut v, " ");
        push_padded(&mut v, l.mnemonic.as_str(), 8);
        push_str(&mut v, " ");
        push_str(&mut v, l.operands.as_str());
        let ghost pre = v@;
        assert(pre =~= (if l.is_current { "=>"@ } else { "  "@ }) + " "@ + addr_text(l.address) + " "@ + padded(l.mnemonic@, 8) + " "@
            + l.operands@);
        match &l.function {
            Some(f) => {
                let fc = crate::text::chars_of(f.as_str());
                if fc.len() > 0 {
                    push_str(&mut v, " ; ");
                    push_str(&mut v, f.as_str());
                    assert(v@ =~= pre + (" ; "@ + f@));
                } else {
                    assert(v@ =~= pre + Seq::<char>::empty());
                }
            },
            None => {
                assert(v@ =~= pre + Seq::<char>::empty());
            },
        }
        let line = string_of(v.as_slice());
        assert(line@ =~= disassembly_line(lines@[i as int]));
        let ghost before = r@;
        r.push(line);
        proof {
            assert(lines@.take(i as int + 1) =~= lines@.take(i as int).push(lines@[i as int]));
            assert(lines@.take(i as int + 1).map_values(|l: DisassemblyLine| disassembly_line(l)) =~= lines@.take(i as int).map_values(|l: DisassemblyLine| disassembly_line(l)).push(disassembly_line(lines@[i as int])));
            assert(line_views(r@) =~= line_views(before).push(line@));
        }
        i = i + 1;
    }
    assert(lines@.take(i as int) =~= lines@);
    r
}

/// Bytes in hex, two digits each, separated by spaces.
pub open spec fn hex_joined(chunk: Seq<u8>) -> Seq<char>
    decreases chunk.len(),
{
    if chunk.len() == 0 {
        Seq::empty()
    } else if chunk.len() == 1 {
        hex_byte(chunk[0])
    } else {
        hex_joined(chunk.drop_last()) + seq![' '] + hex_byte(chunk.last())
    }
}

/// One memory row: the address, the bytes in hex padded to a full row of
/// sixteen, and the bytes as text.
pub open spec fn memory_row(addr: u64, chunk: Seq<u8>) -> Seq<char> {
    addr_text(addr) + "  "@ + padded(hex_joined(chunk), 47) + "  "@ + chunk.map_values(|b: u8| shown_char(b))
}

/// The address of row `i` after `base`, wrapping past the top of the
/// address space.
pub open spec fn row_address(base: u64, i: int) -> u64 {
    ((base + i * 16) % 0x1_0000_0000_0000_0000) as u64
}

pub open spec fn memory_listing(base: u64, bytes: Seq<u8>) -> Seq<Seq<char>> {
    if bytes.len() == 0 {
        seq!["no bytes read"@]
    } else {
        Seq::new(row_count(bytes.len(), 16), |i: int| memory_row(row_address(base, i), row_chunk(bytes, i, 16)))
    }
}

fn memory_row_text(addr: u64, chunk: &[u8]) -> (r: String)
    ensures
        r@ == memory_row(addr, chunk@),
{
    let mut v: Vec<char> = Vec::new();
    let a = format_address(addr);
    push_str(&mut v, a.as_str());
    push_str(&mut v, "  ");
    let mut hex: Vec<char> = Vec::new();
    let mut i: usize = 0;
    while i < chunk.len()
        invariant
            i <= chunk@.len(),
            hex@ == hex_joined(chunk@.take(i as int)),
        decreases chunk@.len() - i,
    {
        proof {
            let t = chunk@.take(i as int + 1);
            assert(t.drop_last() =~= chunk@.take(i as int));
            assert(t.last() == chunk@[i as int]);
            if i == 0 {
                assert(t =~= seq![chunk@[0]]);
            }
        }
        if i > 0 {
            hex.push(' ');
        }
        let h = pad(fmt_hex(chunk[i] as u64), 2, '0');
        push_chars(&mut hex, h.as_slice());
        assert(hex@ =~= hex_joined(chunk@.take(i as int + 1)));
        i = i + 1;
    }
    assert(chunk@.take(i as int) =~= chunk@);
    let hs = string_of(hex.as_slice());
    push_padded(&mut v, hs.as_str(), 47);
    push_str(&mut v, "  ");
    let ghost head = v@;
    let mut k: usize = 0;
    while k < chunk.len()
        invariant
            k <= chunk@.len(),
            v@ =~= head + chunk@.take(k as int).map_values(|b: u8| shown_char(b)),
        decreases chunk@.len() - k,
    {
        let b = chunk[k];
        v.push(if 0x20 <= b && b <= 0x7e { b as char } else { '.' });
        k = k + 1;
    }
    assert(chunk@.take(k as int) =~= chunk@);
    string_of(v.as_slice())
}

pub fn memory_lines(address: Address, bytes: &[u8]) -> (r: Vec<String>)
    ensures
        line_views(r@) == memory_listing(address, bytes@),
{
    if bytes.len() == 0 {
        return one_line("no bytes read");
    }
    let mut rows: Vec<String> = Vec::new();
    let mut start: usize = 0;
    let mut i: usize = 0;
    let mut addr: u64 = address;
    while start < bytes.len()
        invariant
            rows@.len() == i,
            start <= bytes@.len(),
            i <= start,
            start < bytes@.len() ==> start == i * 16,
            start == bytes@.len() ==> i == row_count(bytes@.len(), 16),
            addr == row_address(address, i as int),
            forall|j: int| 0 <= j < i ==> (#[trigger] rows@[j])@ == memory_row(row_address(address, j), row_chunk(bytes@, j, 16)),
        decreases bytes@.len() - start,
    {
        let end: usize = if bytes.len() - start >= 16 { start + 16 } else { bytes.len() };
        let chunk = &bytes[start..end];
        let row = memory_row_text(addr, chunk);
        proof {
            assert(i * 16 + 16 == (i + 1) * 16);
            assert(chunk@ =~= row_chunk(bytes@, i as int, 16));
            if end == bytes@.len() {
                lemma_row_count(i as int, 16, bytes@.len() as int);
            }
            assert(row_address(address, i as int + 1) == ((addr as int + 16) % 0x1_0000_0000_0000_0000) as u64) by {
                assert((address + (i + 1) * 16) == (address + i * 16) + 16);
                vstd::arithmetic::div_mod::lemma_add_mod_noop(address + i * 16, 16, 0x1_0000_0000_0000_0000);
                vstd::arithmetic::div_mod::lemma_mod_twice(address + i * 16, 0x1_0000_0000_0000_0000);
                vstd::arithmetic::div_mod::lemma_small_mod(16, 0x1_0000_0000_0000_0000);
            }
        }
        rows.push(row);
        start = end;
        i = i + 1;
        addr = addr.wrapping_add(16);
    }
    proof {
        assert(rows@.len() == row_count(bytes@.len(), 16));
        assert(line_views(rows@) =~= memory_listing(address, bytes@));
    }
    rows
}

/// One breakpoint line: the id and where it is.
pub open spec fn breakpoint_line(b: Breakpoint) -> Seq<char> {
    dec_digits(b.id as nat) + " "@ + match b.location {
        BreakpointLocation::Address(a) => addr_text(a),
        BreakpointLocation::Symbol(s) => s@,
    }
}

pub open spec fn breakpoint_listing(bs: Seq<Breakpoint>) -> Seq<Seq<char>> {
    if bs.len() == 0 {
        seq!["no breakpoints"@]
    } else {
        bs.map_values(|b: Breakpoint| breakpoint_line(b))
    }
}

pub fn breakpoint_lines(bps: &Vec<Breakpoint>) -> (r: Vec<String>)
    ensures
        line_views(r@) == breakpoint_listing(bps@),
{
    if bps.len() == 0 {
        return one_line("no breakpoints");
    }
    let mut r: Vec<String> = Vec::new();
    let mut i: usize = 0;
    while i < bps.len()
        invariant
            i <= bps@.len(),
            line_views(r@) =~= bps@.take(i as int).map_values(|b: Breakpoint| breakpoint_line(b)),
        decreases bps@.len() - i,
    {
        let b = &bps[i];
        let mut v: Vec<char> = Vec::new();
        let d = fmt_dec(b.id);
        push_chars(&mut v, d.as_slice());
        push_str(&mut v, " ");
        match &b.location {
            BreakpointLocation::Address(a) => {
                let s = format_address(*a);
                push_str(&mut v, s.as_str());
            },
            BreakpointLocation::Symbol(s) => push_str(&mut v, s.as_str()),
        }
        let line = string_of(v.as_slice());
        assert(line@ =~= breakpoint_line(bps@[i as int]));
        let ghost before = r@;
        r.push(line);
        proof {
            assert(bps@.take(i as int + 1) =~= bps@.take(i as int).push(bps@[i as int]));
            assert(bps@.take(i as int + 1).map_values(|b: Breakpoint| breakpoint_line(b)) =~= bps@.take(i as int).map_values(
                |b: Breakpoint| breakpoint_line(b),
            ).push(breakpoint_line(bps@[i as int])));
            assert(line_views(r@) =~= line_views(before).push(line@));
        }
        i = i + 1;
    }
    assert(bps@.take(i as int) =~= bps@);
    r
}

/// What the shell prints for the symbol at an address.
pub open spec fn symbol_listing(address: u64, sym: Option<SymbolInfo>) -> Seq<Seq<char>> {
    match sym {
        Some(s) => seq![
            addr_text(address) + " "@ + text_or(s.module, "-"@) + " + 0x"@ + hex_digits(s.offset as nat),
            s.name@,
        ],
        None => seq!["no symbol for "@ + addr_text(address)],
    }
}

pub fn symbol_lines(address: Address, sym: &Option<SymbolInfo>) -> (r: Vec<String>)
    ensures
        line_views(r@) == symbol_listing(address, *sym),
{
    let a = format_address(address);
    let mut r: Vec<String> = Vec::new();
    match sym {
        Some(s) => {
            let mut v: Vec<char> = Vec::new();
            push_str(&mut v, a.as_str());
            push_str(&mut v, " ");
            match &s.module {
                Some(m) => push_str(&mut v, m.as_str()),
                None => push_str(&mut v, "-"),
            }
            push_str(&mut v, " + 0x");
            let h = fmt_hex(s.offset);
            push_chars(&mut v, h.as_slice());
            r.push(string_of(v.as_slice()));
            r.push(s.name.clone());
        },
        None => {
            let mut v: Vec<char> = Vec::new();
            push_str(&mut v, "no symbol for ");
            push_str(&mut v, a.as_str());
            r.push(string_of(v.as_slice()));
        },
    }
    assert(line_views(r@) =~= symbol_listing(address, *sym));
    r
}

/// What the shell prints for the source position of an address.
pub open spec fn source_listing(address: u64, src: Option<SourceLocation>) -> Seq<Seq<char>> {
    match src {
        Some(s) => seq![s.file@ + ":"@ + dec_digits(s.line as nat) + ":"@ + dec_digits(
            match s.column {
                Some(c) => c as nat,
                None => 0,
            },
        )],
        None => seq!["no source location for "@ + addr_text(address)],
    }
}

pub fn source_lines(address: Address, src: &Option<SourceLocation>) -> (r: Vec<String>)
    ensures
        line_views(r@) == source_listing(address, *src),
{
    let mut v: Vec<char> = Vec::new();
    match src {
        Some(s) => {
            push_str(&mut v, s.file.as_str());
            push_str(&mut v, ":");
            let l = fmt_dec(s.line as u64);
            push_chars(&mut v, l.as_slice());
            push_str(&mut v, ":");
            let c: u32 = match s.column {
                Some(c) => c,
                None => 0,
            };
            let cd = fmt_dec(c as u64);
            push_chars(&mut v, cd.as_slice());
        },
        None => {
            push_str(&mut v, "no source location for ");
            let a = format_address(address);
            push_str(&mut v, a.as_str());
        },
    }
    let mut r: Vec<String> = Vec::new();
    r.push(string_of(v.as_slice()));
    assert(line_views(r@) =~= source_listing(address, *src));
    r
}

/// The first current thread among `ts`.
pub open spec fn current_thread_from(ts: Seq<ThreadState>, i: int) -> Option<ThreadId>
    decreases ts.len() - i,
{
    if i < 0 || i >= ts.len() {
        None
    } else if ts[i].is_current {
        Some(ts[i].id)
    } else {
        current_thread_from(ts, i + 1)
    }
}

/// The session summary: what is being debugged, the stop reason, the
/// thread count and the current thread when there is one.
pub open spec fn summary_listing(target: Option<TargetBinary>, pid: Option<u32>, reason: StopReason, ts: Seq<ThreadState>) -> Seq<Seq<char>> {
    seq![
        match (target, pid) {
            (Some(t), _) => "target: "@ + t.program@,
            (None, Some(p)) => "attached pid: "@ + dec_digits(p as nat),
            (None, None) => "no active target"@,
        },
        "stop reason: "@ + stop_reason_debug_text(reason),
        "threads: "@ + dec_digits(ts.len()),
    ] + match current_thread_from(ts, 0) {
        Some(id) => seq!["current thread: "@ + dec_digits(id as nat)],
        None => Seq::empty(),
    }
}

pub fn summary_lines(target: &Option<TargetBinary>, pid: Option<u32>, reason: &StopReason, threads: &Vec<ThreadState>) -> (r: Vec<String>)
    ensures
        line_views(r@) == summary_listing(*target, pid, *reason, threads@),
{
    let mut r: Vec<String> = Vec::new();
    let mut v: Vec<char> = Vec::new();
    match (target, pid) {
        (Some(t), _) => {
            push_str(&mut v, "target: ");
            push_str(&mut v, t.program.as_str());
        },
        (None, Some(p)) => {
            push_str(&mut v, "attached pid: ");
            let d = fmt_dec(p as u64);
            push_chars(&mut v, d.as_slice());
        },
        (None, None) => push_str(&mut v, "no active target"),
    }
    r.push(string_of(v.as_slice()));
    let mut w: Vec<char> = Vec::new();
    push_str(&mut w, "stop reason: ");
    let sr = stop_reason_debug(reason);
    push_str(&mut w, sr.as_str());
    r.push(string_of(w.as_slice()));
    let mut x: Vec<char> = Vec::new();
    push_str(&mut x, "threads: ");
    let n = fmt_dec(threads.len() as u64);
    push_chars(&mut x, n.as_slice());
    r.push(string_of(x.as_slice()));
    let mut i: usize = 0;
    while i < threads.len() && !threads[i].is_current
        invariant
            i <= threads@.len(),
            current_thread_from(threads@, 0) == current_thread_from(threads@, i as int),
        decreases threads@.len() - i,
    {
        i = i + 1;
    }
    let ghost head = r@;
    if i < threads.len() {
        let mut y: Vec<char> = Vec::new();
        push_str(&mut y, "current thread: ");
        let d = fmt_dec(threads[i].id);
        push_chars(&mut y, d.as_slice());
        r.push(string_of(y.as_slice()));
    }
    assert(line_views(r@) =~= summary_listing(*target, pid, *reason, threads@));
    r
}

} // verus!
