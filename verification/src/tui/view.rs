//! The text the interface's panels show: memory rows, one-line event
//! details and the help pages. Drawing them on a terminal is the caller's
//! part.
use vstd::prelude::*;
use crate::bind_core::event::DebugEvent;
use crate::bind_core::model::short_text;
use crate::num::{dec_digits, fmt_dec, fmt_hex, fmt_signed, hex_addr, hex_digits, pad, pad_left, signed_dec};
use crate::text::{push_chars, push_str, string_of};

verus! {

/// Two lower-case hex digits of a byte.
pub open spec fn hex_byte(b: u8) -> Seq<char> {
    pad_left(hex_digits(b as nat), 2, '0')
}

/// A byte as the dump's text column shows it: printable ASCII and space as
/// themselves, anything else as a dot.
pub open spec fn shown_char(b: u8) -> char {
    if 0x20 <= b <= 0x7e {
        b as char
    } else {
        '.'
    }
}

/// Each byte as two hex digits and a space.
pub open spec fn hex_cells(chunk: Seq<u8>) -> Seq<char>
    decreases chunk.len(),
{
    if chunk.len() == 0 {
        Seq::empty()
    } else {
        hex_cells(chunk.drop_last()) + hex_byte(chunk.last()) + seq![' ']
    }
}

/// `s` right-padded with spaces to at least `width` characters.
pub open spec fn pad_right(s: Seq<char>, width: nat) -> Seq<char> {
    if s.len() >= width {
        s
    } else {
        s + Seq::new((width - s.len()) as nat, |i: int| ' ')
    }
}

/// One dump row: the address in eight hex digits, the bytes in hex padded
/// to a full row, then the bytes as text.
pub open spec fn dump_row(addr: nat, chunk: Seq<u8>, w: nat) -> Seq<char> {
    pad_left(hex_digits(addr), 8, '0') + ": "@ + pad_right(hex_cells(chunk), w * 3) + "| "@
        + chunk.map_values(|b: u8| shown_char(b))
}

/// The bytes of row `i` when rows are `w` bytes wide.
pub open spec fn row_chunk(bytes: Seq<u8>, i: int, w: int) -> Seq<u8> {
    let hi = if (i + 1) * w <= bytes.len() { (i + 1) * w } else { bytes.len() as int };
    bytes.subrange(i * w, hi)
}

/// The number of rows of `w` bytes needed for `n` bytes.
pub open spec fn row_count(n: nat, w: nat) -> nat {
    if w == 0 { 0 } else { ((n + w - 1) / w as int) as nat }
}

fn byte_char(b: u8) -> (c: char)
    ensures
        c == shown_char(b),
{
    if 0x20 <= b && b <= 0x7e {
        b as char
    } else {
        '.'
    }
}

/// One row of the dump.
fn dump_row_text(addr: u64, chunk: &[u8], w: usize) -> (r: String)
    requires
        w * 3 <= usize::MAX,
    ensures
        r@ == dump_row(addr as nat, chunk@, w as nat),
{
    let mut v = pad(fmt_hex(addr), 8, '0');
    push_str(&mut v, ": ");
    let mut cells: Vec<char> = Vec::new();
    let mut i: usize = 0;
    while i < chunk.len()
        invariant
            i <= chunk@.len(),
            cells@ == hex_cells(chunk@.take(i as int)),
        decreases chunk@.len() - i,
    {
        let h = pad(fmt_hex(chunk[i] as u64), 2, '0');
        proof {
            let t = chunk@.take(i as int + 1);
            assert(t.drop_last() =~= chunk@.take(i as int));
            assert(t.last() == chunk@[i as int]);
        }
        push_chars(&mut cells, h.as_slice());
        cells.push(' ');
        i = i + 1;
    }
    proof {
        assert(chunk@.take(i as int) =~= chunk@);
    }
    let width = w * 3;
    let ghost before = cells@;
    if cells.len() < width {
        let k = width - cells.len();
        let mut j: usize = 0;
        while j < k
            invariant
                j <= k,
                cells@ =~= before + Seq::new(j as nat, |x: int| ' '),
            decreases k - j,
        {
            cells.push(' ');
            j = j + 1;
        }
    }
    assert(cells@ =~= pad_right(before, width as nat));
    push_chars(&mut v, cells.as_slice());
    push_str(&mut v, "| ");
    let ghost head = v@;
    let mut k: usize = 0;
    while k < chunk.len()
        invariant
            k <= chunk@.len(),
            v@ =~= head + chunk@.take(k as int).map_values(|b: u8| shown_char(b)),
        decreases chunk@.len() - k,
    {
        v.push(byte_char(chunk[k]));
        k = k + 1;
    }
    assert(chunk@.take(k as int) =~= chunk@);
    string_of(v.as_slice())
}

pub(crate) proof fn lemma_row_count(i: int, w: int, n: int)
    requires
        w >= 1,
        0 <= i,
        i * w < n <= (i + 1) * w,
    ensures
        row_count(n as nat, w as nat) == i + 1,
{
    assert((n + w - 1) / w == i + 1) by (nonlinear_arith)
        requires
            w >= 1,
            0 <= i,
            i * w < n <= (i + 1) * w,
    ;
}

pub(crate) proof fn lemma_row_count_zero(w: int)
    requires
        w >= 1,
    ensures
        row_count(0, w as nat) == 0,
{
    assert((w - 1) / w == 0) by (nonlinear_arith)
        requires
            w >= 1,
    ;
}

/// Formats bytes as `addr: hex hex ... | text` rows of `width` bytes (at
/// least one).
pub fn hex_dump(base: u64, bytes: &[u8], width: usize) -> (rows: Vec<String>)
    requires
        base + bytes@.len() <= u64::MAX + 1,
        width * 3 <= usize::MAX,
    ensures
        ({
            let w = if width == 0 { 1nat } else { width as nat };
            &&& rows@.len() == row_count(bytes@.len(), w)
            &&& forall|i: int| 0 <= i < rows@.len()
                ==> (#[trigger] rows@[i])@ == dump_row((base + i * w) as nat, row_chunk(bytes@, i, w as int), w)
        }),
{
    let w: usize = if width == 0 { 1 } else { width };
    let mut rows: Vec<String> = Vec::new();
    let mut start: usize = 0;
    let mut i: usize = 0;
    proof {
        lemma_row_count_zero(w as int);
    }
    while start < bytes.len()
        invariant
            w >= 1,
            w == (if width == 0 { 1nat } else { width as nat }),
            w * 3 <= usize::MAX,
            base + bytes@.len() <= u64::MAX + 1,
            rows@.len() == i,
            start <= bytes@.len(),
            i <= start,
            start < bytes@.len() ==> start == i * w,
            start == bytes@.len() ==> i == row_count(bytes@.len(), w as nat),
            forall|j: int| 0 <= j < i
                ==> (#[trigger] rows@[j])@ == dump_row((base + j * w) as nat, row_chunk(bytes@, j, w as int), w as nat),
        decreases bytes@.len() - start,
    {
        let end: usize = if bytes.len() - start >= w { start + w } else { bytes.len() };
        let chunk = &bytes[start..end];
        let row = dump_row_text(base + start as u64, chunk, w);
        proof {
            assert(i * w + w == (i + 1) * w) by (nonlinear_arith);
            assert(chunk@ =~= row_chunk(bytes@, i as int, w as int));
            if end == bytes@.len() {
                lemma_row_count(i as int, w as int, bytes@.len() as int);
            }
        }
        rows.push(row);
        start = end;
        i = i + 1;
    }
    rows
}

/// Glyphs used across the interface, with ASCII stand-ins for terminals
/// and fonts without the Unicode ones.
#[derive(Debug, Clone, Copy)]
pub struct Glyphs {
    pub current: &'static str,
    pub breakpoint: &'static str,
    pub bp_current: &'static str,
    pub bullet: &'static str,
}

impl Glyphs {
    pub fn new(unicode: bool) -> (g: Glyphs)
        ensures
            unicode ==> g.current@ == "\u{25b6}"@ && g.breakpoint@ == "\u{25cf}"@ && g.bp_current@ == "\u{25c6}"@
                && g.bullet@ == "\u{b7}"@,
            !unicode ==> g.current@ == ">"@ && g.breakpoint@ == "*"@ && g.bp_current@ == "#"@ && g.bullet@ == "."@,
    {
        if unicode {
            Glyphs { current: "\u{25b6}", breakpoint: "\u{25cf}", bp_current: "\u{25c6}", bullet: "\u{b7}" }
        } else {
            Glyphs { current: ">", breakpoint: "*", bp_current: "#", bullet: "." }
        }
    }
}

/// The one-line detail the timeline shows beside an event's kind.
pub open spec fn event_detail_text(e: DebugEvent) -> Seq<char> {
    match e {
        DebugEvent::Stopped { reason, pc, .. } => short_text(reason) + " @ "@ + match pc {
            Some(p) => hex_addr(p.0 as nat),
            None => Seq::empty(),
        },
        DebugEvent::ProcessExited { code } => "code "@ + signed_dec(code as int),
        DebugEvent::BreakpointHit { breakpoint, .. } => seq!['#'] + dec_digits(breakpoint.0 as nat),
        DebugEvent::SignalReceived { signal, .. } => signal@,
        DebugEvent::InstructionStepped { to, .. } => hex_addr(to.0 as nat),
        DebugEvent::ModuleLoaded { module } => module.path@,
        DebugEvent::JitCodeLoaded { module } => module.path@,
        DebugEvent::Error { message } => message@,
        DebugEvent::Notice { message } => message@,
        _ => Seq::empty(),
    }
}

pub fn event_detail(ev: &DebugEvent) -> (s: String)
    ensures
        s@ == event_detail_text(*ev),
{
    let mut v: Vec<char> = Vec::new();
    match ev {
        DebugEvent::Stopped { reason, pc, .. } => {
            let r = reason.short();
            push_str(&mut v, r.as_str());
            push_str(&mut v, " @ ");
            match pc {
                Some(p) => {
                    let a = p.to_display();
                    push_str(&mut v, a.as_str());
                },
                None => {},
            }
        },
        DebugEvent::ProcessExited { code } => {
            push_str(&mut v, "code ");
            let d = fmt_signed(*code as i64);
            push_chars(&mut v, d.as_slice());
        },
        DebugEvent::BreakpointHit { breakpoint, .. } => {
            v.push('#');
            let d = fmt_dec(breakpoint.0);
            push_chars(&mut v, d.as_slice());
        },
        DebugEvent::SignalReceived { signal, .. } => {
            push_str(&mut v, signal.as_str());
        },
        DebugEvent::InstructionStepped { to, .. } => {
            let a = to.to_display();
            push_str(&mut v, a.as_str());
        },
        DebugEvent::ModuleLoaded { module } => {
            push_str(&mut v, module.path.as_str());
        },
        DebugEvent::JitCodeLoaded { module } => {
            push_str(&mut v, module.path.as_str());
        },
        DebugEvent::Error { message } => {
            push_str(&mut v, message.as_str());
        },
        DebugEvent::Notice { message } => {
            push_str(&mut v, message.as_str());
        },
        _ => {},
    }
    string_of(v.as_slice())
}

/// The help page for a topic: the breakpoint page for `break`, else the
/// overview.
pub open spec fn help_lines(topic: Seq<char>) -> Seq<Seq<char>> {
    if topic == "break"@ {
        seq![
            "break <symbol>            set a breakpoint by symbol"@,
            "break address 0x1000      set a breakpoint by address"@,
            "break file main.rs:42     set a breakpoint by source line"@,
            "delete-breakpoint <id>    remove a breakpoint"@,
        ]
    } else {
        seq![
            "Bind \u{2014} terminal debugger & tracer"@,
            ""@,
            "Execution:  c continue   n next   s step-in   o finish   i instruction"@,
            "Navigate:   Tab/Shift-Tab focus   j/k or arrows move selection"@,
            "Palette:    : opens the typed command palette"@,
            "Commands:   break, delete-breakpoint, thread, frame, memory, goto,"@,
            "            trace start|stop, layout source|disassembly|mixed"@,
            "Other:      ? help    q quit    Ctrl-C force quit"@,
            ""@,
            "Press any key to dismiss."@,
        ]
    }
}

pub fn help_text(topic: &str) -> (lines: Vec<&'static str>)
    ensures
        lines@.map_values(|l: &'static str| l@) == help_lines(topic@),
{
    let is_break = crate::text::is_word(crate::text::chars_of(topic).as_slice(), "break");
    let lines: Vec<&'static str> = if is_break {
        vec![
            "break <symbol>            set a breakpoint by symbol",
            "break address 0x1000      set a breakpoint by address",
            "break file main.rs:42     set a breakpoint by source line",
            "delete-breakpoint <id>    remove a breakpoint",
        ]
    } else {
        vec![
            "Bind \u{2014} terminal debugger & tracer",
            "",
            "Execution:  c continue   n next   s step-in   o finish   i instruction",
            "Navigate:   Tab/Shift-Tab focus   j/k or arrows move selection",
            "Palette:    : opens the typed command palette",
            "Commands:   break, delete-breakpoint, thread, frame, memory, goto,",
            "            trace start|stop, layout source|disassembly|mixed",
            "Other:      ? help    q quit    Ctrl-C force quit",
            "",
            "Press any key to dismiss.",
        ]
    };
    assert(lines@.map_values(|l: &'static str| l@) =~= help_lines(topic@));
    lines
}

/// The timeline panel's title: how many events are shown and were seen,
/// the drop count when there is one, and a mark while a trace is recorded.
pub open spec fn timeline_title_text(shown: nat, total: nat, dropped: nat, recording: bool) -> Seq<char> {
    "Timeline  ("@ + dec_digits(shown) + " shown, "@ + dec_digits(total) + " total"@
        + (if dropped > 0 { ", "@ + dec_digits(dropped) + " dropped"@ } else { Seq::empty() })
        + (if recording { " \u{25cf}REC"@ } else { Seq::empty() }) + ")"@
}

pub fn timeline_title(shown: usize, total: u64, dropped: u64, recording: bool) -> (s: String)
    ensures
        s@ == timeline_title_text(shown as nat, total as nat, dropped as nat, recording),
{
    let mut v: Vec<char> = Vec::new();
    push_str(&mut v, "Timeline  (");
    let a = fmt_dec(shown as u64);
    push_chars(&mut v, a.as_slice());
    push_str(&mut v, " shown, ");
    let b = fmt_dec(total);
    push_chars(&mut v, b.as_slice());
    push_str(&mut v, " total");
    if dropped > 0 {
        push_str(&mut v, ", ");
        let c = fmt_dec(dropped);
        push_chars(&mut v, c.as_slice());
        push_str(&mut v, " dropped");
    }
    if recording {
        push_str(&mut v, " \u{25cf}REC");
    }
    push_str(&mut v, ")");
    string_of(v.as_slice())
}

} // verus!
