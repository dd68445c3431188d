//! Session status, user-interface events and the small conversions the
//! tracer's views use.
use vstd::prelude::*;
use crate::num::{address_value, hex_digits, pad_left, fmt_hex, pad, parse_address_str, parse_address_chars};
use crate::text::{chars_of, split_whitespace, words, views, starts, starts_with_lit, string_of, push_chars, join};
use crate::tui::view::{lemma_row_count, lemma_row_count_zero, pad_right, row_chunk, row_count};
use crate::tra86::model::{
    Address, Breakpoint, DisassemblyLine, FrameState, RegisterBank, RegisterDiff, StopReason, ThreadState, TraceEvent,
    first_register, find_register,
};

verus! {

#[derive(Debug, Clone, Copy, PartialEq, Eq, Structural)]
pub enum BackendChoice {
    Mock,
    Lldb,
}

#[derive(Debug, Clone, Copy, PartialEq, Eq, Structural)]
pub enum BottomTab {
    Stack,
    Memory,
    Breakpoints,
    Trace,
    Analysis,
    Terminal,
    Output,
}

#[derive(Debug, Clone, Copy, PartialEq, Eq, Structural)]
pub enum SessionPhase {
    Idle,
    TargetLoaded,
    Running,
    Stopped,
    Exited,
    Detached,
}

#[derive(Debug, Clone)]
pub struct SessionStatus {
    pub phase: SessionPhase,
    pub detail: String,
    pub is_busy: bool,
    pub has_target: bool,
    pub has_live_process: bool,
    pub can_restart: bool,
    pub last_error: Option<String>,
}

impl Default for SessionStatus {
    fn default() -> (s: SessionStatus)
        ensures
            s.phase == SessionPhase::Idle,
            s.detail@ == "Idle"@,
            !s.is_busy && !s.has_target && !s.has_live_process && !s.can_restart,
            s.last_error is None,
    {
        SessionStatus {
            phase: SessionPhase::Idle,
            detail: "Idle".to_owned(),
            is_busy: false,
            has_target: false,
            has_live_process: false,
            can_restart: false,
            last_error: None,
        }
    }
}

impl SessionStatus {
    pub fn can_attach(&self) -> (r: bool)
        ensures
            r == (!self.is_busy && !self.has_live_process && self.phase != SessionPhase::Running),
    {
        !self.is_busy && !self.has_live_process && self.phase != SessionPhase::Running
    }

    pub fn can_continue(&self) -> (r: bool)
        ensures
            r == (!self.is_busy && self.phase == SessionPhase::Stopped),
    {
        !self.is_busy && self.phase == SessionPhase::Stopped
    }

    /// Pausing is never offered.
    pub fn can_pause(&self) -> (r: bool)
        ensures
            !r,
    {
        false
    }

    pub fn can_step(&self) -> (r: bool)
        ensures
            r == (!self.is_busy && self.phase == SessionPhase::Stopped),
    {
        !self.is_busy && self.phase == SessionPhase::Stopped
    }

    pub fn can_stop(&self) -> (r: bool)
        ensures
            r == (!self.is_busy && self.phase == SessionPhase::Stopped),
    {
        !self.is_busy && self.phase == SessionPhase::Stopped
    }

    pub fn can_refresh(&self) -> (r: bool)
        ensures
            r == (!self.is_busy && self.has_target && self.phase != SessionPhase::Running),
    {
        !self.is_busy && self.has_target && self.phase != SessionPhase::Running
    }

    pub fn can_toggle_breakpoint(&self) -> (r: bool)
        ensures
            r == (!self.is_busy && self.has_target && self.phase != SessionPhase::Running),
    {
        !self.is_busy && self.has_target && self.phase != SessionPhase::Running
    }

    pub fn can_jump_memory(&self) -> (r: bool)
        ensures
            r == (!self.is_busy && self.phase == SessionPhase::Stopped),
    {
        !self.is_busy && self.phase == SessionPhase::Stopped
    }
}

#[derive(Debug, Clone)]
pub enum UiEvent {
    SetBackend(BackendChoice),
    OpenExecutablePicker,
    Launch,
    Attach,
    Continue,
    Pause,
    StepInto,
    StepOver,
    StepOut,
    Restart,
    Stop,
    Refresh,
    ToggleBreakpoint(Address),
    RemoveBreakpoint(u64),
    JumpMemory(Address),
    JumpDisassembly(Address),
    ClearOutput,
    ClearTrace,
    SetBottomTab(BottomTab),
    JumpToCurrentInstruction,
    SubmitTerminalInput(String),
    ClearTerminal,
    ShowAbout,
    Quit,
}

/// Everything the tracer's window shows.
#[derive(Debug, Clone)]
pub struct UiModel {
    pub backend_choice: BackendChoice,
    pub executable_path: String,
    pub launch_args: String,
    pub attach_pid: String,
    pub status_line: String,
    pub session: SessionStatus,
    pub stop_reason: StopReason,
    pub threads: Vec<ThreadState>,
    pub frames: Vec<FrameState>,
    pub function_rows: Vec<String>,
    pub disassembly: Vec<DisassemblyLine>,
    pub registers: Option<RegisterBank>,
    pub register_diffs: Vec<RegisterDiff>,
    pub breakpoints: Vec<Breakpoint>,
    pub trace: Vec<TraceEvent>,
    pub memory_map_lines: Vec<String>,
    pub memory_base_input: String,
    pub memory_bytes: Vec<u8>,
    pub analysis_lines: Vec<String>,
    pub terminal_output: String,
    pub terminal_input: String,
    pub terminal_connected: bool,
    pub output_lines: Vec<String>,
    pub bottom_tab: BottomTab,
}

impl Default for UiModel {
    fn default() -> (m: UiModel)
        ensures
            m.backend_choice == BackendChoice::Lldb,
            m.executable_path@.len() == 0,
            m.session.phase == SessionPhase::Idle,
            m.stop_reason == StopReason::NoReason,
            m.memory_base_input@ == "0x1000"@,
            m.bottom_tab == BottomTab::Trace,
            m.trace@.len() == 0,
            m.output_lines@.len() == 0,
    {
        UiModel {
            backend_choice: BackendChoice::Lldb,
            executable_path: String::new(),
            launch_args: String::new(),
            attach_pid: String::new(),
            status_line: "Idle".to_owned(),
            session: SessionStatus::default(),
            stop_reason: StopReason::NoReason,
            threads: Vec::new(),
            frames: Vec::new(),
            function_rows: Vec::new(),
            disassembly: Vec::new(),
            registers: None,
            register_diffs: Vec::new(),
            breakpoints: Vec::new(),
            trace: Vec::new(),
            memory_map_lines: Vec::new(),
            memory_base_input: "0x1000".to_owned(),
            memory_bytes: Vec::new(),
            analysis_lines: Vec::new(),
            terminal_output: String::new(),
            terminal_input: String::new(),
            terminal_connected: false,
            output_lines: Vec::new(),
            bottom_tab: BottomTab::Trace,
        }
    }
}

/// Two lower-case hex digits of a byte (`{:02x}`).
pub open spec fn hex_byte(b: u8) -> Seq<char> {
    pad_left(hex_digits(b as nat), 2, '0')
}

/// The bytes as two-digit hex, separated by single spaces.
pub open spec fn hex_bytes_text(bytes: Seq<u8>) -> Seq<char> {
    join(bytes.map_values(|b: u8| hex_byte(b)), " "@)
}

/// A byte as shown in an ASCII column: printable non-space ASCII as itself,
/// anything else as `.`.
pub open spec fn ascii_cell(b: u8) -> char {
    if 0x21 <= b && b <= 0x7e {
        b as char
    } else {
        '.'
    }
}

pub fn bytes_to_hex(bytes: &[u8]) -> (s: String)
    ensures
        s@ == hex_bytes_text(bytes@),
{
    let mut out: Vec<char> = Vec::new();
    let mut i: usize = 0;
    while i < bytes.len()
        invariant
            i <= bytes@.len(),
            out@ == hex_bytes_text(bytes@.take(i as int)),
        decreases bytes@.len() - i,
    {
        let ghost before = out@;
        if i > 0 {
            out.push(' ');
        }
        let h = pad(fmt_hex(bytes[i] as u64), 2, '0');
        push_chars(&mut out, h.as_slice());
        proof {
            let parts = bytes@.take(i + 1).map_values(|b: u8| hex_byte(b));
            assert(parts.drop_last() =~= bytes@.take(i as int).map_values(|b: u8| hex_byte(b)));
            assert(parts.last() == hex_byte(bytes@[i as int]));
            if i == 0 {
                assert(out@ =~= parts[0]);
            } else {
                assert(out@ =~= before + " "@ + parts.last()) by {
                    reveal_strlit(" ");
                }
            }
        }
        i = i + 1;
    }
    proof {
        assert(bytes@.take(bytes@.len() as int) =~= bytes@);
    }
    string_of(out.as_slice())
}

pub fn bytes_to_ascii(bytes: &[u8]) -> (s: String)
    ensures
        s@ == bytes@.map_values(|b: u8| ascii_cell(b)),
{
    let mut out: Vec<char> = Vec::new();
    let mut i: usize = 0;
    while i < bytes.len()
        invariant
            i <= bytes@.len(),
            out@ == bytes@.take(i as int).map_values(|b: u8| ascii_cell(b)),
        decreases bytes@.len() - i,
    {
        let b = bytes[i];
        let c = if 0x21 <= b && b <= 0x7e {
            b as char
        } else {
            '.'
        };
        out.push(c);
        proof {
            assert(out@ =~= bytes@.take(i + 1).map_values(|b: u8| ascii_cell(b)));
        }
        i = i + 1;
    }
    proof {
        assert(bytes@.take(bytes@.len() as int) =~= bytes@);
    }
    string_of(out.as_slice())
}

/// An address typed by a person: `0x` then hex digits, or decimal.
pub fn parse_address(input: &str) -> (r: Option<Address>)
    ensures
        match address_value(input@) {
            Some(v) => r == Some(v as u64),
            None => r is None,
        },
{
    parse_address_str(input)
}

/// The first word of `ws` that starts with `0x`, at or after position `i`.
pub open spec fn first_hex_word(ws: Seq<Seq<char>>, i: int) -> Option<Seq<char>>
    decreases ws.len() - i,
{
    if i < 0 || i >= ws.len() {
        None
    } else if starts(ws[i], "0x"@) {
        Some(ws[i])
    } else {
        first_hex_word(ws, i + 1)
    }
}

/// The address in a row of text: its first `0x` word, read as an address.
pub open spec fn row_address(row: Seq<char>) -> Option<nat> {
    match first_hex_word(words(row), 0) {
        Some(w) => address_value(w),
        None => None,
    }
}

pub fn parse_address_from_row(row: &str) -> (r: Option<Address>)
    ensures
        match row_address(row@) {
            Some(v) => r == Some(v as u64),
            None => r is None,
        },
{
    let c = chars_of(row);
    let ws = split_whitespace(c.as_slice());
    let mut i: usize = 0;
    while i < ws.len()
        invariant
            i <= ws@.len(),
            views(ws@) == words(c@),
            c@ == row@,
            first_hex_word(words(row@), 0) == first_hex_word(words(row@), i as int),
        decreases ws@.len() - i,
    {
        proof {
            assert(views(ws@)[i as int] == ws@[i as int]@);
        }
        if starts_with_lit(ws[i].as_slice(), "0x") {
            return parse_address_chars(ws[i].as_slice());
        }
        i = i + 1;
    }
    None
}

/// The address held by the register named `name`, if it reads as one.
pub open spec fn register_address(bank: RegisterBank, name: Seq<char>) -> Option<nat> {
    let k = first_register(bank.registers@, name);
    if k >= 0 {
        address_value(bank.registers@[k].value@)
    } else {
        None
    }
}

pub fn parse_register_addr(bank: &RegisterBank, name: &str) -> (r: Option<Address>)
    ensures
        match register_address(*bank, name@) {
            Some(v) => r == Some(v as u64),
            None => r is None,
        },
{
    let key = name.to_owned();
    match find_register(&bank.registers, &key) {
        Some(reg) => parse_address_str(reg.value.as_str()),
        None => None,
    }
}

/// A row of the memory view: the address, the bytes in hex padded to the
/// width of sixteen, and their ASCII column.
pub open spec fn memory_row_text(addr: u64, chunk: Seq<u8>) -> Seq<char> {
    seq!['0', 'x'] + pad_left(hex_digits(addr as nat), 16, '0') + ": "@ + pad_right(hex_bytes_text(chunk), 48) + "  "@
        + chunk.map_values(|b: u8| ascii_cell(b))
}

pub fn memory_row(addr: u64, chunk: &[u8]) -> (s: String)
    ensures
        s@ == memory_row_text(addr, chunk@),
{
    let mut v: Vec<char> = vec!['0', 'x'];
    let a = pad(fmt_hex(addr), 16, '0');
    push_chars(&mut v, a.as_slice());
    let sep = chars_of(": ");
    push_chars(&mut v, sep.as_slice());
    let hex = bytes_to_hex(chunk);
    let mut cells = chars_of(hex.as_str());
    let ghost before = cells@;
    if cells.len() < 48 {
        let k = 48 - cells.len();
        let mut j: usize = 0;
        while j < k
            invariant
                j <= k,
                cells@ =~= before + Seq::new(j as nat, |x: int| ' '),
            decreases k - j,
        {
            cells.push(' ');
            j = j + 1;
        }
    }
    assert(cells@ =~= pad_right(before, 48));
    push_chars(&mut v, cells.as_slice());
    let gap = chars_of("  ");
    push_chars(&mut v, gap.as_slice());
    let ascii = bytes_to_ascii(chunk);
    let ac = chars_of(ascii.as_str());
    push_chars(&mut v, ac.as_slice());
    assert(v@ =~= memory_row_text(addr, chunk@));
    string_of(v.as_slice())
}

/// The memory view's rows: sixteen bytes each, from `base` on.
pub fn memory_rows(base: u64, bytes: &[u8]) -> (rows: Vec<String>)
    requires
        base + bytes@.len() <= u64::MAX + 1,
    ensures
        rows@.len() == row_count(bytes@.len(), 16),
        forall|i: int| 0 <= i < rows@.len()
            ==> (#[trigger] rows@[i])@ == memory_row_text((base + i * 16) as u64, row_chunk(bytes@, i, 16)),
{
    let mut rows: Vec<String> = Vec::new();
    let mut start: usize = 0;
    let mut i: usize = 0;
    proof {
        lemma_row_count_zero(16);
    }
    while start < bytes.len()
        invariant
            base + bytes@.len() <= u64::MAX + 1,
            rows@.len() == i,
            start <= bytes@.len(),
            i <= start,
            start < bytes@.len() ==> start == i * 16,
            start == bytes@.len() ==> i == row_count(bytes@.len(), 16),
            forall|j: int| 0 <= j < i
                ==> (#[trigger] rows@[j])@ == memory_row_text((base + j * 16) as u64, row_chunk(bytes@, j, 16)),
        decreases bytes@.len() - start,
    {
        let end: usize = if bytes.len() - start >= 16 { start + 16 } else { bytes.len() };
        let chunk = &bytes[start..end];
        let row = memory_row(base + start as u64, chunk);
        proof {
            assert(chunk@ =~= row_chunk(bytes@, i as int, 16));
            if end == bytes@.len() {
                lemma_row_count(i as int, 16, bytes@.len() as int);
            }
        }
        rows.push(row);
        start = end;
        i = i + 1;
    }
    rows
}

/// The little-endian value of `s`.
pub open spec fn le_value(s: Seq<u8>) -> nat
    decreases s.len(),
{
    if s.len() == 0 {
        0
    } else {
        (s[0] + 256 * le_value(s.drop_first())) as nat
    }
}

/// `256` to the power `n`.
pub open spec fn pow256(n: nat) -> nat
    decreases n,
{
    if n == 0 {
        1
    } else {
        256 * pow256((n - 1) as nat)
    }
}

proof fn lemma_le_value_bound(s: Seq<u8>)
    ensures
        le_value(s) < pow256(s.len()),
    decreases s.len(),
{
    if s.len() > 0 {
        lemma_le_value_bound(s.drop_first());
        let t = le_value(s.drop_first());
        let p = pow256(s.drop_first().len());
        assert(s[0] + 256 * t < 256 * p) by (nonlinear_arith)
            requires
                s[0] < 256,
                t < p,
                t >= 0,
        ;
    }
}

/// The little-endian value of the first `n` bytes.
fn le_of(bytes: &[u8], n: usize) -> (v: u64)
    requires
        n <= 8,
        n <= bytes@.len(),
    ensures
        v == le_value(bytes@.take(n as int)),
{
    let mut v: u64 = 0;
    let mut i: usize = n;
    proof {
        reveal_with_fuel(pow256, 9);
        assert(pow256(8) == 0x1_0000_0000_0000_0000nat);
    }
    while i > 0
        invariant
            i <= n,
            n <= 8,
            n <= bytes@.len(),
            pow256(8) == 0x1_0000_0000_0000_0000nat,
            v == le_value(bytes@.subrange(i as int, n as int)),
        decreases i,
    {
        i = i - 1;
        let ghost s = bytes@.subrange(i as int, n as int);
        proof {
            assert(s.drop_first() =~= bytes@.subrange(i + 1, n as int));
            lemma_le_value_bound(s);
            lemma_pow256_mono(s.len(), 8);
            assert(le_value(s) == s[0] + 256 * v);
        }
        v = v * 256 + bytes[i] as u64;
    }
    assert(bytes@.subrange(0, n as int) =~= bytes@.take(n as int));
    v
}

proof fn lemma_pow256_mono(a: nat, b: nat)
    requires
        a <= b,
    ensures
        pow256(a) <= pow256(b),
    decreases b,
{
    if a < b {
        lemma_pow256_mono(a, (b - 1) as nat);
    }
}

/// The integers the first eight bytes of memory read as, little-endian:
/// as `u16`, `u32`, `u64`, and as `i32`, `i64` in two's complement.
pub fn memory_integers(bytes: &[u8]) -> (r: (u16, u32, u64, i32, i64))
    requires
        bytes@.len() >= 8,
    ensures
        r.0 == le_value(bytes@.take(2)),
        r.1 == le_value(bytes@.take(4)),
        r.2 == le_value(bytes@.take(8)),
        r.3 == r.1 as i32,
        r.4 == r.2 as i64,
{
    let a = le_of(bytes, 2);
    let b = le_of(bytes, 4);
    let c = le_of(bytes, 8);
    proof {
        lemma_le_value_bound(bytes@.take(2));
        lemma_le_value_bound(bytes@.take(4));
        reveal_with_fuel(pow256, 5);
        assert(pow256(2) == 65536);
        assert(pow256(4) == 0x1_0000_0000nat);
    }
    let u32v = b as u32;
    (a as u16, u32v, c, u32v as i32, c as i64)
}

} // verus!
