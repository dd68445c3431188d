//! Readers of the text LLDB prints: process and breakpoint numbers, stop
//! reasons, registers, threads, frames, disassembly, memory and symbols.
use vstd::prelude::*;
use crate::num::{parse_radix, parse_uint, lemma_parse_uint_bound};
use crate::text::{
    chars_of, contains_char, contains_lit, lines, lines_of, occurs, prefix_before, after_first, second_piece, split_after,
    split_first, split_second, split_whitespace, starts, starts_with_lit, string_of, strip_all, strip_all_of, trim,
    trim_chars, trim_start, trim_start_chars, views, words, push_chars, is_ws,
};
use crate::tra86::model::{Breakpoint, BreakpointLocation, DisassemblyLine, FrameState, MemoryPermissions, MemoryRegion, SymbolInfo, RegisterRole, RegisterValue, SourceLocation, StopReason, ThreadState, ThreadStatus};
use crate::tra86::ui::first_hex_word;

verus! {

/// The role a register's name gives it.
pub open spec fn role_of(name: Seq<char>) -> RegisterRole {
    if name == "rip"@ || name == "pc"@ || name == "eip"@ {
        RegisterRole::InstructionPointer
    } else if name == "rsp"@ || name == "sp"@ {
        RegisterRole::StackPointer
    } else if name == "rbp"@ || name == "fp"@ {
        RegisterRole::FramePointer
    } else if name == "rflags"@ || name == "eflags"@ || name == "cpsr"@ {
        RegisterRole::Flags
    } else {
        RegisterRole::General
    }
}

pub fn register_role(name: &str) -> (r: RegisterRole)
    ensures
        r == role_of(name@),
{
    let n = chars_of(name);
    let s = n.as_slice();
    if crate::text::is_word(s, "rip") || crate::text::is_word(s, "pc") || crate::text::is_word(s, "eip") {
        RegisterRole::InstructionPointer
    } else if crate::text::is_word(s, "rsp") || crate::text::is_word(s, "sp") {
        RegisterRole::StackPointer
    } else if crate::text::is_word(s, "rbp") || crate::text::is_word(s, "fp") {
        RegisterRole::FramePointer
    } else if crate::text::is_word(s, "rflags") || crate::text::is_word(s, "eflags") || crate::text::is_word(s, "cpsr") {
        RegisterRole::Flags
    } else {
        RegisterRole::General
    }
}

/// The registers read, as (name, value); each is 64 bits wide and has the
/// role its name gives it.
pub open spec fn registers_are(v: Seq<RegisterValue>, parsed: Seq<(Seq<char>, Seq<char>)>) -> bool {
    &&& v.len() == parsed.len()
    &&& forall|i: int| 0 <= i < v.len() ==> {
        &&& (#[trigger] v[i]).name@ == parsed[i].0
        &&& v[i].value@ == parsed[i].1
        &&& v[i].size_bits == 64
        &&& v[i].role == role_of(parsed[i].0)
    }
}

/// A `name = value` line: the name trimmed, with no space in it; the value
/// the first word after the `=`.
pub open spec fn register_line(l: Seq<char>) -> Option<(Seq<char>, Seq<char>)> {
    if occurs(l, "="@) {
        let name = trim(prefix_before(l, "="@));
        let vw = words(trim(after_first(l, "="@)));
        if name.len() == 0 || name.contains(' ') || vw.len() == 0 {
            None
        } else {
            Some((name, vw[0]))
        }
    } else {
        None
    }
}

/// The characters of an identifier: ASCII letters and digits, and `_`.
pub open spec fn ident_char(c: char) -> bool {
    ('a' <= c && c <= 'z') || ('A' <= c && c <= 'Z') || ('0' <= c && c <= '9') || c == '_'
}

/// The longest run of identifier characters that ends `s`.
pub open spec fn ident_suffix(s: Seq<char>) -> Seq<char>
    decreases s.len(),
{
    if s.len() > 0 && ident_char(s.last()) {
        ident_suffix(s.drop_last()).push(s.last())
    } else {
        Seq::empty()
    }
}

/// A looser register line: the name is the identifier just before the
/// `=`, the value the first `0x` word after it.
pub open spec fn loose_register_line(l: Seq<char>) -> Option<(Seq<char>, Seq<char>)> {
    if occurs(l, "="@) {
        let name = ident_suffix(prefix_before(l, "="@));
        match first_hex_word(words(after_first(l, "="@)), 0) {
            Some(v) => if name.len() == 0 {
                None
            } else {
                Some((name, v))
            },
            None => None,
        }
    } else {
        None
    }
}

/// The registers of the lines that read as one, in order; `loose` picks
/// the looser reading.
pub open spec fn registers_of(ls: Seq<Seq<char>>, loose: bool) -> Seq<(Seq<char>, Seq<char>)>
    decreases ls.len(),
{
    if ls.len() == 0 {
        Seq::empty()
    } else {
        let rest = registers_of(ls.drop_last(), loose);
        match if loose { loose_register_line(ls.last()) } else { register_line(ls.last()) } {
            Some(p) => rest.push(p),
            None => rest,
        }
    }
}

fn register_line_of(l: &[char]) -> (r: Option<(Vec<char>, Vec<char>)>)
    ensures
        match register_line(l@) {
            Some(p) => r matches Some(x) && x.0@ == p.0 && x.1@ == p.1,
            None => r is None,
        },
{
    let eq = chars_of("=");
    match split_after(l, eq.as_slice()) {
        None => None,
        Some(right) => {
            let left = split_first(l, eq.as_slice());
            let name = trim_chars(left.as_slice());
            let rt = trim_chars(right.as_slice());
            let vw = split_whitespace(rt.as_slice());
            if name.len() == 0 || contains_char(name.as_slice(), ' ') || vw.len() == 0 {
                None
            } else {
                assert(views(vw@)[0] == vw@[0]@);
                let v = crate::text::slice_of(vw[0].as_slice(), 0, vw[0].len());
                assert(v@ =~= vw@[0]@);
                Some((name, v))
            }
        },
    }
}

fn is_ident_char(c: char) -> (r: bool)
    ensures
        r == ident_char(c),
{
    ('a' <= c && c <= 'z') || ('A' <= c && c <= 'Z') || ('0' <= c && c <= '9') || c == '_'
}

fn ident_tail(s: &[char]) -> (r: Vec<char>)
    ensures
        r@ == ident_suffix(s@),
{
    let mut k: usize = s.len();
    assert(s@.take(k as int) =~= s@);
    assert(s@.subrange(k as int, s@.len() as int) =~= Seq::<char>::empty());
    while k > 0 && is_ident_char(s[k - 1])
        invariant
            k <= s@.len(),
            ident_suffix(s@) == ident_suffix(s@.take(k as int)) + s@.subrange(k as int, s@.len() as int),
        decreases k,
    {
        proof {
            let t = s@.take(k as int);
            assert(t.drop_last() =~= s@.take(k - 1));
            assert(t.last() == s@[k - 1]);
            assert(s@.subrange(k - 1, s@.len() as int) =~= seq![s@[k - 1]] + s@.subrange(k as int, s@.len() as int));
            assert(ident_suffix(t) == ident_suffix(s@.take(k - 1)).push(s@[k - 1]));
            assert(ident_suffix(s@.take(k - 1)).push(s@[k - 1]) + s@.subrange(k as int, s@.len() as int)
                =~= ident_suffix(s@.take(k - 1)) + s@.subrange(k - 1, s@.len() as int));
        }
        k = k - 1;
    }
    proof {
        let t = s@.take(k as int);
        if k > 0 {
            assert(t.last() == s@[k - 1]);
        }
        assert(ident_suffix(t) == Seq::<char>::empty());
        assert(ident_suffix(s@) =~= s@.subrange(k as int, s@.len() as int));
    }
    crate::text::slice_of(s, k, s.len())
}

fn first_hex_word_of(ws: &Vec<Vec<char>>) -> (r: Option<Vec<char>>)
    ensures
        match first_hex_word(views(ws@), 0) {
            Some(w) => r matches Some(v) && v@ == w,
            None => r is None,
        },
{
    let mut i: usize = 0;
    while i < ws.len()
        invariant
            i <= ws@.len(),
            first_hex_word(views(ws@), 0) == first_hex_word(views(ws@), i as int),
        decreases ws@.len() - i,
    {
        assert(views(ws@)[i as int] == ws@[i as int]@);
        if starts_with_lit(ws[i].as_slice(), "0x") {
            let v = crate::text::slice_of(ws[i].as_slice(), 0, ws[i].len());
            assert(v@ =~= ws@[i as int]@);
            return Some(v);
        }
        i = i + 1;
    }
    None
}

fn loose_register_line_of(l: &[char]) -> (r: Option<(Vec<char>, Vec<char>)>)
    ensures
        match loose_register_line(l@) {
            Some(p) => r matches Some(x) && x.0@ == p.0 && x.1@ == p.1,
            None => r is None,
        },
{
    let eq = chars_of("=");
    match split_after(l, eq.as_slice()) {
        None => None,
        Some(right) => {
            let left = split_first(l, eq.as_slice());
            let name = ident_tail(left.as_slice());
            let ws = split_whitespace(right.as_slice());
            match first_hex_word_of(&ws) {
                Some(v) => if name.len() == 0 {
                    None
                } else {
                    Some((name, v))
                },
                None => None,
            }
        },
    }
}

fn registers_from(output: &str, loose: bool) -> (r: Vec<RegisterValue>)
    ensures
        registers_are(r@, registers_of(lines_of(output@), loose)),
{
    let ls = lines(output);
    let ghost lv = views(ls@);
    let mut out: Vec<RegisterValue> = Vec::new();
    let mut i: usize = 0;
    while i < ls.len()
        invariant
            i <= ls@.len(),
            lv == views(ls@),
            lv == lines_of(output@),
            registers_are(out@, registers_of(lv.take(i as int), loose)),
        decreases ls@.len() - i,
    {
        proof {
            assert(lv.take(i + 1).drop_last() =~= lv.take(i as int));
            assert(lv.take(i + 1).last() == ls@[i as int]@);
        }
        let parsed = if loose { loose_register_line_of(ls[i].as_slice()) } else { register_line_of(ls[i].as_slice()) };
        match parsed {
            Some((name, value)) => {
                let n = string_of(name.as_slice());
                let role = register_role(n.as_str());
                out.push(RegisterValue { name: n, value: string_of(value.as_slice()), size_bits: 64, role });
            },
            None => {},
        }
        i = i + 1;
    }
    proof {
        assert(lv.take(lv.len() as int) =~= lv);
    }
    out
}

/// Reads the registers of `register read`: `name = value` lines.
pub fn parse_registers(output: &str) -> (r: Vec<RegisterValue>)
    ensures
        registers_are(r@, registers_of(lines_of(output@), false)),
{
    registers_from(output, false)
}

/// Reads registers more loosely: the identifier before each `=` and the
/// first `0x` word after it.
pub fn parse_registers_loose(output: &str) -> (r: Vec<RegisterValue>)
    ensures
        registers_are(r@, registers_of(lines_of(output@), true)),
{
    registers_from(output, true)
}

/// The first line from `i` on that `f` reads a number from.
pub open spec fn first_found(ls: Seq<Seq<char>>, f: spec_fn(Seq<char>) -> Option<nat>, i: int) -> Option<nat>
    decreases ls.len() - i,
{
    if i < 0 || i >= ls.len() {
        None
    } else {
        match f(ls[i]) {
            Some(v) => Some(v),
            None => first_found(ls, f, i + 1),
        }
    }
}

/// The stop reason of a thread line: a breakpoint, a signal (named by
/// what follows `stop reason =`), or a step.
pub open spec fn stop_line_read(l: Seq<char>, r: Option<StopReason>) -> bool {
    if occurs(l, "stop reason = breakpoint"@) {
        r == Some(StopReason::Breakpoint(0))
    } else if occurs(l, "stop reason = signal"@) {
        r matches Some(StopReason::Signal(s)) && match second_piece(l, "stop reason ="@) {
            Some(x) => s@ == trim(x),
            None => s@ == "signal"@,
        }
    } else if occurs(l, "stop reason = step"@) {
        r == Some(StopReason::Step)
    } else {
        r is None
    }
}

pub fn parse_stop_reason_line(line: &str) -> (r: Option<StopReason>)
    ensures
        stop_line_read(line@, r),
{
    let l = chars_of(line);
    if contains_lit(l.as_slice(), "stop reason = breakpoint") {
        return Some(StopReason::Breakpoint(0));
    }
    if contains_lit(l.as_slice(), "stop reason = signal") {
        let p = chars_of("stop reason =");
        let signal = match split_second(l.as_slice(), p.as_slice()) {
            Some(x) => {
                let t = trim_chars(x.as_slice());
                string_of(t.as_slice())
            },
            None => "signal".to_owned(),
        };
        return Some(StopReason::Signal(signal));
    }
    if contains_lit(l.as_slice(), "stop reason = step") {
        return Some(StopReason::Step);
    }
    None
}

/// The number after `Process ` in a line.
pub open spec fn pid_line(l: Seq<char>) -> Option<nat> {
    if occurs(l, "Process "@) {
        let ws = words(after_first(l, "Process "@));
        if ws.len() > 0 {
            parse_uint(ws[0], 10, u32::MAX as nat)
        } else {
            None
        }
    } else {
        None
    }
}

/// The number after `Breakpoint `, before any `:`, in a line.
pub open spec fn breakpoint_line(l: Seq<char>) -> Option<nat> {
    if occurs(l, "Breakpoint "@) {
        let ws = words(prefix_before(after_first(l, "Breakpoint "@), ":"@));
        if ws.len() > 0 {
            parse_uint(ws[0], 10, u64::MAX as nat)
        } else {
            None
        }
    } else {
        None
    }
}

/// The first word of `s` after `p`, read as a number up to `max`.
fn number_after(l: &[char], p: &str, before: Option<&str>, max: u64) -> (r: Option<u64>)
    ensures
        occurs(l@, p@) ==> ({
            let rest = after_first(l@, p@);
            let ws = words(match before { Some(b) => prefix_before(rest, b@), None => rest });
            if ws.len() > 0 {
                match parse_uint(ws[0], 10, max as nat) {
                    Some(v) => r == Some(v as u64),
                    None => r is None,
                }
            } else {
                r is None
            }
        }),
        !occurs(l@, p@) ==> r is None,
{
    let pc = chars_of(p);
    match split_after(l, pc.as_slice()) {
        None => None,
        Some(rest) => {
            let part = match before {
                Some(b) => {
                    let bc = chars_of(b);
                    split_first(rest.as_slice(), bc.as_slice())
                },
                None => rest,
            };
            let ws = split_whitespace(part.as_slice());
            if ws.len() > 0 {
                assert(views(ws@)[0] == ws@[0]@);
                proof {
                    lemma_parse_uint_bound(ws@[0]@, 10, max as nat);
                }
                parse_radix(ws[0].as_slice(), 10, max)
            } else {
                None
            }
        },
    }
}

/// The process number LLDB reports (`Process <pid> ...`), from the first
/// line that has one.
pub fn parse_pid(output: &str) -> (r: Option<u32>)
    ensures
        match first_found(lines_of(output@), |l: Seq<char>| pid_line(l), 0) {
            Some(v) => r == Some(v as u32),
            None => r is None,
        },
{
    let ls = lines(output);
    let ghost lv = views(ls@);
    let mut i: usize = 0;
    while i < ls.len()
        invariant
            i <= ls@.len(),
            lv == views(ls@),
            lv == lines_of(output@),
            first_found(lv, |l: Seq<char>| pid_line(l), 0) == first_found(lv, |l: Seq<char>| pid_line(l), i as int),
        decreases ls@.len() - i,
    {
        assert(lv[i as int] == ls@[i as int]@);
        proof {
            if pid_line(lv[i as int]) matches Some(v) {
                lemma_parse_uint_bound(words(after_first(lv[i as int], "Process "@))[0], 10, u32::MAX as nat);
            }
        }
        match number_after(ls[i].as_slice(), "Process ", None, u32::MAX as u64) {
            Some(v) => {
                return Some(v as u32);
            },
            None => {},
        }
        i = i + 1;
    }
    None
}

/// The breakpoint number LLDB reports (`Breakpoint <id>: ...`), from the
/// first line that has one.
pub fn parse_breakpoint_id(output: &str) -> (r: Option<u64>)
    ensures
        match first_found(lines_of(output@), |l: Seq<char>| breakpoint_line(l), 0) {
            Some(v) => r == Some(v as u64),
            None => r is None,
        },
{
    let ls = lines(output);
    let ghost lv = views(ls@);
    let mut i: usize = 0;
    while i < ls.len()
        invariant
            i <= ls@.len(),
            lv == views(ls@),
            lv == lines_of(output@),
            first_found(lv, |l: Seq<char>| breakpoint_line(l), 0) == first_found(lv, |l: Seq<char>| breakpoint_line(l), i as int),
        decreases ls@.len() - i,
    {
        assert(lv[i as int] == ls@[i as int]@);
        match number_after(ls[i].as_slice(), "Breakpoint ", Some(":"), u64::MAX) {
            Some(v) => {
                return Some(v);
            },
            None => {},
        }
        i = i + 1;
    }
    None
}

/// An ASCII hexadecimal digit.
pub open spec fn hex_char(c: char) -> bool {
    ('0' <= c && c <= '9') || ('a' <= c && c <= 'f') || ('A' <= c && c <= 'F')
}

/// The longest run of hexadecimal digits that starts `s`.
pub open spec fn hex_run(s: Seq<char>) -> Seq<char>
    decreases s.len(),
{
    if s.len() > 0 && hex_char(s[0]) {
        seq![s[0]] + hex_run(s.drop_first())
    } else {
        Seq::empty()
    }
}

/// The address a word holds: the whole word after its leading `0x`s, else
/// the hex digits after its first `0x`.
pub open spec fn token_address(t: Seq<char>) -> Option<nat> {
    let direct = if starts(t, "0x"@) { parse_uint(strip_all(t, "0x"@), 16, u64::MAX as nat) } else { None };
    if direct is Some {
        direct
    } else if occurs(t, "0x"@) {
        let h = hex_run(after_first(t, "0x"@));
        if h.len() > 0 {
            parse_uint(h, 16, u64::MAX as nat)
        } else {
            None
        }
    } else {
        None
    }
}

/// The first address among the words from `i` on.
pub open spec fn first_token_address(ws: Seq<Seq<char>>, i: int) -> Option<nat>
    decreases ws.len() - i,
{
    if i < 0 || i >= ws.len() {
        None
    } else {
        match token_address(ws[i]) {
            Some(a) => Some(a),
            None => first_token_address(ws, i + 1),
        }
    }
}

/// The first address in a line.
pub open spec fn line_address(l: Seq<char>) -> Option<nat> {
    first_token_address(words(l), 0)
}

fn is_hex_char(c: char) -> (r: bool)
    ensures
        r == hex_char(c),
{
    ('0' <= c && c <= '9') || ('a' <= c && c <= 'f') || ('A' <= c && c <= 'F')
}

fn hex_run_of(s: &[char]) -> (r: Vec<char>)
    ensures
        r@ == hex_run(s@),
{
    let mut k: usize = 0;
    assert(s@.skip(0) =~= s@);
    assert(s@.take(0) =~= Seq::<char>::empty());
    while k < s.len() && is_hex_char(s[k])
        invariant
            k <= s@.len(),
            forall|j: int| 0 <= j < k ==> hex_char(#[trigger] s@[j]),
            hex_run(s@) == s@.take(k as int) + hex_run(s@.skip(k as int)),
        decreases s@.len() - k,
    {
        proof {
            let t = s@.skip(k as int);
            assert(t[0] == s@[k as int]);
            assert(t.drop_first() =~= s@.skip(k + 1));
            assert(s@.take(k + 1) =~= s@.take(k as int) + seq![s@[k as int]]);
        }
        k = k + 1;
    }
    proof {
        let t = s@.skip(k as int);
        if k < s@.len() {
            assert(t[0] == s@[k as int]);
        }
        assert(hex_run(t) == Seq::<char>::empty());
        assert(hex_run(s@) =~= s@.take(k as int));
    }
    crate::text::slice_of(s, 0, k)
}

fn token_address_of(t: &[char]) -> (r: Option<u64>)
    ensures
        match token_address(t@) {
            Some(a) => r == Some(a as u64),
            None => r is None,
        },
{
    proof {
        reveal_strlit("0x");
    }
    let hx = chars_of("0x");
    if starts_with_lit(t, "0x") {
        let body = strip_all_of(t, "0x");
        proof {
            lemma_parse_uint_bound(body@, 16, u64::MAX as nat);
        }
        if let Some(a) = parse_radix(body.as_slice(), 16, u64::MAX) {
            return Some(a);
        }
    }
    match split_after(t, hx.as_slice()) {
        Some(rest) => {
            let h = hex_run_of(rest.as_slice());
            if h.len() > 0 {
                proof {
                    lemma_parse_uint_bound(h@, 16, u64::MAX as nat);
                }
                parse_radix(h.as_slice(), 16, u64::MAX)
            } else {
                None
            }
        },
        None => None,
    }
}

fn line_address_of(l: &[char]) -> (r: Option<u64>)
    ensures
        match line_address(l@) {
            Some(a) => r == Some(a as u64),
            None => r is None,
        },
{
    let ws = split_whitespace(l);
    let mut i: usize = 0;
    while i < ws.len()
        invariant
            i <= ws@.len(),
            views(ws@) == words(l@),
            first_token_address(words(l@), 0) == first_token_address(words(l@), i as int),
        decreases ws@.len() - i,
    {
        assert(views(ws@)[i as int] == ws@[i as int]@);
        match token_address_of(ws[i].as_slice()) {
            Some(a) => {
                return Some(a);
            },
            None => {},
        }
        i = i + 1;
    }
    None
}

/// The first address in a line of LLDB output.
pub fn extract_address_token(line: &str) -> (r: Option<u64>)
    ensures
        match line_address(line@) {
            Some(a) => r == Some(a as u64),
            None => r is None,
        },
{
    let l = chars_of(line);
    line_address_of(l.as_slice())
}

/// A hexadecimal address, with or without `0x`.
pub open spec fn addr_value(v: Seq<char>) -> Option<nat> {
    parse_uint(strip_all(trim(v), "0x"@), 16, u64::MAX as nat)
}

pub fn parse_addr(value: &str) -> (r: Option<u64>)
    ensures
        match addr_value(value@) {
            Some(a) => r == Some(a as u64),
            None => r is None,
        },
{
    let c = chars_of(value);
    let t = trim_chars(c.as_slice());
    let body = strip_all_of(t.as_slice(), "0x");
    proof {
        lemma_parse_uint_bound(body@, 16, u64::MAX as nat);
    }
    parse_radix(body.as_slice(), 16, u64::MAX)
}

/// `s` with each `"` escaped by a backslash.
pub open spec fn quote_escaped(s: Seq<char>) -> Seq<char>
    decreases s.len(),
{
    if s.len() == 0 {
        Seq::empty()
    } else {
        quote_escaped(s.drop_last()) + if s.last() == '"' { seq!['\\', '"'] } else { seq![s.last()] }
    }
}

/// A string as an LLDB command argument: in double quotes, inner quotes
/// escaped.
pub fn lldb_quote(input: &str) -> (r: String)
    ensures
        r@ == seq!['"'] + quote_escaped(input@) + seq!['"'],
{
    let c = chars_of(input);
    let mut out: Vec<char> = Vec::new();
    out.push('"');
    let mut i: usize = 0;
    while i < c.len()
        invariant
            i <= c@.len(),
            out@ == seq!['"'] + quote_escaped(c@.take(i as int)),
        decreases c@.len() - i,
    {
        proof {
            assert(c@.take(i + 1).drop_last() =~= c@.take(i as int));
        }
        if c[i] == '"' {
            out.push('\\');
            out.push('"');
        } else {
            out.push(c[i]);
        }
        assert(out@ =~= seq!['"'] + quote_escaped(c@.take(i + 1)));
        i = i + 1;
    }
    assert(c@.take(c@.len() as int) =~= c@);
    out.push('"');
    string_of(out.as_slice())
}

/// The longest run of decimal digits that starts `s`.
pub open spec fn digit_run(s: Seq<char>) -> Seq<char>
    decreases s.len(),
{
    if s.len() > 0 && '0' <= s[0] && s[0] <= '9' {
        seq![s[0]] + digit_run(s.drop_first())
    } else {
        Seq::empty()
    }
}

fn digit_run_of(s: &[char]) -> (r: Vec<char>)
    ensures
        r@ == digit_run(s@),
{
    let mut k: usize = 0;
    assert(s@.skip(0) =~= s@);
    assert(s@.take(0) =~= Seq::<char>::empty());
    while k < s.len() && '0' <= s[k] && s[k] <= '9'
        invariant
            k <= s@.len(),
            digit_run(s@) == s@.take(k as int) + digit_run(s@.skip(k as int)),
        decreases s@.len() - k,
    {
        proof {
            let t = s@.skip(k as int);
            assert(t[0] == s@[k as int]);
            assert(t.drop_first() =~= s@.skip(k + 1));
            assert(s@.take(k + 1) =~= s@.take(k as int) + seq![s@[k as int]]);
        }
        k = k + 1;
    }
    proof {
        let t = s@.skip(k as int);
        if k < s@.len() {
            assert(t[0] == s@[k as int]);
        }
        assert(digit_run(t) == Seq::<char>::empty());
        assert(digit_run(s@) =~= s@.take(k as int));
    }
    crate::text::slice_of(s, 0, k)
}

/// The value of the first `0x` word of a line, read as hex after its
/// leading `0x`s.
pub open spec fn first_hex_value(l: Seq<char>) -> Option<u64> {
    match first_hex_word(words(l), 0) {
        Some(w) => match parse_uint(strip_all(w, "0x"@), 16, u64::MAX as nat) {
            Some(v) => Some(v as u64),
            None => None,
        },
        None => None,
    }
}

/// A `thread #N ...` line read as a thread: its number (0 when unreadable),
/// whether it is marked current (`*`), its first `0x` word as its pc, and
/// the text after `stop reason =` as its stop reason (else `default`).
pub open spec fn thread_read(l: Seq<char>, default: StopReason, t: ThreadState) -> bool {
    &&& t.id == match second_piece(l, "thread #"@) {
        Some(x) => match parse_uint(digit_run(x), 10, u64::MAX as nat) {
            Some(v) => v as u64,
            None => 0,
        },
        None => 0,
    }
    &&& t.name is None
    &&& t.is_current == starts(trim_start(l), "*"@)
    &&& t.status == ThreadStatus::Stopped
    &&& t.instruction_pointer == first_hex_value(l)
    &&& match second_piece(l, "stop reason ="@) {
        Some(x) => t.stop_reason matches StopReason::Unknown(u) && u@ == trim(x),
        None => t.stop_reason == default,
    }
}

/// The lines that contain `p`, in order.
pub open spec fn lines_with(ls: Seq<Seq<char>>, p: Seq<char>) -> Seq<Seq<char>>
    decreases ls.len(),
{
    if ls.len() == 0 {
        ls
    } else {
        let rest = lines_with(ls.drop_last(), p);
        if occurs(ls.last(), p) {
            rest.push(ls.last())
        } else {
            rest
        }
    }
}

fn first_hex_value_of(l: &[char]) -> (r: Option<u64>)
    ensures
        r == first_hex_value(l@),
{
    let ws = split_whitespace(l);
    match first_hex_word_of(&ws) {
        Some(w) => {
            let body = strip_all_of(w.as_slice(), "0x");
            proof {
                lemma_parse_uint_bound(body@, 16, u64::MAX as nat);
            }
            parse_radix(body.as_slice(), 16, u64::MAX)
        },
        None => None,
    }
}

fn thread_of(l: &[char], default: &StopReason) -> (t: ThreadState)
    ensures
        thread_read(l@, *default, t),
{
    let hash = chars_of("thread #");
    let id: u64 = match split_second(l, hash.as_slice()) {
        Some(x) => {
            let d = digit_run_of(x.as_slice());
            proof {
                lemma_parse_uint_bound(d@, 10, u64::MAX as nat);
            }
            match parse_radix(d.as_slice(), 10, u64::MAX) {
                Some(v) => v,
                None => 0,
            }
        },
        None => 0,
    };
    let ts = trim_start_chars(l);
    let is_current = starts_with_lit(ts.as_slice(), "*");
    let sr = chars_of("stop reason =");
    let stop_reason = match split_second(l, sr.as_slice()) {
        Some(x) => {
            let t = trim_chars(x.as_slice());
            StopReason::Unknown(string_of(t.as_slice()))
        },
        None => default.dup(),
    };
    ThreadState {
        id,
        name: None,
        is_current,
        status: ThreadStatus::Stopped,
        stop_reason,
        instruction_pointer: first_hex_value_of(l),
    }
}

/// The threads of `thread list`: one per line that holds `thread #`.
pub fn parse_threads(output: &str, default_reason: StopReason) -> (r: Vec<ThreadState>)
    ensures
        r@.len() == lines_with(lines_of(output@), "thread #"@).len(),
        forall|i: int| 0 <= i < r@.len() ==> thread_read(lines_with(lines_of(output@), "thread #"@)[i], default_reason, #[trigger] r@[i]),
{
    let ls = lines(output);
    let ghost lv = views(ls@);
    let mut out: Vec<ThreadState> = Vec::new();
    let mut i: usize = 0;
    while i < ls.len()
        invariant
            i <= ls@.len(),
            lv == views(ls@),
            lv == lines_of(output@),
            out@.len() == lines_with(lv.take(i as int), "thread #"@).len(),
            forall|k: int| 0 <= k < out@.len() ==> thread_read(lines_with(lv.take(i as int), "thread #"@)[k], default_reason, #[trigger] out@[k]),
        decreases ls@.len() - i,
    {
        proof {
            assert(lv.take(i + 1).drop_last() =~= lv.take(i as int));
            assert(lv.take(i + 1).last() == ls@[i as int]@);
        }
        if contains_lit(ls[i].as_slice(), "thread #") {
            let t = thread_of(ls[i].as_slice(), &default_reason);
            out.push(t);
        }
        i = i + 1;
    }
    proof {
        assert(lv.take(lv.len() as int) =~= lv);
    }
    out
}

/// The last position of `c` in `s`; -1 if none.
pub open spec fn last_pos(s: Seq<char>, c: char) -> int
    decreases s.len(),
{
    if s.len() == 0 {
        -1
    } else if s.last() == c {
        s.len() - 1
    } else {
        last_pos(s.drop_last(), c)
    }
}

/// The source location after ` at ` in a line: `file:line[:column]`
/// split from the right. `None` when the line has none to offer;
/// `Some(None)` when its line number does not read (the search stops).
pub open spec fn source_attempt(l: Seq<char>) -> Option<Option<(Seq<char>, u32, Option<u32>)>> {
    match second_piece(l, " at "@) {
        None => None,
        Some(rest) => {
            let j2 = last_pos(rest, ':');
            if j2 < 0 {
                None
            } else {
                let j1 = last_pos(rest.take(j2), ':');
                let (file, line, col) = if j1 < 0 {
                    (rest.take(j2), rest.skip(j2 + 1), None)
                } else {
                    (rest.take(j1), rest.subrange(j1 + 1, j2), Some(rest.skip(j2 + 1)))
                };
                match parse_uint(line, 10, u32::MAX as nat) {
                    None => Some(None),
                    Some(n) => Some(Some((file, n as u32, match col {
                        Some(c) => match parse_uint(c, 10, u32::MAX as nat) {
                            Some(v) => Some(v as u32),
                            None => None,
                        },
                        None => None,
                    }))),
                }
            }
        },
    }
}

/// The source location of the first line that offers one.
pub open spec fn source_from(ls: Seq<Seq<char>>, i: int) -> Option<(Seq<char>, u32, Option<u32>)>
    decreases ls.len() - i,
{
    if i < 0 || i >= ls.len() {
        None
    } else {
        match source_attempt(ls[i]) {
            Some(found) => found,
            None => source_from(ls, i + 1),
        }
    }
}

/// `r` is the location `v`.
pub open spec fn source_is(r: Option<SourceLocation>, v: Option<(Seq<char>, u32, Option<u32>)>) -> bool {
    match v {
        Some((f, n, c)) => r matches Some(s) && s.file@ == f && s.line == n && s.column == c,
        None => r is None,
    }
}

pub(crate) fn last_pos_of(s: &[char], hi: usize, c: char) -> (r: Option<usize>)
    requires
        hi <= s@.len(),
    ensures
        match r {
            Some(k) => k == last_pos(s@.take(hi as int), c) && k < hi,
            None => last_pos(s@.take(hi as int), c) == -1,
        },
{
    let mut k: usize = hi;
    while k > 0
        invariant
            k <= hi <= s@.len(),
            last_pos(s@.take(hi as int), c) == last_pos(s@.take(k as int), c),
        decreases k,
    {
        proof {
            let t = s@.take(k as int);
            assert(t.drop_last() =~= s@.take(k - 1));
            assert(t.last() == s@[k - 1]);
        }
        if s[k - 1] == c {
            return Some(k - 1);
        }
        k = k - 1;
    }
    None
}

fn read_u32(s: &[char]) -> (r: Option<u32>)
    ensures
        match parse_uint(s@, 10, u32::MAX as nat) {
            Some(v) => r == Some(v as u32),
            None => r is None,
        },
{
    proof {
        lemma_parse_uint_bound(s@, 10, u32::MAX as nat);
    }
    match parse_radix(s, 10, u32::MAX as u64) {
        Some(v) => Some(v as u32),
        None => None,
    }
}

fn source_attempt_of(l: &[char]) -> (r: Option<Option<SourceLocation>>)
    ensures
        match source_attempt(l@) {
            None => r is None,
            Some(v) => r matches Some(x) && source_is(x, v),
        },
{
    let at = chars_of(" at ");
    let rest = match split_second(l, at.as_slice()) {
        Some(x) => x,
        None => {
            return None;
        },
    };
    let n = rest.len();
    let j2 = match last_pos_of(rest.as_slice(), n, ':') {
        Some(k) => k,
        None => {
            assert(rest@.take(n as int) =~= rest@);
            return None;
        },
    };
    assert(rest@.take(n as int) =~= rest@);
    let j1 = last_pos_of(rest.as_slice(), j2, ':');
    let (file, line, col) = match j1 {
        None => (
            crate::text::slice_of(rest.as_slice(), 0, j2),
            crate::text::slice_of(rest.as_slice(), j2 + 1, n),
            None,
        ),
        Some(k) => (
            crate::text::slice_of(rest.as_slice(), 0, k),
            crate::text::slice_of(rest.as_slice(), k + 1, j2),
            Some(crate::text::slice_of(rest.as_slice(), j2 + 1, n)),
        ),
    };
    proof {
        assert(rest@.subrange(0, j2 as int) =~= rest@.take(j2 as int));
        assert(rest@.subrange(j2 + 1, n as int) =~= rest@.skip(j2 + 1));
        if let Some(k) = j1 {
            assert(rest@.subrange(0, k as int) =~= rest@.take(k as int));
        }
    }
    match read_u32(line.as_slice()) {
        None => Some(None),
        Some(v) => {
            let column = match col {
                Some(c) => read_u32(c.as_slice()),
                None => None,
            };
            Some(Some(SourceLocation { file: string_of(file.as_slice()), line: v, column }))
        },
    }
}

/// The source location LLDB prints after ` at ` (`file:line[:column]`),
/// from the first line that offers one.
pub fn parse_source_location(line_or_output: &str) -> (r: Option<SourceLocation>)
    ensures
        source_is(r, source_from(lines_of(line_or_output@), 0)),
{
    let ls = lines(line_or_output);
    let ghost lv = views(ls@);
    let mut i: usize = 0;
    while i < ls.len()
        invariant
            i <= ls@.len(),
            lv == views(ls@),
            lv == lines_of(line_or_output@),
            source_from(lv, 0) == source_from(lv, i as int),
        decreases ls@.len() - i,
    {
        assert(lv[i as int] == ls@[i as int]@);
        match source_attempt_of(ls[i].as_slice()) {
            Some(found) => {
                return found;
            },
            None => {},
        }
        i = i + 1;
    }
    None
}

/// A `frame #N: 0x... module`function at file:line` line read as frame
/// `N` of thread `tid`: its first address as pc (else 0), the first word
/// after the backtick as its function (`unknown` when there is none), and
/// its source location.
pub open spec fn frame_read(l: Seq<char>, tid: u64, f: FrameState) -> bool {
    let index: nat = match second_piece(l, "frame #"@) {
        Some(x) => match parse_uint(trim(prefix_before(x, ":"@)), 10, usize::MAX as nat) {
            Some(v) => v,
            None => 0,
        },
        None => 0,
    };
    &&& f.index == index
    &&& f.id == index as u64
    &&& f.thread_id == tid
    &&& f.instruction_pointer == match line_address(l) {
        Some(a) => a as u64,
        None => 0,
    }
    &&& f.stack_pointer is None
    &&& f.frame_pointer is None
    &&& f.symbol is None
    &&& match second_piece(l, "`"@) {
        Some(x) => f.function matches Some(n) && n@ == (if words(x).len() > 0 { words(x)[0] } else { "unknown"@ }),
        None => f.function is None,
    }
    &&& source_is(f.source, source_from(lines_of(l), 0))
}

fn frame_of(l: &[char], tid: u64) -> (f: FrameState)
    ensures
        frame_read(l@, tid, f),
{
    let hash = chars_of("frame #");
    let colon = chars_of(":");
    let index: usize = match split_second(l, hash.as_slice()) {
        Some(x) => {
            let head = split_first(x.as_slice(), colon.as_slice());
            let t = trim_chars(head.as_slice());
            proof {
                lemma_parse_uint_bound(t@, 10, usize::MAX as nat);
            }
            match parse_radix(t.as_slice(), 10, usize::MAX as u64) {
                Some(v) => v as usize,
                None => 0,
            }
        },
        None => 0,
    };
    let ip: u64 = match line_address_of(l) {
        Some(a) => a,
        None => 0,
    };
    let tick = chars_of("`");
    let function = match split_second(l, tick.as_slice()) {
        Some(x) => {
            let ws = split_whitespace(x.as_slice());
            if ws.len() > 0 {
                assert(views(ws@)[0] == ws@[0]@);
                Some(string_of(ws[0].as_slice()))
            } else {
                Some("unknown".to_owned())
            }
        },
        None => None,
    };
    let text = string_of(l);
    FrameState {
        id: index as u64,
        thread_id: tid,
        index,
        instruction_pointer: ip,
        stack_pointer: None,
        frame_pointer: None,
        function,
        symbol: None,
        source: parse_source_location(text.as_str()),
    }
}

/// The frames of `bt`: one per line that holds `frame #`.
pub fn parse_frames(output: &str, thread_id: u64) -> (r: Vec<FrameState>)
    ensures
        r@.len() == lines_with(lines_of(output@), "frame #"@).len(),
        forall|i: int| 0 <= i < r@.len() ==> frame_read(lines_with(lines_of(output@), "frame #"@)[i], thread_id, #[trigger] r@[i]),
{
    let ls = lines(output);
    let ghost lv = views(ls@);
    let mut out: Vec<FrameState> = Vec::new();
    let mut i: usize = 0;
    while i < ls.len()
        invariant
            i <= ls@.len(),
            lv == views(ls@),
            lv == lines_of(output@),
            out@.len() == lines_with(lv.take(i as int), "frame #"@).len(),
            forall|k: int| 0 <= k < out@.len() ==> frame_read(lines_with(lv.take(i as int), "frame #"@)[k], thread_id, #[trigger] out@[k]),
        decreases ls@.len() - i,
    {
        proof {
            assert(lv.take(i + 1).drop_last() =~= lv.take(i as int));
            assert(lv.take(i + 1).last() == ls@[i as int]@);
        }
        if contains_lit(ls[i].as_slice(), "frame #") {
            let f = frame_of(ls[i].as_slice(), thread_id);
            out.push(f);
        }
        i = i + 1;
    }
    proof {
        assert(lv.take(lv.len() as int) =~= lv);
    }
    out
}

/// A memory word: `0x` and two hex digits, as a byte.
pub open spec fn byte_word(w: Seq<char>) -> Option<u8> {
    if starts(w, "0x"@) && w.len() == 4 {
        match parse_uint(strip_all(w, "0x"@), 16, 255) {
            Some(b) => Some(b as u8),
            None => None,
        }
    } else {
        None
    }
}

pub open spec fn bytes_of_words(ws: Seq<Seq<char>>) -> Seq<u8>
    decreases ws.len(),
{
    if ws.len() == 0 {
        Seq::empty()
    } else {
        bytes_of_words(ws.drop_last()) + match byte_word(ws.last()) {
            Some(b) => seq![b],
            None => Seq::empty(),
        }
    }
}

/// The bytes of `memory read` output: every two-digit `0x` word, in order.
pub open spec fn bytes_of_lines(ls: Seq<Seq<char>>) -> Seq<u8>
    decreases ls.len(),
{
    if ls.len() == 0 {
        Seq::empty()
    } else {
        bytes_of_lines(ls.drop_last()) + bytes_of_words(words(ls.last()))
    }
}

fn push_line_bytes(out: &mut Vec<u8>, l: &[char])
    ensures
        final(out)@ == old(out)@ + bytes_of_words(words(l@)),
{
    let ws = split_whitespace(l);
    let ghost wv = views(ws@);
    let ghost start = out@;
    let mut j: usize = 0;
    while j < ws.len()
        invariant
            j <= ws@.len(),
            wv == views(ws@),
            wv == words(l@),
            out@ == start + bytes_of_words(wv.take(j as int)),
        decreases ws@.len() - j,
    {
        proof {
            assert(wv.take(j + 1).drop_last() =~= wv.take(j as int));
            assert(wv.take(j + 1).last() == ws@[j as int]@);
        }
        let w = &ws[j];
        if w.len() == 4 && starts_with_lit(w.as_slice(), "0x") {
            let body = strip_all_of(w.as_slice(), "0x");
            proof {
                lemma_parse_uint_bound(body@, 16, 255);
            }
            match parse_radix(body.as_slice(), 16, 255) {
                Some(b) => {
                    out.push(b as u8);
                },
                None => {},
            }
        }
        assert(out@ =~= start + bytes_of_words(wv.take(j + 1)));
        j = j + 1;
    }
    assert(wv.take(wv.len() as int) =~= wv);
}

/// The bytes of `memory read` output.
pub fn parse_memory_bytes(output: &str) -> (r: Vec<u8>)
    ensures
        r@ == bytes_of_lines(lines_of(output@)),
{
    let ls = lines(output);
    let ghost lv = views(ls@);
    let mut out: Vec<u8> = Vec::new();
    let mut i: usize = 0;
    while i < ls.len()
        invariant
            i <= ls@.len(),
            lv == views(ls@),
            lv == lines_of(output@),
            out@ == bytes_of_lines(lv.take(i as int)),
        decreases ls@.len() - i,
    {
        proof {
            assert(lv.take(i + 1).drop_last() =~= lv.take(i as int));
            assert(lv.take(i + 1).last() == ls@[i as int]@);
        }
        push_line_bytes(&mut out, ls[i].as_slice());
        i = i + 1;
    }
    proof {
        assert(lv.take(lv.len() as int) =~= lv);
    }
    out
}

/// The address on a `__TEXT` or `.text` line.
pub open spec fn text_line(l: Seq<char>) -> Option<nat> {
    if occurs(l, "__TEXT"@) || occurs(l, ".text"@) {
        line_address(l)
    } else {
        None
    }
}

/// The base of the text section, from the first section line with an
/// address.
pub fn parse_text_section_base(output: &str) -> (r: Option<u64>)
    ensures
        match first_found(lines_of(output@), |l: Seq<char>| text_line(l), 0) {
            Some(a) => r == Some(a as u64),
            None => r is None,
        },
{
    let ls = lines(output);
    let ghost lv = views(ls@);
    let mut i: usize = 0;
    while i < ls.len()
        invariant
            i <= ls@.len(),
            lv == views(ls@),
            lv == lines_of(output@),
            first_found(lv, |l: Seq<char>| text_line(l), 0) == first_found(lv, |l: Seq<char>| text_line(l), i as int),
        decreases ls@.len() - i,
    {
        assert(lv[i as int] == ls@[i as int]@);
        if contains_lit(ls[i].as_slice(), "__TEXT") || contains_lit(ls[i].as_slice(), ".text") {
            match line_address_of(ls[i].as_slice()) {
                Some(a) => {
                    return Some(a);
                },
                None => {},
            }
        }
        i = i + 1;
    }
    None
}

/// The value of the first instruction-pointer register among `regs`.
pub open spec fn first_ip_value(regs: Seq<(Seq<char>, Seq<char>)>, i: int) -> Option<Seq<char>>
    decreases regs.len() - i,
{
    if i < 0 || i >= regs.len() {
        None
    } else if role_of(regs[i].0) == RegisterRole::InstructionPointer {
        Some(regs[i].1)
    } else {
        first_ip_value(regs, i + 1)
    }
}

/// The pc of `register read` output: the value of its first
/// instruction-pointer register, read as hex.
pub open spec fn pc_value(output: Seq<char>) -> Option<nat> {
    match first_ip_value(registers_of(lines_of(output), false), 0) {
        Some(v) => addr_value(v),
        None => None,
    }
}

pub fn parse_pc_from_register_output(output: &str) -> (r: Option<u64>)
    ensures
        match pc_value(output@) {
            Some(a) => r == Some(a as u64),
            None => r is None,
        },
{
    let regs = parse_registers(output);
    let ghost parsed = registers_of(lines_of(output@), false);
    let mut i: usize = 0;
    while i < regs.len()
        invariant
            i <= regs@.len(),
            registers_are(regs@, parsed),
            parsed == registers_of(lines_of(output@), false),
            first_ip_value(parsed, 0) == first_ip_value(parsed, i as int),
        decreases regs@.len() - i,
    {
        assert(regs@[i as int].name@ == parsed[i as int].0);
        if regs[i].role == RegisterRole::InstructionPointer {
            assert(first_ip_value(parsed, i as int) == Some(parsed[i as int].1));
            assert(regs@[i as int].value@ == parsed[i as int].1);
            let v = regs[i].value.as_str();
            assert(v@ == parsed[i as int].1);
            assert(pc_value(output@) == addr_value(v@));
            let r = parse_addr(v);
            return r;
        }
        i = i + 1;
    }
    None
}

/// `s` without every trailing `c` (`trim_end_matches`).
pub open spec fn strip_trailing(s: Seq<char>, c: char) -> Seq<char>
    decreases s.len(),
{
    if s.len() > 0 && s.last() == c {
        strip_trailing(s.drop_last(), c)
    } else {
        s
    }
}

/// A separator of operands: a comma or whitespace.
pub open spec fn operand_sep(c: char) -> bool {
    c == ',' || is_ws(c)
}

pub open spec fn operand_fold(s: Seq<char>) -> (Seq<Seq<char>>, Seq<char>)
    decreases s.len(),
{
    if s.len() == 0 {
        (Seq::empty(), Seq::empty())
    } else {
        let acc = operand_fold(s.drop_last());
        if operand_sep(s.last()) {
            (acc.0.push(acc.1), Seq::empty())
        } else {
            (acc.0, acc.1.push(s.last()))
        }
    }
}

/// The operands split at commas and whitespace, empty pieces included.
pub open spec fn operand_pieces(s: Seq<char>) -> Seq<Seq<char>> {
    let acc = operand_fold(s);
    acc.0.push(acc.1)
}

/// The target of a branch: the first `0x` operand, read as hex.
pub open spec fn branch_target_of(ops: Seq<char>) -> Option<u64> {
    match first_hex_word(operand_pieces(ops), 0) {
        Some(w) => match parse_uint(strip_all(w, "0x"@), 16, u64::MAX as nat) {
            Some(v) => Some(v as u64),
            None => None,
        },
        None => None,
    }
}

/// A function heading: a line with a backtick that ends in `:` and has no
/// address.
pub open spec fn is_label_line(l: Seq<char>) -> bool {
    let t = crate::text::trim_end(l);
    l.contains('`') && t.len() > 0 && t.last() == ':' && !occurs(l, "0x"@)
}

/// The function a heading names: what follows the backtick, colons and
/// space trimmed.
pub open spec fn label_of(l: Seq<char>) -> Option<Seq<char>> {
    match second_piece(l, "`"@) {
        Some(x) => Some(trim(strip_trailing(x, ':'))),
        None => None,
    }
}

/// An instruction line: (address, mnemonic, operands, branch target,
/// whether it is the current one).
pub open spec fn insn_row(l: Seq<char>) -> Option<(u64, Seq<char>, Seq<char>, Option<u64>, bool)> {
    if !occurs(l, "0x"@) || !l.contains(':') {
        None
    } else {
        match line_address(l) {
            None => None,
            Some(a) => {
                let ins = match second_piece(l, ":"@) {
                    Some(x) => trim(x),
                    None => Seq::empty(),
                };
                let ws = words(ins);
                let mnemonic = if ws.len() > 0 { ws[0] } else { "nop"@ };
                let operands = if ws.len() > 0 { crate::text::join(ws.skip(1), " "@) } else { Seq::empty() };
                Some((a as u64, mnemonic, operands, branch_target_of(operands), occurs(l, "->"@)))
            },
        }
    }
}

/// The rows of a disassembly listing, each with the function heading it
/// follows, and that heading.
pub open spec fn disasm_fold(ls: Seq<Seq<char>>) -> (Option<Seq<char>>, Seq<((u64, Seq<char>, Seq<char>, Option<u64>, bool), Option<Seq<char>>)>)
    decreases ls.len(),
{
    if ls.len() == 0 {
        (None, Seq::empty())
    } else {
        let (cur, rows) = disasm_fold(ls.drop_last());
        let l = ls.last();
        if is_label_line(l) {
            (label_of(l), rows)
        } else {
            match insn_row(l) {
                Some(row) => (cur, rows.push((row, cur))),
                None => (cur, rows),
            }
        }
    }
}

/// An enabled breakpoint is set at `a`.
pub open spec fn enabled_at(bps: Seq<Breakpoint>, a: u64) -> bool {
    exists|i: int| 0 <= i < bps.len() && (#[trigger] bps[i]).enabled && bps[i].location == BreakpointLocation::Address(a)
}

/// The listing `r` shows the rows `rows`.
pub open spec fn disassembly_is(
    r: Seq<DisassemblyLine>,
    rows: Seq<((u64, Seq<char>, Seq<char>, Option<u64>, bool), Option<Seq<char>>)>,
    bps: Seq<Breakpoint>,
) -> bool {
    &&& r.len() == rows.len()
    &&& forall|i: int| 0 <= i < r.len() ==> {
        let (row, func) = rows[i];
        &&& (#[trigger] r[i]).address == row.0
        &&& r[i].mnemonic@ == row.1
        &&& r[i].operands@ == row.2
        &&& r[i].branch_target == row.3
        &&& r[i].is_current == row.4
        &&& match func {
            Some(f) => r[i].function matches Some(n) && n@ == f,
            None => r[i].function is None,
        }
        &&& r[i].bytes@.len() == 0
        &&& r[i].source is None
        &&& r[i].has_breakpoint == enabled_at(bps, row.0)
    }
}

fn operand_pieces_of(s: &[char]) -> (r: Vec<Vec<char>>)
    ensures
        views(r@) == operand_pieces(s@),
{
    let mut out: Vec<Vec<char>> = Vec::new();
    let mut cur: Vec<char> = Vec::new();
    let mut i: usize = 0;
    while i < s.len()
        invariant
            i <= s@.len(),
            (views(out@), cur@) == operand_fold(s@.take(i as int)),
        decreases s@.len() - i,
    {
        let c = s[i];
        proof {
            assert(s@.take(i + 1).drop_last() =~= s@.take(i as int));
        }
        if c == ',' || crate::text::is_whitespace(c) {
            let w = cur;
            cur = Vec::new();
            let ghost before = views(out@);
            out.push(w);
            assert(views(out@) =~= before.push(w@));
        } else {
            cur.push(c);
        }
        i = i + 1;
    }
    assert(s@.take(s@.len() as int) =~= s@);
    let ghost before = views(out@);
    out.push(cur);
    assert(views(out@) =~= before.push(cur@));
    out
}

fn branch_target_from(ops: &[char]) -> (r: Option<u64>)
    ensures
        r == branch_target_of(ops@),
{
    let ps = operand_pieces_of(ops);
    match first_hex_word_of(&ps) {
        Some(w) => {
            let body = strip_all_of(w.as_slice(), "0x");
            proof {
                lemma_parse_uint_bound(body@, 16, u64::MAX as nat);
            }
            parse_radix(body.as_slice(), 16, u64::MAX)
        },
        None => None,
    }
}

fn join_words_from(ws: &Vec<Vec<char>>, from: usize) -> (r: Vec<char>)
    requires
        from <= ws@.len(),
    ensures
        r@ == crate::text::join(views(ws@).skip(from as int), " "@),
{
    let mut out: Vec<char> = Vec::new();
    let mut i: usize = from;
    while i < ws.len()
        invariant
            from <= i <= ws@.len(),
            out@ == crate::text::join(views(ws@).subrange(from as int, i as int), " "@),
        decreases ws@.len() - i,
    {
        let ghost before = out@;
        if i > from {
            out.push(' ');
        }
        push_chars(&mut out, ws[i].as_slice());
        proof {
            let parts = views(ws@).subrange(from as int, i + 1);
            assert(parts.drop_last() =~= views(ws@).subrange(from as int, i as int));
            assert(parts.last() == ws@[i as int]@);
            if i == from {
                assert(out@ =~= parts[0]);
            } else {
                assert(out@ =~= before + " "@ + parts.last()) by {
                    reveal_strlit(" ");
                }
            }
        }
        i = i + 1;
    }
    assert(views(ws@).subrange(from as int, ws@.len() as int) =~= views(ws@).skip(from as int));
    out
}

fn strip_trailing_of(s: &[char], c: char) -> (r: Vec<char>)
    ensures
        r@ == strip_trailing(s@, c),
{
    let mut k: usize = s.len();
    assert(s@.take(k as int) =~= s@);
    while k > 0 && s[k - 1] == c
        invariant
            k <= s@.len(),
            strip_trailing(s@, c) == strip_trailing(s@.take(k as int), c),
        decreases k,
    {
        assert(s@.take(k as int).drop_last() =~= s@.take(k - 1));
        k = k - 1;
    }
    crate::text::slice_of(s, 0, k)
}

fn insn_row_of(l: &[char]) -> (r: Option<(u64, Vec<char>, Vec<char>, Option<u64>, bool)>)
    ensures
        match insn_row(l@) {
            Some(row) => r matches Some(x) && x.0 == row.0 && x.1@ == row.1 && x.2@ == row.2 && x.3 == row.3 && x.4 == row.4,
            None => r is None,
        },
{
    if !contains_lit(l, "0x") || !contains_char(l, ':') {
        return None;
    }
    let address = match line_address_of(l) {
        Some(a) => a,
        None => {
            return None;
        },
    };
    let colon = chars_of(":");
    let ins = match split_second(l, colon.as_slice()) {
        Some(x) => trim_chars(x.as_slice()),
        None => Vec::new(),
    };
    let ws = split_whitespace(ins.as_slice());
    let mnemonic = if ws.len() > 0 {
        assert(views(ws@)[0] == ws@[0]@);
        crate::text::slice_of(ws[0].as_slice(), 0, ws[0].len())
    } else {
        chars_of("nop")
    };
    proof {
        if ws@.len() > 0 {
            assert(mnemonic@ =~= ws@[0]@);
        }
    }
    let operands = if ws.len() > 0 { join_words_from(&ws, 1) } else { Vec::new() };
    let target = branch_target_from(operands.as_slice());
    let arrow = contains_lit(l, "->");
    Some((address, mnemonic, operands, target, arrow))
}

fn enabled_breakpoint_at(bps: &[Breakpoint], a: u64) -> (r: bool)
    ensures
        r == enabled_at(bps@, a),
{
    let mut i: usize = 0;
    while i < bps.len()
        invariant
            i <= bps@.len(),
            forall|j: int| 0 <= j < i ==> !((#[trigger] bps@[j]).enabled && bps@[j].location == BreakpointLocation::Address(a)),
        decreases bps@.len() - i,
    {
        let hit = bps[i].enabled && match &bps[i].location {
            BreakpointLocation::Address(x) => *x == a,
            _ => false,
        };
        if hit {
            return true;
        }
        i = i + 1;
    }
    false
}

fn dup_opt_chars(s: &Option<Vec<char>>) -> (r: Option<String>)
    ensures
        match *s {
            Some(v) => r matches Some(x) && x@ == v@,
            None => r is None,
        },
{
    match s {
        Some(v) => Some(string_of(v.as_slice())),
        None => None,
    }
}

/// The disassembly listing LLDB prints: each instruction line under the
/// function heading it follows, marked where an enabled breakpoint is set.
pub fn parse_disassembly(output: &str, breakpoints: &[Breakpoint]) -> (r: Vec<DisassemblyLine>)
    ensures
        disassembly_is(r@, disasm_fold(lines_of(output@)).1, breakpoints@),
{
    let ls = lines(output);
    let ghost lv = views(ls@);
    let mut out: Vec<DisassemblyLine> = Vec::new();
    let mut current: Option<Vec<char>> = None;
    let mut i: usize = 0;
    while i < ls.len()
        invariant
            i <= ls@.len(),
            lv == views(ls@),
            lv == lines_of(output@),
            match current {
                Some(v) => disasm_fold(lv.take(i as int)).0 == Some(v@),
                None => disasm_fold(lv.take(i as int)).0 is None,
            },
            disassembly_is(out@, disasm_fold(lv.take(i as int)).1, breakpoints@),
        decreases ls@.len() - i,
    {
        proof {
            assert(lv.take(i + 1).drop_last() =~= lv.take(i as int));
            assert(lv.take(i + 1).last() == ls@[i as int]@);
        }
        let l = ls[i].as_slice();
        let te = crate::text::trim_end_chars(l);
        let label = contains_char(l, '`') && te.len() > 0 && te[te.len() - 1] == ':' && !contains_lit(l, "0x");
        if label {
            let tick = chars_of("`");
            current = match split_second(l, tick.as_slice()) {
                Some(x) => {
                    let st = strip_trailing_of(x.as_slice(), ':');
                    Some(trim_chars(st.as_slice()))
                },
                None => None,
            };
        } else {
            match insn_row_of(l) {
                Some((address, mnemonic, operands, branch_target, is_current)) => {
                    let has_breakpoint = enabled_breakpoint_at(breakpoints, address);
                    let line = DisassemblyLine {
                        address,
                        bytes: Vec::new(),
                        mnemonic: string_of(mnemonic.as_slice()),
                        operands: string_of(operands.as_slice()),
                        function: dup_opt_chars(&current),
                        source: None,
                        branch_target,
                        is_current,
                        has_breakpoint,
                    };
                    out.push(line);
                },
                None => {},
            }
        }
        i = i + 1;
    }
    proof {
        assert(lv.take(lv.len() as int) =~= lv);
    }
    out
}

/// A permission letter or a dash.
pub open spec fn perm_char(c: char) -> bool {
    c == 'r' || c == 'w' || c == 'x' || c == '-'
}

/// A three-letter permission word such as `r-x`.
pub open spec fn perm_word(w: Seq<char>) -> bool {
    w.len() == 3 && perm_char(w[0]) && perm_char(w[1]) && perm_char(w[2])
}

/// The first permission word from `i` on; `---` when there is none.
pub open spec fn first_perm_word(ws: Seq<Seq<char>>, i: int) -> Seq<char>
    decreases ws.len() - i,
{
    if i < 0 || i >= ws.len() {
        "---"@
    } else if perm_word(ws[i]) {
        ws[i]
    } else {
        first_perm_word(ws, i + 1)
    }
}

proof fn lemma_perm_word_len(ws: Seq<Seq<char>>, i: int)
    ensures
        first_perm_word(ws, i).len() == 3,
    decreases ws.len() - i,
{
    reveal_strlit("---");
    if 0 <= i < ws.len() && !perm_word(ws[i]) {
        lemma_perm_word_len(ws, i + 1);
    }
}

/// A hexadecimal field: trimmed, leading `0x`s dropped.
pub open spec fn hex_field(s: Seq<char>) -> Option<u64> {
    match parse_uint(strip_all(trim(s), "0x"@), 16, u64::MAX as nat) {
        Some(v) => Some(v as u64),
        None => None,
    }
}

/// A `[start-end) perms ... path` line of `memory region`: its bounds, its
/// permission word and its last word.
pub open spec fn region_row(l: Seq<char>) -> Option<(u64, u64, Seq<char>, Option<Seq<char>>)> {
    if !(l.contains('[') && l.contains(')') && l.contains('-')) {
        None
    } else {
        let start = match second_piece(l, "["@) {
            Some(x) => hex_field(prefix_before(x, "-"@)),
            None => None,
        };
        let end = match second_piece(l, "-"@) {
            Some(x) => hex_field(prefix_before(x, ")"@)),
            None => None,
        };
        let ws = words(l);
        match (start, end) {
            (Some(a), Some(b)) => Some((a, b, first_perm_word(ws, 0), if ws.len() > 0 { Some(ws.last()) } else { None })),
            _ => None,
        }
    }
}

pub open spec fn regions_of(ls: Seq<Seq<char>>) -> Seq<(u64, u64, Seq<char>, Option<Seq<char>>)>
    decreases ls.len(),
{
    if ls.len() == 0 {
        Seq::empty()
    } else {
        let rest = regions_of(ls.drop_last());
        match region_row(ls.last()) {
            Some(row) => rest.push(row),
            None => rest,
        }
    }
}

/// The region `r` is the row `row`.
pub open spec fn region_is(r: MemoryRegion, row: (u64, u64, Seq<char>, Option<Seq<char>>)) -> bool {
    &&& r.start == row.0
    &&& r.end == row.1
    &&& r.permissions.read == (row.2[0] == 'r')
    &&& r.permissions.write == (row.2[1] == 'w')
    &&& r.permissions.execute == (row.2[2] == 'x')
    &&& match row.3 {
        Some(p) => r.pathname matches Some(x) && x@ == p,
        None => r.pathname is None,
    }
    &&& r.label is None
}

fn hex_field_of(s: &[char]) -> (r: Option<u64>)
    ensures
        r == hex_field(s@),
{
    let t = trim_chars(s);
    let body = strip_all_of(t.as_slice(), "0x");
    proof {
        lemma_parse_uint_bound(body@, 16, u64::MAX as nat);
    }
    parse_radix(body.as_slice(), 16, u64::MAX)
}

fn first_perm_word_of(ws: &Vec<Vec<char>>) -> (r: Vec<char>)
    ensures
        r@ == first_perm_word(views(ws@), 0),
{
    let mut i: usize = 0;
    while i < ws.len()
        invariant
            i <= ws@.len(),
            first_perm_word(views(ws@), 0) == first_perm_word(views(ws@), i as int),
        decreases ws@.len() - i,
    {
        assert(views(ws@)[i as int] == ws@[i as int]@);
        let w = &ws[i];
        if w.len() == 3 {
            let ok = {
                let a = w[0];
                let b = w[1];
                let c = w[2];
                (a == 'r' || a == 'w' || a == 'x' || a == '-') && (b == 'r' || b == 'w' || b == 'x' || b == '-')
                    && (c == 'r' || c == 'w' || c == 'x' || c == '-')
            };
            if ok {
                let v = crate::text::slice_of(w.as_slice(), 0, 3);
                assert(v@ =~= w@);
                return v;
            }
        }
        i = i + 1;
    }
    proof {
        reveal_strlit("---");
    }
    chars_of("---")
}

fn piece_between(l: &[char], open: &str, close: &str) -> (r: Option<u64>)
    ensures
        r == match second_piece(l@, open@) {
            Some(x) => hex_field(prefix_before(x, close@)),
            None => None,
        },
{
    let oc = chars_of(open);
    let cc = chars_of(close);
    match split_second(l, oc.as_slice()) {
        Some(x) => {
            let head = split_first(x.as_slice(), cc.as_slice());
            hex_field_of(head.as_slice())
        },
        None => None,
    }
}

fn region_of(l: &[char]) -> (r: Option<MemoryRegion>)
    ensures
        match region_row(l@) {
            Some(row) => r matches Some(x) && region_is(x, row),
            None => r is None,
        },
{
    if !(contains_char(l, '[') && contains_char(l, ')') && contains_char(l, '-')) {
        return None;
    }
    let start = piece_between(l, "[", "-");
    let end = piece_between(l, "-", ")");
    let ws = split_whitespace(l);
    match (start, end) {
        (Some(a), Some(b)) => {
            let perms = first_perm_word_of(&ws);
            proof {
                lemma_perm_word_len(views(ws@), 0);
            }
            let pathname = if ws.len() > 0 {
                assert(views(ws@).last() == ws@[ws@.len() - 1]@);
                Some(string_of(ws[ws.len() - 1].as_slice()))
            } else {
                None
            };
            Some(MemoryRegion {
                start: a,
                end: b,
                permissions: MemoryPermissions { read: perms[0] == 'r', write: perms[1] == 'w', execute: perms[2] == 'x' },
                pathname,
                label: None,
            })
        },
        _ => None,
    }
}

/// The regions of `memory region` output, one per line that names one.
pub fn parse_memory_regions(output: &str) -> (r: Vec<MemoryRegion>)
    ensures
        r@.len() == regions_of(lines_of(output@)).len(),
        forall|i: int| 0 <= i < r@.len() ==> region_is(#[trigger] r@[i], regions_of(lines_of(output@))[i]),
{
    let ls = lines(output);
    let ghost lv = views(ls@);
    let mut out: Vec<MemoryRegion> = Vec::new();
    let mut i: usize = 0;
    while i < ls.len()
        invariant
            i <= ls@.len(),
            lv == views(ls@),
            lv == lines_of(output@),
            out@.len() == regions_of(lv.take(i as int)).len(),
            forall|k: int| 0 <= k < out@.len() ==> region_is(#[trigger] out@[k], regions_of(lv.take(i as int))[k]),
        decreases ls@.len() - i,
    {
        proof {
            assert(lv.take(i + 1).drop_last() =~= lv.take(i as int));
            assert(lv.take(i + 1).last() == ls@[i as int]@);
        }
        match region_of(ls[i].as_slice()) {
            Some(r) => {
                out.push(r);
            },
            None => {},
        }
        i = i + 1;
    }
    proof {
        assert(lv.take(lv.len() as int) =~= lv);
    }
    out
}

/// `s` without every leading `c`.
pub open spec fn strip_leading(s: Seq<char>, c: char) -> Seq<char>
    decreases s.len(),
{
    if s.len() > 0 && s[0] == c {
        strip_leading(s.drop_first(), c)
    } else {
        s
    }
}

/// The symbol name a line gives, if it gives one: after `Summary:` (then
/// after `name =`, quotes dropped), trimmed; an empty one is none.
pub open spec fn name_step(name: Option<Seq<char>>, l: Seq<char>) -> Option<Seq<char>> {
    let a = if occurs(l, "Summary:"@) {
        match second_piece(l, "Summary:"@) {
            Some(x) => if trim(x).len() > 0 { Some(trim(x)) } else { None },
            None => None,
        }
    } else {
        name
    };
    if occurs(l, "name ="@) {
        match second_piece(l, "name ="@) {
            Some(x) => {
                let v = strip_trailing(strip_leading(trim(x), '"'), '"');
                if v.len() > 0 { Some(v) } else { None }
            },
            None => None,
        }
    } else {
        a
    }
}

pub open spec fn symbol_name_of(ls: Seq<Seq<char>>) -> Option<Seq<char>>
    decreases ls.len(),
{
    if ls.len() == 0 {
        None
    } else {
        name_step(symbol_name_of(ls.drop_last()), ls.last())
    }
}

fn strip_leading_of(s: &[char], c: char) -> (r: Vec<char>)
    ensures
        r@ == strip_leading(s@, c),
{
    let mut k: usize = 0;
    assert(s@.skip(0) =~= s@);
    while k < s.len() && s[k] == c
        invariant
            k <= s@.len(),
            strip_leading(s@, c) == strip_leading(s@.skip(k as int), c),
        decreases s@.len() - k,
    {
        assert(s@.skip(k as int).drop_first() =~= s@.skip(k + 1));
        k = k + 1;
    }
    let r = crate::text::slice_of(s, k, s.len());
    assert(r@ =~= s@.skip(k as int));
    r
}

/// The symbol LLDB names for `address` (the last `Summary:` or `name =`
/// it prints), in `module`.
pub fn parse_symbol_info(output: &str, address: u64, module: Option<String>) -> (r: Option<SymbolInfo>)
    ensures
        match symbol_name_of(lines_of(output@)) {
            Some(n) => r matches Some(s) && s.name@ == n && s.module == module && s.offset == address,
            None => r is None,
        },
{
    let ls = lines(output);
    let ghost lv = views(ls@);
    let mut name: Option<Vec<char>> = None;
    let mut i: usize = 0;
    while i < ls.len()
        invariant
            i <= ls@.len(),
            lv == views(ls@),
            lv == lines_of(output@),
            match name {
                Some(v) => symbol_name_of(lv.take(i as int)) == Some(v@),
                None => symbol_name_of(lv.take(i as int)) is None,
            },
        decreases ls@.len() - i,
    {
        proof {
            assert(lv.take(i + 1).drop_last() =~= lv.take(i as int));
            assert(lv.take(i + 1).last() == ls@[i as int]@);
        }
        let l = ls[i].as_slice();
        if contains_lit(l, "Summary:") {
            let p = chars_of("Summary:");
            name = match split_second(l, p.as_slice()) {
                Some(x) => {
                    let t = trim_chars(x.as_slice());
                    if t.len() > 0 { Some(t) } else { None }
                },
                None => None,
            };
        }
        if contains_lit(l, "name =") {
            let p = chars_of("name =");
            name = match split_second(l, p.as_slice()) {
                Some(x) => {
                    let t = trim_chars(x.as_slice());
                    let a = strip_leading_of(t.as_slice(), '"');
                    let v = strip_trailing_of(a.as_slice(), '"');
                    if v.len() > 0 { Some(v) } else { None }
                },
                None => None,
            };
        }
        i = i + 1;
    }
    proof {
        assert(lv.take(lv.len() as int) =~= lv);
    }
    match name {
        Some(n) => Some(SymbolInfo { name: string_of(n.as_slice()), module, offset: address }),
        None => None,
    }
}

} // verus!
