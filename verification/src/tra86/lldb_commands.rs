//! The LLDB command lines the tracer's LLDB backend sends, and what it reads
//! back from LLDB's answers about how the target stopped.
use vstd::prelude::*;
use crate::num::{dec_digits, fmt_dec, fmt_hex, hex_digits, pad, pad_left, parse_radix, parse_uint, lemma_parse_uint_bound};
use crate::text::{chars_of, lines, lines_of, push_chars, push_str, second_piece, split_second, split_whitespace, string_of, trim, trim_chars, views, words};
use crate::tra86::lldb_output::{lldb_quote, parse_stop_reason_line, quote_escaped, stop_line_read};
use crate::tra86::model::{Address, BreakpointLocation, StopReason};
use crate::tra86::backend::error::BackendError;

verus! {

/// The integer `str::parse::<i32>` reads: an optional sign, then at least
/// one decimal digit, in range; `None` otherwise.
pub open spec fn parse_i32_spec(s: Seq<char>) -> Option<int> {
    if s.len() > 0 && s[0] == '-' {
        match parse_uint(s.drop_first(), 10, 2147483648) {
            Some(n) => if s.len() > 1 && s[1] != '+' { Some(-(n as int)) } else { None },
            None => None,
        }
    } else {
        match parse_uint(s, 10, 2147483647) {
            Some(n) => Some(n as int),
            None => None,
        }
    }
}

pub fn parse_i32(s: &[char]) -> (r: Option<i32>)
    ensures
        match parse_i32_spec(s@) {
            Some(n) => r == Some(n as i32),
            None => r is None,
        },
{
    if s.len() > 0 && s[0] == '-' {
        if s.len() > 1 && s[1] == '+' {
            return None;
        }
        let body = crate::text::slice_of(s, 1, s.len());
        assert(body@ =~= s@.drop_first());
        match parse_radix(body.as_slice(), 10, 2147483648) {
            Some(n) => {
                proof {
                    lemma_parse_uint_bound(body@, 10, 2147483648);
                }
                if n == 2147483648 {
                    Some(-2147483647i32 - 1)
                } else {
                    Some(-(n as i32))
                }
            },
            None => None,
        }
    } else {
        match parse_radix(s, 10, 2147483647) {
            Some(n) => {
                proof {
                    lemma_parse_uint_bound(s@, 10, 2147483647);
                }
                Some(n as i32)
            },
            None => None,
        }
    }
}

/// The exit code a line reporting `exited with status` gives: the first
/// word after it, 0 when that is not a number.
pub open spec fn exit_code_of(line: Seq<char>) -> i32 {
    match second_piece(line, "exited with status"@) {
        Some(tail) => {
            let ws = words(trim(tail));
            if ws.len() > 0 {
                match parse_i32_spec(ws[0]) {
                    Some(n) => n as i32,
                    None => 0,
                }
            } else {
                0
            }
        },
        None => 0,
    }
}

/// The stop reason after each line of an answer: a stop line gives its
/// reason, and a line reporting the exit gives the exit code.
pub open spec fn reason_after_line(cur: StopReason, line: Seq<char>, r: StopReason) -> bool {
    if crate::text::occurs(line, "exited with status"@) {
        r == StopReason::Exited(exit_code_of(line))
    } else {
        exists|x: Option<StopReason>| #[trigger] stop_line_read(line, x) && r == match x {
            Some(reason) => reason,
            None => cur,
        }
    }
}

/// `rs` walks the stop reason through the lines of `ls`: it starts at `cur`,
/// each line takes it one step, and it ends at `r`.
pub open spec fn reason_walk(cur: StopReason, ls: Seq<Seq<char>>, rs: Seq<StopReason>, r: StopReason) -> bool {
    &&& rs.len() == ls.len() + 1
    &&& rs[0] == cur
    &&& rs.last() == r
    &&& forall|k: int| 0 <= k < ls.len() ==> reason_after_line(rs[k], ls[k], #[trigger] rs[k + 1])
}

fn exit_code_in(line: &Vec<char>) -> (code: i32)
    requires
        crate::text::occurs(line@, "exited with status"@),
    ensures
        code == exit_code_of(line@),
{
    let pat = chars_of("exited with status");
    match split_second(line.as_slice(), pat.as_slice()) {
        Some(tail) => {
            let t = trim_chars(tail.as_slice());
            let ws = split_whitespace(t.as_slice());
            if ws.len() > 0 {
                proof {
                    assert(views(ws@)[0] == ws@[0]@);
                }
                match parse_i32(ws[0].as_slice()) {
                    Some(n) => n,
                    None => 0,
                }
            } else {
                0
            }
        },
        None => 0,
    }
}

/// The stop reason after LLDB's answer `output`, starting from `current`.
pub fn stop_reason_after(current: StopReason, output: &str) -> (r: StopReason)
    ensures
        exists|rs: Seq<StopReason>| #[trigger] reason_walk(current, lines_of(output@), rs, r),
{
    let ls = lines(output);
    let mut reason = current;
    let ghost start = reason;
    let ghost mut rs: Seq<StopReason> = seq![reason];
    let mut i: usize = 0;
    while i < ls.len()
        invariant
            i <= ls@.len(),
            views(ls@) == lines_of(output@),
            reason_walk(start, views(ls@).take(i as int), rs, reason),
        decreases ls@.len() - i,
    {
        let line = &ls[i];
        let ghost before = reason;
        let s = string_of(line.as_slice());
        let parsed = parse_stop_reason_line(s.as_str());
        let ghost px = parsed;
        match parsed {
            Some(r) => {
                reason = r;
            },
            None => {},
        }
        let pat = chars_of("exited with status");
        if crate::text::contains(line.as_slice(), pat.as_slice()) {
            reason = StopReason::Exited(exit_code_in(line));
        }
        proof {
            let vs = views(ls@);
            let t = vs.take(i as int + 1);
            assert(stop_line_read(ls@[i as int]@, px));
            assert(reason_after_line(before, ls@[i as int]@, reason));
            let rs2 = rs.push(reason);
            assert forall|k: int| 0 <= k < t.len() implies reason_after_line(rs2[k], t[k], #[trigger] rs2[k + 1]) by {
                if k < i {
                    assert(t[k] == vs.take(i as int)[k]);
                    assert(rs2[k] == rs[k] && rs2[k + 1] == rs[k + 1]);
                } else {
                    assert(t[k] == ls@[i as int]@);
                }
            }
            rs = rs2;
        }
        i = i + 1;
    }
    proof {
        assert(views(ls@).take(i as int) =~= views(ls@));
        assert(reason_walk(start, lines_of(output@), rs, reason));
    }
    reason
}

/// `0x` and lower-case hex digits, as `0x{:x}` prints.
pub open spec fn hex0x(n: u64) -> Seq<char> {
    seq!['0', 'x'] + hex_digits(n as nat)
}

fn text2(a: &str, b: &[char]) -> (r: String)
    ensures
        r@ == a@ + b@,
{
    let mut v = chars_of(a);
    push_chars(&mut v, b);
    string_of(v.as_slice())
}

fn hex0x_chars(n: u64) -> (r: Vec<char>)
    ensures
        r@ == hex0x(n),
{
    let mut v: Vec<char> = Vec::new();
    v.push('0');
    v.push('x');
    let h = fmt_hex(n);
    push_chars(&mut v, h.as_slice());
    v
}

/// `target create "<program>"`.
pub fn target_create_command(program: &str) -> (r: String)
    ensures
        r@ == "target create "@ + seq!['"'] + quote_escaped(program@) + seq!['"'],
{
    let q = lldb_quote(program);
    let qc = chars_of(q.as_str());
    text2("target create ", qc.as_slice())
}

/// The arguments of a launch as LLDB's run arguments: each quoted, joined
/// by spaces.
pub open spec fn quoted_args(args: Seq<String>) -> Seq<char>
    decreases args.len(),
{
    if args.len() == 0 {
        Seq::empty()
    } else if args.len() == 1 {
        seq!['"'] + quote_escaped(args[0]@) + seq!['"']
    } else {
        quoted_args(args.drop_last()) + seq![' '] + seq!['"'] + quote_escaped(args.last()@) + seq!['"']
    }
}

/// The commands that create a target, stop it at `main`, give it its
/// arguments when it has any, and launch it stopped at the entry point.
pub open spec fn launch_script(program: Seq<char>, args: Seq<String>) -> Seq<Seq<char>> {
    seq!["target create "@ + seq!['"'] + quote_escaped(program) + seq!['"'], "breakpoint set --name main"@]
        + (if args.len() > 0 { seq!["settings set target.run-args "@ + quoted_args(args)] } else { Seq::empty() })
        + seq!["process launch --stop-at-entry"@]
}

pub fn launch_commands(program: &str, args: &Vec<String>) -> (r: Vec<String>)
    ensures
        r@.map_values(|s: String| s@) == launch_script(program@, args@),
{
    let mut r: Vec<String> = Vec::new();
    r.push(target_create_command(program));
    r.push("breakpoint set --name main".to_owned());
    if args.len() > 0 {
        let mut v: Vec<char> = Vec::new();
        let mut i: usize = 0;
        while i < args.len()
            invariant
                i <= args@.len(),
                v@ == quoted_args(args@.take(i as int)),
            decreases args@.len() - i,
        {
            proof {
                let t = args@.take(i as int + 1);
                assert(t.drop_last() =~= args@.take(i as int));
                assert(t.last() == args@[i as int]);
                if i == 0 {
                    assert(t =~= seq![args@[0]]);
                }
            }
            if i > 0 {
                v.push(' ');
            }
            let q = lldb_quote(args[i].as_str());
            let qc = chars_of(q.as_str());
            push_chars(&mut v, qc.as_slice());
            assert(v@ =~= quoted_args(args@.take(i as int + 1)));
            i = i + 1;
        }
        assert(args@.take(i as int) =~= args@);
        r.push(text2("settings set target.run-args ", v.as_slice()));
    }
    r.push("process launch --stop-at-entry".to_owned());
    assert(r@.map_values(|s: String| s@) =~= launch_script(program@, args@));
    r
}

/// `breakpoint set` for an address or a function name.
pub open spec fn breakpoint_command_text(loc: BreakpointLocation) -> Seq<char> {
    match loc {
        BreakpointLocation::Address(a) => "breakpoint set --address "@ + hex0x(a),
        BreakpointLocation::Symbol(s) => "breakpoint set --name "@ + s@,
    }
}

pub fn breakpoint_command(loc: &BreakpointLocation) -> (r: String)
    ensures
        r@ == breakpoint_command_text(*loc),
{
    match loc {
        BreakpointLocation::Address(a) => {
            let h = hex0x_chars(*a);
            text2("breakpoint set --address ", h.as_slice())
        },
        BreakpointLocation::Symbol(s) => {
            let c = chars_of(s.as_str());
            text2("breakpoint set --name ", c.as_slice())
        },
    }
}

/// A command followed by a number, such as `breakpoint delete 3`.
pub fn numbered_command(prefix: &str, n: u64) -> (r: String)
    ensures
        r@ == prefix@ + dec_digits(n as nat),
{
    let d = fmt_dec(n);
    text2(prefix, d.as_slice())
}

/// A command followed by an address in hex, such as `image lookup --address 0x10`.
pub fn address_command(prefix: &str, a: Address) -> (r: String)
    ensures
        r@ == prefix@ + hex0x(a),
{
    let h = hex0x_chars(a);
    text2(prefix, h.as_slice())
}

/// `memory read` of `length` single bytes at `address`.
pub fn memory_read_command(address: Address, length: usize) -> (r: String)
    ensures
        r@ == "memory read --size 1 --count "@ + dec_digits(length as nat) + " "@ + hex0x(address),
{
    let mut v = chars_of("memory read --size 1 --count ");
    let d = fmt_dec(length as u64);
    push_chars(&mut v, d.as_slice());
    push_str(&mut v, " ");
    let h = hex0x_chars(address);
    push_chars(&mut v, h.as_slice());
    string_of(v.as_slice())
}

/// Bytes as `0xNN` words joined by spaces.
pub open spec fn byte_words(bytes: Seq<u8>) -> Seq<char>
    decreases bytes.len(),
{
    if bytes.len() == 0 {
        Seq::empty()
    } else if bytes.len() == 1 {
        seq!['0', 'x'] + pad_left(hex_digits(bytes[0] as nat), 2, '0')
    } else {
        byte_words(bytes.drop_last()) + seq![' ', '0', 'x'] + pad_left(hex_digits(bytes.last() as nat), 2, '0')
    }
}

/// `memory write` of single bytes at `address`.
pub fn memory_write_command(address: Address, bytes: &[u8]) -> (r: String)
    ensures
        r@ == "memory write --size 1 "@ + hex0x(address) + " "@ + byte_words(bytes@),
{
    let mut v = chars_of("memory write --size 1 ");
    let h = hex0x_chars(address);
    push_chars(&mut v, h.as_slice());
    push_str(&mut v, " ");
    let ghost head = v@;
    let mut i: usize = 0;
    while i < bytes.len()
        invariant
            i <= bytes@.len(),
            v@ == head + byte_words(bytes@.take(i as int)),
        decreases bytes@.len() - i,
    {
        proof {
            let t = bytes@.take(i as int + 1);
            assert(t.drop_last() =~= bytes@.take(i as int));
            assert(t.last() == bytes@[i as int]);
            if i == 0 {
                assert(t =~= seq![bytes@[0]]);
            }
        }
        if i > 0 {
            v.push(' ');
        }
        v.push('0');
        v.push('x');
        let b = pad(fmt_hex(bytes[i] as u64), 2, '0');
        push_chars(&mut v, b.as_slice());
        assert(v@ =~= head + byte_words(bytes@.take(i as int + 1)));
        i = i + 1;
    }
    assert(bytes@.take(i as int) =~= bytes@);
    string_of(v.as_slice())
}

/// `disassemble` of `count` instructions: from an address, else at the pc.
pub open spec fn disassemble_command_text(address: Option<Address>, count: usize) -> Seq<char> {
    match address {
        Some(a) => "disassemble --start-address "@ + hex0x(a) + " --count "@ + dec_digits(count as nat),
        None => "disassemble --pc --count "@ + dec_digits(count as nat),
    }
}

pub fn disassemble_command(address: Option<Address>, count: usize) -> (r: String)
    ensures
        r@ == disassemble_command_text(address, count),
{
    let mut v: Vec<char> = Vec::new();
    match address {
        Some(a) => {
            push_str(&mut v, "disassemble --start-address ");
            let h = hex0x_chars(a);
            push_chars(&mut v, h.as_slice());
            push_str(&mut v, " --count ");
        },
        None => {
            push_str(&mut v, "disassemble --pc --count ");
        },
    }
    let d = fmt_dec(count as u64);
    push_chars(&mut v, d.as_slice());
    string_of(v.as_slice())
}

/// `disassemble` of `count` instructions from the start of `main`.
pub fn disassemble_main_command(count: usize) -> (r: String)
    ensures
        r@ == "disassemble --name main --count "@ + dec_digits(count as nat),
{
    let d = fmt_dec(count as u64);
    text2("disassemble --name main --count ", d.as_slice())
}

/// The line LLDB is asked to print after each command, so that the end of
/// its answer can be told.
pub const CMD_DONE_MARKER: &'static str = "__TRA86_LDB_CMD_DONE__";

/// The command that prints the end marker.
pub fn marker_command() -> (r: String)
    ensures
        r@ == "script print(\""@ + CMD_DONE_MARKER@ + "\")"@,
{
    let mut v = chars_of("script print(\"");
    push_str(&mut v, CMD_DONE_MARKER);
    push_str(&mut v, "\")");
    string_of(v.as_slice())
}

/// Whether a line of LLDB's answer is the end marker.
pub fn is_done_line(line: &str) -> (b: bool)
    ensures
        b == crate::text::occurs(line@, CMD_DONE_MARKER@),
{
    let c = chars_of(line);
    let m = chars_of(CMD_DONE_MARKER);
    crate::text::contains(c.as_slice(), m.as_slice())
}

/// The lines of an answer that carry something: not blank and not a bare
/// prompt.
pub open spec fn kept_lines(ls: Seq<Seq<char>>) -> Seq<Seq<char>> {
    ls.filter(|l: Seq<char>| trim(l).len() > 0 && trim(l) != "(lldb)"@)
}

/// The kept lines joined by newlines.
pub open spec fn joined(ls: Seq<Seq<char>>) -> Seq<char>
    decreases ls.len(),
{
    if ls.len() == 0 {
        Seq::empty()
    } else if ls.len() == 1 {
        ls[0]
    } else {
        joined(ls.drop_last()) + seq!['\n'] + ls.last()
    }
}

/// An answer assembled from the lines read before the end marker; an
/// answer that mentions `error:` is a protocol error carrying it.
pub fn command_output(lines: &Vec<String>) -> (r: Result<String, BackendError>)
    ensures
        ({
            let text = joined(kept_lines(lines@.map_values(|l: String| l@)));
            &&& crate::text::occurs(text, "error:"@) ==> (r matches Err(BackendError::Protocol(m)) && m@ == text)
            &&& !crate::text::occurs(text, "error:"@) ==> (r matches Ok(s) && s@ == text)
        }),
{
    let ghost lv = lines@.map_values(|l: String| l@);
    let mut out: Vec<char> = Vec::new();
    let mut i: usize = 0;
    while i < lines.len()
        invariant
            i <= lines@.len(),
            lv == lines@.map_values(|l: String| l@),
            out@ == joined(kept_lines(lv.take(i as int))),
        decreases lines@.len() - i,
    {
        let c = chars_of(lines[i].as_str());
        let t = trim_chars(c.as_slice());
        let keep = t.len() > 0 && !crate::text::is_word(t.as_slice(), "(lldb)");
        proof {
            let a = lv.take(i as int);
            let b = lv.take(i as int + 1);
            assert(b.drop_last() =~= a);
            assert(b.last() == lines@[i as int]@);
            reveal(Seq::filter);
        }
        if keep {
            let ghost before = out@;
            if out.len() > 0 {
                out.push('\n');
            }
            push_chars(&mut out, c.as_slice());
            proof {
                let k = kept_lines(lv.take(i as int));
                let k2 = kept_lines(lv.take(i as int + 1));
                assert(k2 == k.push(lines@[i as int]@));
                assert(k2.drop_last() =~= k);
                if k.len() == 0 {
                    assert(joined(k) =~= Seq::<char>::empty());
                    assert(out@ =~= joined(k2));
                } else {
                    assert(out@ =~= joined(k2));
                }
            }
        }
        i = i + 1;
    }
    assert(lv.take(i as int) =~= lv);
    let pat = chars_of("error:");
    let text = string_of(out.as_slice());
    if crate::text::contains(out.as_slice(), pat.as_slice()) {
        Err(BackendError::Protocol(text))
    } else {
        Ok(text)
    }
}

} // verus!
