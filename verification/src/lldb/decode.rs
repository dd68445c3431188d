//! Reading the driver's plain values: hex byte strings, target triples and
//! stop-reason labels.
use vstd::prelude::*;
use vstd::string::StrSliceExecFns;
use vstd::string::StringSliceAdditionalSpecFns;
use crate::bind_core::arch::{Architecture, arch_of_token};
use crate::bind_core::id::BreakpointId;
use crate::bind_core::model::StopReason;
use crate::num::{digit_of, digit_value, parse_radix, parse_uint};
use crate::text::{chars_of, pieces, push_str, slice_of, split_on, starts, starts_with_lit, is_word, string_of, views};

verus! {

/// A byte's value as a hex digit, -1 when it is none.
pub open spec fn hex_nibble(b: u8) -> int {
    digit_value(b as char, 16)
}

/// The bytes that a hex string's byte pairs from position `i` on spell;
/// a pair that is not two hex digits is skipped, a trailing odd byte
/// ignored.
pub open spec fn decoded_from(b: Seq<u8>, i: int) -> Seq<u8>
    decreases b.len() - i,
{
    if i < 0 || i + 1 >= b.len() {
        Seq::empty()
    } else if hex_nibble(b[i]) >= 0 && hex_nibble(b[i + 1]) >= 0 {
        seq![(hex_nibble(b[i]) * 16 + hex_nibble(b[i + 1])) as u8] + decoded_from(b, i + 2)
    } else {
        decoded_from(b, i + 2)
    }
}

fn nibble(b: u8) -> (r: Option<u32>)
    ensures
        match r {
            Some(v) => v as int == hex_nibble(b) && v < 16,
            None => hex_nibble(b) == -1,
        },
{
    digit_of(b as char, 16)
}

/// Decodes a hex byte string such as `e80f40b9`.
pub fn decode_hex(s: &str) -> (out: Vec<u8>)
    ensures
        out@ == decoded_from(s.spec_bytes(), 0),
{
    let bytes = s.as_bytes_vec();
    let mut out: Vec<u8> = Vec::new();
    let mut i: usize = 0;
    while i + 1 < bytes.len()
        invariant
            bytes@ == s.spec_bytes(),
            i % 2 == 0,
            i <= bytes@.len() + 1,
            out@ + decoded_from(bytes@, i as int) == decoded_from(bytes@, 0),
        decreases bytes@.len() - i,
    {
        let hi = nibble(bytes[i]);
        let lo = nibble(bytes[i + 1]);
        match (hi, lo) {
            (Some(h), Some(l)) => {
                let ghost before = out@;
                out.push((h * 16 + l) as u8);
                assert(out@ + decoded_from(bytes@, i + 2) =~= before + decoded_from(bytes@, i as int));
            },
            _ => {},
        }
        i = i + 2;
    }
    assert(decoded_from(bytes@, i as int) =~= Seq::<u8>::empty());
    assert(out@ + Seq::<u8>::empty() =~= out@);
    out
}

/// The architecture a target triple such as `arm64-apple-macosx` names, by
/// its part before the first dash.
pub fn arch_from_triple(triple: &str) -> (a: Architecture)
    ensures
        a == arch_of_token(pieces(triple@, '-')[0]),
{
    let c = chars_of(triple);
    let parts = split_on(c.as_slice(), '-');
    proof {
        assert(views(parts@)[0] == parts@[0]@);
    }
    let first = string_of(parts[0].as_slice());
    Architecture::from_triple_arch(first.as_str())
}

/// The breakpoint id after `breakpoint:`; 0 when it is not a number.
pub open spec fn breakpoint_number(rest: Seq<char>) -> u64 {
    match parse_uint(rest, 10, u64::MAX as nat) {
        Some(n) => n as u64,
        None => 0,
    }
}

/// What a driver stop-reason label means: `breakpoint:<id>`, `step`,
/// `signal:<name>`, `exception:<text>`, or anything else as unknown.
pub open spec fn stop_reason_read(s: Seq<char>, r: StopReason) -> bool {
    if starts(s, "breakpoint:"@) {
        r == StopReason::Breakpoint(BreakpointId(breakpoint_number(s.skip(11))))
    } else if s == "step"@ {
        r == StopReason::Step
    } else if starts(s, "signal:"@) {
        r matches StopReason::Signal(m) && m@ == "signal "@ + s.skip(7)
    } else if starts(s, "exception:"@) {
        r matches StopReason::Exception(m) && m@ == s.skip(10)
    } else {
        r matches StopReason::Unknown(m) && m@ == s
    }
}

pub fn parse_stop_reason(s: &str) -> (r: StopReason)
    ensures
        stop_reason_read(s@, r),
{
    let c = chars_of(s);
    proof {
        reveal_strlit("breakpoint:");
        reveal_strlit("signal:");
        reveal_strlit("exception:");
    }
    if starts_with_lit(c.as_slice(), "breakpoint:") {
        let rest = slice_of(c.as_slice(), 11, c.len());
        let n = match parse_radix(rest.as_slice(), 10, u64::MAX) {
            Some(n) => n,
            None => 0,
        };
        StopReason::Breakpoint(BreakpointId(n))
    } else if is_word(c.as_slice(), "step") {
        StopReason::Step
    } else if starts_with_lit(c.as_slice(), "signal:") {
        let rest = slice_of(c.as_slice(), 7, c.len());
        let mut v: Vec<char> = Vec::new();
        push_str(&mut v, "signal ");
        crate::text::push_chars(&mut v, rest.as_slice());
        StopReason::Signal(string_of(v.as_slice()))
    } else if starts_with_lit(c.as_slice(), "exception:") {
        let rest = slice_of(c.as_slice(), 10, c.len());
        StopReason::Exception(string_of(rest.as_slice()))
    } else {
        StopReason::Unknown(s.to_owned())
    }
}

} // verus!
