//! Rendering and reading unsigned integers in decimal and hexadecimal.
use vstd::prelude::*;
use crate::text::starts;

verus! {

/// The character for a digit below 16 (lower-case hex letters).
pub open spec fn digit_char(d: nat) -> char {
    if d < 10 {
        ((d + 48) as u8) as char
    } else {
        ((d + 87) as u8) as char
    }
}

/// Lower-case hexadecimal digits of `n` without leading zeros (`{:x}`).
pub open spec fn hex_digits(n: nat) -> Seq<char>
    decreases n,
{
    if n < 16 {
        seq![digit_char(n)]
    } else {
        hex_digits(n / 16).push(digit_char(n % 16))
    }
}

/// Decimal digits of `n` without leading zeros (`{}`).
pub open spec fn dec_digits(n: nat) -> Seq<char>
    decreases n,
{
    if n < 10 {
        seq![digit_char(n)]
    } else {
        dec_digits(n / 10).push(digit_char(n % 10))
    }
}

/// Decimal rendering of a signed integer.
pub open spec fn signed_dec(n: int) -> Seq<char> {
    if n < 0 {
        seq!['-'] + dec_digits((-n) as nat)
    } else {
        dec_digits(n as nat)
    }
}

/// `s` left-padded with `c` to at least `width` characters.
pub open spec fn pad_left(s: Seq<char>, width: nat, c: char) -> Seq<char> {
    if s.len() >= width {
        s
    } else {
        Seq::new((width - s.len()) as nat, |i: int| c) + s
    }
}

/// `0x` followed by the hex digits of `n` (`0x{:x}`).
pub open spec fn hex_addr(n: nat) -> Seq<char> {
    seq!['0', 'x'] + hex_digits(n)
}

pub fn digit(d: u64) -> (c: char)
    requires
        d < 16,
    ensures
        c == digit_char(d as nat),
{
    if d < 10 {
        ((d as u8) + 48) as char
    } else {
        ((d as u8) + 87) as char
    }
}

pub fn fmt_hex(n: u64) -> (r: Vec<char>)
    ensures
        r@ == hex_digits(n as nat),
{
    let mut out: Vec<char> = Vec::new();
    let mut cur: u64 = n;
    while cur >= 16
        invariant
            hex_digits(n as nat) == hex_digits(cur as nat) + out@,
        decreases cur,
    {
        let ghost before = out@;
        out.insert(0, digit(cur % 16));
        proof {
            assert(hex_digits(cur as nat) == hex_digits(cur as nat / 16).push(digit_char(cur as nat % 16)));
            assert(hex_digits(cur as nat / 16) + out@ =~= hex_digits(cur as nat) + before);
        }
        cur = cur / 16;
    }
    let ghost before = out@;
    out.insert(0, digit(cur));
    assert(out@ =~= hex_digits(cur as nat) + before);
    out
}

pub fn fmt_dec(n: u64) -> (r: Vec<char>)
    ensures
        r@ == dec_digits(n as nat),
{
    let mut out: Vec<char> = Vec::new();
    let mut cur: u64 = n;
    while cur >= 10
        invariant
            dec_digits(n as nat) == dec_digits(cur as nat) + out@,
        decreases cur,
    {
        let ghost before = out@;
        out.insert(0, digit(cur % 10));
        proof {
            assert(dec_digits(cur as nat) == dec_digits(cur as nat / 10).push(digit_char(cur as nat % 10)));
            assert(dec_digits(cur as nat / 10) + out@ =~= dec_digits(cur as nat) + before);
        }
        cur = cur / 10;
    }
    let ghost before = out@;
    out.insert(0, digit(cur));
    assert(out@ =~= dec_digits(cur as nat) + before);
    out
}

pub fn fmt_signed(n: i64) -> (r: Vec<char>)
    ensures
        r@ == signed_dec(n as int),
{
    if n < 0 {
        let m: u64 = (0i128 - (n as i128)) as u64;
        let d = fmt_dec(m);
        let mut r: Vec<char> = Vec::new();
        r.push('-');
        crate::text::push_chars(&mut r, d.as_slice());
        assert(r@ =~= seq!['-'] + dec_digits((-n) as nat));
        r
    } else {
        fmt_dec(n as u64)
    }
}

pub fn pad(s: Vec<char>, width: usize, c: char) -> (r: Vec<char>)
    ensures
        r@ == pad_left(s@, width as nat, c),
{
    if s.len() >= width {
        return s;
    }
    let mut r: Vec<char> = Vec::new();
    let k = width - s.len();
    let mut i: usize = 0;
    while i < k
        invariant
            i <= k,
            r@ =~= Seq::new(i as nat, |j: int| c),
        decreases k - i,
    {
        r.push(c);
        i = i + 1;
    }
    crate::text::push_chars(&mut r, s.as_slice());
    assert(r@ =~= pad_left(s@, width as nat, c));
    r
}

/// `0x{:0width$x}`.
pub fn fmt_hex_padded(n: u64, width: usize) -> (r: Vec<char>)
    ensures
        r@ == seq!['0', 'x'] + pad_left(hex_digits(n as nat), width as nat, '0'),
{
    let digits = pad(fmt_hex(n), width, '0');
    let mut r: Vec<char> = Vec::new();
    r.push('0');
    r.push('x');
    crate::text::push_chars(&mut r, digits.as_slice());
    r
}

/// `0x{:x}`.
pub fn fmt_hex_addr(n: u64) -> (r: Vec<char>)
    ensures
        r@ == hex_addr(n as nat),
{
    let digits = fmt_hex(n);
    let mut r: Vec<char> = Vec::new();
    r.push('0');
    r.push('x');
    crate::text::push_chars(&mut r, digits.as_slice());
    r
}

/// The value of a digit in `radix` (10 or 16), as `char::to_digit` gives it; -1 when it is none.
pub open spec fn digit_value(c: char, radix: nat) -> int {
    let v: int = if '0' <= c && c <= '9' {
        c as int - 48
    } else if 'a' <= c && c <= 'z' {
        c as int - 87
    } else if 'A' <= c && c <= 'Z' {
        c as int - 55
    } else {
        -1
    };
    if 0 <= v < radix {
        v
    } else {
        -1
    }
}

pub open spec fn all_digits(s: Seq<char>, radix: nat) -> bool {
    forall|i: int| 0 <= i < s.len() ==> digit_value(#[trigger] s[i], radix) >= 0
}

pub open spec fn digits_value(s: Seq<char>, radix: nat) -> int
    decreases s.len(),
{
    if s.len() == 0 {
        0
    } else {
        digits_value(s.drop_last(), radix) * radix + digit_value(s.last(), radix)
    }
}

/// The number `from_str_radix`/`parse` reads from `s` into an unsigned type whose largest
/// value is `max`: an optional `+`, then at least one digit; `None` on anything else or on
/// overflow.
pub open spec fn parse_uint(s: Seq<char>, radix: nat, max: nat) -> Option<nat> {
    let body = if s.len() > 0 && s[0] == '+' {
        s.drop_first()
    } else {
        s
    };
    if body.len() > 0 && all_digits(body, radix) && digits_value(body, radix) <= max {
        Some(digits_value(body, radix) as nat)
    } else {
        None
    }
}

pub fn digit_of(c: char, radix: u32) -> (r: Option<u32>)
    requires
        radix == 10 || radix == 16,
    ensures
        match r {
            Some(v) => v as int == digit_value(c, radix as nat),
            None => digit_value(c, radix as nat) == -1,
        },
{
    let v: u32 = if '0' <= c && c <= '9' {
        (c as u32) - 48
    } else if 'a' <= c && c <= 'z' {
        (c as u32) - 87
    } else if 'A' <= c && c <= 'Z' {
        (c as u32) - 55
    } else {
        return None;
    };
    if v < radix {
        Some(v)
    } else {
        None
    }
}

/// A number that `parse_uint` reads is at most its limit.
pub proof fn lemma_parse_uint_bound(s: Seq<char>, radix: nat, max: nat)
    ensures
        parse_uint(s, radix, max) matches Some(v) ==> v <= max,
{
    let body = if s.len() > 0 && s[0] == '+' {
        s.drop_first()
    } else {
        s
    };
    if body.len() > 0 && all_digits(body, radix) {
        lemma_value_nonneg(body, radix);
    }
}

proof fn lemma_value_nonneg(s: Seq<char>, radix: nat)
    requires
        all_digits(s, radix),
    ensures
        digits_value(s, radix) >= 0,
    decreases s.len(),
{
    if s.len() > 0 {
        lemma_value_nonneg(s.drop_last(), radix);
        let x = digits_value(s.drop_last(), radix);
        assert(s.last() == s[s.len() - 1]);
        assert(x * radix >= 0) by (nonlinear_arith)
            requires
                x >= 0,
        ;
    }
}

proof fn lemma_value_mono(s: Seq<char>, i: int, radix: nat)
    requires
        all_digits(s, radix),
        0 <= i <= s.len(),
        radix >= 1,
    ensures
        digits_value(s.take(i), radix) <= digits_value(s, radix),
    decreases s.len(),
{
    if i == s.len() {
        assert(s.take(i) =~= s);
    } else {
        let t = s.drop_last();
        assert(all_digits(t, radix)) by {
            assert forall|j: int| 0 <= j < t.len() implies digit_value(#[trigger] t[j], radix)
                >= 0 by {
                assert(t[j] == s[j]);
            }
        }
        lemma_value_mono(t, i, radix);
        assert(t.take(i) =~= s.take(i));
        lemma_value_nonneg(t, radix);
        let x = digits_value(t, radix);
        assert(s.last() == s[s.len() - 1]);
        assert(x * radix >= x) by (nonlinear_arith)
            requires
                x >= 0,
                radix >= 1,
        ;
    }
}

/// Reads an unsigned number as `u64::from_str_radix` (radix 16) or `str::parse` (radix 10)
/// does, into a type whose largest value is `max`.
pub fn parse_radix(s: &[char], radix: u32, max: u64) -> (r: Option<u64>)
    requires
        radix == 10 || radix == 16,
    ensures
        match parse_uint(s@, radix as nat, max as nat) {
            Some(v) => r == Some(v as u64),
            None => r is None,
        },
{
    let start: usize = if s.len() > 0 && s[0] == '+' {
        1
    } else {
        0
    };
    let ghost body = if s@.len() > 0 && s@[0] == '+' {
        s@.drop_first()
    } else {
        s@
    };
    assert(body =~= s@.skip(start as int));
    if start >= s.len() {
        return None;
    }
    let mut acc: u64 = 0;
    let mut i: usize = start;
    while i < s.len()
        invariant
            start <= i <= s@.len(),
            body == s@.skip(start as int),
            body == (if s@.len() > 0 && s@[0] == '+' {
                s@.drop_first()
            } else {
                s@
            }),
            all_digits(body.take(i - start), radix as nat),
            acc as int == digits_value(body.take(i - start), radix as nat),
            acc <= max,
            radix == 10 || radix == 16,
        decreases s@.len() - i,
    {
        let ghost pre = body.take(i - start);
        let ghost post = body.take(i - start + 1);
        assert(post.drop_last() =~= pre);
        assert(post.last() == s@[i as int]);
        match digit_of(s[i], radix) {
            None => {
                assert(!all_digits(body, radix as nat)) by {
                    assert(body[i - start] == s@[i as int]);
                }
                return None;
            },
            Some(d) => {
                assert((acc as int) * (radix as int) <= 0xffff_ffff_ffff_ffff * 16) by (nonlinear_arith)
                    requires
                        acc as int <= 0xffff_ffff_ffff_ffff,
                        radix <= 16,
                ;
                let wide: u128 = (acc as u128) * (radix as u128) + (d as u128);
                if wide > max as u128 {
                    proof {
                        if all_digits(body, radix as nat) {
                            lemma_value_mono(body, i - start + 1, radix as nat);
                        }
                    }
                    return None;
                }
                acc = wide as u64;
                proof {
                    assert forall|j: int| 0 <= j < post.len() implies digit_value(
                        #[trigger] post[j],
                        radix as nat,
                    ) >= 0 by {
                        if j < pre.len() {
                            assert(post[j] == pre[j]);
                        }
                    }
                }
            },
        }
        i = i + 1;
    }
    assert(body.take(i - start) =~= body);
    Some(acc)
}

/// An address typed by a person: trimmed, hexadecimal after `0x`, else
/// decimal.
pub open spec fn address_value(s: Seq<char>) -> Option<nat> {
    let t = crate::text::trim(s);
    if starts(t, "0x"@) {
        parse_uint(t.skip(2), 16, u64::MAX as nat)
    } else {
        parse_uint(t, 10, u64::MAX as nat)
    }
}

/// Reads an address: `0x` then hex digits, or decimal digits.
pub fn parse_address_chars(s: &[char]) -> (r: Option<u64>)
    ensures
        match address_value(s@) {
            Some(v) => r == Some(v as u64),
            None => r is None,
        },
{
    let t = crate::text::trim_chars(s);
    if crate::text::starts_with_lit(t.as_slice(), "0x") {
        proof {
            reveal_strlit("0x");
        }
        let rest = crate::text::slice_of(t.as_slice(), 2, t.len());
        assert(rest@ =~= t@.skip(2));
        parse_radix(rest.as_slice(), 16, u64::MAX)
    } else {
        parse_radix(t.as_slice(), 10, u64::MAX)
    }
}

/// Reads an address from a string.
pub fn parse_address_str(s: &str) -> (r: Option<u64>)
    ensures
        match address_value(s@) {
            Some(v) => r == Some(v as u64),
            None => r is None,
        },
{
    let c = crate::text::chars_of(s);
    parse_address_chars(c.as_slice())
}

} // verus!
