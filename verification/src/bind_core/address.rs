//! Virtual addresses and half-open address ranges.
use vstd::prelude::*;
use crate::num::{hex_addr, fmt_hex_addr};
use crate::text::string_of;

verus! {

/// A target virtual address.
#[derive(Debug, Clone, Copy, PartialEq, Eq, Structural, PartialOrd, Ord, Hash, Default)]
pub struct Address(pub u64);

impl Address {
    pub fn new(raw: u64) -> (a: Address)
        ensures
            a.0 == raw,
    {
        Address(raw)
    }

    pub fn raw(self) -> (r: u64)
        ensures
            r == self.0,
    {
        self.0
    }

    pub fn is_null(self) -> (r: bool)
        ensures
            r == (self.0 == 0),
    {
        self.0 == 0
    }

    /// Adds a byte offset, saturating at the top of the address space.
    pub fn offset(self, delta: u64) -> (a: Address)
        ensures
            a.0 == if self.0 + delta > u64::MAX {
                u64::MAX as int
            } else {
                self.0 + delta
            },
    {
        Address(self.0.saturating_add(delta))
    }

    /// Signed distance `self - other`, truncated to 64 bits.
    pub fn distance_from(self, other: Address) -> (d: i64)
        ensures
            d == (self.0 as int - other.0 as int) as i64,
    {
        ((self.0 as i128) - (other.0 as i128)) as i64
    }

    /// `0x` followed by lower-case hex digits.
    pub fn to_display(self) -> (s: String)
        ensures
            s@ == hex_addr(self.0 as nat),
    {
        let v = fmt_hex_addr(self.0);
        string_of(v.as_slice())
    }
}

/// The address `0`.
pub fn null_address() -> (a: Address)
    ensures
        a.0 == 0,
{
    Address(0)
}

/// A half-open range `[start, start+len)`.
#[derive(Debug, Clone, Copy, PartialEq, Eq, Structural)]
pub struct AddressRange {
    pub start: Address,
    pub len: u64,
}

/// The (saturated) end of a range.
pub open spec fn range_end(r: AddressRange) -> int {
    if r.start.0 + r.len > u64::MAX {
        u64::MAX as int
    } else {
        r.start.0 + r.len
    }
}

/// `a` lies in the half-open range `[start, start+len)`.
pub open spec fn in_range(r: AddressRange, a: u64) -> bool {
    r.start.0 <= a && a - r.start.0 < r.len
}

impl AddressRange {
    pub fn new(start: Address, len: u64) -> (r: AddressRange)
        ensures
            r.start == start,
            r.len == len,
    {
        AddressRange { start, len }
    }

    /// From an inclusive start and exclusive end; an inverted pair gives an empty range.
    pub fn from_bounds(start: Address, end: Address) -> (r: AddressRange)
        ensures
            r.start == start,
            r.len == if end.0 >= start.0 {
                (end.0 - start.0) as u64
            } else {
                0u64
            },
    {
        let len = end.0.saturating_sub(start.0);
        AddressRange { start, len }
    }

    pub fn end(self) -> (a: Address)
        ensures
            a.0 == range_end(self),
    {
        self.start.offset(self.len)
    }

    pub fn contains(self, addr: Address) -> (b: bool)
        ensures
            b == in_range(self, addr.0),
    {
        addr.0 >= self.start.0 && addr.0 - self.start.0 < self.len
    }

    /// An empty range holds no address; any other holds its start.
    pub fn is_empty(self) -> (b: bool)
        ensures
            b == (self.len == 0),
            b ==> forall|a: u64| !#[trigger] in_range(self, a),
            !b ==> in_range(self, self.start.0),
    {
        self.len == 0
    }

    /// `[start, end)` rendered with hex addresses.
    pub fn to_display(self) -> (s: String)
        ensures
            s@ == seq!['['] + hex_addr(self.start.0 as nat) + seq![',', ' '] + hex_addr(
                range_end(self) as nat,
            ) + seq![')'],
    {
        let mut v: Vec<char> = Vec::new();
        v.push('[');
        let a = fmt_hex_addr(self.start.0);
        crate::text::push_chars(&mut v, a.as_slice());
        v.push(',');
        v.push(' ');
        let b = fmt_hex_addr(self.end().0);
        crate::text::push_chars(&mut v, b.as_slice());
        v.push(')');
        string_of(v.as_slice())
    }
}

} // verus!
