//! Best-effort demangling of linker symbol names.
//!
//! The two decoders (Rust's and Itanium C++'s) are called through the
//! `rustc-demangle` and `cpp_demangle` crates; the order in which they are
//! tried, and what is returned when neither applies, is decided here.
use std::fmt::Write;
use vstd::prelude::*;
use crate::text::{chars_of, chars_eq, string_of, trim, trim_chars, starts, starts_with_lit, slice_of};

verus! {

/// What `rustc_demangle::try_demangle(s)` printed in its alternate form
/// (`{:#}`, without the hash suffix), or `None` when `s` is not a Rust symbol
/// or printing it failed.
pub uninterp spec fn rustc_demangled(s: Seq<char>) -> Option<Seq<char>>;

/// What `cpp_demangle::Symbol::new(s)` printed, or `None` when `s` does not
/// parse as an Itanium C++ mangled name or printing it failed.
pub uninterp spec fn cpp_demangled(s: Seq<char>) -> Option<Seq<char>>;

/// The characters of an optional string.
pub open spec fn opt_chars(o: Option<String>) -> Option<Seq<char>> {
    match o {
        Some(s) => Some(s@),
        None => None,
    }
}

/// Calls `rustc_demangle::try_demangle` and prints the result with `{:#}`.
/// The contract names the result and claims nothing else of it.
#[verifier::external_body]
fn rustc_try_demangle(s: &str) -> (r: Option<String>)
    ensures
        opt_chars(r) == rustc_demangled(s@),
{
    let d = rustc_demangle::try_demangle(s).ok()?;
    let mut out = String::new();
    match write!(out, "{d:#}") {
        Ok(()) => Some(out),
        Err(_) => None,
    }
}

/// Calls `cpp_demangle::Symbol::new` (default options) and prints the symbol.
/// The contract names the result and claims nothing else of it. That the
/// call returns on every input rests on the crate's own account: its README
/// reports long AFL fuzzing of the parser and printer without a panic; the
/// crate does not otherwise promise panic-freedom, and no input is excluded.
#[verifier::external_body]
fn cpp_try_demangle(s: &str) -> (r: Option<String>)
    ensures
        opt_chars(r) == cpp_demangled(s@),
{
    let sym = cpp_demangle::Symbol::new(s.as_bytes()).ok()?;
    let mut out = String::new();
    match write!(out, "{sym}") {
        Ok(()) => Some(out),
        Err(_) => None,
    }
}

/// Names that start like an Itanium C++ symbol (`_Z`, or `__Z` on macOS).
pub open spec fn itanium_like(t: Seq<char>) -> bool {
    starts(t, "_Z"@) || starts(t, "__Z"@)
}

/// The input handed to the C++ decoder: a macOS `__` prefix becomes `_`.
pub open spec fn cpp_input(t: Seq<char>) -> Seq<char> {
    if starts(t, "__"@) {
        seq!['_'] + t.skip(2)
    } else {
        t
    }
}

/// The decoding chosen for the trimmed name `t`, given what the Rust
/// decoder and the C++ decoder made of it; `None` when no scheme applies.
///
/// Rust v0 (`_R`) first, then Itanium C++, then legacy Rust for `_Z` names,
/// then any Rust result that differs from the name.
pub open spec fn demangle_choice(t: Seq<char>, rust: Option<Seq<char>>, cpp: Option<Seq<char>>) -> Option<Seq<char>> {
    if t.len() == 0 {
        None
    } else if starts(t, "_R"@) && rust is Some {
        rust
    } else if itanium_like(t) && cpp is Some {
        cpp
    } else if itanium_like(t) && rust is Some {
        rust
    } else if rust is Some && rust.unwrap() != t {
        rust
    } else {
        None
    }
}

/// The display name of a raw symbol name: its decoding, or the name as
/// given when no scheme applies.
pub open spec fn demangled_name(name: Seq<char>) -> Seq<char> {
    let t = trim(name);
    match demangle_choice(
        t,
        rustc_demangled(t),
        if itanium_like(t) {
            cpp_demangled(cpp_input(t))
        } else {
            None
        },
    ) {
        Some(d) => d,
        None => name,
    }
}

/// Picks the decoding of the trimmed name `trimmed` from the decoders'
/// results; `None` when no scheme applies.
pub fn pick_demangled(trimmed: &[char], rust: Option<String>, cpp: Option<String>) -> (r: Option<String>)
    ensures
        opt_chars(r) == demangle_choice(trimmed@, opt_chars(rust), opt_chars(cpp)),
{
    if trimmed.len() == 0 {
        return None;
    }
    let is_v0 = starts_with_lit(trimmed, "_R");
    let itanium = starts_with_lit(trimmed, "_Z") || starts_with_lit(trimmed, "__Z");
    if is_v0 {
        proof {
            reveal_strlit("_R");
            reveal_strlit("_Z");
            reveal_strlit("__Z");
            assert(trimmed@.take(2)[1] == 'R');
            assert(trimmed@.take(2)[1] == trimmed@[1]);
            assert(!starts(trimmed@, "_Z"@)) by {
                if starts(trimmed@, "_Z"@) {
                    assert(trimmed@.take(2)[1] == 'Z');
                }
            }
            assert(!starts(trimmed@, "__Z"@)) by {
                if starts(trimmed@, "__Z"@) {
                    assert(trimmed@.take(3)[1] == '_');
                    assert(trimmed@.take(3)[1] == trimmed@[1]);
                }
            }
        }
        if let Some(d) = rust {
            return Some(d);
        }
        return None;
    }
    if itanium {
        if let Some(d) = cpp {
            return Some(d);
        }
        if let Some(d) = rust {
            return Some(d);
        }
        return None;
    }
    match rust {
        Some(d) => {
            let dc = chars_of(d.as_str());
            if chars_eq(dc.as_slice(), trimmed) {
                None
            } else {
                Some(d)
            }
        },
        None => None,
    }
}

/// Best-effort demangle of a linker symbol name; a name that no scheme
/// decodes comes back as given.
pub fn demangle(name: &str) -> (r: String)
    ensures
        r@ == demangled_name(name@),
{
    let raw = chars_of(name);
    let t = trim_chars(raw.as_slice());
    if t.len() == 0 {
        return name.to_owned();
    }
    let ts = string_of(t.as_slice());
    let rust = rustc_try_demangle(ts.as_str());
    let itanium = starts_with_lit(t.as_slice(), "_Z") || starts_with_lit(t.as_slice(), "__Z");
    let cpp = if itanium {
        let input = if starts_with_lit(t.as_slice(), "__") {
            proof {
                reveal_strlit("__");
            }
            let mut v: Vec<char> = vec!['_'];
            let rest = slice_of(t.as_slice(), 2, t.len());
            let ghost before = v@;
            crate::text::push_chars(&mut v, rest.as_slice());
            proof {
                assert(rest@ =~= t@.skip(2));
                assert(v@ =~= seq!['_'] + t@.skip(2));
            }
            string_of(v.as_slice())
        } else {
            string_of(t.as_slice())
        };
        cpp_try_demangle(input.as_str())
    } else {
        None
    };
    match pick_demangled(t.as_slice(), rust, cpp) {
        Some(d) => d,
        None => name.to_owned(),
    }
}

/// Whether the trimmed name starts like a mangled symbol (`_R`, `_Z`, `__Z`).
pub fn looks_mangled(name: &str) -> (r: bool)
    ensures
        r == (starts(trim(name@), "_R"@) || itanium_like(trim(name@))),
{
    let raw = chars_of(name);
    let t = trim_chars(raw.as_slice());
    starts_with_lit(t.as_slice(), "_R") || starts_with_lit(t.as_slice(), "_Z")
        || starts_with_lit(t.as_slice(), "__Z")
}

} // verus!
