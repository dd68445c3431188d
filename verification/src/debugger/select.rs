//! Which backend a session runs on.
use vstd::prelude::*;
use crate::text::{push_str, string_of};

verus! {

/// The backend a session starts with.
#[derive(Debug, Clone, Copy, PartialEq, Eq, Structural)]
pub enum BackendKind {
    Mock,
    Lldb,
}

/// The backend to try first: the mock when it is asked for or when LLDB's
/// scripting environment is missing, else LLDB.
pub fn backend_to_try(prefer_mock: bool, lldb_available: bool) -> (k: BackendKind)
    ensures
        k == (if prefer_mock || !lldb_available { BackendKind::Mock } else { BackendKind::Lldb }),
{
    if prefer_mock || !lldb_available {
        BackendKind::Mock
    } else {
        BackendKind::Lldb
    }
}

/// The warning shown when the session falls back to the mock: `failure` is
/// why connecting to LLDB failed, or `None` when LLDB was not found.
pub fn fallback_warning(failure: Option<&str>) -> (w: String)
    ensures
        w@ == match failure {
            Some(m) => "warning: LLDB backend unavailable ("@ + m@ + "); using mock backend"@,
            None => "warning: LLDB SB-API not detected; using mock backend (`--mock` to silence)"@,
        },
{
    let mut v: Vec<char> = Vec::new();
    match failure {
        Some(m) => {
            push_str(&mut v, "warning: LLDB backend unavailable (");
            push_str(&mut v, m);
            push_str(&mut v, "); using mock backend");
        },
        None => {
            push_str(&mut v, "warning: LLDB SB-API not detected; using mock backend (`--mock` to silence)");
        },
    }
    string_of(v.as_slice())
}

} // verus!
