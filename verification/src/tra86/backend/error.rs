//! Backend failures.
use vstd::prelude::*;
use crate::text::{chars_of, push_chars, string_of};

verus! {

#[derive(Debug)]
pub enum BackendError {
    Unavailable(String),
    Unsupported(String),
    InvalidRequest(String),
    ProcessNotRunning,
    NotAttached,
    Io(String),
    Protocol(String),
    Timeout,
    Internal(String),
}

/// The message of an error, as it is displayed.
pub open spec fn backend_error_text(e: BackendError) -> Seq<char> {
    match e {
        BackendError::Unavailable(s) => "backend unavailable: "@ + s@,
        BackendError::Unsupported(s) => "unsupported operation: "@ + s@,
        BackendError::InvalidRequest(s) => "invalid request: "@ + s@,
        BackendError::ProcessNotRunning => "process not running"@,
        BackendError::NotAttached => "not attached"@,
        BackendError::Io(s) => "io error: "@ + s@,
        BackendError::Protocol(s) => "protocol error: "@ + s@,
        BackendError::Timeout => "timeout while waiting for backend"@,
        BackendError::Internal(s) => "internal backend error: "@ + s@,
    }
}

fn prefixed(prefix: &str, s: &String) -> (r: String)
    ensures
        r@ == prefix@ + s@,
{
    let mut v = chars_of(prefix);
    let c = chars_of(s.as_str());
    push_chars(&mut v, c.as_slice());
    string_of(v.as_slice())
}

impl BackendError {
    /// The displayed message.
    pub fn message(&self) -> (r: String)
        ensures
            r@ == backend_error_text(*self),
    {
        match self {
            BackendError::Unavailable(s) => prefixed("backend unavailable: ", s),
            BackendError::Unsupported(s) => prefixed("unsupported operation: ", s),
            BackendError::InvalidRequest(s) => prefixed("invalid request: ", s),
            BackendError::ProcessNotRunning => "process not running".to_owned(),
            BackendError::NotAttached => "not attached".to_owned(),
            BackendError::Io(s) => prefixed("io error: ", s),
            BackendError::Protocol(s) => prefixed("protocol error: ", s),
            BackendError::Timeout => "timeout while waiting for backend".to_owned(),
            BackendError::Internal(s) => prefixed("internal backend error: ", s),
        }
    }
}

} // verus!
