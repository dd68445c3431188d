//! Categories of failure, so the UI can present each one as what it is.
use vstd::prelude::*;
use crate::text::{push_str, string_of};

verus! {

#[derive(Debug, Clone, PartialEq, Eq)]
pub enum BindError {
    /// The user asked for something malformed. Recoverable.
    UserInput(String),
    /// Meaningful, but this backend does not implement it.
    Unsupported(String),
    /// Implemented, but the current target/capabilities can't.
    CapabilityLimited(String),
    /// The target is in the wrong state for this operation.
    TargetState(String),
    /// The underlying debugger engine returned an error.
    Backend(String),
    Symbol(String),
    Memory(String),
    Trace(String),
    /// A broken assumption inside Bind itself.
    Internal(String),
}

/// The result of a debugger operation.
pub type BindResult<T> = Result<T, BindError>;

pub open spec fn category_of(e: BindError) -> Seq<char> {
    match e {
        BindError::UserInput(_) => "input"@,
        BindError::Unsupported(_) => "unsupported"@,
        BindError::CapabilityLimited(_) => "unavailable"@,
        BindError::TargetState(_) => "state"@,
        BindError::Backend(_) => "backend"@,
        BindError::Symbol(_) => "symbol"@,
        BindError::Memory(_) => "memory"@,
        BindError::Trace(_) => "trace"@,
        BindError::Internal(_) => "internal"@,
    }
}

/// The human-readable message: a category phrase, a colon, and the detail.
pub open spec fn message_of(e: BindError) -> Seq<char> {
    match e {
        BindError::UserInput(s) => "invalid input: "@ + s@,
        BindError::Unsupported(s) => "unsupported: "@ + s@,
        BindError::CapabilityLimited(s) => "not available: "@ + s@,
        BindError::TargetState(s) => "invalid target state: "@ + s@,
        BindError::Backend(s) => "backend error: "@ + s@,
        BindError::Symbol(s) => "symbol resolution failed: "@ + s@,
        BindError::Memory(s) => "memory read failed: "@ + s@,
        BindError::Trace(s) => "trace storage error: "@ + s@,
        BindError::Internal(s) => "internal error: "@ + s@,
    }
}

impl BindError {
    /// True for errors the user can act on by retrying with other input.
    pub fn is_user_actionable(&self) -> (b: bool)
        ensures
            b == (*self is UserInput),
    {
        match self {
            BindError::UserInput(_) => true,
            _ => false,
        }
    }

    /// A short category label for UI badges and logs.
    pub fn category(&self) -> (s: &'static str)
        ensures
            s@ == category_of(*self),
    {
        match self {
            BindError::UserInput(_) => "input",
            BindError::Unsupported(_) => "unsupported",
            BindError::CapabilityLimited(_) => "unavailable",
            BindError::TargetState(_) => "state",
            BindError::Backend(_) => "backend",
            BindError::Symbol(_) => "symbol",
            BindError::Memory(_) => "memory",
            BindError::Trace(_) => "trace",
            BindError::Internal(_) => "internal",
        }
    }

    /// The concise user-facing text of the error.
    pub fn message(&self) -> (s: String)
        ensures
            s@ == message_of(*self),
    {
        let mut v: Vec<char> = Vec::new();
        match self {
            BindError::UserInput(s) => {
                push_str(&mut v, "invalid input: ");
                push_str(&mut v, s.as_str());
            },
            BindError::Unsupported(s) => {
                push_str(&mut v, "unsupported: ");
                push_str(&mut v, s.as_str());
            },
            BindError::CapabilityLimited(s) => {
                push_str(&mut v, "not available: ");
                push_str(&mut v, s.as_str());
            },
            BindError::TargetState(s) => {
                push_str(&mut v, "invalid target state: ");
                push_str(&mut v, s.as_str());
            },
            BindError::Backend(s) => {
                push_str(&mut v, "backend error: ");
                push_str(&mut v, s.as_str());
            },
            BindError::Symbol(s) => {
                push_str(&mut v, "symbol resolution failed: ");
                push_str(&mut v, s.as_str());
            },
            BindError::Memory(s) => {
                push_str(&mut v, "memory read failed: ");
                push_str(&mut v, s.as_str());
            },
            BindError::Trace(s) => {
                push_str(&mut v, "trace storage error: ");
                push_str(&mut v, s.as_str());
            },
            BindError::Internal(s) => {
                push_str(&mut v, "internal error: ");
                push_str(&mut v, s.as_str());
            },
        }
        string_of(v.as_slice())
    }
}

} // verus!
