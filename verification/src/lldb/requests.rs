//! The parameters of each driver request, as JSON objects.
use vstd::prelude::*;
use crate::bind_core::address::Address;
use crate::bind_core::command::{RunTarget, StepKind};
use crate::bind_core::model::{BreakpointLocation, TargetSpec};
use crate::lldb::json::{JsonNumber, JsonValue};

verus! {

/// A member holding a string.
pub open spec fn str_member(m: (String, JsonValue), key: Seq<char>, val: Seq<char>) -> bool {
    m.0@ == key && str_value(m.1, val)
}

/// A member holding a non-negative integer.
pub open spec fn u64_member(m: (String, JsonValue), key: Seq<char>, n: u64) -> bool {
    m.0@ == key && m.1 == JsonValue::Number(JsonNumber::Unsigned(n))
}

/// The members of an object; none for other values.
pub open spec fn members(v: JsonValue) -> Seq<(String, JsonValue)> {
    match v {
        JsonValue::Object(f) => f@,
        _ => Seq::empty(),
    }
}

fn str_pair(key: &str, val: &str) -> (m: (String, JsonValue))
    ensures
        str_member(m, key@, val@),
{
    (key.to_owned(), JsonValue::Str(val.to_owned()))
}

fn u64_pair(key: &str, n: u64) -> (m: (String, JsonValue))
    ensures
        u64_member(m, key@, n),
{
    (key.to_owned(), JsonValue::Number(JsonNumber::Unsigned(n)))
}

/// An object with no members.
pub fn empty_request() -> (r: JsonValue)
    ensures
        r is Object && members(r).len() == 0,
{
    JsonValue::Object(Vec::new())
}

/// An object with one integer member, such as `{"pid": 42}`.
pub fn u64_request(key: &str, n: u64) -> (r: JsonValue)
    ensures
        r is Object && members(r).len() == 1 && u64_member(members(r)[0], key@, n),
{
    let mut f: Vec<(String, JsonValue)> = Vec::new();
    f.push(u64_pair(key, n));
    JsonValue::Object(f)
}

/// An object with one string member, such as `{"program": "./demo"}`.
pub fn str_request(key: &str, val: &str) -> (r: JsonValue)
    ensures
        r is Object && members(r).len() == 1 && str_member(members(r)[0], key@, val@),
{
    let mut f: Vec<(String, JsonValue)> = Vec::new();
    f.push(str_pair(key, val));
    JsonValue::Object(f)
}

/// The driver's name for a step kind.
pub open spec fn step_name(k: StepKind) -> Seq<char> {
    match k {
        StepKind::Into => "into"@,
        StepKind::Over => "over"@,
        StepKind::Out => "out"@,
        StepKind::Instruction => "instruction"@,
    }
}

/// `{"kind": ...}` for a step.
pub fn step_request(kind: StepKind) -> (r: JsonValue)
    ensures
        r is Object && members(r).len() == 1 && str_member(members(r)[0], "kind"@, step_name(kind)),
{
    let name = match kind {
        StepKind::Into => "into",
        StepKind::Over => "over",
        StepKind::Out => "out",
        StepKind::Instruction => "instruction",
    };
    str_request("kind", name)
}

/// The members that name a breakpoint location.
pub open spec fn location_members(loc: BreakpointLocation, f: Seq<(String, JsonValue)>) -> bool {
    match loc {
        BreakpointLocation::Symbol(name) => f.len() == 2 && str_member(f[0], "kind"@, "symbol"@)
            && str_member(f[1], "name"@, name@),
        BreakpointLocation::Address(a) => f.len() == 2 && str_member(f[0], "kind"@, "address"@)
            && u64_member(f[1], "address"@, a.0),
        BreakpointLocation::Source { file, line } => f.len() == 3 && str_member(f[0], "kind"@, "source"@)
            && str_member(f[1], "file"@, file@) && u64_member(f[2], "line"@, line as u64),
    }
}

fn location_fields(loc: &BreakpointLocation) -> (f: Vec<(String, JsonValue)>)
    ensures
        location_members(*loc, f@),
{
    let mut f: Vec<(String, JsonValue)> = Vec::new();
    match loc {
        BreakpointLocation::Symbol(name) => {
            f.push(str_pair("kind", "symbol"));
            f.push(str_pair("name", name.as_str()));
        },
        BreakpointLocation::Address(a) => {
            f.push(str_pair("kind", "address"));
            f.push(u64_pair("address", a.0));
        },
        BreakpointLocation::Source { file, line } => {
            f.push(str_pair("kind", "source"));
            f.push(str_pair("file", file.as_str()));
            f.push(u64_pair("line", *line as u64));
        },
    }
    f
}

/// The `add_breakpoint` parameters: the location, then the condition when
/// there is one.
pub fn breakpoint_request(loc: &BreakpointLocation, condition: Option<&str>) -> (r: JsonValue)
    ensures
        r is Object,
        match condition {
            Some(c) => members(r).len() >= 1 && location_members(*loc, members(r).drop_last())
                && str_member(members(r).last(), "condition"@, c@),
            None => location_members(*loc, members(r)),
        },
{
    let mut f = location_fields(loc);
    match condition {
        Some(c) => {
            let ghost before = f@;
            f.push(str_pair("condition", c));
            assert(f@.drop_last() =~= before);
        },
        None => {},
    }
    JsonValue::Object(f)
}

/// The temporary breakpoint that runs to a target.
pub fn run_to_request(target: &RunTarget) -> (r: JsonValue)
    ensures
        r is Object,
        match *target {
            RunTarget::Address(a) => location_members(BreakpointLocation::Address(a), members(r)),
            RunTarget::Source { file, line } => members(r).len() == 3 && str_member(members(r)[0], "kind"@, "source"@)
                && str_member(members(r)[1], "file"@, file@) && u64_member(members(r)[2], "line"@, line as u64),
        },
{
    let mut f: Vec<(String, JsonValue)> = Vec::new();
    match target {
        RunTarget::Address(a) => {
            f.push(str_pair("kind", "address"));
            f.push(u64_pair("address", a.0));
        },
        RunTarget::Source { file, line } => {
            f.push(str_pair("kind", "source"));
            f.push(str_pair("file", file.as_str()));
            f.push(u64_pair("line", *line as u64));
        },
    }
    JsonValue::Object(f)
}

/// `{"address": ..., "length": ...}` for a memory read.
pub fn memory_request(addr: Address, len: usize) -> (r: JsonValue)
    ensures
        r is Object && members(r).len() == 2 && u64_member(members(r)[0], "address"@, addr.0)
            && u64_member(members(r)[1], "length"@, len as u64),
{
    let mut f: Vec<(String, JsonValue)> = Vec::new();
    f.push(u64_pair("address", addr.0));
    f.push(u64_pair("length", len as u64));
    JsonValue::Object(f)
}

/// `{"count": ...}`, with the address to disassemble around when given.
pub fn disassemble_request(around: Option<Address>, count: usize) -> (r: JsonValue)
    ensures
        r is Object,
        u64_member(members(r)[0], "count"@, count as u64),
        match around {
            Some(a) => members(r).len() == 2 && u64_member(members(r)[1], "address"@, a.0),
            None => members(r).len() == 1,
        },
{
    let mut f: Vec<(String, JsonValue)> = Vec::new();
    f.push(u64_pair("count", count as u64));
    match around {
        Some(a) => f.push(u64_pair("address", a.0)),
        None => {},
    }
    JsonValue::Object(f)
}

/// A string value holding `s`.
pub open spec fn str_value(v: JsonValue, s: Seq<char>) -> bool {
    v matches JsonValue::Str(x) && x@ == s
}

/// A `[name, value]` pair of strings.
pub open spec fn pair_value(v: JsonValue, k: Seq<char>, val: Seq<char>) -> bool {
    match v {
        JsonValue::Array(kv) => kv@.len() == 2 && str_value(kv@[0], k) && str_value(kv@[1], val),
        _ => false,
    }
}

/// An array's items; none for other values.
pub open spec fn array_of(v: JsonValue) -> Option<Seq<JsonValue>> {
    match v {
        JsonValue::Array(items) => Some(items@),
        _ => None,
    }
}

/// The `launch` parameters: the arguments, the working directory (null
/// when none), the environment as `[name, value]` pairs, and whether to
/// stop at the entry point.
pub open spec fn launch_members(t: TargetSpec, f: Seq<(String, JsonValue)>) -> bool {
    &&& f.len() == 4
    &&& f[0].0@ == "args"@
    &&& array_of(f[0].1) matches Some(args)
    &&& args.len() == t.args@.len()
    &&& forall|i: int| 0 <= i < args.len() ==> str_value(#[trigger] args[i], t.args@[i]@)
    &&& f[1].0@ == "cwd"@
    &&& match t.cwd {
        Some(c) => str_value(f[1].1, c@),
        None => f[1].1 == JsonValue::Null,
    }
    &&& f[2].0@ == "env"@
    &&& array_of(f[2].1) matches Some(env)
    &&& env.len() == t.env@.len()
    &&& forall|i: int| 0 <= i < env.len() ==> pair_value(#[trigger] env[i], t.env@[i].0@, t.env@[i].1@)
    &&& f[3].0@ == "stop_at_entry"@
    &&& f[3].1 == JsonValue::Bool(t.stop_at_entry)
}

pub fn launch_request(t: &TargetSpec) -> (r: JsonValue)
    ensures
        r is Object && launch_members(*t, members(r)),
{
    let mut args: Vec<JsonValue> = Vec::new();
    let mut i: usize = 0;
    while i < t.args.len()
        invariant
            i <= t.args@.len(),
            args@.len() == i,
            forall|j: int| 0 <= j < i ==> str_value(#[trigger] args@[j], t.args@[j]@),
        decreases t.args@.len() - i,
    {
        args.push(JsonValue::Str(t.args[i].clone()));
        i = i + 1;
    }
    let mut env: Vec<JsonValue> = Vec::new();
    let mut k: usize = 0;
    while k < t.env.len()
        invariant
            k <= t.env@.len(),
            env@.len() == k,
            forall|j: int| 0 <= j < k ==> pair_value(#[trigger] env@[j], t.env@[j].0@, t.env@[j].1@),
        decreases t.env@.len() - k,
    {
        let (name, value) = &t.env[k];
        let mut kv: Vec<JsonValue> = Vec::new();
        kv.push(JsonValue::Str(name.clone()));
        kv.push(JsonValue::Str(value.clone()));
        env.push(JsonValue::Array(kv));
        k = k + 1;
    }
    let cwd = match &t.cwd {
        Some(c) => JsonValue::Str(c.clone()),
        None => JsonValue::Null,
    };
    let mut f: Vec<(String, JsonValue)> = Vec::new();
    f.push(("args".to_owned(), JsonValue::Array(args)));
    f.push(("cwd".to_owned(), cwd));
    f.push(("env".to_owned(), JsonValue::Array(env)));
    f.push(("stop_at_entry".to_owned(), JsonValue::Bool(t.stop_at_entry)));
    JsonValue::Object(f)
}

} // verus!
