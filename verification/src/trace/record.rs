//! The versioned trace format: metadata, annotations, the record, and the
//! rule that keeps secrets out of a persisted environment.
use vstd::prelude::*;
use crate::bind_core::arch::Architecture;
use crate::bind_core::event::SequencedEvent;
use crate::bind_core::event::wall_clock_nanos;
use crate::text::{chars_of, contains_lit, occurs, upper_all, upper_seq};

verus! {

/// Current trace schema version. The major is bumped on breaking layout changes.
pub const SCHEMA_VERSION: u32 = 1;

/// The version of this library written into traces it records.
pub const BIND_VERSION: &'static str = "0.1.0";

/// Sampling / filtering policy that produced a trace.
#[derive(Debug, Clone, PartialEq, Eq, Default)]
pub struct TracePolicy {
    pub filter_description: Option<String>,
    /// 1 = every event; N = roughly one in N (0 means unsampled).
    pub sample_rate: u32,
    pub retention_capacity: Option<usize>,
}

/// Environment and target a trace was captured against.
#[derive(Debug, Clone, PartialEq, Eq)]
pub struct TraceMetadata {
    pub schema_version: u32,
    pub bind_version: String,
    pub lldb_version: Option<String>,
    pub host_os: String,
    pub arch: Architecture,
    pub executable: Option<String>,
    pub executable_hash: Option<String>,
    pub command_line: Vec<String>,
    /// Environment with secrets excluded (see [`sanitize_env`]).
    pub environment: Vec<(String, String)>,
    pub modules: Vec<String>,
    /// Wall-clock nanoseconds since the Unix epoch.
    pub started_at: Option<i64>,
    pub ended_at: Option<i64>,
    pub policy: TracePolicy,
    /// Events dropped by retention/sampling.
    pub dropped_events: u64,
}

/// A copy of a vector of strings.
pub fn dup_strings(v: &Vec<String>) -> (r: Vec<String>)
    ensures
        r@ == v@,
{
    let mut r: Vec<String> = Vec::new();
    let mut i: usize = 0;
    while i < v.len()
        invariant
            i <= v@.len(),
            r@ =~= v@.take(i as int),
        decreases v@.len() - i,
    {
        r.push(v[i].clone());
        i = i + 1;
    }
    assert(v@.take(v@.len() as int) =~= v@);
    r
}

/// A copy of a vector of string pairs.
pub fn dup_pairs(v: &Vec<(String, String)>) -> (r: Vec<(String, String)>)
    ensures
        r@ == v@,
{
    let mut r: Vec<(String, String)> = Vec::new();
    let mut i: usize = 0;
    while i < v.len()
        invariant
            i <= v@.len(),
            r@ =~= v@.take(i as int),
        decreases v@.len() - i,
    {
        let (a, b) = &v[i];
        r.push((a.clone(), b.clone()));
        i = i + 1;
    }
    assert(v@.take(v@.len() as int) =~= v@);
    r
}

impl TraceMetadata {
    /// A field-for-field copy.
    pub fn dup(&self) -> (r: TraceMetadata)
        ensures
            r.schema_version == self.schema_version,
            r.bind_version == self.bind_version,
            r.lldb_version == self.lldb_version,
            r.host_os == self.host_os,
            r.arch == self.arch,
            r.executable == self.executable,
            r.executable_hash == self.executable_hash,
            r.command_line@ == self.command_line@,
            r.environment@ == self.environment@,
            r.modules@ == self.modules@,
            r.started_at == self.started_at,
            r.ended_at == self.ended_at,
            r.policy == self.policy,
            r.dropped_events == self.dropped_events,
    {
        TraceMetadata {
            schema_version: self.schema_version,
            bind_version: self.bind_version.clone(),
            lldb_version: crate::bind_core::model::dup_opt_string(&self.lldb_version),
            host_os: self.host_os.clone(),
            arch: self.arch,
            executable: crate::bind_core::model::dup_opt_string(&self.executable),
            executable_hash: crate::bind_core::model::dup_opt_string(&self.executable_hash),
            command_line: dup_strings(&self.command_line),
            environment: dup_pairs(&self.environment),
            modules: dup_strings(&self.modules),
            started_at: self.started_at,
            ended_at: self.ended_at,
            policy: TracePolicy {
                filter_description: crate::bind_core::model::dup_opt_string(
                    &self.policy.filter_description,
                ),
                sample_rate: self.policy.sample_rate,
                retention_capacity: self.policy.retention_capacity,
            },
            dropped_events: self.dropped_events,
        }
    }

    /// Metadata for a new trace of `arch`, stamped with the current time. The host
    /// operating system is left empty for the caller that can ask the OS.
    pub fn new(arch: Architecture) -> (m: TraceMetadata)
        ensures
            m.schema_version == SCHEMA_VERSION,
            m.bind_version@ == BIND_VERSION@,
            m.lldb_version is None,
            m.host_os@.len() == 0,
            m.arch == arch,
            m.executable is None,
            m.executable_hash is None,
            m.command_line@.len() == 0,
            m.environment@.len() == 0,
            m.modules@.len() == 0,
            m.ended_at is None,
            m.policy.filter_description is None,
            m.policy.sample_rate == 0,
            m.policy.retention_capacity is None,
            m.dropped_events == 0,
    {
        TraceMetadata {
            schema_version: SCHEMA_VERSION,
            bind_version: BIND_VERSION.to_owned(),
            lldb_version: None,
            host_os: String::new(),
            arch,
            executable: None,
            executable_hash: None,
            command_line: Vec::new(),
            environment: Vec::new(),
            modules: Vec::new(),
            started_at: wall_clock_nanos(),
            ended_at: None,
            policy: TracePolicy { filter_description: None, sample_rate: 0, retention_capacity: None },
            dropped_events: 0,
        }
    }

    /// Whether this reader can faithfully interpret the trace's major version.
    pub fn is_compatible(&self) -> (b: bool)
        ensures
            b == (self.schema_version <= SCHEMA_VERSION),
    {
        self.schema_version <= SCHEMA_VERSION
    }
}

/// A note or bookmark attached to an event of a trace.
#[derive(Debug, Clone, PartialEq, Eq, Default)]
pub struct Annotation {
    pub seq: u64,
    pub note: String,
}

/// Metadata plus the recorded, sequenced event stream.
#[derive(Debug, Clone, PartialEq, Eq)]
pub struct TraceRecord {
    pub metadata: TraceMetadata,
    pub events: Vec<SequencedEvent>,
    pub annotations: Vec<Annotation>,
}

impl TraceRecord {
    pub fn new(metadata: TraceMetadata) -> (r: TraceRecord)
        ensures
            r.metadata == metadata,
            r.events@.len() == 0,
            r.annotations@.len() == 0,
    {
        TraceRecord { metadata, events: Vec::new(), annotations: Vec::new() }
    }
}

/// Whether a variable name looks secret: its upper-cased form contains one of the
/// denied words.
pub open spec fn secret_name(k: Seq<char>) -> bool {
    let u = upper_seq(k);
    ||| occurs(u, "TOKEN"@)
    ||| occurs(u, "SECRET"@)
    ||| occurs(u, "PASSWORD"@)
    ||| occurs(u, "PASSWD"@)
    ||| occurs(u, "KEY"@)
    ||| occurs(u, "CREDENTIAL"@)
    ||| occurs(u, "AUTH"@)
    ||| occurs(u, "SESSION"@)
}

/// The entries of `env` whose names do not look secret, in order.
pub open spec fn kept_env(env: Seq<(String, String)>) -> Seq<(String, String)>
    decreases env.len(),
{
    if env.len() == 0 {
        Seq::empty()
    } else {
        let rest = kept_env(env.drop_last());
        if secret_name(env.last().0@) {
            rest
        } else {
            rest.push(env.last())
        }
    }
}

fn is_secret(k: &str) -> (b: bool)
    ensures
        b == secret_name(k@),
{
    let c = chars_of(k);
    let u = upper_all(c.as_slice());
    let s = u.as_slice();
    contains_lit(s, "TOKEN") || contains_lit(s, "SECRET") || contains_lit(s, "PASSWORD")
        || contains_lit(s, "PASSWD") || contains_lit(s, "KEY") || contains_lit(s, "CREDENTIAL")
        || contains_lit(s, "AUTH") || contains_lit(s, "SESSION")
}

/// Drops environment variables whose names look secret.
pub fn sanitize_env(env: &[(String, String)]) -> (r: Vec<(String, String)>)
    ensures
        r@ == kept_env(env@),
{
    let mut r: Vec<(String, String)> = Vec::new();
    let mut i: usize = 0;
    while i < env.len()
        invariant
            i <= env@.len(),
            r@ == kept_env(env@.take(i as int)),
        decreases env@.len() - i,
    {
        proof {
            assert(env@.take(i + 1).drop_last() =~= env@.take(i as int));
        }
        let (k, v) = &env[i];
        if !is_secret(k.as_str()) {
            r.push((k.clone(), v.clone()));
        }
        i = i + 1;
    }
    assert(env@.take(env@.len() as int) =~= env@);
    r
}

/// A sanitized environment never holds a secret-looking name.
pub proof fn lemma_sanitized_has_no_secret(env: Seq<(String, String)>)
    ensures
        forall|i: int| 0 <= i < kept_env(env).len() ==> !secret_name(#[trigger] kept_env(env)[i].0@),
    decreases env.len(),
{
    if env.len() > 0 {
        lemma_sanitized_has_no_secret(env.drop_last());
        let rest = kept_env(env.drop_last());
        if !secret_name(env.last().0@) {
            assert forall|i: int| 0 <= i < kept_env(env).len() implies !secret_name(
                #[trigger] kept_env(env)[i].0@,
            ) by {
                if i < rest.len() {
                    assert(kept_env(env)[i] == rest[i]);
                }
            }
        }
    }
}

} // verus!
