//! Findings: what analyses emit.
//!
//! Every finding states its confidence and, when inferred, its limitations.
use vstd::prelude::*;

verus! {

#[derive(Debug, Clone, Copy, PartialEq, Eq, Structural)]
pub enum Confidence {
    /// Directly supported by the event stream (e.g. a stop-reason tally).
    High,
    /// Inferred but well-grounded (e.g. function transitions from stepping).
    Medium,
    /// Heuristic; treat as a hint (e.g. stack depth from inferred calls).
    Low,
}

impl Confidence {
    pub open spec fn label_spec(self) -> Seq<char> {
        match self {
            Confidence::High => "high"@,
            Confidence::Medium => "medium"@,
            Confidence::Low => "low"@,
        }
    }

    pub fn label(self) -> (r: &'static str)
        ensures
            r@ == self.label_spec(),
    {
        match self {
            Confidence::High => "high",
            Confidence::Medium => "medium",
            Confidence::Low => "low",
        }
    }
}

#[derive(Debug, Clone, PartialEq, Eq)]
pub struct Finding {
    /// Name of the analyzer that produced this.
    pub analyzer: String,
    /// Short category (e.g. "hot-function", "stop-summary").
    pub kind: String,
    pub summary: String,
    /// Supporting facts, human-readable.
    pub evidence: Vec<String>,
    /// Related event sequence numbers, for timeline cross-linking.
    pub related_events: Vec<u64>,
    /// Relevant symbol / source / address, when applicable.
    pub location: Option<String>,
    pub confidence: Confidence,
    /// What this finding does not establish.
    pub limitations: Option<String>,
}

impl Finding {
    pub fn new(analyzer: &str, kind: &str, summary: &str, confidence: Confidence) -> (r: Finding)
        ensures
            r.analyzer@ == analyzer@,
            r.kind@ == kind@,
            r.summary@ == summary@,
            r.evidence@.len() == 0,
            r.related_events@.len() == 0,
            r.location is None,
            r.confidence == confidence,
            r.limitations is None,
    {
        Finding {
            analyzer: analyzer.to_owned(),
            kind: kind.to_owned(),
            summary: summary.to_owned(),
            evidence: Vec::new(),
            related_events: Vec::new(),
            location: None,
            confidence,
            limitations: None,
        }
    }

    /// Adds one supporting fact at the end of the evidence.
    pub fn with_evidence(self, e: &str) -> (r: Finding)
        ensures
            r.evidence@.len() == self.evidence@.len() + 1,
            r.evidence@.drop_last() == self.evidence@,
            r.evidence@.last()@ == e@,
            r.analyzer == self.analyzer,
            r.kind == self.kind,
            r.summary == self.summary,
            r.related_events@ == self.related_events@,
            r.location == self.location,
            r.confidence == self.confidence,
            r.limitations == self.limitations,
    {
        let mut f = self;
        f.evidence.push(e.to_owned());
        proof {
            assert(f.evidence@.drop_last() =~= self.evidence@);
        }
        f
    }

    pub fn with_location(self, loc: &str) -> (r: Finding)
        ensures
            r.location is Some && r.location.unwrap()@ == loc@,
            r.analyzer == self.analyzer,
            r.kind == self.kind,
            r.summary == self.summary,
            r.evidence@ == self.evidence@,
            r.related_events@ == self.related_events@,
            r.confidence == self.confidence,
            r.limitations == self.limitations,
    {
        let mut f = self;
        f.location = Some(loc.to_owned());
        f
    }

    pub fn with_limitations(self, l: &str) -> (r: Finding)
        ensures
            r.limitations is Some && r.limitations.unwrap()@ == l@,
            r.analyzer == self.analyzer,
            r.kind == self.kind,
            r.summary == self.summary,
            r.evidence@ == self.evidence@,
            r.related_events@ == self.related_events@,
            r.location == self.location,
            r.confidence == self.confidence,
    {
        let mut f = self;
        f.limitations = Some(l.to_owned());
        f
    }
}

} // verus!
