//! The closed status vocabulary of the harness and the schema of the
//! per-instance `metadata.json` record.
//!
//! Dispatch moves an instance `Prepared -> {Complete, Failed}`; validation
//! independently classifies a run as `Success`, `TestFailure` or
//! `Timeout`.  One closed enumeration covers both pipelines.

use vstd::prelude::*;

use crate::text::str_eq;

verus! {

/// Every state a task instance or validation run can be reported in.
#[derive(Clone, Copy, PartialEq, Eq, Structural, Debug)]
pub enum Status {
    /// The layout builder created the instance; nothing ran yet.
    Prepared,
    /// The agent process exited with code 0.
    Complete,
    /// The agent process exited with a non-zero code.
    Failed,
    /// The benchmark's test command exited with code 0.
    Success,
    /// The benchmark's test command exited with a non-zero code.
    TestFailure,
    /// The benchmark's test command outlived its bound and was killed.
    Timeout,
}

/// The string under which each status is persisted in `metadata.json`.
pub open spec fn spec_status_str(s: Status) -> Seq<char> {
    match s {
        Status::Prepared => "PREPARED"@,
        Status::Complete => "AGENT EXECUTION COMPLETE"@,
        Status::Failed => "AGENT EXECUTION FAILED"@,
        Status::Success => "SUCCESS"@,
        Status::TestFailure => "TEST FAILURE"@,
        Status::Timeout => "TIMEOUT"@,
    }
}

impl Status {
    /// Renders the status as it is persisted in `metadata.json`.
    pub fn as_str(&self) -> (r: &'static str)
        ensures
            r@ == spec_status_str(*self),
    {
        match self {
            Status::Prepared => "PREPARED",
            Status::Complete => "AGENT EXECUTION COMPLETE",
            Status::Failed => "AGENT EXECUTION FAILED",
            Status::Success => "SUCCESS",
            Status::TestFailure => "TEST FAILURE",
            Status::Timeout => "TIMEOUT",
        }
    }
}

/// The status a persisted string stands for; `None` for any string that
/// is none of the six.
pub open spec fn spec_status_of(s: Seq<char>) -> Option<Status> {
    if s == spec_status_str(Status::Prepared) {
        Some(Status::Prepared)
    } else if s == spec_status_str(Status::Complete) {
        Some(Status::Complete)
    } else if s == spec_status_str(Status::Failed) {
        Some(Status::Failed)
    } else if s == spec_status_str(Status::Success) {
        Some(Status::Success)
    } else if s == spec_status_str(Status::TestFailure) {
        Some(Status::TestFailure)
    } else if s == spec_status_str(Status::Timeout) {
        Some(Status::Timeout)
    } else {
        None
    }
}

/// Reads a persisted status string back; `None` exactly when the string is
/// none of the six.
pub fn parse_status(s: &str) -> (r: Option<Status>)
    ensures
        r == spec_status_of(s@),
        match r {
            Some(st) => s@ == spec_status_str(st),
            None => forall|st: Status| s@ != spec_status_str(st),
        },
{
    if str_eq(s, "PREPARED") {
        Some(Status::Prepared)
    } else if str_eq(s, "AGENT EXECUTION COMPLETE") {
        Some(Status::Complete)
    } else if str_eq(s, "AGENT EXECUTION FAILED") {
        Some(Status::Failed)
    } else if str_eq(s, "SUCCESS") {
        Some(Status::Success)
    } else if str_eq(s, "TEST FAILURE") {
        Some(Status::TestFailure)
    } else if str_eq(s, "TIMEOUT") {
        Some(Status::Timeout)
    } else {
        None
    }
}

/// The frameworks the benchmark converts between.
#[derive(Clone, Copy, PartialEq, Eq, Structural, Debug)]
pub enum Framework {
    Spring,
    Quarkus,
    Jakarta,
}

/// The lower-case name under which each framework appears in paths and in
/// `metadata.json`.
pub open spec fn spec_framework_str(f: Framework) -> Seq<char> {
    match f {
        Framework::Spring => "spring"@,
        Framework::Quarkus => "quarkus"@,
        Framework::Jakarta => "jakarta"@,
    }
}

impl Framework {
    /// Renders the framework's lower-case name.
    pub fn as_str(&self) -> (r: &'static str)
        ensures
            r@ == spec_framework_str(*self),
    {
        match self {
            Framework::Spring => "spring",
            Framework::Quarkus => "quarkus",
            Framework::Jakarta => "jakarta",
        }
    }
}

/// The framework a name stands for; `None` for any other string.
pub open spec fn spec_framework_of(s: Seq<char>) -> Option<Framework> {
    if s == spec_framework_str(Framework::Spring) {
        Some(Framework::Spring)
    } else if s == spec_framework_str(Framework::Quarkus) {
        Some(Framework::Quarkus)
    } else if s == spec_framework_str(Framework::Jakarta) {
        Some(Framework::Jakarta)
    } else {
        None
    }
}

/// Reads a framework name back; `None` exactly when the string names none
/// of the three frameworks.
pub fn parse_framework(s: &str) -> (r: Option<Framework>)
    ensures
        r == spec_framework_of(s@),
        match r {
            Some(f) => s@ == spec_framework_str(f),
            None => forall|f: Framework| s@ != spec_framework_str(f),
        },
{
    if str_eq(s, "spring") {
        Some(Framework::Spring)
    } else if str_eq(s, "quarkus") {
        Some(Framework::Quarkus)
    } else if str_eq(s, "jakarta") {
        Some(Framework::Jakarta)
    } else {
        None
    }
}

/// The decoded schema of one instance's `metadata.json`, as the validation
/// runner reads it: the identity fields, the repeat number, and the typed
/// status and frameworks.
pub struct Metadata {
    /// The status of the run.
    pub status: Status,
    /// Name of the agent.
    pub agent: String,
    /// Name of the application.
    pub app: String,
    /// Application layer.
    pub layer: String,
    /// The repeat within 1..k.
    pub repeat: u32,
    /// The framework the conversion started from.
    pub source_framework: Framework,
    /// The framework the conversion targets.
    pub target_framework: Framework,
}

/// The specification-level image of a decoded metadata record.
pub struct MetadataV {
    pub status: Status,
    pub agent: Seq<char>,
    pub app: Seq<char>,
    pub layer: Seq<char>,
    pub repeat: int,
    pub source_framework: Framework,
    pub target_framework: Framework,
}

impl View for Metadata {
    type V = MetadataV;

    open spec fn view(&self) -> MetadataV {
        MetadataV {
            status: self.status,
            agent: self.agent@,
            app: self.app@,
            layer: self.layer@,
            repeat: self.repeat as int,
            source_framework: self.source_framework,
            target_framework: self.target_framework,
        }
    }
}

impl Metadata {
    /// The triple the validation runner needs: layer, app and the target
    /// framework's name.
    pub fn validation_triple(&self) -> (r: (String, String, String))
        ensures
            r.0@ == self.layer@,
            r.1@ == self.app@,
            r.2@ == spec_framework_str(self.target_framework),
    {
        (self.layer.clone(), self.app.clone(), self.target_framework.as_str().to_owned())
    }
}

} // verus!
