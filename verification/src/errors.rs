//! The error taxonomy of the harness.
//!
//! `Config` and `Discovery` faults abort an invocation before any work;
//! `Io` aborts a layout build; `Metadata` and `Process` faults are isolated
//! to a single task instance or run; `Timeout` is the terminal outcome of
//! one validation run that outlived its bound.

use vstd::prelude::*;

verus! {

/// One fault of the harness, each variant carrying a human-readable context.
#[derive(Debug)]
pub enum ScarfError {
    /// An invocation was configured inconsistently (equal source and target
    /// frameworks, or an agent directory without a usable base name).
    Config(String),
    /// The requested layer/app selection matched nothing.
    Discovery(String),
    /// A directory could not be created or a file could not be copied while
    /// building the layout; the payload names the offending path.
    Io(String),
    /// A `metadata.json` was unreadable or did not parse.
    Metadata(String),
    /// An agent or test process could not be spawned.
    Process(String),
    /// A validation run exceeded its time bound.
    Timeout(String),
}

impl ScarfError {
    /// The context string the error was raised with.
    pub fn message(&self) -> (r: String)
        ensures
            r@ == self.spec_message(),
    {
        match self {
            ScarfError::Config(m) => m.clone(),
            ScarfError::Discovery(m) => m.clone(),
            ScarfError::Io(m) => m.clone(),
            ScarfError::Metadata(m) => m.clone(),
            ScarfError::Process(m) => m.clone(),
            ScarfError::Timeout(m) => m.clone(),
        }
    }

    /// The context string, at the specification level.
    pub open spec fn spec_message(&self) -> Seq<char> {
        match self {
            ScarfError::Config(m) => m@,
            ScarfError::Discovery(m) => m@,
            ScarfError::Io(m) => m@,
            ScarfError::Metadata(m) => m@,
            ScarfError::Process(m) => m@,
            ScarfError::Timeout(m) => m@,
        }
    }
}

} // verus!
