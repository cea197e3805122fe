//! The agent-runner stub of the thin front end: it only announces that
//! the runner is not implemented yet.  The messages are computed here;
//! the shell prints them.

use vstd::prelude::*;

verus! {

/// The two messages the agent-runner stub reports, in print order: first
/// the error line, the advice line after it.
pub fn run_agent(
    _agent: &str,
    _from: &str,
    _to_fw: &str,
    _out_root: &str,
    _extra: &Vec<String>,
) -> (r: Vec<String>)
    ensures
        r@.len() == 2,
        r@[0]@ == "Implement agent runner."@,
        r@[1]@ == "Run the smoke checks in the destination to verify."@,
{
    let mut r: Vec<String> = Vec::new();
    r.push("Implement agent runner.".to_owned());
    r.push("Run the smoke checks in the destination to verify.".to_owned());
    r
}

} // verus!
