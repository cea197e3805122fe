//! Evaluation of an agent over the benchmark: the task index model, the
//! layout builder, the run-argument checks and the dispatch decisions.

pub mod driver;
pub mod prepare;
pub mod run;
pub mod types;

use vstd::prelude::*;

use crate::errors::ScarfError;
use crate::eval::prepare::AppEntry;
use crate::eval::run::{spec_run_result, EvalRunArgs};
use crate::eval::types::EvalLayout;

verus! {

/// The evaluation subcommands.
pub enum EvalCmd {
    /// Run an agent over the benchmark.
    Run(EvalRunArgs),
}

/// Dispatches an evaluation subcommand over the discovered candidates.
pub fn run(cmd: &EvalCmd, apps: &Vec<AppEntry>) -> (r: Result<EvalLayout, ScarfError>)
    requires
        forall|i: int, j: int|
            0 <= i < j < apps@.len() ==> (#[trigger] apps@[i].layer@, apps@[i].app@) != (
                #[trigger] apps@[j].layer@,
                apps@[j].app@,
            ),
    ensures
        match cmd {
            EvalCmd::Run(args) => spec_run_result(*args, apps@, r),
        },
{
    match cmd {
        EvalCmd::Run(args) => crate::eval::run::run(args, apps),
    }
}

} // verus!
