//! The arguments of one evaluation invocation and their admission checks.

use vstd::prelude::*;

use crate::errors::ScarfError;
use crate::eval::prepare::{prepare_harness, spec_layout_ok, AppEntry};
use crate::eval::types::EvalLayout;
use crate::text::{spec_base_name, str_eq};

verus! {

/// Everything the caller chooses for one evaluation invocation, already
/// decoded to plain values.
pub struct EvalRunArgs {
    /// Root of the benchmark tree (`layer/app/framework` below it).
    pub benchmark_dir: String,
    /// Directory holding the agent; its base name is the agent identifier.
    pub agent_dir: String,
    /// Layer names to restrict the run to; empty means every layer.
    pub layer: Vec<String>,
    /// App names to restrict the run to; empty means every app.
    pub app: Vec<String>,
    /// The framework to convert from.
    pub source_framework: String,
    /// The framework to convert to.
    pub target_framework: String,
    /// The number of repeats per task (pass@k); coerced to at least 1.
    pub pass_at_k: u32,
    /// Root of the output tree the layout is built under.
    pub eval_out: String,
    /// Requested worker count; coerced to at least 1.
    pub jobs: usize,
    /// Stop after building the layout, without dispatching the agent.
    pub prepare_only: bool,
}

/// The worker count actually used: the request, coerced to at least 1.
pub fn normalized_jobs(jobs: usize) -> (r: usize)
    ensures
        r == if jobs < 1 { 1int } else { jobs as int },
{
    if jobs < 1 {
        1
    } else {
        jobs
    }
}

/// What admitting an invocation over the discovered candidates must
/// yield: a configuration error exactly on equal frameworks or an
/// unusable agent-directory name, a discovery error exactly on an empty
/// candidate set, and otherwise the exact layout plan.
pub open spec fn spec_run_result(
    args: EvalRunArgs,
    apps: Seq<AppEntry>,
    r: Result<EvalLayout, ScarfError>,
) -> bool {
    match r {
        Ok(l) => {
            &&& args.source_framework@ != args.target_framework@
            &&& spec_base_name(args.agent_dir@).len() > 0
            &&& apps.len() > 0
            &&& spec_layout_ok(
                l,
                spec_base_name(args.agent_dir@),
                apps,
                args.source_framework@,
                args.target_framework@,
                args.eval_out@,
                args.pass_at_k,
            )
            &&& l.wf()
        },
        Err(e) => match e {
            ScarfError::Config(_) => args.source_framework@ == args.target_framework@
                || spec_base_name(args.agent_dir@).len() == 0,
            ScarfError::Discovery(_) => args.source_framework@ != args.target_framework@
                && spec_base_name(args.agent_dir@).len() > 0 && apps.len() == 0,
            _ => false,
        },
    }
}

/// Admits an invocation and builds its layout.
///
/// Equal source and target frameworks are rejected as a configuration
/// error before any other work; otherwise the layout builder decides, so a
/// success carries the exact layout plan and each failure names its cause.
pub fn run(args: &EvalRunArgs, apps: &Vec<AppEntry>) -> (r: Result<EvalLayout, ScarfError>)
    requires
        forall|i: int, j: int|
            0 <= i < j < apps@.len() ==> (#[trigger] apps@[i].layer@, apps@[i].app@) != (
                #[trigger] apps@[j].layer@,
                apps@[j].app@,
            ),
    ensures
        spec_run_result(*args, apps@, r),
{
    if str_eq(args.source_framework.as_str(), args.target_framework.as_str()) {
        let mut m = "From and To frameworks cannot be the same: ".to_owned();
        m.append(args.source_framework.as_str());
        return Err(ScarfError::Config(m));
    }
    prepare_harness(args, apps)
}

} // verus!
