//! The dispatch driver's decisions: which groups belong to the agent being
//! dispatched, how large each group's worker pool is, what exactly one
//! agent invocation looks like, and how an exit code moves the status.

use vstd::prelude::*;

use crate::eval::types::{EvalInstance, EvalKey, EvalLayout, RunMetaData};
use crate::text::{base_name, path_join, spec_base_name, str_eq};
use crate::validate::types::{spec_status_str, Status};

verus! {

/// A group is dispatched exactly when its key's agent field equals the
/// base name of the agent directory (and that base name is usable).
pub open spec fn spec_agent_matches(agent_dir: Seq<char>, key: EvalKey) -> bool {
    spec_base_name(agent_dir).len() > 0 && spec_base_name(agent_dir) == key.agent@
}

/// Whether the group keyed by `key` belongs to the agent in `agent_dir`.
pub fn agent_matches(agent_dir: &str, key: &EvalKey) -> (r: bool)
    ensures
        r == spec_agent_matches(agent_dir@, *key),
{
    let name = base_name(agent_dir);
    !name.as_str().is_empty() && str_eq(name.as_str(), key.agent.as_str())
}

/// A selection is sound and complete for `agent_dir` over `l`: it lists
/// indices of `l`'s groups, in order, exactly those whose key matches the
/// agent.
pub open spec fn spec_selection_ok(sel: Seq<usize>, l: EvalLayout, agent_dir: Seq<char>) -> bool {
    &&& forall|j: int|
        0 <= j < sel.len() ==> (#[trigger] sel[j]) < l.evals@.len() && spec_agent_matches(
            agent_dir,
            l.evals@[sel[j] as int].0,
        )
    &&& forall|gi: int|
        0 <= gi < l.evals@.len() && spec_agent_matches(agent_dir, (#[trigger] l.evals@[gi]).0)
            ==> sel.contains(gi as usize)
}

/// The group indices the driver dispatches for the agent in `agent_dir`:
/// exactly those whose key carries that agent's name.  Groups keyed to any
/// other agent are never selected, so their instances are never touched.
pub fn groups_for_agent(agent_dir: &str, layout: &EvalLayout) -> (sel: Vec<usize>)
    ensures
        spec_selection_ok(sel@, *layout, agent_dir@),
{
    let mut sel: Vec<usize> = Vec::new();
    let n = layout.evals.len();
    let mut gi: usize = 0;
    while gi < n
        invariant
            gi <= n,
            n == layout.evals@.len(),
            forall|j: int|
                0 <= j < sel@.len() ==> (#[trigger] sel@[j]) < gi && spec_agent_matches(
                    agent_dir@,
                    layout.evals@[sel@[j] as int].0,
                ),
            forall|g: int|
                0 <= g < gi && spec_agent_matches(agent_dir@, (#[trigger] layout.evals@[g]).0)
                    ==> sel@.contains(g as usize),
        decreases n - gi,
    {
        if agent_matches(agent_dir, &layout.evals[gi].0) {
            let ghost old_sel = sel@;
            sel.push(gi);
            proof {
                assert(sel@[sel@.len() - 1] == gi);
                assert forall|g: int|
                    0 <= g < gi + 1 && spec_agent_matches(
                        agent_dir@,
                        (#[trigger] layout.evals@[g]).0,
                    ) implies sel@.contains(g as usize) by {
                    if g < gi {
                        assert(old_sel.contains(g as usize));
                        let j = choose|j: int| 0 <= j < old_sel.len() && old_sel[j] == g as usize;
                        assert(sel@[j] == g as usize);
                    } else {
                        assert(sel@[sel@.len() - 1] == g as usize);
                    }
                }
            }
        }
        gi = gi + 1;
    }
    sel
}

/// The worker-pool size for one group: as many workers as the group has
/// repeats, but never more than the host offers.
pub fn pool_size(group_len: usize, parallelism: usize) -> (r: usize)
    ensures
        r == if group_len <= parallelism { group_len as int } else { parallelism as int },
{
    if group_len <= parallelism {
        group_len
    } else {
        parallelism
    }
}

/// Everything app-side plumbing needs to run the agent once for one
/// instance: the fixed entry point, its working directory, the environment
/// that hands the instance over, and where the two output streams go.
pub struct AgentInvocation {
    /// The program to spawn.
    pub program: String,
    /// Its arguments, in order.
    pub args: Vec<String>,
    /// The working directory: the agent directory itself.
    pub workdir: String,
    /// Environment entries, in order: the instance's output directory and
    /// the two framework identifiers.
    pub env: Vec<(String, String)>,
    /// Where the child's standard output is captured (created, truncated).
    pub stdout_path: String,
    /// Where the child's standard error is captured (created, truncated).
    pub stderr_path: String,
}

/// Builds the one fixed invocation of the agent for `inst`: `bash -lc
/// ./run.sh` in the agent directory, handed the instance's output
/// directory and the two framework identifiers through the environment,
/// streams captured under the instance's `validation/`.
pub fn agent_invocation(agent_dir: &str, inst: &EvalInstance, meta: &RunMetaData) -> (r:
    AgentInvocation)
    ensures
        r.program@ == "bash"@,
        r.args@.len() == 2,
        r.args@[0]@ == "-lc"@,
        r.args@[1]@ == "./run.sh"@,
        r.workdir@ == agent_dir@,
        r.env@.len() == 3,
        r.env@[0].0@ == "SCARF_WORK_DIR"@,
        r.env@[0].1@ == inst.output@,
        r.env@[1].0@ == "SCARF_SOURCE_FRAMEWORK"@,
        r.env@[1].1@ == meta.source_framework@,
        r.env@[2].0@ == "SCARF_TARGET_FRAMEWORK"@,
        r.env@[2].1@ == meta.target_framework@,
        r.stdout_path@ == inst.validation@ + "/"@ + "agent.out"@,
        r.stderr_path@ == inst.validation@ + "/"@ + "agent.err"@,
{
    let mut args: Vec<String> = Vec::new();
    args.push("-lc".to_owned());
    args.push("./run.sh".to_owned());
    let mut env: Vec<(String, String)> = Vec::new();
    env.push(("SCARF_WORK_DIR".to_owned(), inst.output()));
    env.push(("SCARF_SOURCE_FRAMEWORK".to_owned(), meta.source_framework()));
    env.push(("SCARF_TARGET_FRAMEWORK".to_owned(), meta.target_framework()));
    AgentInvocation {
        program: "bash".to_owned(),
        args,
        workdir: agent_dir.to_owned(),
        env,
        stdout_path: path_join(inst.validation.as_str(), "agent.out"),
        stderr_path: path_join(inst.validation.as_str(), "agent.err"),
    }
}

/// The status an instance ends in after its agent ran: `Complete` on exit
/// code 0, `Failed` otherwise.
pub open spec fn spec_dispatch_status(exit_ok: bool) -> Status {
    if exit_ok { Status::Complete } else { Status::Failed }
}

/// Classifies an agent's exit.
pub fn dispatch_status(exit_ok: bool) -> (r: Status)
    ensures
        r == spec_dispatch_status(exit_ok),
{
    if exit_ok {
        Status::Complete
    } else {
        Status::Failed
    }
}

/// Moves an instance's metadata forward after its agent ran: the status
/// becomes `AGENT EXECUTION COMPLETE` on exit 0 and `AGENT EXECUTION
/// FAILED` otherwise; every identity field is kept.
pub fn dispatch_outcome(meta: &mut RunMetaData, exit_ok: bool)
    ensures
        final(meta).status@ == spec_status_str(spec_dispatch_status(exit_ok)),
        final(meta).agent == old(meta).agent,
        final(meta).layer == old(meta).layer,
        final(meta).app == old(meta).app,
        final(meta).repeat == old(meta).repeat,
        final(meta).source_framework == old(meta).source_framework,
        final(meta).target_framework == old(meta).target_framework,
{
    let status = dispatch_status(exit_ok);
    meta.set_status(status.as_str().to_owned());
}

/// A group the selection leaves out is keyed to some other agent (or the
/// agent directory has no usable name): dispatching for one agent never
/// reaches instances keyed to a different one.
pub proof fn lemma_unselected_group_is_not_this_agent(
    sel: Seq<usize>,
    l: EvalLayout,
    agent_dir: Seq<char>,
    gi: int,
)
    requires
        spec_selection_ok(sel, l, agent_dir),
        0 <= gi < l.evals@.len(),
        !sel.contains(gi as usize),
    ensures
        !spec_agent_matches(agent_dir, l.evals@[gi].0),
{
}

} // verus!
