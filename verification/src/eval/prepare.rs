//! The task-layout builder: from an admitted invocation and the discovered
//! `(layer, app)` candidates to the full task index, with the exact
//! directory paths and the initial metadata of every instance.

use vstd::prelude::*;

use crate::errors::ScarfError;
use crate::eval::run::EvalRunArgs;
use crate::eval::types::{EvalGroup, EvalInstance, EvalKey, EvalLayout, RunMetaData};
use crate::text::{path_join, spec_base_name, spec_dec, str_concat, str_eq, u32_dec, base_name};

verus! {

/// One discovered benchmark application: its layer and its name.
pub struct AppEntry {
    pub layer: String,
    pub app: String,
}

/// The repeat count actually used: the configured pass@k, coerced to at
/// least 1.
pub open spec fn spec_k(k: u32) -> int {
    if k < 1 { 1int } else { k as int }
}

/// The root directory of the repeat numbered `rep` (1-based) inside a
/// group rooted at `group_root`.
pub open spec fn spec_run_root(group_root: Seq<char>, rep: int) -> Seq<char> {
    group_root + "/"@ + ("run_"@ + spec_dec(rep))
}

/// The instance for repeat `rep` has its four directories exactly where
/// the layout puts them: `run_<rep>/` with `input/`, `output/` and
/// `validation/` inside it.
pub open spec fn spec_instance_ok(inst: EvalInstance, group_root: Seq<char>, rep: int) -> bool {
    &&& inst.root@ == spec_run_root(group_root, rep)
    &&& inst.input@ == spec_run_root(group_root, rep) + "/"@ + "input"@
    &&& inst.output@ == spec_run_root(group_root, rep) + "/"@ + "output"@
    &&& inst.validation@ == spec_run_root(group_root, rep) + "/"@ + "validation"@
}

/// The key carries exactly the identity the builder was given.
pub open spec fn spec_key_ok(
    key: EvalKey,
    agent: Seq<char>,
    layer: Seq<char>,
    app: Seq<char>,
    source: Seq<char>,
    target: Seq<char>,
) -> bool {
    &&& key.agent@ == agent
    &&& key.layer@ == layer
    &&& key.app@ == app
    &&& key.source_framework@ == source
    &&& key.target_framework@ == target
}

/// The group sits at `eval_out/<key repr>`, holds exactly the coerced
/// pass@k number of repeats, and repeat `i` is laid out as `run_<i+1>`.
pub open spec fn spec_group_ok(group: EvalGroup, key: EvalKey, eval_out: Seq<char>, k: u32) -> bool {
    &&& group.root@ == eval_out + "/"@ + key.spec_repr()
    &&& group.runs@.len() == spec_k(k)
    &&& forall|ri: int|
        0 <= ri < group.runs@.len() ==> spec_instance_ok(
            #[trigger] group.runs@[ri],
            group.root@,
            ri + 1,
        )
}

/// The whole layout is exactly the plan for these inputs: one group per
/// candidate, in candidate order.
pub open spec fn spec_layout_ok(
    l: EvalLayout,
    agent: Seq<char>,
    apps: Seq<AppEntry>,
    source: Seq<char>,
    target: Seq<char>,
    eval_out: Seq<char>,
    k: u32,
) -> bool {
    &&& l.evals@.len() == apps.len()
    &&& forall|gi: int|
        0 <= gi < l.evals@.len() ==> spec_key_ok(
            (#[trigger] l.evals@[gi]).0,
            agent,
            apps[gi].layer@,
            apps[gi].app@,
            source,
            target,
        )
    &&& forall|gi: int|
        0 <= gi < l.evals@.len() ==> spec_group_ok(
            (#[trigger] l.evals@[gi]).1,
            l.evals@[gi].0,
            eval_out,
            k,
        )
}

/// The initial persisted record of one instance: identity taken from the
/// key, the given repeat number, and status `PREPARED`.
pub fn instance_metadata(key: &EvalKey, repeat: u32) -> (m: RunMetaData)
    ensures
        m.agent@ == key.agent@,
        m.layer@ == key.layer@,
        m.app@ == key.app@,
        m.status@ == "PREPARED"@,
        m.repeat == repeat,
        m.source_framework@ == key.source_framework@,
        m.target_framework@ == key.target_framework@,
{
    RunMetaData::new(
        key.agent(),
        key.layer(),
        key.app(),
        "PREPARED".to_owned(),
        repeat,
        key.source_framework(),
        key.target_framework(),
    )
}

/// Builds the ordered repeats of one group rooted at `group_root`.
fn build_runs(group_root: &str, k: u32) -> (runs: Vec<EvalInstance>)
    ensures
        runs@.len() == spec_k(k),
        forall|ri: int|
            0 <= ri < runs@.len() ==> spec_instance_ok(#[trigger] runs@[ri], group_root@, ri + 1),
{
    let kk: u32 = if k < 1 { 1 } else { k };
    let mut runs: Vec<EvalInstance> = Vec::new();
    let mut ri: u32 = 0;
    while ri < kk
        invariant
            ri <= kk,
            kk == spec_k(k),
            runs@.len() == ri,
            forall|j: int|
                0 <= j < runs@.len() ==> spec_instance_ok(#[trigger] runs@[j], group_root@, j + 1),
        decreases kk - ri,
    {
        let run_name = str_concat("run_", u32_dec(ri + 1).as_str());
        let inst_root = path_join(group_root, run_name.as_str());
        let input = path_join(inst_root.as_str(), "input");
        let output = path_join(inst_root.as_str(), "output");
        let validation = path_join(inst_root.as_str(), "validation");
        runs.push(EvalInstance::new(inst_root, input, output, validation));
        ri = ri + 1;
    }
    runs
}

/// Builds the task layout: one key and one group per discovered candidate,
/// exactly `max(pass_at_k, 1)` repeats each.  The candidates must be
/// pairwise distinct `(layer, app)` pairs, as a walk of the benchmark tree
/// produces them; that keeps the layout's keys unique.
///
/// Fails with a configuration error when the agent directory has no base
/// name to use as the agent identifier, and with a discovery error when no
/// candidate at all was found.
pub fn prepare_harness(args: &EvalRunArgs, apps: &Vec<AppEntry>) -> (r: Result<
    EvalLayout,
    ScarfError,
>)
    requires
        forall|i: int, j: int|
            0 <= i < j < apps@.len() ==> (#[trigger] apps@[i].layer@, apps@[i].app@) != (
                #[trigger] apps@[j].layer@,
                apps@[j].app@,
            ),
    ensures
        match r {
            Ok(l) => {
                &&& spec_base_name(args.agent_dir@).len() > 0
                &&& apps@.len() > 0
                &&& spec_layout_ok(
                    l,
                    spec_base_name(args.agent_dir@),
                    apps@,
                    args.source_framework@,
                    args.target_framework@,
                    args.eval_out@,
                    args.pass_at_k,
                )
                &&& l.wf()
            },
            Err(e) => match e {
                ScarfError::Config(_) => spec_base_name(args.agent_dir@).len() == 0,
                ScarfError::Discovery(_) => spec_base_name(args.agent_dir@).len() > 0
                    && apps@.len() == 0,
                _ => false,
            },
        },
{
    let agent_name = base_name(args.agent_dir.as_str());
    if agent_name.as_str().is_empty() {
        return Err(
            ScarfError::Config("--agent-dir must end in a usable directory name".to_owned()),
        );
    }
    if apps.len() == 0 {
        return Err(
            ScarfError::Discovery(
                "The app(s) provided with the --app flag were not found for the specified --layer(s).".to_owned(),
            ),
        );
    }
    let mut evals: Vec<(EvalKey, EvalGroup)> = Vec::new();
    let mut gi: usize = 0;
    while gi < apps.len()
        invariant
            gi <= apps@.len(),
            evals@.len() == gi,
            agent_name@ == spec_base_name(args.agent_dir@),
            forall|i: int, j: int|
                0 <= i < j < apps@.len() ==> (#[trigger] apps@[i].layer@, apps@[i].app@) != (
                    #[trigger] apps@[j].layer@,
                    apps@[j].app@,
                ),
            forall|i: int|
                0 <= i < evals@.len() ==> spec_key_ok(
                    (#[trigger] evals@[i]).0,
                    spec_base_name(args.agent_dir@),
                    apps@[i].layer@,
                    apps@[i].app@,
                    args.source_framework@,
                    args.target_framework@,
                ),
            forall|i: int|
                0 <= i < evals@.len() ==> spec_group_ok(
                    (#[trigger] evals@[i]).1,
                    evals@[i].0,
                    args.eval_out@,
                    args.pass_at_k,
                ),
        decreases apps@.len() - gi,
    {
        let entry = &apps[gi];
        let key = EvalKey::new(
            agent_name.clone(),
            entry.layer.clone(),
            entry.app.clone(),
            args.source_framework.clone(),
            args.target_framework.clone(),
        );
        let group_root = path_join(args.eval_out.as_str(), key.repr().as_str());
        let runs = build_runs(group_root.as_str(), args.pass_at_k);
        let group = EvalGroup::new(group_root, runs);
        evals.push((key, group));
        gi = gi + 1;
    }
    let layout = EvalLayout::new(evals);
    proof {
        assert forall|i: int, j: int| 0 <= i < j < layout.evals@.len() implies #[trigger] layout
            .evals@[i].0.spec_fields() != #[trigger] layout.evals@[j].0.spec_fields() by {
            assert((apps@[i].layer@, apps@[i].app@) != (apps@[j].layer@, apps@[j].app@));
        }
    }
    Ok(layout)
}

/// Rebuilding a layout is idempotent: two layouts built for the same
/// agent, candidates, frameworks, output root and pass@k plan the same
/// keys and the very same directory paths, so materializing the second
/// over the first creates and overwrites exactly the same file set.
pub proof fn lemma_rebuild_same_layout(
    l1: EvalLayout,
    l2: EvalLayout,
    agent: Seq<char>,
    apps: Seq<AppEntry>,
    source: Seq<char>,
    target: Seq<char>,
    eval_out: Seq<char>,
    k: u32,
)
    requires
        spec_layout_ok(l1, agent, apps, source, target, eval_out, k),
        spec_layout_ok(l2, agent, apps, source, target, eval_out, k),
    ensures
        l1.evals@.len() == l2.evals@.len(),
        forall|gi: int|
            0 <= gi < l1.evals@.len() ==> (#[trigger] l1.evals@[gi]).0.spec_fields() == (
            #[trigger] l2.evals@[gi]).0.spec_fields(),
        forall|gi: int|
            0 <= gi < l1.evals@.len() ==> (#[trigger] l1.evals@[gi]).1.root@ == (
            #[trigger] l2.evals@[gi]).1.root@,
        forall|gi: int|
            0 <= gi < l1.evals@.len() ==> (#[trigger] l1.evals@[gi]).1.runs@.len() == (
            #[trigger] l2.evals@[gi]).1.runs@.len(),
        forall|gi: int, ri: int|
            0 <= gi < l1.evals@.len() && 0 <= ri < l1.evals@[gi].1.runs@.len() ==> {
                let a = #[trigger] l1.evals@[gi].1.runs@[ri];
                let b = #[trigger] l2.evals@[gi].1.runs@[ri];
                a.root@ == b.root@ && a.input@ == b.input@ && a.output@ == b.output@
                    && a.validation@ == b.validation@
            },
{
    assert forall|gi: int|
        0 <= gi < l1.evals@.len() implies (#[trigger] l1.evals@[gi]).1.root@ == (
    #[trigger] l2.evals@[gi]).1.root@ by {
        assert(l1.evals@[gi].0.spec_repr() == l2.evals@[gi].0.spec_repr());
    }
}

/// Whether a directory entry of a source-framework tree belongs to the
/// benchmark's own harness and is therefore not copied into `input/` or
/// `output/`: the smoke test, the Makefile, the Dockerfile and the docker
/// ignore file are reseeded by validation instead.
pub open spec fn spec_harness_entry(name: Seq<char>) -> bool {
    ||| name == "smoke.py"@
    ||| name == "smoke"@
    ||| name == "Makefile"@
    ||| name == ".dockerignore"@
    ||| name == "Dockerfile"@
}

/// Whether `name` is one of the harness-owned entries the builder skips.
pub fn is_harness_entry(name: &str) -> (r: bool)
    ensures
        r == spec_harness_entry(name@),
{
    str_eq(name, "smoke.py") || str_eq(name, "smoke") || str_eq(name, "Makefile") || str_eq(
        name,
        ".dockerignore",
    ) || str_eq(name, "Dockerfile")
}

/// Of the entry names of a source-framework directory, those the builder
/// copies: everything except the harness-owned entries, in order.
pub fn names_to_copy(entries: &Vec<String>) -> (r: Vec<String>)
    ensures
        r@.map_values(|s: String| s@) == entries@.map_values(|s: String| s@).filter(
            |n: Seq<char>| !spec_harness_entry(n),
        ),
{
    let mut r: Vec<String> = Vec::new();
    let mut i: usize = 0;
    proof {
        assert(entries@.take(0).map_values(|s: String| s@) =~= Seq::<Seq<char>>::empty());
        reveal(Seq::filter);
        assert(r@.map_values(|s: String| s@) =~= entries@.take(0).map_values(|s: String| s@)
            .filter(|n: Seq<char>| !spec_harness_entry(n)));
    }
    while i < entries.len()
        invariant
            i <= entries@.len(),
            r@.map_values(|s: String| s@) == entries@.take(i as int).map_values(|s: String| s@)
                .filter(|n: Seq<char>| !spec_harness_entry(n)),
        decreases entries@.len() - i,
    {
        let ghost prefix = entries@.take(i as int).map_values(|s: String| s@);
        let e = &entries[i];
        if !is_harness_entry(e.as_str()) {
            r.push(e.clone());
        }
        proof {
            reveal(Seq::filter);
            let next = entries@.take(i + 1).map_values(|s: String| s@);
            assert(next.drop_last() =~= prefix);
            assert(next.last() == entries@[i as int]@);
            if !spec_harness_entry(entries@[i as int]@) {
                assert(r@.map_values(|s: String| s@) =~= next.filter(
                    |n: Seq<char>| !spec_harness_entry(n),
                ));
            } else {
                assert(r@.map_values(|s: String| s@) =~= next.filter(
                    |n: Seq<char>| !spec_harness_entry(n),
                ));
            }
        }
        i = i + 1;
    }
    proof {
        assert(entries@.take(entries@.len() as int) =~= entries@);
    }
    r
}

} // verus!
