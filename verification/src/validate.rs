//! The validation runner's decisions: which run directories qualify for
//! validation, which harness files are reseeded, how a finished test
//! command is classified, and the progress tally the aggregator keeps.

pub mod types;

use vstd::prelude::*;

use crate::eval::types::EvalKey;
use crate::text::{
    field_count, lemma_join5_field_count, path_join, spec_delim_free, spec_field_count, str_eq,
};
use crate::validate::types::Status;

verus! {

/// The caller's choices for one validation batch.
pub struct ValidateArgs {
    /// The tree the dispatch driver populated.
    pub conversions_dir: String,
    /// Root of the benchmark tree the harness files are reseeded from.
    pub benchmark_dir: String,
    /// Bound on one test command, in minutes.
    pub timeout: u64,
}

/// A run directory qualifies for validation exactly when its parent
/// group-directory name splits into five `__`-delimited fields; anything
/// else is silently skipped as malformed or unrelated.
pub fn discovered(group_dir_name: &str) -> (r: bool)
    ensures
        r == (spec_field_count(group_dir_name@) == 5),
{
    field_count(group_dir_name) == 5
}

/// A group directory the layout builder names qualifies for discovery:
/// when no field of its key holds `__` and none of the first four fields
/// ends in `_`, the canonical `agent__layer__app__source__target` name
/// splits into exactly five fields.
pub proof fn lemma_group_name_is_discovered(key: EvalKey)
    requires
        spec_delim_free(key.agent@),
        spec_delim_free(key.layer@),
        spec_delim_free(key.app@),
        spec_delim_free(key.source_framework@),
        spec_delim_free(key.target_framework@),
        key.agent@.len() > 0 ==> key.agent@.last() != '_',
        key.layer@.len() > 0 ==> key.layer@.last() != '_',
        key.app@.len() > 0 ==> key.app@.last() != '_',
        key.source_framework@.len() > 0 ==> key.source_framework@.last() != '_',
    ensures
        spec_field_count(key.spec_repr()) == 5,
{
    lemma_join5_field_count(
        key.agent@,
        key.layer@,
        key.app@,
        key.source_framework@,
        key.target_framework@,
    );
}

/// The harness files validation reseeds into a run's `output/`: only these
/// three names are copied from the benchmark tree.
pub open spec fn spec_reseed_name(name: Seq<char>) -> bool {
    ||| name == "Makefile"@
    ||| name == "makefile"@
    ||| name == "Dockerfile"@
}

/// Whether `name` is one of the three harness files validation reseeds.
pub fn is_reseed_name(name: &str) -> (r: bool)
    ensures
        r == spec_reseed_name(name@),
{
    str_eq(name, "Makefile") || str_eq(name, "makefile") || str_eq(name, "Dockerfile")
}

/// The benchmark directory the harness files for one run come from:
/// `<benchmark root>/<layer>/<app>/<target framework>`.
pub fn harness_dir(benchmark_dir: &str, layer: &str, app: &str, framework: &str) -> (r: String)
    ensures
        r@ == benchmark_dir@ + "/"@ + layer@ + "/"@ + app@ + "/"@ + framework@,
{
    let a = path_join(benchmark_dir, layer);
    let b = path_join(a.as_str(), app);
    path_join(b.as_str(), framework)
}

/// Classifies a finished test command: exit 0 is a success, any other exit
/// a test failure, and no exit within the bound a timeout.  All three are
/// terminal.
pub fn outcome_of_wait(exited_ok: Option<bool>) -> (r: Status)
    ensures
        exited_ok == Some(true) ==> r == Status::Success,
        exited_ok == Some(false) ==> r == Status::TestFailure,
        exited_ok is None ==> r == Status::Timeout,
{
    match exited_ok {
        Some(true) => Status::Success,
        Some(false) => Status::TestFailure,
        None => Status::Timeout,
    }
}

/// The aggregator's progress tally: one tick per completed run, never more
/// ticks than runs, done exactly when every run has ticked.
pub struct ProgressTally {
    pub total: usize,
    pub done: usize,
}

impl ProgressTally {
    /// A tally never counts more completed runs than it has runs.
    pub open spec fn wf(&self) -> bool {
        self.done <= self.total
    }

    /// A fresh tally for a batch of `total` runs, nothing completed yet.
    pub fn new(total: usize) -> (r: Self)
        ensures
            r.total == total,
            r.done == 0,
            r.wf(),
    {
        ProgressTally { total, done: 0 }
    }

    /// Records exactly one completed run.
    pub fn tick(&mut self)
        requires
            old(self).wf(),
            old(self).done < old(self).total,
        ensures
            final(self).total == old(self).total,
            final(self).done == old(self).done + 1,
            final(self).wf(),
    {
        self.done = self.done + 1;
    }

    /// Whether every run of the batch has been reflected in the tally.
    pub fn is_done(&self) -> (r: bool)
        ensures
            r == (self.done == self.total),
    {
        self.done == self.total
    }
}

} // verus!
