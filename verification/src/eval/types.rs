//! The in-memory task index: one key per (agent, layer, app, source, target)
//! combination, one group per key, and one instance per pass@k repeat, each
//! instance owning a disjoint directory subtree.

use vstd::prelude::*;

verus! {

/// One task instance's directory subtree: the instance root and its
/// `input/`, `output/` and `validation/` subdirectories, as plain paths.
pub struct EvalInstance {
    pub root: String,
    pub input: String,
    pub output: String,
    pub validation: String,
}

impl EvalInstance {
    /// Packs the four paths of one instance.
    pub fn new(root: String, input: String, output: String, validation: String) -> (r: Self)
        ensures
            r.root@ == root@,
            r.input@ == input@,
            r.output@ == output@,
            r.validation@ == validation@,
    {
        EvalInstance { root, input, output, validation }
    }

    /// The instance's root directory.
    pub fn root(&self) -> (r: String)
        ensures
            r@ == self.root@,
    {
        self.root.clone()
    }

    /// The directory the agent rewrites in place.
    pub fn output(&self) -> (r: String)
        ensures
            r@ == self.output@,
    {
        self.output.clone()
    }

    /// The directory that collects agent and validation logs.
    pub fn validation(&self) -> (r: String)
        ensures
            r@ == self.validation@,
    {
        self.validation.clone()
    }
}

/// The k repeats that share one task key: the group's root directory and
/// one `EvalInstance` per repeat, in repeat order.
pub struct EvalGroup {
    pub root: String,
    pub runs: Vec<EvalInstance>,
}

impl EvalGroup {
    /// Packs a group from its root and its ordered repeats.
    pub fn new(root: String, runs: Vec<EvalInstance>) -> (r: Self)
        ensures
            r.root@ == root@,
            r.runs == runs,
    {
        EvalGroup { root, runs }
    }

    /// The ordered repeats of this group.
    pub fn runs(&self) -> (r: &Vec<EvalInstance>)
        ensures
            r == &self.runs,
    {
        &self.runs
    }
}

/// The identity of one conversion task: which agent converts which
/// application of which layer, from which framework to which.
pub struct EvalKey {
    pub agent: String,
    pub layer: String,
    pub app: String,
    pub source_framework: String,
    pub target_framework: String,
}

impl EvalKey {
    /// The five fields as one specification-level tuple, for stating that
    /// two keys name the same task.
    pub open spec fn spec_fields(&self) -> (Seq<char>, Seq<char>, Seq<char>, Seq<char>, Seq<char>) {
        (self.agent@, self.layer@, self.app@, self.source_framework@, self.target_framework@)
    }

    /// The canonical group-directory name for this key:
    /// the five fields joined by `__`.
    pub open spec fn spec_repr(&self) -> Seq<char> {
        self.agent@ + "__"@ + self.layer@ + "__"@ + self.app@ + "__"@ + self.source_framework@
            + "__"@ + self.target_framework@
    }

    /// Packs the five fields of a key.
    pub fn new(
        agent: String,
        layer: String,
        app: String,
        source_framework: String,
        target_framework: String,
    ) -> (r: Self)
        ensures
            r.agent@ == agent@,
            r.layer@ == layer@,
            r.app@ == app@,
            r.source_framework@ == source_framework@,
            r.target_framework@ == target_framework@,
    {
        EvalKey { agent, layer, app, source_framework, target_framework }
    }

    /// The agent field.
    pub fn agent(&self) -> (r: String)
        ensures
            r@ == self.agent@,
    {
        self.agent.clone()
    }

    /// The layer field.
    pub fn layer(&self) -> (r: String)
        ensures
            r@ == self.layer@,
    {
        self.layer.clone()
    }

    /// The app field.
    pub fn app(&self) -> (r: String)
        ensures
            r@ == self.app@,
    {
        self.app.clone()
    }

    /// The source-framework field.
    pub fn source_framework(&self) -> (r: String)
        ensures
            r@ == self.source_framework@,
    {
        self.source_framework.clone()
    }

    /// The target-framework field.
    pub fn target_framework(&self) -> (r: String)
        ensures
            r@ == self.target_framework@,
    {
        self.target_framework.clone()
    }

    /// Renders the canonical `agent__layer__app__source__target` name.
    pub fn repr(&self) -> (r: String)
        ensures
            r@ == self.spec_repr(),
    {
        let mut s = self.agent.clone();
        s.append("__");
        s.append(self.layer.as_str());
        s.append("__");
        s.append(self.app.as_str());
        s.append("__");
        s.append(self.source_framework.as_str());
        s.append("__");
        s.append(self.target_framework.as_str());
        s
    }
}

/// The persisted record of one task instance, mirrored to its
/// `metadata.json`: identity fields, the repeat number within 1..k, and the
/// dispatch status string.
pub struct RunMetaData {
    pub agent: String,
    pub layer: String,
    pub app: String,
    pub status: String,
    pub repeat: u32,
    pub source_framework: String,
    pub target_framework: String,
}

impl RunMetaData {
    /// Packs a metadata record.
    pub fn new(
        agent: String,
        layer: String,
        app: String,
        status: String,
        repeat: u32,
        source_framework: String,
        target_framework: String,
    ) -> (r: Self)
        ensures
            r.agent@ == agent@,
            r.layer@ == layer@,
            r.app@ == app@,
            r.status@ == status@,
            r.repeat == repeat,
            r.source_framework@ == source_framework@,
            r.target_framework@ == target_framework@,
    {
        RunMetaData { agent, layer, app, status, repeat, source_framework, target_framework }
    }

    /// The source-framework field.
    pub fn source_framework(&self) -> (r: String)
        ensures
            r@ == self.source_framework@,
    {
        self.source_framework.clone()
    }

    /// The target-framework field.
    pub fn target_framework(&self) -> (r: String)
        ensures
            r@ == self.target_framework@,
    {
        self.target_framework.clone()
    }

    /// Replaces the status string; every other field is kept.
    pub fn set_status(&mut self, status: String)
        ensures
            final(self).status@ == status@,
            final(self).agent == old(self).agent,
            final(self).layer == old(self).layer,
            final(self).app == old(self).app,
            final(self).repeat == old(self).repeat,
            final(self).source_framework == old(self).source_framework,
            final(self).target_framework == old(self).target_framework,
    {
        self.status = status;
    }
}

/// The specification-level image of a metadata record: the seven fields
/// as mathematical values.
pub struct RunMetaDataV {
    pub agent: Seq<char>,
    pub layer: Seq<char>,
    pub app: Seq<char>,
    pub status: Seq<char>,
    pub repeat: int,
    pub source_framework: Seq<char>,
    pub target_framework: Seq<char>,
}

impl View for RunMetaData {
    type V = RunMetaDataV;

    open spec fn view(&self) -> RunMetaDataV {
        RunMetaDataV {
            agent: self.agent@,
            layer: self.layer@,
            app: self.app@,
            status: self.status@,
            repeat: self.repeat as int,
            source_framework: self.source_framework@,
            target_framework: self.target_framework@,
        }
    }
}

/// The whole layout of one invocation: each task key with its group, keys
/// pairwise distinct, built once and immutable afterwards.
pub struct EvalLayout {
    pub evals: Vec<(EvalKey, EvalGroup)>,
}

impl EvalLayout {
    /// Keys are pairwise distinct, so each key names at most one group.
    pub open spec fn wf(&self) -> bool {
        forall|i: int, j: int|
            0 <= i < j < self.evals@.len() ==> #[trigger] self.evals@[i].0.spec_fields()
                != #[trigger] self.evals@[j].0.spec_fields()
    }

    /// Packs a layout from its (key, group) pairs.
    pub fn new(evals: Vec<(EvalKey, EvalGroup)>) -> (r: Self)
        ensures
            r.evals == evals,
    {
        EvalLayout { evals }
    }

    /// The (key, group) pairs of the layout.
    pub fn groups(&self) -> (r: &Vec<(EvalKey, EvalGroup)>)
        ensures
            r == &self.evals,
    {
        &self.evals
    }
}

} // verus!
