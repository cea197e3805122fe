//! Smoke-testing the benchmark applications with their own Makefiles:
//! what one `make test` invocation looks like, and how its outcome is
//! reported.  Spawning the processes and walking the tree are left to the
//! unverified shell.

use vstd::prelude::*;

verus! {

/// The arguments of the benchmark-test command.
pub struct BenchTestArgs {
    /// Path to the root of the benchmark.
    pub benchmark_dir: String,
    /// Layer names to restrict the run to; empty means every layer.
    pub layer: Vec<String>,
    /// App names to restrict the run to; empty means every app.
    pub app: Vec<String>,
    /// Use `make -n test` instead of a full run.
    pub dry_run: bool,
}

/// The outcome of one `make test` run.
pub struct RunResult {
    /// The application directory the run happened in.
    pub dir: String,
    /// Whether the command exited with code 0.
    pub ok: bool,
    /// What the command printed on standard output.
    pub stdout: String,
    /// What the command printed on standard error.
    pub stderr: String,
}

impl RunResult {
    /// What the command printed on standard output.
    pub fn stdout(&self) -> (r: &String)
        ensures
            r == &self.stdout,
    {
        &self.stdout
    }

    /// What the command printed on standard error.
    pub fn stderr(&self) -> (r: &String)
        ensures
            r == &self.stderr,
    {
        &self.stderr
    }
}

/// One `make test` invocation for an application directory: `make test`,
/// with `-n` first in a dry run, working directory the application's.
pub struct MakeInvocation {
    pub program: String,
    pub args: Vec<String>,
    pub workdir: String,
}

/// Builds the `make` invocation for one application directory.
pub fn make_invocation(path: &str, dry_run: bool) -> (r: MakeInvocation)
    ensures
        r.program@ == "make"@,
        dry_run ==> r.args@.len() == 2 && r.args@[0]@ == "-n"@ && r.args@[1]@ == "test"@,
        !dry_run ==> r.args@.len() == 1 && r.args@[0]@ == "test"@,
        r.workdir@ == path@,
{
    let mut args: Vec<String> = Vec::new();
    if dry_run {
        args.push("-n".to_owned());
    }
    args.push("test".to_owned());
    MakeInvocation { program: "make".to_owned(), args, workdir: path.to_owned() }
}

/// The label a run is reported under: `Success` for exit 0, `Failure`
/// for any other exit, `Error` when the run could not happen at all.
pub fn result_label(outcome: &Option<bool>) -> (r: &'static str)
    ensures
        outcome == Some(true) ==> r@ == "Success"@,
        outcome == Some(false) ==> r@ == "Failure"@,
        outcome is None ==> r@ == "Error"@,
{
    match outcome {
        Some(true) => "Success",
        Some(false) => "Failure",
        None => "Error",
    }
}

/// The report row of one run: the directory and its label.
pub fn result_row(dir: &str, outcome: &Option<bool>) -> (r: [String; 2])
    ensures
        r@[0]@ == dir@,
        outcome == Some(true) ==> r@[1]@ == "Success"@,
        outcome == Some(false) ==> r@[1]@ == "Failure"@,
        outcome is None ==> r@[1]@ == "Error"@,
{
    [dir.to_owned(), result_label(outcome).to_owned()]
}

} // verus!
