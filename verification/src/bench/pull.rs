//! Pulling a benchmark release: which release URL is asked for, which
//! token authenticates the request, and which release asset is taken.
//! The download, decompression and unpacking themselves are left to the
//! unverified shell.

use vstd::prelude::*;

use crate::text::{contains_sub, is_blank, spec_contains, spec_is_blank, str_concat};

verus! {

/// The arguments of the pull command.
pub struct BenchPullArgs {
    /// Where the benchmark is to be saved.
    pub dest: String,
    /// The release to pull; the latest when absent.
    pub version: Option<String>,
}

/// One release asset: its file name and where it can be fetched.
pub struct Asset {
    pub name: String,
    pub browser_download_url: String,
}

/// A configured pull: the asset-name prefix looked for, the release
/// wanted, and where to unpack it.
pub struct PullScarfBench {
    /// Name (prefix) of the benchmark asset.
    pub asset_name_prefix: String,
    /// The release to pull; the latest when absent.
    pub version: Option<String>,
    /// Where to unpack the benchmark.
    pub dest_dir: String,
}

impl PullScarfBench {
    /// Configures a pull with the standard asset-name prefix.
    pub fn new(version: Option<String>, dest_dir: String) -> (r: Self)
        ensures
            r.asset_name_prefix@ == "benchmark-v"@,
            r.version == version,
            r.dest_dir@ == dest_dir@,
    {
        PullScarfBench { asset_name_prefix: "benchmark-v".to_owned(), version, dest_dir }
    }

    /// The release-metadata URL the pull asks: the tagged release when a
    /// version was chosen, else the latest release.
    pub fn api_url(&self) -> (r: String)
        ensures
            match self.version {
                Some(ref v) => r@
                    == "https://api.github.com/repos/scarfbench/benchmark/releases/tags/"@ + v@,
                None => r@ == "https://api.github.com/repos/scarfbench/benchmark/releases/latest"@,
            },
    {
        match &self.version {
            Some(v) => str_concat(
                "https://api.github.com/repos/scarfbench/benchmark/releases/tags/",
                v.as_str(),
            ),
            None => "https://api.github.com/repos/scarfbench/benchmark/releases/latest".to_owned(),
        }
    }

    /// Picks the index of the first asset whose name holds the configured
    /// prefix; `None` exactly when no asset does.
    pub fn select_asset(&self, assets: &Vec<Asset>) -> (r: Option<usize>)
        ensures
            match r {
                Some(i) => i < assets@.len() && spec_contains(
                    assets@[i as int].name@,
                    self.asset_name_prefix@,
                ) && forall|j: int|
                    0 <= j < i ==> !spec_contains(
                        (#[trigger] assets@[j]).name@,
                        self.asset_name_prefix@,
                    ),
                None => forall|j: int|
                    0 <= j < assets@.len() ==> !spec_contains(
                        (#[trigger] assets@[j]).name@,
                        self.asset_name_prefix@,
                    ),
            },
    {
        let mut i: usize = 0;
        while i < assets.len()
            invariant
                i <= assets@.len(),
                forall|j: int|
                    0 <= j < i ==> !spec_contains(
                        (#[trigger] assets@[j]).name@,
                        self.asset_name_prefix@,
                    ),
            decreases assets@.len() - i,
        {
            if contains_sub(assets[i].name.as_str(), self.asset_name_prefix.as_str()) {
                return Some(i);
            }
            i = i + 1;
        }
        None
    }
}

/// The token a pull authenticates with: the primary environment token
/// when it is set and not blank, else the fallback under the same rule,
/// else none.
pub fn choose_token(primary: Option<String>, fallback: Option<String>) -> (r: Option<String>)
    ensures
        match r {
            Some(ref t) => (primary matches Some(ref p) && p@ == t@ && !spec_is_blank(p@)) || {
                &&& (primary is None || (primary matches Some(ref p) && spec_is_blank(p@)))
                &&& (fallback matches Some(ref f) && f@ == t@ && !spec_is_blank(f@))
            },
            None => {
                &&& (primary is None || (primary matches Some(ref p) && spec_is_blank(p@)))
                &&& (fallback is None || (fallback matches Some(ref f) && spec_is_blank(f@)))
            },
        },
{
    match primary {
        Some(p) => {
            if !is_blank(p.as_str()) {
                return Some(p);
            }
            match fallback {
                Some(f) => {
                    if !is_blank(f.as_str()) {
                        Some(f)
                    } else {
                        None
                    }
                },
                None => None,
            }
        },
        None => match fallback {
            Some(f) => {
                if !is_blank(f.as_str()) {
                    Some(f)
                } else {
                    None
                }
            },
            None => None,
        },
    }
}

/// Configures the pull the command-line arguments ask for.
pub fn run(args: BenchPullArgs) -> (r: PullScarfBench)
    ensures
        r.asset_name_prefix@ == "benchmark-v"@,
        r.version == args.version,
        r.dest_dir@ == args.dest@,
{
    PullScarfBench::new(args.version, args.dest)
}

} // verus!
