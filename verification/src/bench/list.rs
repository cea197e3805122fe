//! Listing the benchmark's applications: which walked entries make a
//! table row, and the table itself.
//!
//! An application is listed once per framework directory: every
//! `layer/app/framework` directory holding a `Makefile` directly under
//! the benchmark root becomes one row.

use vstd::prelude::*;

use crate::errors::ScarfError;
use crate::text::{
    spec_base_name, spec_match_at, spec_parent_dir, spec_split_slash, base_name, parent_dir,
    split_slash, starts_with, str_concat, str_eq,
};
use crate::ui::{render_table, table_render_of};

verus! {

/// The arguments of the listing command.
pub struct BenchListArgs {
    /// Path to the root of the benchmark.
    pub benchmark_dir: String,
    /// One layer to restrict the listing to, if any.
    pub layer: Option<String>,
}

/// What one walked path contributes to the listing: nothing, one row, or
/// a fault (a `Makefile` whose directory does not sit under the root).
pub enum RowStep {
    Skip,
    Row((Seq<char>, Seq<char>, Seq<char>, Seq<char>)),
    Bad,
}

/// The contribution of the walked path `p`: a row exactly when `p` names
/// a `Makefile` whose directory sits three `/`-separated pieces below
/// `root` — the layer, the app and the framework; the row carries those
/// three and the directory itself.
pub open spec fn spec_row_step(p: Seq<char>, root: Seq<char>) -> RowStep {
    if spec_base_name(p) != "Makefile"@ {
        RowStep::Skip
    } else {
        let leaf = spec_parent_dir(p);
        if leaf == root {
            RowStep::Skip
        } else if root.len() + 1 <= leaf.len() && spec_match_at(leaf, root + "/"@, 0) {
            let parts = spec_split_slash(leaf.skip(root.len() + 1 as int));
            if parts.len() == 3 {
                RowStep::Row((parts[0], parts[1], parts[2], leaf))
            } else {
                RowStep::Skip
            }
        } else {
            RowStep::Bad
        }
    }
}

/// The rows of the listing over the walked paths, in walk order; `None`
/// exactly when some `Makefile` lies outside the root.
pub open spec fn spec_rows(paths: Seq<Seq<char>>, root: Seq<char>) -> Option<
    Seq<(Seq<char>, Seq<char>, Seq<char>, Seq<char>)>,
>
    decreases paths.len(),
{
    if paths.len() == 0 {
        Some(Seq::empty())
    } else {
        match spec_row_step(paths[0], root) {
            RowStep::Bad => None,
            RowStep::Skip => spec_rows(paths.skip(1), root),
            RowStep::Row(r) => match spec_rows(paths.skip(1), root) {
                None => None,
                Some(rest) => Some(seq![r] + rest),
            },
        }
    }
}

/// The view of collected rows.
pub open spec fn spec_rows_view(rows: Seq<[String; 4]>) -> Seq<
    (Seq<char>, Seq<char>, Seq<char>, Seq<char>),
> {
    rows.map_values(|a: [String; 4]| (a@[0]@, a@[1]@, a@[2]@, a@[3]@))
}

/// The header of the listing table.
pub fn gen_header() -> (r: [String; 4])
    ensures
        r@[0]@ == "Layer"@,
        r@[1]@ == "Application"@,
        r@[2]@ == "Framework"@,
        r@[3]@ == "Path"@,
{
    [
        "Layer".to_owned(),
        "Application".to_owned(),
        "Framework".to_owned(),
        "Path".to_owned(),
    ]
}

/// Builds the listing rows from the walked paths: one row per `Makefile`
/// sitting exactly at `root/layer/app/framework`, in walk order.  Fails
/// when a `Makefile`'s directory does not sit under the root.
pub fn gen_rows(entries: &Vec<String>, bench_root: &str) -> (r: Result<Vec<[String; 4]>, ScarfError>)
    ensures
        match r {
            Ok(rows) => spec_rows(entries@.map_values(|s: String| s@), bench_root@) == Some(
                spec_rows_view(rows@),
            ),
            Err(e) => spec_rows(entries@.map_values(|s: String| s@), bench_root@) is None
                && e matches ScarfError::Io(_),
        },
{
    let ghost paths = entries@.map_values(|s: String| s@);
    let mut rows: Vec<[String; 4]> = Vec::new();
    let mut i: usize = 0;
    let root_slash = str_concat(bench_root, "/");
    proof {
        assert(spec_rows_view(rows@) =~= Seq::<(Seq<char>, Seq<char>, Seq<char>, Seq<char>)>::empty());
        assert(paths.skip(0) =~= paths);
    }
    while i < entries.len()
        invariant
            i <= entries@.len(),
            paths == entries@.map_values(|s: String| s@),
            root_slash@ == bench_root@ + "/"@,
            match spec_rows(paths.skip(i as int), bench_root@) {
                None => spec_rows(paths, bench_root@) is None,
                Some(rest) => spec_rows(paths, bench_root@) == Some(spec_rows_view(rows@) + rest),
            },
        decreases entries@.len() - i,
    {
        let ghost p = paths[i as int];
        proof {
            reveal_strlit("/");
            assert("/"@.len() == 1);
            assert(p == entries@[i as int]@);
            assert(paths.skip(i as int)[0] == p);
            assert(paths.skip(i as int).skip(1) =~= paths.skip(i + 1));
        }
        let entry = &entries[i];
        let name = base_name(entry.as_str());
        if str_eq(name.as_str(), "Makefile") {
            let leaf = parent_dir(entry.as_str());
            if str_eq(leaf.as_str(), bench_root) {
                // The Makefile sits directly at the root: no row.
            } else if starts_with(leaf.as_str(), root_slash.as_str()) {
                let rl = root_slash.as_str().unicode_len();
                let ll = leaf.as_str().unicode_len();
                let rel = leaf.as_str().substring_char(rl, ll);
                proof {
                    assert(rel@ =~= spec_parent_dir(p).skip(bench_root@.len() + 1 as int));
                }
                let parts = split_slash(rel);
                if parts.len() == 3 {
                    let ghost old_rows = rows@;
                    let row = [
                        parts[0].clone(),
                        parts[1].clone(),
                        parts[2].clone(),
                        leaf,
                    ];
                    rows.push(row);
                    proof {
                        let pr = spec_split_slash(spec_parent_dir(p).skip(bench_root@.len() + 1 as int));
                        assert(parts@.map_values(|q: String| q@) == pr);
                        assert(row@[0]@ == pr[0]);
                        assert(row@[1]@ == pr[1]);
                        assert(row@[2]@ == pr[2]);
                        assert(spec_row_step(p, bench_root@) == RowStep::Row(
                            (pr[0], pr[1], pr[2], spec_parent_dir(p)),
                        ));
                        assert(spec_rows_view(rows@) =~= spec_rows_view(old_rows).push(
                            (pr[0], pr[1], pr[2], spec_parent_dir(p)),
                        ));
                        if let Some(rest) = spec_rows(paths.skip(i + 1), bench_root@) {
                            assert(spec_rows_view(old_rows) + (seq![
                                (pr[0], pr[1], pr[2], spec_parent_dir(p)),
                            ] + rest) =~= spec_rows_view(rows@) + rest);
                        }
                    }
                } else {
                    proof {
                        assert(spec_row_step(p, bench_root@) == RowStep::Skip);
                    }
                }
            } else {
                proof {
                    assert(spec_row_step(p, bench_root@) == RowStep::Bad);
                }
                let mut m = "an entry does not sit under the benchmark root: ".to_owned();
                m.append(entry.as_str());
                return Err(ScarfError::Io(m));
            }
        }
        i = i + 1;
    }
    proof {
        assert(paths.skip(paths.len() as int) =~= Seq::<Seq<char>>::empty());
        assert(spec_rows_view(rows@) + Seq::<(Seq<char>, Seq<char>, Seq<char>, Seq<char>)>::empty()
            =~= spec_rows_view(rows@));
    }
    Ok(rows)
}

/// Renders header and rows as the listing table.
pub fn tabulate(header: &[String; 4], rows: &Vec<[String; 4]>) -> (r: String)
    ensures
        r@ == table_render_of(
            header@.map_values(|s: String| s@),
            rows@.map_values(|a: [String; 4]| a@.map_values(|s: String| s@)),
        ),
{
    let mut hv: Vec<String> = Vec::new();
    hv.push(header[0].clone());
    hv.push(header[1].clone());
    hv.push(header[2].clone());
    hv.push(header[3].clone());
    proof {
        assert(hv@.map_values(|s: String| s@) =~= header@.map_values(|s: String| s@));
    }
    let mut rv: Vec<Vec<String>> = Vec::new();
    let mut i: usize = 0;
    while i < rows.len()
        invariant
            i <= rows@.len(),
            rv@.len() == i,
            forall|j: int|
                0 <= j < i ==> (#[trigger] rv@[j])@.map_values(|s: String| s@) == rows@[j]@
                    .map_values(|s: String| s@),
        decreases rows@.len() - i,
    {
        let mut row: Vec<String> = Vec::new();
        row.push(rows[i][0].clone());
        row.push(rows[i][1].clone());
        row.push(rows[i][2].clone());
        row.push(rows[i][3].clone());
        proof {
            assert(row@.map_values(|s: String| s@) =~= rows@[i as int]@.map_values(
                |s: String| s@,
            ));
        }
        rv.push(row);
        i = i + 1;
    }
    let out = render_table(&hv, &rv);
    proof {
        assert(rv@.map_values(|row: Vec<String>| row@.map_values(|s: String| s@)) =~= rows@
            .map_values(|a: [String; 4]| a@.map_values(|s: String| s@)));
    }
    out
}

} // verus!
