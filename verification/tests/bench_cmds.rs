//! The benchmark commands: listing rows and tables, pull configuration,
//! and the make smoke-test helpers.

use scarf::bench::list::{gen_header, gen_rows, tabulate};
use scarf::bench::pull::{choose_token, run as pull_run, Asset, BenchPullArgs, PullScarfBench};
use scarf::bench::test::{make_invocation, result_label, result_row};
use scarf::commands::run::run_agent;
use scarf::ui::table;
use scarf::utils::logo;

/// The header row of the listing must name its four columns.
#[test]
fn test_gen_header() {
    let header = gen_header();
    assert_eq!(
        header,
        [
            "Layer".to_string(),
            "Application".to_string(),
            "Framework".to_string(),
            "Path".to_string(),
        ]
    );
}

/// A Makefile three levels below the root makes a row; one at two levels
/// does not.
#[test]
fn test_gen_rows() {
    let bench_root = "/tmp/repo/benchmark";
    let entries = vec![
        format!("{}/layer", bench_root),
        format!("{}/layer/app", bench_root),
        format!("{}/layer/app/Makefile", bench_root),
        format!("{}/layer/app/framework", bench_root),
        format!("{}/layer/app/framework/Makefile", bench_root),
    ];
    let mut rows = gen_rows(&entries, bench_root).expect("rows must build");
    rows.sort();
    assert_eq!(rows.len(), 1);
    assert_eq!(rows[0][0], "layer");
    assert_eq!(rows[0][1], "app");
    assert_eq!(rows[0][2], "framework");
    assert_eq!(rows[0][3], format!("{}/layer/app/framework", bench_root));
}

/// Walking one layer only lists that layer's applications.
#[test]
fn test_specify_benchroot() {
    let bench_root = "/tmp/repo/benchmark";
    let entries = vec![format!("{}/layer1/app1/framework/Makefile", bench_root)];
    let mut rows = gen_rows(&entries, bench_root).expect("rows must build");
    rows.sort();
    assert_eq!(rows.len(), 1);
    assert_eq!(rows[0][0], "layer1");
    assert_eq!(rows[0][1], "app1");
    assert_eq!(rows[0][2], "framework");
    assert_eq!(rows[0][3], format!("{}/layer1/app1/framework", bench_root));
}

#[test]
fn gen_rows_rejects_a_makefile_outside_the_root() {
    let entries = vec!["/elsewhere/x/Makefile".to_string()];
    assert!(gen_rows(&entries, "/tmp/repo/benchmark").is_err());
}

#[test]
fn tables_render_headers_and_cells() {
    let header = gen_header();
    let rows = vec![[
        "layer".to_string(),
        "app".to_string(),
        "fw".to_string(),
        "/p".to_string(),
    ]];
    let rendered = tabulate(&header, &rows);
    assert!(rendered.contains("Layer"));
    assert!(rendered.contains("Application"));
    assert!(rendered.contains("app"));
    assert!(rendered.contains("┌"));
    assert!(rendered.contains("┆"));
    let generic = table(
        &vec!["Application Path".to_string(), "Result".to_string()],
        &vec![vec!["/p".to_string(), "Success".to_string()]],
    );
    assert!(generic.contains("Application Path"));
    assert!(generic.contains("Success"));
    assert!(generic.contains("╞"));
}

#[test]
fn logo_wraps_the_art_in_ansi_codes() {
    let banner = logo();
    assert!(banner.starts_with("\u{1b}[1m\u{1b}[31m\u{1b}[31m\u{1b}[1m"));
    assert!(banner.ends_with("\u{1b}[0m\u{1b}[39m\u{1b}[0m"));
    assert!(banner.contains("███████╗"));
}

#[test]
fn pull_is_configured_with_the_default_prefix() {
    let p = pull_run(BenchPullArgs { dest: "/dest".to_string(), version: Some("v2".to_string()) });
    assert_eq!(p.asset_name_prefix, "benchmark-v");
    assert_eq!(p.version.as_deref(), Some("v2"));
    assert_eq!(p.dest_dir, "/dest");
}

#[test]
fn api_url_depends_on_the_version() {
    let tagged = PullScarfBench::new(Some("v1.4".to_string()), "/d".to_string());
    assert_eq!(
        tagged.api_url(),
        "https://api.github.com/repos/scarfbench/benchmark/releases/tags/v1.4"
    );
    let latest = PullScarfBench::new(None, "/d".to_string());
    assert_eq!(
        latest.api_url(),
        "https://api.github.com/repos/scarfbench/benchmark/releases/latest"
    );
}

#[test]
fn the_first_matching_asset_is_selected() {
    let pull = PullScarfBench::new(None, "/d".to_string());
    let assets = vec![
        Asset { name: "sources.zip".to_string(), browser_download_url: "u0".to_string() },
        Asset { name: "benchmark-v1.tar.gz".to_string(), browser_download_url: "u1".to_string() },
        Asset { name: "benchmark-v2.tar.gz".to_string(), browser_download_url: "u2".to_string() },
    ];
    assert_eq!(pull.select_asset(&assets), Some(1));
    assert_eq!(pull.select_asset(&Vec::new()), None);
    let none = vec![Asset { name: "notes.txt".to_string(), browser_download_url: "u".to_string() }];
    assert_eq!(pull.select_asset(&none), None);
}

#[test]
fn tokens_fall_back_only_past_blank_values() {
    assert_eq!(choose_token(Some("tok".to_string()), Some("other".to_string())).as_deref(), Some("tok"));
    assert_eq!(choose_token(Some("  ".to_string()), Some("other".to_string())).as_deref(), Some("other"));
    assert_eq!(choose_token(None, Some("other".to_string())).as_deref(), Some("other"));
    assert_eq!(choose_token(Some(" ".to_string()), Some("".to_string())), None);
    assert_eq!(choose_token(None, None), None);
}

#[test]
fn make_invocations_and_labels_are_exact() {
    let dry = make_invocation("/bench/L/A/fw", true);
    assert_eq!(dry.program, "make");
    assert_eq!(dry.args, vec!["-n", "test"]);
    assert_eq!(dry.workdir, "/bench/L/A/fw");
    let full = make_invocation("/bench/L/A/fw", false);
    assert_eq!(full.args, vec!["test"]);
    assert_eq!(result_label(&Some(true)), "Success");
    assert_eq!(result_label(&Some(false)), "Failure");
    assert_eq!(result_label(&None), "Error");
    let row = result_row("/p", &Some(false));
    assert_eq!(row[0], "/p");
    assert_eq!(row[1], "Failure");
}

#[test]
fn the_agent_runner_stub_reports_two_messages() {
    let msgs = run_agent("/a", "/f", "quarkus", "/o", &Vec::new());
    assert_eq!(msgs.len(), 2);
    assert_eq!(msgs[0], "Implement agent runner.");
}
