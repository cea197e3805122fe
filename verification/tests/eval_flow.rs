//! The layout builder, the dispatch decisions and the validation
//! decisions, end to end on concrete values.

use scarf::errors::ScarfError;
use scarf::eval::driver::{
    agent_invocation, agent_matches, dispatch_outcome, dispatch_status, groups_for_agent,
    pool_size,
};
use scarf::eval::prepare::{
    instance_metadata, is_harness_entry, names_to_copy, prepare_harness, AppEntry,
};
use scarf::eval::run::{normalized_jobs, run as eval_run, EvalRunArgs};
use scarf::eval::types::{EvalKey, EvalLayout};
use scarf::eval::EvalCmd;
use scarf::validate::types::Status;
use scarf::validate::{discovered, harness_dir, is_reseed_name, outcome_of_wait, ProgressTally};

fn args(k: u32) -> EvalRunArgs {
    EvalRunArgs {
        benchmark_dir: "/bench".to_string(),
        agent_dir: "/agents/porter".to_string(),
        layer: vec!["L".to_string()],
        app: vec!["A".to_string()],
        source_framework: "spring".to_string(),
        target_framework: "quarkus".to_string(),
        pass_at_k: k,
        eval_out: "/out".to_string(),
        jobs: 1,
        prepare_only: false,
    }
}

fn one_app() -> Vec<AppEntry> {
    vec![AppEntry { layer: "L".to_string(), app: "A".to_string() }]
}

#[test]
fn layout_for_one_app_has_k_instances_prepared() {
    let layout = prepare_harness(&args(3), &one_app()).expect("layout must build");
    assert_eq!(layout.evals.len(), 1);
    let (key, group) = &layout.evals[0];
    assert_eq!(group.root, "/out/porter__L__A__spring__quarkus");
    assert_eq!(group.runs().len(), 3);
    for (i, inst) in group.runs().iter().enumerate() {
        let rep = (i + 1) as u32;
        let root = format!("/out/porter__L__A__spring__quarkus/run_{}", rep);
        assert_eq!(inst.root, root);
        assert_eq!(inst.input, format!("{}/input", root));
        assert_eq!(inst.output, format!("{}/output", root));
        assert_eq!(inst.validation, format!("{}/validation", root));
        let m = instance_metadata(key, rep);
        assert_eq!(m.status, "PREPARED");
        assert_eq!(m.repeat, rep);
        assert!(m.repeat >= 1 && m.repeat <= 3);
        assert_eq!(m.agent, "porter");
    }
}

#[test]
fn pass_at_k_zero_still_builds_one_instance() {
    let layout = prepare_harness(&args(0), &one_app()).expect("layout must build");
    assert_eq!(layout.evals[0].1.runs().len(), 1);
}

#[test]
fn group_name_joins_the_five_fields() {
    let key = EvalKey::new(
        "agent".to_string(),
        "layer".to_string(),
        "app".to_string(),
        "source".to_string(),
        "target".to_string(),
    );
    assert_eq!(key.repr(), "agent__layer__app__source__target");
    assert_eq!(key.agent(), "agent");
    assert_eq!(key.layer(), "layer");
    assert_eq!(key.app(), "app");
    assert_eq!(key.source_framework(), "source");
    assert_eq!(key.target_framework(), "target");
}

#[test]
fn rebuilding_the_same_layout_plans_identical_paths() {
    let a = prepare_harness(&args(2), &one_app()).expect("first build");
    let b = prepare_harness(&args(2), &one_app()).expect("second build");
    assert_eq!(a.evals.len(), b.evals.len());
    for (ga, gb) in a.evals.iter().zip(b.evals.iter()) {
        assert_eq!(ga.0.repr(), gb.0.repr());
        assert_eq!(ga.1.root, gb.1.root);
        assert_eq!(ga.1.runs().len(), gb.1.runs().len());
        for (ia, ib) in ga.1.runs().iter().zip(gb.1.runs().iter()) {
            assert_eq!(ia.root, ib.root);
            assert_eq!(ia.input, ib.input);
            assert_eq!(ia.output, ib.output);
            assert_eq!(ia.validation, ib.validation);
        }
    }
}

#[test]
fn dispatch_moves_status_by_exit_code_only() {
    assert_eq!(dispatch_status(true), Status::Complete);
    assert_eq!(dispatch_status(false), Status::Failed);
    let key = &prepare_harness(&args(1), &one_app()).unwrap().evals[0].0;
    let mut ok = instance_metadata(key, 1);
    dispatch_outcome(&mut ok, true);
    assert_eq!(ok.status, "AGENT EXECUTION COMPLETE");
    assert_eq!(ok.agent, "porter");
    assert_eq!(ok.repeat, 1);
    let mut bad = instance_metadata(key, 1);
    dispatch_outcome(&mut bad, false);
    assert_eq!(bad.status, "AGENT EXECUTION FAILED");
}

#[test]
fn dispatch_selects_only_the_named_agent() {
    let mut evals = prepare_harness(&args(1), &one_app()).unwrap().evals;
    let other = EvalRunArgs { agent_dir: "/agents/other".to_string(), ..args(1) };
    evals.extend(
        prepare_harness(&other, &vec![AppEntry { layer: "M".to_string(), app: "B".to_string() }])
            .unwrap()
            .evals,
    );
    let layout = EvalLayout::new(evals);
    let sel = groups_for_agent("/agents/porter", &layout);
    assert_eq!(sel, vec![0]);
    assert!(agent_matches("/agents/porter", &layout.evals[0].0));
    assert!(!agent_matches("/agents/porter", &layout.evals[1].0));
    assert!(groups_for_agent("/agents/nobody", &layout).is_empty());
}

#[test]
fn agent_invocation_is_fully_determined() {
    let layout = prepare_harness(&args(1), &one_app()).unwrap();
    let (key, group) = &layout.evals[0];
    let m = instance_metadata(key, 1);
    let inv = agent_invocation("/agents/porter", &group.runs()[0], &m);
    assert_eq!(inv.program, "bash");
    assert_eq!(inv.args, vec!["-lc", "./run.sh"]);
    assert_eq!(inv.workdir, "/agents/porter");
    assert_eq!(
        inv.env,
        vec![
            (
                "SCARF_WORK_DIR".to_string(),
                "/out/porter__L__A__spring__quarkus/run_1/output".to_string()
            ),
            ("SCARF_SOURCE_FRAMEWORK".to_string(), "spring".to_string()),
            ("SCARF_TARGET_FRAMEWORK".to_string(), "quarkus".to_string()),
        ]
    );
    assert_eq!(inv.stdout_path, "/out/porter__L__A__spring__quarkus/run_1/validation/agent.out");
    assert_eq!(inv.stderr_path, "/out/porter__L__A__spring__quarkus/run_1/validation/agent.err");
}

#[test]
fn pool_and_jobs_are_coerced() {
    assert_eq!(pool_size(3, 8), 3);
    assert_eq!(pool_size(8, 3), 3);
    assert_eq!(normalized_jobs(0), 1);
    assert_eq!(normalized_jobs(5), 5);
}

#[test]
fn eval_run_must_error_out_when_from_target_framework_are_same() {
    let mut a = args(1);
    a.target_framework = "spring".to_string();
    let err = eval_run(&a, &one_app()).err().expect("equal frameworks must be rejected");
    match err {
        ScarfError::Config(m) => {
            assert!(m.contains("From and To frameworks cannot be the same"));
        },
        _ => panic!("expected a configuration error"),
    }
}

#[test]
fn empty_selection_is_a_discovery_error() {
    let r = prepare_harness(&args(1), &Vec::new());
    assert!(matches!(r, Err(ScarfError::Discovery(_))));
}

#[test]
fn unusable_agent_directory_is_a_config_error() {
    let mut a = args(1);
    a.agent_dir = "/agents/".to_string();
    let r = prepare_harness(&a, &one_app());
    assert!(matches!(r, Err(ScarfError::Config(_))));
    let msg = r.err().unwrap().message();
    assert!(!msg.is_empty());
}

#[test]
fn discovery_keeps_only_five_field_names() {
    assert!(discovered("porter__L__A__spring__quarkus"));
    assert!(!discovered("porter__L__A__spring"));
    assert!(!discovered("porter__L__A__spring__quarkus__extra"));
    assert!(!discovered("plain-directory"));
    assert!(!discovered(""));
}

#[test]
fn validation_outcomes_are_terminal_and_exact() {
    assert_eq!(outcome_of_wait(Some(true)), Status::Success);
    assert_eq!(outcome_of_wait(Some(false)), Status::TestFailure);
    assert_eq!(outcome_of_wait(None), Status::Timeout);
}

#[test]
fn reseed_names_are_exactly_three() {
    assert!(is_reseed_name("Makefile"));
    assert!(is_reseed_name("makefile"));
    assert!(is_reseed_name("Dockerfile"));
    assert!(!is_reseed_name("smoke.py"));
    assert!(!is_reseed_name("MAKEFILE"));
    assert_eq!(harness_dir("/bench", "L", "A", "quarkus"), "/bench/L/A/quarkus");
}

#[test]
fn progress_tally_drains_to_done() {
    let mut t = ProgressTally::new(2);
    assert!(!t.is_done());
    t.tick();
    assert!(!t.is_done());
    t.tick();
    assert!(t.is_done());
}

#[test]
fn copy_filter_excludes_the_harness_entries() {
    assert!(is_harness_entry("smoke.py"));
    assert!(is_harness_entry("smoke"));
    assert!(is_harness_entry("Makefile"));
    assert!(is_harness_entry(".dockerignore"));
    assert!(is_harness_entry("Dockerfile"));
    assert!(!is_harness_entry("src"));
    let entries = vec![
        "src".to_string(),
        "Makefile".to_string(),
        "pom.xml".to_string(),
        "smoke.py".to_string(),
        "Dockerfile".to_string(),
        ".dockerignore".to_string(),
        "smoke".to_string(),
        "README.md".to_string(),
    ];
    assert_eq!(names_to_copy(&entries), vec!["src", "pom.xml", "README.md"]);
}

#[test]
fn end_to_end_three_runs_complete_with_seeded_output() {
    let cmd = EvalCmd::Run(args(3));
    let layout = scarf::eval::run(&cmd, &one_app()).expect("layout must build");
    assert_eq!(layout.evals.len(), 1);
    let (key, group) = &layout.evals[0];
    assert_eq!(key.repr(), "porter__L__A__spring__quarkus");
    assert_eq!(group.runs().len(), 3);
    let source_entries = vec![
        "src".to_string(),
        "pom.xml".to_string(),
        "Makefile".to_string(),
        "smoke.py".to_string(),
    ];
    for (i, inst) in group.runs().iter().enumerate() {
        let rep = (i + 1) as u32;
        assert_eq!(inst.root, format!("/out/porter__L__A__spring__quarkus/run_{}", rep));
        // The agent exits 0 for every repeat: every instance completes.
        let mut m = instance_metadata(key, rep);
        dispatch_outcome(&mut m, true);
        assert_eq!(m.status, "AGENT EXECUTION COMPLETE");
        // Output is seeded with everything except the harness entries.
        assert_eq!(names_to_copy(&source_entries), vec!["src", "pom.xml"]);
        // The populated group directory qualifies for validation later.
        assert!(discovered(&key.repr()));
    }
}
