//! Text helpers and the metadata file format, exercised on concrete
//! values.

use scarf::eval::types::RunMetaData;
use scarf::json::metadata_to_json;
use scarf::parse::{parse_metadata, parse_run_metadata};
use scarf::text::{
    base_name, contains_sub, field_count, is_blank, parent_dir, path_join, split_slash,
    starts_with, str_concat, str_eq, u32_dec,
};
use scarf::validate::types::{parse_framework, parse_status, Framework, Status};

fn meta(repeat: u32) -> RunMetaData {
    RunMetaData::new(
        "porter".to_string(),
        "business_domain".to_string(),
        "petstore".to_string(),
        "PREPARED".to_string(),
        repeat,
        "spring".to_string(),
        "quarkus".to_string(),
    )
}

#[test]
fn path_join_inserts_one_slash() {
    assert_eq!(path_join("/tmp/out", "run_1"), "/tmp/out/run_1");
    assert_eq!(str_concat("run_", "7"), "run_7");
}

#[test]
fn base_name_takes_the_last_component() {
    assert_eq!(base_name("/a/b/agent"), "agent");
    assert_eq!(base_name("agent"), "agent");
    assert_eq!(base_name("/a/b/"), "");
    assert_eq!(base_name(""), "");
}

#[test]
fn parent_dir_drops_the_last_component() {
    assert_eq!(parent_dir("/a/b/Makefile"), "/a/b");
    assert_eq!(parent_dir("Makefile"), "");
    assert_eq!(parent_dir("/x"), "");
}

#[test]
fn field_count_follows_double_underscore_split() {
    assert_eq!(field_count("a__b__c__d__e"), 5);
    assert_eq!(field_count("a__b"), 2);
    assert_eq!(field_count(""), 1);
    assert_eq!(field_count("____"), 3);
    assert_eq!(field_count("___"), 2);
    assert_eq!(field_count("x____y"), 3);
}

#[test]
fn contains_and_starts_with() {
    assert!(contains_sub("benchmark-v1.2.tar.gz", "benchmark-v"));
    assert!(!contains_sub("sources.zip", "benchmark-v"));
    assert!(contains_sub("abc", ""));
    assert!(starts_with("/root/layer/app", "/root/"));
    assert!(!starts_with("/root", "/root/"));
}

#[test]
fn split_slash_keeps_empty_pieces() {
    assert_eq!(split_slash("a/b/c"), vec!["a", "b", "c"]);
    assert_eq!(split_slash(""), vec![""]);
    assert_eq!(split_slash("/x"), vec!["", "x"]);
    assert_eq!(split_slash("x/"), vec!["x", ""]);
}

#[test]
fn blank_strings_are_all_white_space() {
    assert!(is_blank(""));
    assert!(is_blank(" \t\r\n"));
    assert!(!is_blank(" x "));
}

#[test]
fn str_eq_compares_characters() {
    assert!(str_eq("abc", "abc"));
    assert!(!str_eq("abc", "abd"));
    assert!(!str_eq("abc", "ab"));
}

#[test]
fn decimal_rendering_is_exact() {
    assert_eq!(u32_dec(0), "0");
    assert_eq!(u32_dec(42), "42");
    assert_eq!(u32_dec(4294967295), "4294967295");
}

#[test]
fn metadata_json_matches_the_pretty_layout() {
    let m = meta(1);
    let expected = "{\n  \"agent\": \"porter\",\n  \"layer\": \"business_domain\",\n  \"app\": \"petstore\",\n  \"status\": \"PREPARED\",\n  \"repeat\": 1,\n  \"source_framework\": \"spring\",\n  \"target_framework\": \"quarkus\"\n}";
    assert_eq!(metadata_to_json(&m), expected);
}

#[test]
fn metadata_json_escapes_specials() {
    let m = RunMetaData::new(
        "a\"b\\c".to_string(),
        "l\nl".to_string(),
        "tab\there".to_string(),
        "PREPARED".to_string(),
        2,
        "s\u{1}s".to_string(),
        "quarkus".to_string(),
    );
    let text = metadata_to_json(&m);
    assert!(text.contains("a\\\"b\\\\c"));
    assert!(text.contains("l\\nl"));
    assert!(text.contains("tab\\there"));
    assert!(text.contains("s\\u0001s"));
}

#[test]
fn emitted_metadata_reads_back_unchanged() {
    let m = RunMetaData::new(
        "agent \"x\"\\y".to_string(),
        "layer\r\n".to_string(),
        "app\t".to_string(),
        "AGENT EXECUTION COMPLETE".to_string(),
        7,
        "spring".to_string(),
        "quarkus".to_string(),
    );
    let text = metadata_to_json(&m);
    let back = parse_run_metadata(&text).expect("emitted metadata must parse");
    assert_eq!(back.agent, m.agent);
    assert_eq!(back.layer, m.layer);
    assert_eq!(back.app, m.app);
    assert_eq!(back.status, m.status);
    assert_eq!(back.repeat, m.repeat);
    assert_eq!(back.source_framework, m.source_framework);
    assert_eq!(back.target_framework, m.target_framework);
}

#[test]
fn control_characters_survive_the_round_trip() {
    let m = RunMetaData::new(
        "a\u{1}b\u{1f}c".to_string(),
        "l".to_string(),
        "p".to_string(),
        "PREPARED".to_string(),
        1,
        "s".to_string(),
        "t".to_string(),
    );
    let back = parse_run_metadata(&metadata_to_json(&m)).expect("must parse");
    assert_eq!(back.agent, "a\u{1}b\u{1f}c");
}

#[test]
fn reader_tolerates_order_and_white_space() {
    let text = "  {\"repeat\":3,\t\"target_framework\": \"quarkus\",\n\"agent\":\"a\",\"layer\":\"l\",\"app\":\"p\",\"status\":\"PREPARED\",\"source_framework\":\"spring\"}  ";
    let m = parse_run_metadata(text).expect("must parse");
    assert_eq!(m.repeat, 3);
    assert_eq!(m.agent, "a");
}

#[test]
fn driver_reader_ignores_extra_members_validation_reader_does_not() {
    let text = "{\"agent\":\"a\",\"layer\":\"l\",\"app\":\"p\",\"status\":\"PREPARED\",\"repeat\":1,\"source_framework\":\"spring\",\"target_framework\":\"quarkus\",\"extra\":\"x\"}";
    assert!(parse_run_metadata(text).is_some());
    assert!(parse_metadata(text).is_none());
}

#[test]
fn reader_rejects_duplicates_and_bad_values() {
    let dup = "{\"agent\":\"a\",\"agent\":\"b\",\"layer\":\"l\",\"app\":\"p\",\"status\":\"PREPARED\",\"repeat\":1,\"source_framework\":\"spring\",\"target_framework\":\"quarkus\"}";
    assert!(parse_run_metadata(dup).is_none());
    let zero = "{\"agent\":\"a\",\"layer\":\"l\",\"app\":\"p\",\"status\":\"PREPARED\",\"repeat\":0,\"source_framework\":\"spring\",\"target_framework\":\"quarkus\"}";
    assert!(parse_run_metadata(zero).is_none());
    let huge = "{\"agent\":\"a\",\"layer\":\"l\",\"app\":\"p\",\"status\":\"PREPARED\",\"repeat\":4294967296,\"source_framework\":\"spring\",\"target_framework\":\"quarkus\"}";
    assert!(parse_run_metadata(huge).is_none());
    let lead = "{\"agent\":\"a\",\"layer\":\"l\",\"app\":\"p\",\"status\":\"PREPARED\",\"repeat\":01,\"source_framework\":\"spring\",\"target_framework\":\"quarkus\"}";
    assert!(parse_run_metadata(lead).is_none());
    let tail = "{\"agent\":\"a\",\"layer\":\"l\",\"app\":\"p\",\"status\":\"PREPARED\",\"repeat\":1,\"source_framework\":\"spring\",\"target_framework\":\"quarkus\"} x";
    assert!(parse_run_metadata(tail).is_none());
    let missing = "{\"agent\":\"a\",\"layer\":\"l\",\"app\":\"p\",\"status\":\"PREPARED\",\"repeat\":1,\"source_framework\":\"spring\"}";
    assert!(parse_run_metadata(missing).is_none());
}

#[test]
fn validation_reader_types_its_fields() {
    let good = "{\"agent\":\"a\",\"layer\":\"l\",\"app\":\"p\",\"status\":\"AGENT EXECUTION COMPLETE\",\"repeat\":2,\"source_framework\":\"spring\",\"target_framework\":\"quarkus\"}";
    let m = parse_metadata(good).expect("must parse");
    assert!(matches!(m.status, Status::Complete));
    assert!(matches!(m.source_framework, Framework::Spring));
    assert!(matches!(m.target_framework, Framework::Quarkus));
    let (layer, app, fw) = m.validation_triple();
    assert_eq!(layer, "l");
    assert_eq!(app, "p");
    assert_eq!(fw, "quarkus");
    let bad_status = good.replace("AGENT EXECUTION COMPLETE", "DONE");
    assert!(parse_metadata(&bad_status).is_none());
    let bad_fw = good.replace("spring", "rails");
    assert!(parse_metadata(&bad_fw).is_none());
}

#[test]
fn status_and_framework_names_round_trip() {
    for st in [
        Status::Prepared,
        Status::Complete,
        Status::Failed,
        Status::Success,
        Status::TestFailure,
        Status::Timeout,
    ] {
        assert_eq!(parse_status(st.as_str()), Some(st));
    }
    assert_eq!(parse_status("NOPE"), None);
    for fw in [Framework::Spring, Framework::Quarkus, Framework::Jakarta] {
        assert_eq!(parse_framework(fw.as_str()), Some(fw));
    }
    assert_eq!(parse_framework("Spring"), None);
    assert_eq!(Status::Complete.as_str(), "AGENT EXECUTION COMPLETE");
    assert_eq!(Framework::Jakarta.as_str(), "jakarta");
}
