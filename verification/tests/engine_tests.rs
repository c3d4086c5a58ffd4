use jxr::engine::{
    aggregate_output, build_invocation, convert_to_utf8, get_ripgrep_output, tree_name_ok,
    Config,
};
use jxr::errors::SearchError;
use jxr::event::{classify_line, parse_result, EngineEvent};
use jxr::options::{parse_options, Options};

fn begin_line(path: &str) -> String {
    format!("{{\"type\":\"begin\",\"data\":{{\"path\":{{\"text\":\"{}\"}}}}}}", path)
}

fn match_line(path: &str, n: u64, text: &str) -> String {
    format!(
        "{{\"type\":\"match\",\"data\":{{\"path\":{{\"text\":\"{}\"}},\"lines\":{{\"text\":\"{}\"}},\"line_number\":{},\"absolute_offset\":0,\"submatches\":[]}}}}",
        path, text, n
    )
}

fn end_line(path: &str) -> String {
    format!("{{\"type\":\"end\",\"data\":{{\"path\":{{\"text\":\"{}\"}}}}}}", path)
}

fn summary_line() -> String {
    let a = "{\"type\":\"summary\",\"data\":{\"elapsed_total\":{\"human\":\"0.01s\",\"nanos\":100,\"secs\":0},";
    let b = "\"stats\":{\"bytes_printed\":10,\"bytes_searched\":20,\"elapsed\":{\"human\":\"0s\",\"nanos\":50,\"secs\":0},";
    let c = "\"matched_lines\":2,\"matches\":2,\"searches\":1,\"searches_with_match\":1}}}";
    format!("{}{}{}", a, b, c)
}

fn no_filter() -> Options {
    Options { path: None, filetype: None, pattern: None }
}

#[test]
fn config_has_the_fixed_settings() {
    let c = Config::new("/code".to_string());
    assert_eq!(c.max_matches, 1000);
    assert_eq!(c.code_dir, "/code");
    assert_eq!(c.globs, vec!["!*.po".to_string(), "!*.pot".to_string()]);
}

#[test]
fn exit_statuses_are_classified() {
    assert!(get_ripgrep_output(Some(0), b"out".to_vec(), String::new()).is_ok());
    assert!(get_ripgrep_output(Some(1), b"out".to_vec(), String::new()).is_ok());
    let r = get_ripgrep_output(Some(2), b"out".to_vec(), "boom".to_string());
    match r {
        Err(SearchError::Engine { message }) => assert_eq!(message, "boom"),
        _ => panic!("expected an engine error"),
    }
    assert!(get_ripgrep_output(None, vec![], "killed".to_string()).is_err());
    assert!(get_ripgrep_output(Some(3), vec![], String::new()).is_err());
}

#[test]
fn successful_exit_hands_stdout_on() {
    let r = get_ripgrep_output(Some(0), vec![1, 2, 3], String::new()).unwrap();
    assert_eq!(r, vec![1, 2, 3]);
}

#[test]
fn utf8_conversion_succeeds_exactly_on_valid_input() {
    assert_eq!(convert_to_utf8(b"hello".to_vec()).as_deref(), Some("hello"));
    assert_eq!(convert_to_utf8(vec![]).as_deref(), Some(""));
    assert!(convert_to_utf8(vec![0xff, 0xfe]).is_none());
}

#[test]
fn tree_names_with_parent_segments_are_rejected() {
    assert!(!tree_name_ok(".."));
    assert!(!tree_name_ok("a/../b"));
    assert!(!tree_name_ok("../x"));
    assert!(tree_name_ok("a/b"));
    assert!(tree_name_ok("a..b"));
    assert!(tree_name_ok("linux"));
}

#[test]
fn invocation_is_built_exactly() {
    let c = Config::new("/code".to_string());
    let o = parse_options("type:rust path:src fn main");
    let inv = build_invocation(&c, "linux", &o).unwrap();
    assert_eq!(inv.working_dir, "/code/linux");
    assert_eq!(
        inv.args,
        vec![
            "--json".to_string(),
            "--glob".to_string(),
            "!*.po".to_string(),
            "--glob".to_string(),
            "!*.pot".to_string(),
            "--type".to_string(),
            "rust".to_string(),
            "fn main".to_string(),
        ]
    );
}

#[test]
fn invocation_without_type_filter_omits_the_type_arguments() {
    let c = Config::new("/code".to_string());
    let o = parse_options("needle");
    let inv = build_invocation(&c, "t", &o).unwrap();
    assert_eq!(
        inv.args,
        vec![
            "--json".to_string(),
            "--glob".to_string(),
            "!*.po".to_string(),
            "--glob".to_string(),
            "!*.pot".to_string(),
            "needle".to_string(),
        ]
    );
}

#[test]
fn missing_pattern_is_an_invocation_error() {
    let c = Config::new("/code".to_string());
    let o = parse_options("path:only-a-filter");
    assert!(matches!(build_invocation(&c, "t", &o), Err(SearchError::Invocation)));
}

#[test]
fn unsafe_tree_is_an_invocation_error() {
    let c = Config::new("/code".to_string());
    let o = parse_options("x");
    assert!(matches!(build_invocation(&c, "../t", &o), Err(SearchError::Invocation)));
}

#[test]
fn classify_decodes_each_event_kind() {
    match classify_line(&begin_line("foo.rs")) {
        Some(EngineEvent::Begin { path, raw }) => {
            assert_eq!(path, "foo.rs");
            assert_eq!(raw, begin_line("foo.rs"));
        },
        _ => panic!("expected a begin event"),
    }
    match classify_line(&match_line("foo.rs", 7, "const X;")) {
        Some(EngineEvent::Match { path, line_number, has_text, raw }) => {
            assert_eq!(path, "foo.rs");
            assert_eq!(line_number, Some(7));
            assert!(has_text);
            assert_eq!(raw, match_line("foo.rs", 7, "const X;"));
        },
        _ => panic!("expected a match event"),
    }
    assert!(matches!(classify_line(&end_line("foo.rs")), Some(EngineEvent::End)));
    assert!(matches!(
        classify_line(&summary_line()),
        Some(EngineEvent::Summary { .. })
    ));
}

#[test]
fn classify_rejects_malformed_lines() {
    assert!(classify_line("not json").is_none());
    assert!(classify_line("{\"type\":\"context\"}").is_none());
    assert!(classify_line("{\"no\":\"type\"}").is_none());
    assert!(classify_line("{\"type\":\"begin\",\"data\":{}}").is_none());
}

#[test]
fn classify_match_without_line_text_has_no_text() {
    let line = "{\"type\":\"match\",\"data\":{\"path\":{\"text\":\"a\"},\"lines\":{\"bytes\":\"xx\"},\"line_number\":1}}";
    match classify_line(line) {
        Some(EngineEvent::Match { has_text, .. }) => assert!(!has_text),
        _ => panic!("expected a match event"),
    }
}

#[test]
fn parse_result_applies_the_retention_rule() {
    let o = parse_options("path:foo const");
    let kept = parse_result(&match_line("foo.rs", 1, "const"), &o).unwrap();
    assert!(kept.is_some());
    let dropped = parse_result(&match_line("bar.rs", 1, "const"), &o).unwrap();
    assert!(dropped.is_none());
    let end = parse_result(&end_line("foo.rs"), &o).unwrap();
    assert!(end.is_none());
    assert!(matches!(
        parse_result("garbage", &o),
        Err(SearchError::MalformedEngineOutput)
    ));
}

fn sample_output() -> String {
    [
        begin_line("foo.rs"),
        match_line("foo.rs", 1, "const A;"),
        match_line("foo.rs", 9, "const B;"),
        end_line("foo.rs"),
        begin_line("bar.rs"),
        match_line("bar.rs", 3, "const C;"),
        end_line("bar.rs"),
        summary_line(),
    ]
    .join("\n")
        + "\n"
}

#[test]
fn aggregate_output_builds_one_json_array() {
    let out = aggregate_output(sample_output().into_bytes(), &no_filter(), 1000).unwrap();
    let v: serde_json::Value = serde_json::from_str(&out).unwrap();
    let arr = v.as_array().unwrap();
    assert_eq!(arr.len(), 6);
    let last = &arr[arr.len() - 1];
    assert_eq!(last["type"].as_str(), Some("summary"));
    assert_eq!(last["data"]["stats"]["truncated"].as_bool(), Some(false));
}

#[test]
fn aggregate_output_respects_the_path_filter() {
    let o = parse_options("path:foo.rs const");
    let out = aggregate_output(sample_output().into_bytes(), &o, 1000).unwrap();
    let v: serde_json::Value = serde_json::from_str(&out).unwrap();
    let arr = v.as_array().unwrap();
    let mut match_paths = vec![];
    for e in arr {
        if e["type"].as_str() == Some("match") {
            match_paths.push(e["data"]["path"]["text"].as_str().unwrap().to_string());
        }
    }
    assert_eq!(match_paths, vec!["foo.rs".to_string(), "foo.rs".to_string()]);
    for e in arr {
        if e["type"].as_str() == Some("begin") {
            assert_eq!(e["data"]["path"]["text"].as_str(), Some("foo.rs"));
        }
    }
    let last = &arr[arr.len() - 1];
    assert_eq!(last["data"]["stats"]["truncated"].as_bool(), Some(false));
}

#[test]
fn aggregate_output_truncates_at_the_cap() {
    let out = aggregate_output(sample_output().into_bytes(), &no_filter(), 2).unwrap();
    let v: serde_json::Value = serde_json::from_str(&out).unwrap();
    let arr = v.as_array().unwrap();
    let matches = arr
        .iter()
        .filter(|e| e["type"].as_str() == Some("match"))
        .count();
    assert_eq!(matches, 2);
    let last = &arr[arr.len() - 1];
    assert_eq!(last["type"].as_str(), Some("summary"));
    assert_eq!(last["data"]["stats"]["truncated"].as_bool(), Some(true));
}

#[test]
fn aggregate_output_twice_is_byte_identical() {
    let a = aggregate_output(sample_output().into_bytes(), &no_filter(), 1000).unwrap();
    let b = aggregate_output(sample_output().into_bytes(), &no_filter(), 1000).unwrap();
    assert_eq!(a, b);
}

#[test]
fn lines_after_the_cap_stop_are_not_decoded() {
    // Once the cap stops the scan, remaining lines are not parsed, so a
    // corrupt line past that point does not fail the request; only the
    // last line is still read, for the summary.
    let text = [
        begin_line("a"),
        match_line("a", 1, "x"),
        match_line("a", 2, "y"),
        "corrupt, never decoded".to_string(),
        summary_line(),
    ]
    .join("\n")
        + "\n";
    let out = aggregate_output(text.into_bytes(), &no_filter(), 1).unwrap();
    let v: serde_json::Value = serde_json::from_str(&out).unwrap();
    let arr = v.as_array().unwrap();
    let matches = arr
        .iter()
        .filter(|e| e["type"].as_str() == Some("match"))
        .count();
    assert_eq!(matches, 1);
    let last = &arr[arr.len() - 1];
    assert_eq!(last["data"]["stats"]["truncated"].as_bool(), Some(true));
}

#[test]
fn lines_after_an_early_summary_are_not_decoded() {
    let text = [
        begin_line("a"),
        match_line("a", 1, "x"),
        summary_line(),
        "corrupt, never decoded".to_string(),
        summary_line(),
    ]
    .join("\n")
        + "\n";
    let out = aggregate_output(text.into_bytes(), &no_filter(), 100).unwrap();
    let v: serde_json::Value = serde_json::from_str(&out).unwrap();
    let arr = v.as_array().unwrap();
    assert_eq!(arr[arr.len() - 1]["type"].as_str(), Some("summary"));
    assert_eq!(
        arr[arr.len() - 1]["data"]["stats"]["truncated"].as_bool(),
        Some(false)
    );
}

#[test]
fn invalid_utf8_output_is_an_encoding_error() {
    let r = aggregate_output(vec![0xff, 0xfe, 0xfd], &no_filter(), 10);
    assert!(matches!(r, Err(SearchError::Encoding)));
}

#[test]
fn malformed_line_is_a_malformed_output_error() {
    let text = format!("{}\nnot json\n{}\n", begin_line("a"), summary_line());
    let r = aggregate_output(text.into_bytes(), &no_filter(), 10);
    assert!(matches!(r, Err(SearchError::MalformedEngineOutput)));
}

#[test]
fn summary_without_full_statistics_is_malformed_output() {
    let text = format!(
        "{}\n{}\n{}\n",
        begin_line("a"),
        match_line("a", 1, "x"),
        "{\"type\":\"summary\",\"data\":{\"stats\":{\"matches\":1}}}"
    );
    let r = aggregate_output(text.into_bytes(), &no_filter(), 10);
    assert!(matches!(r, Err(SearchError::MalformedEngineOutput)));
}

#[test]
fn output_without_summary_is_a_missing_summary_error() {
    let text = format!("{}\n{}\n", begin_line("a"), match_line("a", 1, "x"));
    let r = aggregate_output(text.into_bytes(), &no_filter(), 10);
    assert!(matches!(r, Err(SearchError::MissingSummary)));
}

#[test]
fn empty_output_is_a_missing_summary_error() {
    let r = aggregate_output(Vec::new(), &no_filter(), 10);
    assert!(matches!(r, Err(SearchError::MissingSummary)));
}
