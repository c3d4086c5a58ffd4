use jxr::aggregate::aggregate;
use jxr::event::{decode_summary, Elapsed, EngineEvent, StatsPayload, SummaryStats};
use jxr::options::Options;
use jxr::render::{json_quote, render_results, render_string_array, render_summary, u64_dec};

fn no_filter() -> Options {
    Options { path: None, filetype: None, pattern: None }
}

fn sample_stats() -> SummaryStats {
    SummaryStats {
        elapsed_total: Elapsed { human: "0.01s".to_string(), nanos: 100, secs: 0 },
        stats: StatsPayload {
            bytes_printed: 10,
            bytes_searched: 20,
            elapsed: Elapsed { human: "0s".to_string(), nanos: 50, secs: 0 },
            matched_lines: 2,
            matches: 2,
            searches: 1,
            searches_with_match: 1,
        },
    }
}

fn summary_line() -> String {
    let a = "{\"type\":\"summary\",\"data\":{\"elapsed_total\":{\"human\":\"0.01s\",\"nanos\":100,\"secs\":0},";
    let b = "\"stats\":{\"bytes_printed\":10,\"bytes_searched\":20,\"elapsed\":{\"human\":\"0s\",\"nanos\":50,\"secs\":0},";
    let c = "\"matched_lines\":2,\"matches\":2,\"searches\":1,\"searches_with_match\":1}}}";
    format!("{}{}{}", a, b, c)
}

#[test]
fn json_quote_matches_serde() {
    let cases = [
        "",
        "plain",
        "with \"quotes\"",
        "back\\slash",
        "tab\there",
        "line\nbreak",
        "carriage\rreturn",
        "bell\u{7}control",
        "\u{1}\u{1f}",
        "unicode \u{e9}\u{4e16}",
    ];
    for c in cases {
        let ours = json_quote(c);
        let serde_way = serde_json::to_string(c).unwrap();
        assert_eq!(ours, serde_way, "case {:?}", c);
    }
}

#[test]
fn render_string_array_matches_serde() {
    let cases: [&[&str]; 4] = [&[], &["a"], &["alpha", "beta"], &["x\"y", ""]];
    for c in cases {
        let v: Vec<String> = c.iter().map(|s| s.to_string()).collect();
        let ours = render_string_array(&v);
        let serde_way = serde_json::to_string(&v).unwrap();
        assert_eq!(ours, serde_way, "case {:?}", c);
    }
}

#[test]
fn u64_dec_matches_std() {
    for n in [0u64, 7, 10, 42, 1000, u64::MAX] {
        assert_eq!(u64_dec(n), n.to_string());
    }
}

#[test]
fn summary_element_matches_serde_patching() {
    // The verified summary writer reproduces, byte for byte, what
    // patching the engine's own summary line with serde and
    // re-serialising it (keys sorted) yields.
    let stats = decode_summary(&summary_line()).expect("summary line decodes");
    for truncated in [false, true] {
        let ours = render_summary(&stats, truncated);
        let mut v: serde_json::Value = serde_json::from_str(&summary_line()).unwrap();
        v.pointer_mut("/data/stats")
            .unwrap()
            .as_object_mut()
            .unwrap()
            .insert("truncated".to_string(), serde_json::Value::Bool(truncated));
        assert_eq!(ours, v.to_string());
    }
}

#[test]
fn render_joins_raw_lines_and_closes_with_the_summary() {
    let events = vec![
        EngineEvent::Begin {
            path: "a".to_string(),
            raw: "{\"type\":\"begin\"}".to_string(),
        },
        EngineEvent::Match {
            path: "a".to_string(),
            line_number: Some(1),
            has_text: true,
            raw: "{\"type\":\"match\"}".to_string(),
        },
        EngineEvent::Summary { raw: summary_line() },
    ];
    let agg = aggregate(events, &no_filter(), 1000).unwrap();
    let out = render_results(&agg, &sample_stats());
    let v: serde_json::Value = serde_json::from_str(&out).unwrap();
    let arr = v.as_array().unwrap();
    assert_eq!(arr.len(), 3);
    assert_eq!(arr[0]["type"].as_str(), Some("begin"));
    assert_eq!(arr[1]["type"].as_str(), Some("match"));
    assert_eq!(arr[2]["type"].as_str(), Some("summary"));
    assert_eq!(arr[2]["data"]["stats"]["truncated"].as_bool(), Some(false));
    assert_eq!(arr[2]["data"]["stats"]["matches"].as_u64(), Some(2));
    assert_eq!(arr[2]["data"]["elapsed_total"]["nanos"].as_u64(), Some(100));
    assert!(out.starts_with("[{\"type\":\"begin\"},{\"type\":\"match\"},"));
}

#[test]
fn render_sets_truncated_true_when_capped() {
    let mut events = vec![EngineEvent::Begin {
        path: "a".to_string(),
        raw: "{\"type\":\"begin\"}".to_string(),
    }];
    for i in 0..5 {
        events.push(EngineEvent::Match {
            path: "a".to_string(),
            line_number: Some(i),
            has_text: true,
            raw: format!("{{\"type\":\"match\",\"n\":{}}}", i),
        });
    }
    events.push(EngineEvent::Summary { raw: summary_line() });
    let agg = aggregate(events, &no_filter(), 2).unwrap();
    assert!(agg.truncated);
    let out = render_results(&agg, &sample_stats());
    let v: serde_json::Value = serde_json::from_str(&out).unwrap();
    let arr = v.as_array().unwrap();
    assert_eq!(arr.len(), 4);
    assert_eq!(arr[arr.len() - 1]["data"]["stats"]["truncated"].as_bool(), Some(true));
}

#[test]
fn render_summary_only_stream() {
    let events = vec![EngineEvent::Summary { raw: summary_line() }];
    let agg = aggregate(events, &no_filter(), 10).unwrap();
    let out = render_results(&agg, &sample_stats());
    let v: serde_json::Value = serde_json::from_str(&out).unwrap();
    let arr = v.as_array().unwrap();
    assert_eq!(arr.len(), 1);
    assert_eq!(arr[0]["data"]["stats"]["truncated"].as_bool(), Some(false));
}

#[test]
fn decode_summary_needs_the_full_payload() {
    assert!(decode_summary(&summary_line()).is_some());
    assert!(decode_summary("{\"type\":\"summary\",\"data\":{\"stats\":{\"matches\":1}}}").is_none());
    assert!(decode_summary("{\"type\":\"begin\",\"data\":{\"path\":{\"text\":\"a\"}}}").is_none());
    assert!(decode_summary("not json").is_none());
}
