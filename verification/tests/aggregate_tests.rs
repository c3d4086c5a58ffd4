use jxr::aggregate::{aggregate, pop_if_empty_begin, AggregatedResult};
use jxr::errors::SearchError;
use jxr::event::EngineEvent;
use jxr::options::Options;

fn begin(path: &str) -> EngineEvent {
    EngineEvent::Begin { path: path.to_string(), raw: format!("b:{}", path) }
}

fn m(path: &str) -> EngineEvent {
    EngineEvent::Match {
        path: path.to_string(),
        line_number: Some(1),
        has_text: true,
        raw: format!("m:{}", path),
    }
}

fn m_no_text(path: &str) -> EngineEvent {
    EngineEvent::Match {
        path: path.to_string(),
        line_number: Some(1),
        has_text: false,
        raw: format!("n:{}", path),
    }
}

fn summary() -> EngineEvent {
    EngineEvent::Summary { raw: "s".to_string() }
}

fn no_filter() -> Options {
    Options { path: None, filetype: None, pattern: None }
}

fn path_filter(f: &str) -> Options {
    Options { path: Some(f.to_string()), filetype: None, pattern: None }
}

fn is_match(e: &EngineEvent) -> bool {
    matches!(e, EngineEvent::Match { .. })
}

fn is_begin(e: &EngineEvent) -> bool {
    matches!(e, EngineEvent::Begin { .. })
}

fn is_summary(e: &EngineEvent) -> bool {
    matches!(e, EngineEvent::Summary { .. })
}

fn match_path(e: &EngineEvent) -> Option<String> {
    match e {
        EngineEvent::Match { path, .. } => Some(path.clone()),
        _ => None,
    }
}

#[test]
fn summary_is_last_and_unique() {
    let events = vec![begin("a"), m("a"), EngineEvent::End, summary()];
    let r = aggregate(events, &no_filter(), 1000).unwrap();
    let n = r.events.len();
    assert!(n > 0);
    assert!(is_summary(&r.events[n - 1]));
    for i in 0..n - 1 {
        assert!(!is_summary(&r.events[i]));
    }
}

#[test]
fn end_events_are_discarded() {
    let events = vec![begin("a"), m("a"), EngineEvent::End, summary()];
    let r = aggregate(events, &no_filter(), 1000).unwrap();
    assert_eq!(r.events.len(), 3);
    assert!(is_begin(&r.events[0]));
    assert!(is_match(&r.events[1]));
    assert!(is_summary(&r.events[2]));
    assert!(!r.truncated);
}

#[test]
fn empty_section_is_elided_before_next_begin() {
    let events = vec![
        begin("a"),
        EngineEvent::End,
        begin("b"),
        m("b"),
        EngineEvent::End,
        summary(),
    ];
    let r = aggregate(events, &no_filter(), 1000).unwrap();
    assert_eq!(r.events.len(), 3);
    assert!(is_begin(&r.events[0]));
    assert!(is_match(&r.events[1]));
}

#[test]
fn empty_section_is_elided_before_summary() {
    let events = vec![begin("a"), m("a"), begin("b"), EngineEvent::End, summary()];
    let r = aggregate(events, &no_filter(), 1000).unwrap();
    assert_eq!(r.events.len(), 3);
    assert!(is_begin(&r.events[0]));
    assert!(is_match(&r.events[1]));
    assert!(is_summary(&r.events[2]));
}

#[test]
fn every_begin_is_followed_by_a_match() {
    let events = vec![
        begin("a"),
        begin("b"),
        m("b"),
        begin("c"),
        EngineEvent::End,
        begin("d"),
        m("d"),
        m("d"),
        summary(),
    ];
    let r = aggregate(events, &no_filter(), 1000).unwrap();
    for i in 0..r.events.len() {
        if is_begin(&r.events[i]) {
            assert!(is_match(&r.events[i + 1]));
        }
    }
}

#[test]
fn match_without_text_is_dropped() {
    let events = vec![begin("a"), m_no_text("a"), EngineEvent::End, summary()];
    let r = aggregate(events, &no_filter(), 1000).unwrap();
    assert_eq!(r.events.len(), 1);
    assert!(is_summary(&r.events[0]));
}

#[test]
fn path_filter_keeps_only_matching_paths() {
    let events = vec![
        begin("foo.rs"),
        m("foo.rs"),
        m("foo.rs"),
        EngineEvent::End,
        begin("bar.rs"),
        m("bar.rs"),
        EngineEvent::End,
        summary(),
    ];
    let r = aggregate(events, &path_filter("foo.rs"), 1000).unwrap();
    let mut match_count = 0;
    for e in &r.events {
        if let Some(p) = match_path(e) {
            assert!(p.contains("foo.rs"));
            match_count += 1;
        }
    }
    assert_eq!(match_count, 2);
    assert!(!r.truncated);
}

#[test]
fn cap_truncates_and_counts_exactly() {
    let mut events = vec![begin("a")];
    for _ in 0..10 {
        events.push(m("a"));
    }
    events.push(EngineEvent::End);
    events.push(summary());
    let r = aggregate(events, &no_filter(), 3).unwrap();
    let matches: usize = r.events.iter().filter(|e| is_match(e)).count();
    assert_eq!(matches, 3);
    assert!(r.truncated);
    assert!(is_summary(&r.events[r.events.len() - 1]));
}

#[test]
fn under_cap_is_not_truncated() {
    let events = vec![begin("a"), m("a"), m("a"), EngineEvent::End, summary()];
    let r = aggregate(events, &no_filter(), 3).unwrap();
    assert!(!r.truncated);
    let matches: usize = r.events.iter().filter(|e| is_match(e)).count();
    assert_eq!(matches, 2);
}

#[test]
fn exactly_cap_matches_reports_truncation() {
    // The cap check fires when the summary arrives after the cap-th
    // match, so a stream with exactly `cap` retainable matches is
    // reported as truncated even though nothing was dropped.
    let events = vec![begin("a"), m("a"), m("a"), m("a"), EngineEvent::End, summary()];
    let r = aggregate(events, &no_filter(), 3).unwrap();
    let matches: usize = r.events.iter().filter(|e| is_match(e)).count();
    assert_eq!(matches, 3);
    assert!(r.truncated);
}

#[test]
fn filtered_matches_do_not_count_toward_cap() {
    let events = vec![
        begin("foo"),
        m("foo"),
        m("bar"),
        m("bar"),
        m("foo"),
        EngineEvent::End,
        summary(),
    ];
    let r = aggregate(events, &path_filter("foo"), 2).unwrap();
    let matches: usize = r.events.iter().filter(|e| is_match(e)).count();
    assert_eq!(matches, 2);
}

#[test]
fn empty_stream_is_missing_summary() {
    let r = aggregate(vec![], &no_filter(), 10);
    assert!(matches!(r, Err(SearchError::MissingSummary)));
}

#[test]
fn stream_without_summary_is_an_error() {
    let events = vec![begin("a"), m("a"), EngineEvent::End];
    let r = aggregate(events, &no_filter(), 10);
    assert!(matches!(r, Err(SearchError::MissingSummary)));
}

#[test]
fn aggregation_is_deterministic() {
    let make = || {
        vec![
            begin("a"),
            m("a"),
            begin("b"),
            EngineEvent::End,
            m("b"),
            summary(),
        ]
    };
    let r1 = aggregate(make(), &no_filter(), 2).unwrap();
    let r2 = aggregate(make(), &no_filter(), 2).unwrap();
    assert_eq!(r1.truncated, r2.truncated);
    assert_eq!(r1.events.len(), r2.events.len());
    for i in 0..r1.events.len() {
        assert_eq!(raw_of(&r1.events[i]), raw_of(&r2.events[i]));
    }
}

fn raw_of(e: &EngineEvent) -> String {
    match e {
        EngineEvent::Begin { raw, .. } => raw.clone(),
        EngineEvent::Match { raw, .. } => raw.clone(),
        EngineEvent::Summary { raw } => raw.clone(),
        EngineEvent::End => String::new(),
    }
}

#[test]
fn pop_if_empty_begin_removes_trailing_begin() {
    let mut results = vec![m("a"), begin("b")];
    pop_if_empty_begin(&mut results);
    assert_eq!(results.len(), 1);
    assert!(is_match(&results[0]));
}

#[test]
fn pop_if_empty_begin_keeps_trailing_match() {
    let mut results = vec![begin("a"), m("a")];
    pop_if_empty_begin(&mut results);
    assert_eq!(results.len(), 2);
}

#[test]
fn aggregated_result_fields_are_reachable() {
    let r = AggregatedResult { events: vec![summary()], truncated: false };
    assert_eq!(r.events.len(), 1);
    assert!(!r.truncated);
}
