use jxr::options::{parse_options, split_whitespace, Options};

#[test]
fn empty_query_yields_empty_request() {
    let o = parse_options("");
    assert!(o.path.is_none());
    assert!(o.filetype.is_none());
    assert!(o.pattern.is_none());
}

#[test]
fn plain_tokens_join_into_the_pattern() {
    let o = parse_options("hello wonderful world");
    assert!(o.path.is_none());
    assert!(o.filetype.is_none());
    assert_eq!(o.pattern.as_deref(), Some("hello wonderful world"));
}

#[test]
fn path_token_sets_the_path_filter() {
    let o = parse_options("path:foo.rs const");
    assert_eq!(o.path.as_deref(), Some("foo.rs"));
    assert!(o.filetype.is_none());
    assert_eq!(o.pattern.as_deref(), Some("const"));
}

#[test]
fn type_token_sets_the_type_filter() {
    let o = parse_options("type:rust fn main");
    assert_eq!(o.filetype.as_deref(), Some("rust"));
    assert_eq!(o.pattern.as_deref(), Some("fn main"));
}

#[test]
fn ext_token_sets_the_type_filter_too() {
    let o = parse_options("ext:py import");
    assert_eq!(o.filetype.as_deref(), Some("py"));
    assert_eq!(o.pattern.as_deref(), Some("import"));
}

#[test]
fn repeated_filters_last_wins() {
    let o = parse_options("path:a path:b type:c ext:d x");
    assert_eq!(o.path.as_deref(), Some("b"));
    assert_eq!(o.filetype.as_deref(), Some("d"));
    assert_eq!(o.pattern.as_deref(), Some("x"));
}

#[test]
fn filters_and_pattern_interleave_in_order() {
    let o = parse_options("alpha path:src beta");
    assert_eq!(o.path.as_deref(), Some("src"));
    assert_eq!(o.pattern.as_deref(), Some("alpha beta"));
}

#[test]
fn extra_whitespace_is_insignificant() {
    let o = parse_options("  a \t b\n c  ");
    assert_eq!(o.pattern.as_deref(), Some("a b c"));
}

#[test]
fn empty_path_filter_is_kept() {
    let o = parse_options("path: x");
    assert_eq!(o.path.as_deref(), Some(""));
    assert_eq!(o.pattern.as_deref(), Some("x"));
}

#[test]
fn split_whitespace_matches_std() {
    let cases = ["", "  ", "a", " a ", "a b", "a  b\tc", "\u{a0}x\u{a0}y"];
    for c in cases {
        let ours = split_whitespace(c);
        let std_way: Vec<String> = c.split_whitespace().map(|s| s.to_string()).collect();
        assert_eq!(ours, std_way);
    }
}

#[test]
fn options_struct_is_plain_data() {
    let o = Options {
        path: Some("p".to_string()),
        filetype: None,
        pattern: Some("q".to_string()),
    };
    assert_eq!(o.path.as_deref(), Some("p"));
    assert_eq!(o.pattern.as_deref(), Some("q"));
}
