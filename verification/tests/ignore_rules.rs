use pytokei::ignore::{
    is_whitespace_char, parse_rules, requests_default_rules, resolve, IoFailure, RulesResource,
};

fn strings(items: &[&str]) -> Vec<String> {
    items.iter().map(|s| s.to_string()).collect()
}

#[test]
fn merge_appends_bundled_rules_and_drops_sentinel() {
    let rules = RulesResource::Content(b"# comment\n\n*.min.js\n".to_vec());
    let resolved = resolve(strings(&["build/", "all"]), rules);
    assert_eq!(resolved, Ok(strings(&["build/", "*.min.js"])));
}

#[test]
fn missing_resource_leaves_caller_patterns() {
    let resolved = resolve(strings(&["build/", "all"]), RulesResource::Missing);
    assert_eq!(resolved, Ok(strings(&["build/"])));
}

#[test]
fn unreadable_resource_fails_resolution() {
    let rules = RulesResource::CannotOpen("permission denied".to_string());
    let resolved = resolve(strings(&["all", "target"]), rules);
    assert_eq!(resolved, Err(IoFailure::Open("permission denied".to_string())));
}

#[test]
fn interrupted_read_fails_resolution() {
    let rules = RulesResource::CannotRead("connection reset".to_string());
    let resolved = resolve(strings(&["all"]), rules);
    assert_eq!(resolved, Err(IoFailure::Read("connection reset".to_string())));
}

#[test]
fn failures_say_what_went_wrong() {
    assert_eq!(
        IoFailure::Open("permission denied".to_string()).message(),
        "Failed to open ignore file: permission denied"
    );
    assert_eq!(
        IoFailure::Read("connection reset".to_string()).message(),
        "Error reading line: connection reset"
    );
    assert_eq!(
        IoFailure::Decode.message(),
        "Error reading line: stream did not contain valid UTF-8"
    );
    assert_eq!(IoFailure::Decode.clone(), IoFailure::Decode);
    assert_eq!(
        RulesResource::Content(vec![1, 2]).clone(),
        RulesResource::Content(vec![1, 2])
    );
}

#[test]
fn undecodable_resource_fails_resolution() {
    let rules = RulesResource::Content(vec![b'o', b'k', b'\n', 0xff, 0xfe, b'\n']);
    let resolved = resolve(strings(&["all"]), rules);
    assert_eq!(resolved, Err(IoFailure::Decode));
}

#[test]
fn without_sentinel_resource_is_not_consulted() {
    let unreadable = RulesResource::CannotOpen("broken".to_string());
    assert_eq!(
        resolve(strings(&["build/", "dist"]), unreadable),
        Ok(strings(&["build/", "dist"]))
    );
    let content = RulesResource::Content(b"*.min.js\n".to_vec());
    assert_eq!(resolve(strings(&["build/"]), content), Ok(strings(&["build/"])));
    assert_eq!(resolve(Vec::new(), RulesResource::Missing), Ok(Vec::new()));
}

#[test]
fn every_sentinel_leaves_and_order_stays() {
    let rules = RulesResource::Content(b"one\ntwo".to_vec());
    let resolved = resolve(strings(&["all", "a", "all", "b", "all"]), rules);
    assert_eq!(resolved, Ok(strings(&["a", "b", "one", "two"])));
}

#[test]
fn sentinel_is_matched_exactly() {
    assert!(requests_default_rules(&strings(&["x", "all"])));
    assert!(!requests_default_rules(&strings(&["All", " all", "all ", "al", "alll"])));
    assert!(!requests_default_rules(&Vec::new()));
    let rules = RulesResource::Content(b"one\n".to_vec());
    assert_eq!(resolve(strings(&["All"]), rules), Ok(strings(&["All"])));
}

#[test]
fn sentinel_word_in_resource_is_a_pattern() {
    let rules = RulesResource::Content(b"all\n".to_vec());
    assert_eq!(resolve(strings(&["all"]), rules), Ok(strings(&["all"])));
}

#[test]
fn empty_resource_adds_nothing() {
    let rules = RulesResource::Content(Vec::new());
    assert_eq!(resolve(strings(&["keep", "all"]), rules), Ok(strings(&["keep"])));
}

#[test]
fn rules_are_trimmed_and_comments_skipped() {
    let text = "  node_modules/  \n\t# indented comment\n#first\n   \n\nkeep # this\n*.log";
    assert_eq!(parse_rules(text), strings(&["node_modules/", "keep # this", "*.log"]));
}

#[test]
fn rules_handle_carriage_returns() {
    let text = "a\r\n\r\n# c\r\nb\r\n";
    assert_eq!(parse_rules(text), strings(&["a", "b"]));
}

#[test]
fn rules_keep_inner_whitespace() {
    assert_eq!(parse_rules("  my dir/sub dir  "), strings(&["my dir/sub dir"]));
}

#[test]
fn rules_of_empty_and_blank_texts() {
    assert_eq!(parse_rules(""), Vec::<String>::new());
    assert_eq!(parse_rules("\n"), Vec::<String>::new());
    assert_eq!(parse_rules("\n\n  \n\t\n"), Vec::<String>::new());
    assert_eq!(parse_rules("#"), Vec::<String>::new());
    assert_eq!(parse_rules("x"), strings(&["x"]));
    assert_eq!(parse_rules("\nx\n"), strings(&["x"]));
}

#[test]
fn rules_trim_unicode_whitespace() {
    let text = "\u{3000}caf\u{e9}/\u{a0}\n\u{2003}# note\n\u{2028}donn\u{e9}es\u{85}";
    assert_eq!(parse_rules(text), strings(&["caf\u{e9}/", "donn\u{e9}es"]));
}

#[test]
fn rules_match_line_by_line_reading() {
    let text = "  a  \n#b\n\n\tc d\t\r\n e#f\n\u{a0}\n# \ng";
    let expected: Vec<String> = text
        .lines()
        .map(|line| line.trim())
        .filter(|line| !line.is_empty() && !line.starts_with('#'))
        .map(|line| line.to_string())
        .collect();
    assert_eq!(parse_rules(text), expected);
}

#[test]
fn resource_bytes_are_decoded_as_utf8() {
    let rules = RulesResource::Content("r\u{e9}sum\u{e9}/\n\u{65e5}\u{672c}\n".as_bytes().to_vec());
    let resolved = resolve(strings(&["all"]), rules);
    assert_eq!(resolved, Ok(strings(&["r\u{e9}sum\u{e9}/", "\u{65e5}\u{672c}"])));
}

#[test]
fn truncated_utf8_is_undecodable() {
    let mut bytes = "ok\n".as_bytes().to_vec();
    bytes.push(0xe6);
    bytes.push(0x97);
    assert_eq!(
        resolve(strings(&["all"]), RulesResource::Content(bytes)),
        Err(IoFailure::Decode)
    );
}

#[test]
fn whitespace_is_unicode_white_space() {
    let mut point: u32 = 0;
    while point <= 0x10ffff {
        if let Some(c) = char::from_u32(point) {
            assert_eq!(is_whitespace_char(c), c.is_whitespace(), "U+{:04X}", point);
        }
        point += 1;
    }
}

#[test]
fn resolution_is_repeatable() {
    let first = resolve(strings(&["a", "all"]), RulesResource::Content(b"b\n#c\n".to_vec()));
    let second = resolve(strings(&["a", "all"]), RulesResource::Content(b"b\n#c\n".to_vec()));
    assert_eq!(first, second);
    assert_eq!(first, Ok(strings(&["a", "b"])));
}
