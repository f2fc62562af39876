use u8pls::cmd::{
    parse, ConfigError, Expr, MatchSpec, Pattern, DEFAULT_MAX_CONCURRENCY, DEFAULT_RECURSIVE,
};

fn suffix(text: &str) -> Expr {
    Expr::new(MatchSpec::Suffix { suffix: text.to_string() }).unwrap()
}

fn prefix(text: &str) -> Expr {
    Expr::new(MatchSpec::Prefix { prefix: text.to_string() }).unwrap()
}

fn regexp(text: &str) -> Expr {
    Expr::new(MatchSpec::Regexp { regexp: text.to_string() }).unwrap()
}

#[test]
fn suffix_rule_matches_names_that_end_with_it() {
    let rule = suffix(".txt");
    assert!(rule.can_match("c.txt"));
    assert!(rule.can_match(".txt"));
    assert!(!rule.can_match("c.txt.bak"));
    assert!(!rule.can_match("txt"));
    assert!(!rule.can_match(""));
}

#[test]
fn suffix_rule_is_exact_about_case_and_position() {
    let rule = suffix(".txt");
    assert!(!rule.can_match("C.TXT"));
    assert!(!rule.can_match(".txt "));
    assert!(rule.can_match("a.txt.txt"));
}

#[test]
fn empty_suffix_matches_every_name() {
    let rule = suffix("");
    assert!(rule.can_match(""));
    assert!(rule.can_match("anything"));
}

#[test]
fn prefix_rule_matches_names_that_begin_with_it() {
    let rule = prefix("data_");
    assert!(rule.can_match("data_1.docx"));
    assert!(rule.can_match("data_2.bin"));
    assert!(rule.can_match("data_"));
    assert!(!rule.can_match("old_data_1.docx"));
    assert!(!rule.can_match("data"));
    assert!(!rule.can_match(""));
}

#[test]
fn prefix_and_suffix_differ_on_the_same_text() {
    assert!(prefix("ab").can_match("abc"));
    assert!(!suffix("ab").can_match("abc"));
    assert!(suffix("bc").can_match("abc"));
    assert!(!prefix("bc").can_match("abc"));
}

#[test]
fn prefix_and_suffix_work_on_text_beyond_ascii() {
    assert!(suffix("é.txt").can_match("résumé.txt"));
    assert!(!suffix("e.txt").can_match("résumé.txt"));
    assert!(prefix("日本").can_match("日本語.md"));
    assert!(!prefix("本").can_match("日本語.md"));
}

#[test]
fn anchored_regexp_matches_the_whole_name_only() {
    let rule = regexp(r"^data_\d+\.bin$");
    assert!(rule.can_match("data_12.bin"));
    assert!(!rule.can_match("data_ab.bin"));
    assert!(!rule.can_match("other_12.bin"));
}

#[test]
fn regexp_without_anchors_matches_anywhere_in_the_name() {
    let rule = regexp(r"202\d_[a-z]{3}\.txt");
    assert!(rule.can_match("2023_abc.txt"));
    assert!(rule.can_match("copy_of_2023_abc.txt.bak"));
    assert!(!rule.can_match("2023_ab.txt"));
}

#[test]
fn every_regexp_rule_keeps_its_own_pattern() {
    let first = regexp(r"^a+$");
    let second = regexp(r"^b+$");
    assert!(first.can_match("aaa"));
    assert!(!first.can_match("bbb"));
    assert!(second.can_match("bbb"));
    assert!(!second.can_match("aaa"));
    assert!(first.can_match("a"));
}

#[test]
fn regexp_that_does_not_compile_is_refused_with_its_text() {
    let r = Expr::new(MatchSpec::Regexp { regexp: "foo(bar".to_string() });
    match r {
        Err(ConfigError::InvalidPattern { pattern }) => assert_eq!(pattern, "foo(bar"),
        Ok(_) => panic!("an unclosed group must not compile"),
    }
}

#[test]
fn pattern_keeps_the_text_it_was_compiled_from() {
    let p = Pattern::new(r"^x\d$").unwrap();
    assert_eq!(p.as_str(), r"^x\d$");
    assert_eq!(
        Pattern::new("[z-a]").unwrap_err(),
        ConfigError::InvalidPattern { pattern: "[z-a]".to_string() }
    );
}

#[test]
fn rule_keeps_kind_and_text_of_what_was_asked_for() {
    match suffix(".md") {
        Expr::Suffix { suffix } => assert_eq!(suffix, ".md"),
        other => panic!("wrong kind: {:?}", other),
    }
    match prefix("tmp") {
        Expr::Prefix { prefix } => assert_eq!(prefix, "tmp"),
        other => panic!("wrong kind: {:?}", other),
    }
    match regexp("a|b") {
        Expr::Regexp { regexp } => assert_eq!(regexp.as_str(), "a|b"),
        other => panic!("wrong kind: {:?}", other),
    }
}

#[test]
fn parse_takes_the_values_as_they_are() {
    let args = parse(
        "root".to_string(),
        false,
        Some(3),
        7,
        MatchSpec::Suffix { suffix: ".txt".to_string() },
    )
    .unwrap();
    assert_eq!(args.dir, "root");
    assert!(!args.recursive);
    assert_eq!(args.max_depth, Some(3));
    assert_eq!(args.max_concurrency, 7);
    assert!(args.matcher.can_match("a.txt"));
    assert!(!args.matcher.can_match("a.md"));
}

#[test]
fn parse_with_the_defaults() {
    let args = parse(
        "/srv/files".to_string(),
        DEFAULT_RECURSIVE,
        None,
        DEFAULT_MAX_CONCURRENCY,
        MatchSpec::Regexp { regexp: r"^data_\d+\.bin$".to_string() },
    )
    .unwrap();
    assert!(args.recursive);
    assert_eq!(args.max_depth, None);
    assert_eq!(args.max_concurrency, 32);
    assert!(args.matcher.can_match("data_12.bin"));
    assert!(!args.matcher.can_match("data_ab.bin"));
}

#[test]
fn parse_fails_before_any_walk_on_a_bad_pattern() {
    let r = parse(
        "root".to_string(),
        true,
        None,
        32,
        MatchSpec::Regexp { regexp: r"\d{2".to_string() },
    );
    match r {
        Err(e) => assert_eq!(e, ConfigError::InvalidPattern { pattern: r"\d{2".to_string() }),
        Ok(_) => panic!("an unclosed repetition must not compile"),
    }
}
