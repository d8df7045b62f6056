use pattern_matcher::{Matcher, MatcherToken};

#[test]
fn example_pattern_compiles_to_expected_tokens() {
    let matcher = Matcher::new("abc(d|e|f).").unwrap();
    assert_eq!(
        matcher.tokens,
        vec![
            MatcherToken::RawText("abc".to_string()),
            MatcherToken::OneOfText(vec!["d".to_string(), "e".to_string(), "f".to_string()]),
            MatcherToken::WildCard,
        ]
    );
    assert_eq!(matcher.text, "abc(d|e|f).".to_string());
    assert_eq!(matcher.most_tokens_matched, 0);
}

#[test]
fn trailing_literal_run_is_emitted() {
    let matcher = Matcher::new("abc").unwrap();
    assert_eq!(
        matcher.tokens,
        vec![MatcherToken::RawText("abc".to_string())]
    );
}

#[test]
fn empty_pattern_compiles_to_no_tokens() {
    let matcher = Matcher::new("").unwrap();
    assert_eq!(matcher.tokens, Vec::<MatcherToken>::new());
}

#[test]
fn unmatched_open_paren_fails() {
    assert_eq!(Matcher::new("(a"), None);
    assert_eq!(Matcher::new("abc("), None);
}

#[test]
fn unmatched_close_paren_fails() {
    assert_eq!(Matcher::new("a)b"), None);
    assert_eq!(Matcher::new(")"), None);
}

#[test]
fn nested_group_fails() {
    assert_eq!(Matcher::new("((a))"), None);
    assert_eq!(Matcher::new("a(b(c)d)"), None);
}

#[test]
fn separator_outside_group_fails() {
    assert_eq!(Matcher::new("a|b"), None);
}

#[test]
fn separator_outside_text_run_fails() {
    assert_eq!(Matcher::new("(|a)"), None);
    assert_eq!(Matcher::new("(a||b)"), None);
}

#[test]
fn trailing_separator_drops_final_option_silently() {
    let matcher = Matcher::new("(a|)").unwrap();
    assert_eq!(
        matcher.tokens,
        vec![MatcherToken::OneOfText(vec!["a".to_string()])]
    );
}

#[test]
fn wildcard_inside_group_is_emitted_interleaved() {
    let matcher = Matcher::new("(a.b)").unwrap();
    assert_eq!(
        matcher.tokens,
        vec![
            MatcherToken::RawText("a".to_string()),
            MatcherToken::WildCard,
            MatcherToken::OneOfText(vec!["b".to_string()]),
        ]
    );
}

#[test]
fn wildcards_and_literals_alternate() {
    let matcher = Matcher::new(".a.b.").unwrap();
    assert_eq!(
        matcher.tokens,
        vec![
            MatcherToken::WildCard,
            MatcherToken::RawText("a".to_string()),
            MatcherToken::WildCard,
            MatcherToken::RawText("b".to_string()),
            MatcherToken::WildCard,
        ]
    );
}
