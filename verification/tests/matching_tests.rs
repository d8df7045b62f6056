use pattern_matcher::{Matcher, MatcherToken};

#[test]
fn alternation_tries_every_option() {
    let mut matcher = Matcher::new("(d|e|f)").unwrap();
    let expected_token =
        MatcherToken::OneOfText(vec!["d".to_string(), "e".to_string(), "f".to_string()]);

    let result = matcher.match_string("e");
    assert_eq!(result, vec![(expected_token.clone(), "e".to_string())]);
    assert_eq!(matcher.most_tokens_matched, 1);

    let result = matcher.match_string("f");
    assert_eq!(result, vec![(expected_token, "f".to_string())]);
    assert_eq!(matcher.most_tokens_matched, 1);
}

#[test]
fn alternation_first_matching_option_wins() {
    let mut matcher = Matcher::new("(a|ab)x").unwrap();
    // "a" is checked first and matches, so "ab" is never consumed and
    // the following literal "x" fails against "bx" ... the cursor sits
    // after "a".
    let result = matcher.match_string("abx");
    assert_eq!(
        result,
        vec![(
            MatcherToken::OneOfText(vec!["a".to_string(), "ab".to_string()]),
            "a".to_string()
        )]
    );
    assert_eq!(matcher.most_tokens_matched, 1);
}

#[test]
fn wildcard_at_end_of_candidate_stops_gracefully() {
    let mut matcher = Matcher::new("a.").unwrap();
    let result = matcher.match_string("a");
    assert_eq!(
        result,
        vec![(MatcherToken::RawText("a".to_string()), "a".to_string())]
    );
    assert_eq!(matcher.most_tokens_matched, 1);
}

#[test]
fn wildcard_consumes_exactly_one_character() {
    let mut matcher = Matcher::new("...").unwrap();
    let result = matcher.match_string("xyz");
    assert_eq!(
        result,
        vec![
            (MatcherToken::WildCard, "x".to_string()),
            (MatcherToken::WildCard, "y".to_string()),
            (MatcherToken::WildCard, "z".to_string()),
        ]
    );
    assert_eq!(matcher.most_tokens_matched, 3);
}

#[test]
fn wildcard_matches_a_multibyte_character() {
    let mut matcher = Matcher::new("abc(d|e|f).").unwrap();
    let candidate = "abcd\u{1f4aa}".to_string();
    let result = matcher.match_string(&candidate);
    assert_eq!(
        result,
        vec![
            (MatcherToken::RawText("abc".to_string()), "abc".to_string()),
            (
                MatcherToken::OneOfText(vec![
                    "d".to_string(),
                    "e".to_string(),
                    "f".to_string()
                ]),
                "d".to_string()
            ),
            (MatcherToken::WildCard, "\u{1f4aa}".to_string()),
        ]
    );
    assert_eq!(matcher.most_tokens_matched, 3);
}

#[test]
fn empty_pattern_matches_nothing_of_any_candidate() {
    let mut matcher = Matcher::new("").unwrap();
    let result = matcher.match_string("xyz");
    assert_eq!(result, Vec::<(MatcherToken, String)>::new());
    assert_eq!(matcher.most_tokens_matched, 0);
}

#[test]
fn counter_is_reset_on_every_attempt() {
    let mut matcher = Matcher::new("abc(d|e|f).").unwrap();

    let result = matcher.match_string("abcde");
    assert_eq!(matcher.most_tokens_matched, 3);
    assert_eq!(matcher.most_tokens_matched, result.len());

    let result = matcher.match_string("zzz");
    assert_eq!(matcher.most_tokens_matched, 0);
    assert_eq!(matcher.most_tokens_matched, result.len());
}

#[test]
fn match_list_is_a_prefix_of_the_tokens() {
    let mut matcher = Matcher::new("ab.cd(e|f)g").unwrap();
    for candidate in ["", "a", "abxc", "abxcd", "abxcdf", "abxcdfg", "zzz"] {
        let result = matcher.match_string(candidate);
        assert!(result.len() <= matcher.tokens.len());
        assert_eq!(matcher.most_tokens_matched, result.len());
        for (i, (token, _)) in result.iter().enumerate() {
            assert_eq!(token, &matcher.tokens[i]);
        }
    }
}

#[test]
fn matching_is_deterministic() {
    let mut first = Matcher::new("abc(d|e|f).").unwrap();
    let mut second = Matcher::new("abc(d|e|f).").unwrap();
    assert_eq!(first.tokens, second.tokens);
    for candidate in ["abcde", "abcge", "abc", ""] {
        assert_eq!(first.match_string(candidate), second.match_string(candidate));
        assert_eq!(first.most_tokens_matched, second.most_tokens_matched);
    }
}

#[test]
fn literal_must_appear_verbatim() {
    let mut matcher = Matcher::new("abc").unwrap();
    assert_eq!(
        matcher.match_string("abd"),
        Vec::<(MatcherToken, String)>::new()
    );
    assert_eq!(matcher.most_tokens_matched, 0);
    assert_eq!(
        matcher.match_string("abcdef"),
        vec![(MatcherToken::RawText("abc".to_string()), "abc".to_string())]
    );
    assert_eq!(matcher.most_tokens_matched, 1);
}
