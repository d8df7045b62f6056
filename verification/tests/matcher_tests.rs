use pattern_matcher::{Matcher, MatcherToken};

#[test]
fn simple_test() {
    let match_string = "abc(d|e|f).".to_string();
    let mut matcher = Matcher::new(&match_string).unwrap();

    println!("{matcher:?}");

    assert_eq!(matcher.most_tokens_matched, 0);

    {
        let candidate1 = "abcge".to_string();
        let result = matcher.match_string(&candidate1);
        assert_eq!(
            result,
            vec![(MatcherToken::RawText("abc".to_string()), "abc".to_string())]
        );
        assert_eq!(matcher.most_tokens_matched, 1);
    }

    {
        let candidate1 = "abcde".to_string();
        let result = matcher.match_string(&candidate1);
        assert_eq!(
            result,
            vec![
                (MatcherToken::RawText("abc".to_string()), "abc".to_string()),
                (
                    MatcherToken::OneOfText(vec![
                        "d".to_string(),
                        "e".to_string(),
                        "f".to_string()
                    ]),
                    "d".to_string()
                ),
                (MatcherToken::WildCard, "e".to_string()),
            ]
        );
        assert_eq!(matcher.most_tokens_matched, 3);
    }
}

#[test]
fn broken_matcher() {
    let match_string = "abc(d|e|f.".to_string();
    let matcher = Matcher::new(&match_string);
    assert_eq!(matcher, None);
}
