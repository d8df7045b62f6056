//! The compiled pattern object: compilation of a pattern string into
//! tokens, and greedy matching of candidate strings against them.

use vstd::prelude::*;
use vstd::string::StrSliceExecFns;

use crate::matching::{
    first_option_from, spec_match, spec_match_from, text_matches_at, token_match_len,
};
use crate::scan::{init_scan_state, scan_state, spec_compile, spec_scan, ScanState};
use crate::token::{
    lemma_options_view_push, lemma_tokens_view_push, options_view, tokens_view, MatcherToken,
    SpecToken,
};

verus! {

/// A compiled pattern. It is created once from a pattern string and
/// reused across many match attempts against different candidates.
#[derive(Debug, PartialEq, Eq)]
pub struct Matcher {
    /// The pattern text this matcher was compiled from.
    pub text: String,
    /// The compiled tokens, in the order they appear in the pattern.
    pub tokens: Vec<MatcherToken>,
    /// How many leading tokens the most recent match attempt matched;
    /// zero on a freshly compiled matcher, and not cumulative across
    /// calls.
    pub most_tokens_matched: usize,
}

/// The views of a match trace: each token and each matched substring
/// as its mathematical value.
pub open spec fn pairs_view(r: Seq<(MatcherToken, String)>) -> Seq<(SpecToken, Seq<char>)> {
    r.map_values(|p: (MatcherToken, String)| (p.0@, p.1@))
}

/// Does `t` appear verbatim in `s` at character position `pos`?
#[verifier::loop_isolation(false)]
fn str_prefix_matches(s: &str, pos: usize, t: &str) -> (r: bool)
    requires
        pos <= s@.len(),
    ensures
        r == text_matches_at(t@, s@, pos as nat),
{
    let s_len = s.unicode_len();
    let t_len = t.unicode_len();
    if t_len > s_len - pos {
        return false;
    }
    let mut j: usize = 0;
    while j < t_len
        invariant
            j <= t_len,
            forall|x: int| 0 <= x < j ==> s@[pos + x] == t@[x],
        decreases t_len - j,
    {
        if s.get_char(pos + j) != t.get_char(j) {
            proof {
                if text_matches_at(t@, s@, pos as nat) {
                    assert(s@.subrange(pos as int, (pos + t@.len()) as int)[j as int] == s@[pos
                        + j]);
                }
            }
            return false;
        }
        j += 1;
    }
    proof {
        assert(s@.subrange(pos as int, (pos + t@.len()) as int) =~= t@);
    }
    true
}

/// The index of the first alternation option that matches `s` at
/// character position `pos`, if any.
#[verifier::loop_isolation(false)]
fn find_option(options: &Vec<String>, s: &str, pos: usize) -> (r: Option<usize>)
    requires
        pos <= s@.len(),
    ensures
        match r {
            Some(idx) => idx < options@.len() && text_matches_at(
                options@[idx as int]@,
                s@,
                pos as nat,
            ) && first_option_from(options_view(options@), s@, pos as nat, 0) == Some(
                options@[idx as int]@.len(),
            ),
            None => first_option_from(options_view(options@), s@, pos as nat, 0) is None,
        },
{
    let n = options.len();
    let mut l: usize = 0;
    while l < n
        invariant
            l <= n,
            first_option_from(options_view(options@), s@, pos as nat, l as nat)
                == first_option_from(options_view(options@), s@, pos as nat, 0),
        decreases n - l,
    {
        if str_prefix_matches(s, pos, options[l].as_str()) {
            return Some(l);
        }
        l += 1;
    }
    None
}

/// An element-by-element copy of a list of alternation options.
#[verifier::loop_isolation(false)]
fn clone_options(options: &Vec<String>) -> (r: Vec<String>)
    ensures
        options_view(r@) == options_view(options@),
{
    let mut r: Vec<String> = Vec::new();
    let n = options.len();
    let mut l: usize = 0;
    while l < n
        invariant
            l <= n,
            r@.len() == l,
            forall|x: int| 0 <= x < l ==> r@[x]@ == options@[x]@,
        decreases n - l,
    {
        r.push(options[l].clone());
        l += 1;
    }
    proof {
        assert(options_view(r@) =~= options_view(options@));
    }
    r
}

/// Walk the compiled tokens left to right against `string`, returning
/// the (token, matched substring) trace accumulated up to the first
/// token that fails to match.
#[verifier::loop_isolation(false)]
pub fn match_tokens(tokens: &Vec<MatcherToken>, string: &str) -> (r: Vec<(MatcherToken, String)>)
    ensures
        pairs_view(r@) == spec_match(tokens_view(tokens@), string@),
        r@.len() <= tokens@.len(),
{
    let string_len = string.unicode_len();
    let mut string_pointer: usize = 0;
    let mut matched: Vec<(MatcherToken, String)> = Vec::new();
    let n = tokens.len();
    let mut j: usize = 0;
    let ghost toks = tokens_view(tokens@);
    while j < n
        invariant
            j <= n,
            matched@.len() == j,
            string_pointer <= string_len,
            pairs_view(matched@) + spec_match_from(toks, string@, string_pointer as nat, j as nat)
                == spec_match(toks, string@),
        decreases n - j,
    {
        let ghost pos = string_pointer as nat;
        let token = &tokens[j];
        proof {
            assert(toks[j as int] == token@);
        }
        match token {
            MatcherToken::RawText(t) => {
                if !str_prefix_matches(string, string_pointer, t.as_str()) {
                    proof {
                        assert(spec_match_from(toks, string@, pos, j as nat) =~= Seq::<
                            (SpecToken, Seq<char>),
                        >::empty());
                        assert(pairs_view(matched@) + spec_match_from(toks, string@, pos, j as nat)
                            =~= pairs_view(matched@));
                    }
                    return matched;
                }
                let t_len = t.as_str().unicode_len();
                let sub = string.substring_char(string_pointer, string_pointer + t_len).to_owned();
                let pair = (MatcherToken::RawText(t.clone()), sub);
                proof {
                    lemma_step(toks, string@, pos, j as nat, t@.len(), matched@, pair);
                }
                matched.push(pair);
                string_pointer = string_pointer + t_len;
            },
            MatcherToken::OneOfText(options) => {
                match find_option(options, string, string_pointer) {
                    None => {
                        proof {
                            assert(spec_match_from(toks, string@, pos, j as nat) =~= Seq::<
                                (SpecToken, Seq<char>),
                            >::empty());
                            assert(pairs_view(matched@) + spec_match_from(
                                toks,
                                string@,
                                pos,
                                j as nat,
                            ) =~= pairs_view(matched@));
                        }
                        return matched;
                    },
                    Some(idx) => {
                        let o_len = options[idx].as_str().unicode_len();
                        let sub = string.substring_char(
                            string_pointer,
                            string_pointer + o_len,
                        ).to_owned();
                        let pair = (MatcherToken::OneOfText(clone_options(options)), sub);
                        proof {
                            lemma_step(
                                toks,
                                string@,
                                pos,
                                j as nat,
                                options@[idx as int]@.len(),
                                matched@,
                                pair,
                            );
                        }
                        matched.push(pair);
                        string_pointer = string_pointer + o_len;
                    },
                }
            },
            MatcherToken::WildCard => {
                if string_pointer >= string_len {
                    proof {
                        assert(spec_match_from(toks, string@, pos, j as nat) =~= Seq::<
                            (SpecToken, Seq<char>),
                        >::empty());
                        assert(pairs_view(matched@) + spec_match_from(toks, string@, pos, j as nat)
                            =~= pairs_view(matched@));
                    }
                    return matched;
                }
                let sub = string.substring_char(string_pointer, string_pointer + 1).to_owned();
                let pair = (MatcherToken::WildCard, sub);
                proof {
                    lemma_step(toks, string@, pos, j as nat, 1 as nat, matched@, pair);
                }
                matched.push(pair);
                string_pointer = string_pointer + 1;
            },
        }
        j += 1;
    }
    proof {
        assert(pairs_view(matched@) + spec_match_from(toks, string@, string_pointer as nat, n as nat)
            =~= pairs_view(matched@));
    }
    matched
}

/// The scan state of the compiling loop, assembled from its local
/// variables: the state is inside a bare-text run exactly when
/// `in_text` holds, and inside an alternation group exactly when
/// `in_or` holds.
spec fn cur_state(
    ts: Seq<MatcherToken>,
    in_text: bool,
    text_start: nat,
    in_or: bool,
    os: Seq<String>,
) -> ScanState {
    scan_state(
        tokens_view(ts),
        if in_text {
            Some(text_start)
        } else {
            None
        },
        if in_or {
            Some(options_view(os))
        } else {
            None
        },
    )
}

impl Matcher {
    /// Compile `text` into a matcher, or `None` if the pattern is
    /// malformed: a nested alternation group, an unmatched `)`, a `|`
    /// outside a group or outside a text run, or a group still open at
    /// the end of the pattern. A bare-text run still open at the end
    /// of the pattern is emitted as a final literal token.
    #[verifier::loop_isolation(false)]
    pub fn new(text: &str) -> (r: Option<Matcher>)
        ensures
            match r {
                Some(m) => {
                    &&& spec_compile(text@) == Some(tokens_view(m.tokens@))
                    &&& m.text@ == text@
                    &&& m.most_tokens_matched == 0
                },
                None => spec_compile(text@) is None,
            },
    {
        let text_len = text.unicode_len();
        let mut tokens: Vec<MatcherToken> = Vec::new();

        let mut in_text_block = false;
        let mut text_start: usize = 0;

        let mut in_or_block = false;
        let mut or_options: Vec<String> = Vec::new();

        let mut i: usize = 0;
        proof {
            assert(cur_state(tokens@, false, 0, false, or_options@) =~= init_scan_state());
        }
        while i < text_len
            invariant
                i <= text_len,
                in_text_block ==> text_start < i,
                !in_or_block ==> or_options@.len() == 0,
                spec_scan(
                    text@,
                    i as nat,
                    cur_state(
                        tokens@,
                        in_text_block,
                        text_start as nat,
                        in_or_block,
                        or_options@,
                    ),
                ) == spec_scan(text@, 0, init_scan_state()),
            decreases text_len - i,
        {
            let ghost st = cur_state(
                tokens@,
                in_text_block,
                text_start as nat,
                in_or_block,
                or_options@,
            );
            let c = text.get_char(i);
            if c == '.' {
                if in_text_block {
                    let run = text.substring_char(text_start, i).to_owned();
                    proof {
                        lemma_tokens_view_push(tokens@, MatcherToken::RawText(run));
                        lemma_tokens_view_push(
                            tokens@.push(MatcherToken::RawText(run)),
                            MatcherToken::WildCard,
                        );
                    }
                    tokens.push(MatcherToken::RawText(run));
                    in_text_block = false;
                } else {
                    proof {
                        lemma_tokens_view_push(tokens@, MatcherToken::WildCard);
                    }
                }
                tokens.push(MatcherToken::WildCard);
            } else if c == '(' {
                if in_or_block {
                    return None;
                }
                if in_text_block {
                    let run = text.substring_char(text_start, i).to_owned();
                    proof {
                        lemma_tokens_view_push(tokens@, MatcherToken::RawText(run));
                    }
                    tokens.push(MatcherToken::RawText(run));
                    in_text_block = false;
                }
                in_or_block = true;
                proof {
                    assert(options_view(or_options@) =~= Seq::<Seq<char>>::empty());
                }
            } else if c == ')' {
                if !in_or_block {
                    return None;
                }
                if in_text_block {
                    let run = text.substring_char(text_start, i).to_owned();
                    proof {
                        lemma_options_view_push(or_options@, run);
                    }
                    or_options.push(run);
                }
                in_or_block = false;
                in_text_block = false;
                proof {
                    lemma_tokens_view_push(tokens@, MatcherToken::OneOfText(or_options));
                }
                tokens.push(MatcherToken::OneOfText(or_options));
                or_options = Vec::new();
            } else if c == '|' {
                if !in_or_block {
                    return None;
                }
                if !in_text_block {
                    return None;
                }
                let run = text.substring_char(text_start, i).to_owned();
                proof {
                    lemma_options_view_push(or_options@, run);
                }
                or_options.push(run);
                in_text_block = false;
            } else {
                if !in_text_block {
                    in_text_block = true;
                    text_start = i;
                }
            }
            i = i + 1;
        }
        if in_or_block {
            return None;
        }
        if in_text_block {
            let run = text.substring_char(text_start, text_len).to_owned();
            proof {
                lemma_tokens_view_push(tokens@, MatcherToken::RawText(run));
            }
            tokens.push(MatcherToken::RawText(run));
        }
        Some(Matcher { text: text.to_owned(), tokens, most_tokens_matched: 0 })
    }

    /// Match `string` against the compiled tokens. The match counter
    /// is reset to zero at the start of every attempt, and on return
    /// it equals the length of the returned trace; the pattern text
    /// and the tokens are unchanged.
    pub fn match_string(&mut self, string: &str) -> (r: Vec<(MatcherToken, String)>)
        ensures
            pairs_view(r@) == spec_match(tokens_view(old(self).tokens@), string@),
            final(self).tokens == old(self).tokens,
            final(self).text == old(self).text,
            final(self).most_tokens_matched == r@.len(),
            r@.len() <= old(self).tokens@.len(),
    {
        self.most_tokens_matched = 0;
        let r = match_tokens(&self.tokens, string);
        self.most_tokens_matched = r.len();
        r
    }
}

/// One successful step of the matching loop: pushing the matched pair
/// onto the trace keeps the trace equal to the specified match up to
/// the next token and cursor position.
proof fn lemma_step(
    toks: Seq<SpecToken>,
    s: Seq<char>,
    pos: nat,
    j: nat,
    k: nat,
    matched: Seq<(MatcherToken, String)>,
    pair: (MatcherToken, String),
)
    requires
        j < toks.len(),
        token_match_len(toks[j as int], s, pos) == Some(k),
        pair.0@ == toks[j as int],
        pos + k <= s.len(),
        pair.1@ == s.subrange(pos as int, (pos + k) as int),
        pairs_view(matched) + spec_match_from(toks, s, pos, j) == spec_match(toks, s),
    ensures
        pairs_view(matched.push(pair)) + spec_match_from(toks, s, pos + k, j + 1) == spec_match(
            toks,
            s,
        ),
{
    assert(spec_match_from(toks, s, pos, j) == seq![
        (toks[j as int], s.subrange(pos as int, (pos + k) as int)),
    ] + spec_match_from(toks, s, pos + k, j + 1));
    assert(pairs_view(matched.push(pair)) =~= pairs_view(matched).push(
        (toks[j as int], s.subrange(pos as int, (pos + k) as int)),
    ));
    assert(pairs_view(matched.push(pair)) + spec_match_from(toks, s, pos + k, j + 1) =~= pairs_view(
        matched,
    ) + spec_match_from(toks, s, pos, j));
}

} // verus!
