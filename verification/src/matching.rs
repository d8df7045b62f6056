//! The meaning of matching a candidate string against a compiled
//! token sequence: a greedy, left-to-right, single-pass walk.

use vstd::prelude::*;

use crate::scan::spec_compile;
use crate::token::SpecToken;

verus! {

/// Text `t` appears verbatim in `s` at position `pos`.
pub open spec fn text_matches_at(t: Seq<char>, s: Seq<char>, pos: nat) -> bool {
    pos + t.len() <= s.len() && s.subrange(pos as int, (pos + t.len()) as int) == t
}

/// The first option, from index `l` onward, that matches `s` at
/// `pos`: `Some` of the length it consumes, `None` if no option from
/// `l` onward matches.
pub open spec fn first_option_from(opts: Seq<Seq<char>>, s: Seq<char>, pos: nat, l: nat) -> Option<
    nat,
>
    decreases opts.len() - l,
{
    if l >= opts.len() {
        None
    } else if text_matches_at(opts[l as int], s, pos) {
        Some(opts[l as int].len())
    } else {
        first_option_from(opts, s, pos, l + 1)
    }
}

/// How many characters of `s`, at position `pos`, token `t` matches:
/// `None` if it does not match there. A literal must appear verbatim;
/// an alternation is decided by its first matching option; a wildcard
/// matches exactly one character, and so fails only at the end of the
/// candidate.
pub open spec fn token_match_len(t: SpecToken, s: Seq<char>, pos: nat) -> Option<nat> {
    match t {
        SpecToken::Literal(txt) => if text_matches_at(txt, s, pos) {
            Some(txt.len())
        } else {
            None
        },
        SpecToken::Alternation(opts) => first_option_from(opts, s, pos, 0),
        SpecToken::Wildcard => if pos < s.len() {
            Some(1 as nat)
        } else {
            None
        },
    }
}

/// The match trace from token `j` onward, with the cursor at `pos`:
/// each successfully matched token paired with the substring of `s`
/// it consumed, truncated at the first token that fails to match.
pub open spec fn spec_match_from(
    tokens: Seq<SpecToken>,
    s: Seq<char>,
    pos: nat,
    j: nat,
) -> Seq<(SpecToken, Seq<char>)>
    decreases tokens.len() - j,
{
    if j >= tokens.len() {
        Seq::empty()
    } else {
        match token_match_len(tokens[j as int], s, pos) {
            None => Seq::empty(),
            Some(k) => seq![(tokens[j as int], s.subrange(pos as int, (pos + k) as int))]
                + spec_match_from(
                tokens,
                s,
                pos + k,
                j + 1,
            ),
        }
    }
}

/// The full match trace of candidate `s` against `tokens`.
pub open spec fn spec_match(tokens: Seq<SpecToken>, s: Seq<char>) -> Seq<(SpecToken, Seq<char>)> {
    spec_match_from(tokens, s, 0, 0)
}

proof fn lemma_match_from_prefix(tokens: Seq<SpecToken>, s: Seq<char>, pos: nat, j: nat)
    requires
        j <= tokens.len(),
    ensures
        spec_match_from(tokens, s, pos, j).len() <= tokens.len() - j,
        forall|idx: int|
            0 <= idx < spec_match_from(tokens, s, pos, j).len() ==> spec_match_from(
                tokens,
                s,
                pos,
                j,
            )[idx].0 == tokens[j + idx],
    decreases tokens.len() - j,
{
    if j < tokens.len() {
        match token_match_len(tokens[j as int], s, pos) {
            None => {},
            Some(k) => {
                lemma_match_from_prefix(tokens, s, pos + k, (j + 1) as nat);
            },
        }
    }
}

/// Law: the match trace is always a prefix of the token sequence. It
/// is never longer than the token sequence, and its tokens are the
/// leading tokens, in order.
pub proof fn lemma_match_is_prefix(tokens: Seq<SpecToken>, s: Seq<char>)
    ensures
        spec_match(tokens, s).len() <= tokens.len(),
        forall|idx: int|
            0 <= idx < spec_match(tokens, s).len() ==> spec_match(tokens, s)[idx].0 == tokens[idx],
{
    lemma_match_from_prefix(tokens, s, 0, 0);
}

/// Law: matching is deterministic. Any two compilations of the same
/// pattern emit the same tokens, so the same pattern and candidate
/// always yield the same match trace.
pub proof fn lemma_match_deterministic(
    p: Seq<char>,
    s: Seq<char>,
    tokens1: Seq<SpecToken>,
    tokens2: Seq<SpecToken>,
)
    requires
        spec_compile(p) == Some(tokens1),
        spec_compile(p) == Some(tokens2),
    ensures
        spec_match(tokens1, s) == spec_match(tokens2, s),
{
}

} // verus!
