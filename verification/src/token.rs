//! The compiled units of a pattern, and their mathematical views.

use vstd::prelude::*;

verus! {

/// One compiled unit of a pattern.
#[derive(Clone, Debug, PartialEq, Eq)]
pub enum MatcherToken {
    /// An exact run of characters that must appear verbatim.
    RawText(String),
    /// An ordered set of candidate literal strings, written
    /// `(one|two|three)` in a pattern; the first option that matches
    /// at the current position wins.
    OneOfText(Vec<String>),
    /// Accepts any single character, written `.` in a pattern.
    WildCard,
}

/// The mathematical shape of a token: each piece of text as a
/// sequence of characters.
pub enum SpecToken {
    Literal(Seq<char>),
    Alternation(Seq<Seq<char>>),
    Wildcard,
}

/// The views of a sequence of alternation options.
pub open spec fn options_view(os: Seq<String>) -> Seq<Seq<char>> {
    os.map_values(|o: String| o@)
}

impl View for MatcherToken {
    type V = SpecToken;

    open spec fn view(&self) -> SpecToken {
        match self {
            MatcherToken::RawText(t) => SpecToken::Literal(t@),
            MatcherToken::OneOfText(os) => SpecToken::Alternation(options_view(os@)),
            MatcherToken::WildCard => SpecToken::Wildcard,
        }
    }
}

/// The views of a sequence of tokens.
pub open spec fn tokens_view(ts: Seq<MatcherToken>) -> Seq<SpecToken> {
    ts.map_values(|t: MatcherToken| t@)
}

pub proof fn lemma_tokens_view_push(ts: Seq<MatcherToken>, t: MatcherToken)
    ensures
        tokens_view(ts.push(t)) == tokens_view(ts).push(t@),
{
    assert(tokens_view(ts.push(t)) =~= tokens_view(ts).push(t@));
}

pub proof fn lemma_options_view_push(os: Seq<String>, o: String)
    ensures
        options_view(os.push(o)) == options_view(os).push(o@),
{
    assert(options_view(os.push(o)) =~= options_view(os).push(o@));
}

} // verus!
