//! A minimal pattern-matching language over text.
//!
//! A pattern string is compiled into a sequence of matchable tokens
//! (literal text, alternation sets, single-character wildcards), and
//! candidate strings are then matched against that compiled sequence,
//! producing the trace of (token, matched substring) pairs achieved
//! before the first mismatch.

pub mod matcher;
pub mod matching;
pub mod scan;
pub mod token;

pub use matcher::Matcher;
pub use token::MatcherToken;
