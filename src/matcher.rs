//! The fuzzy matcher: one candidate string against the query text.
use fuzzy_matcher::skim::SkimMatcherV2;
use fuzzy_matcher::FuzzyMatcher;
use vstd::prelude::*;

verus! {

/// The score that the skim fuzzy matcher, ignoring case, gives `choice` for
/// `pattern`; `None` where the pattern's characters do not occur in order.
pub uninterp spec fn skim_score(choice: Seq<char>, pattern: Seq<char>) -> Option<i64>;

/// A character with ASCII upper case letters taken to lower case.
pub open spec fn ascii_lower(c: char) -> char {
    if 'A' <= c && c <= 'Z' {
        ((c as u32) + 32) as char
    } else {
        c
    }
}

/// Whether the characters of `p` occur in `c` in order, ASCII case ignored.
pub open spec fn occurs_in_order(p: Seq<char>, c: Seq<char>) -> bool
    decreases c.len(),
{
    if p.len() == 0 {
        true
    } else if c.len() == 0 {
        false
    } else if ascii_lower(c[0]) == ascii_lower(p[0]) {
        occurs_in_order(p.drop_first(), c.drop_first())
    } else {
        occurs_in_order(p, c.drop_first())
    }
}

/// Relies on `SkimMatcherV2::fuzzy_match` of fuzzy-matcher, configured with
/// `ignore_case`: the result depends on the two strings alone; there is a
/// score exactly when the pattern's characters occur in the choice in order,
/// ASCII case ignored; an empty pattern matches with score 0.
#[verifier::external_body]
pub(crate) fn fuzzy_score(choice: &str, pattern: &str) -> (r: Option<i64>)
    ensures
        r == skim_score(choice@, pattern@),
        r.is_some() == occurs_in_order(pattern@, choice@),
        pattern@.len() == 0 ==> r == Some(0i64),
{
    SkimMatcherV2::default().ignore_case().fuzzy_match(choice, pattern)
}

} // verus!
