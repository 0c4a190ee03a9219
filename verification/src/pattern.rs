//! Regular-expression matching, done by the `regex` crate.

use vstd::prelude::*;

verus! {

/// What `regex::Regex::new(pattern)` followed by `captures_iter(text)`
/// yields: for each successive non-overlapping match, the text of every
/// capture group in group order (group `0` is the whole match, `None` for a
/// group that took no part in the match); `None` when the pattern does not
/// compile.
pub uninterp spec fn regex_captures(pattern: Seq<char>, text: Seq<char>) -> Option<Seq<Seq<Option<Seq<char>>>>>;

/// The groups of one match as text.
pub open spec fn groups_view(m: Vec<Option<String>>) -> Seq<Option<Seq<char>>> {
    Seq::new(
        m@.len(),
        |i: int|
            match m@[i] {
                Some(s) => Some(s@),
                None => None,
            },
    )
}

/// The matches as text.
pub open spec fn matches_view(v: Seq<Vec<Option<String>>>) -> Seq<Seq<Option<Seq<char>>>> {
    Seq::new(v.len(), |i: int| groups_view(v[i]))
}

/// Group `g` of one match: `None` when the group is absent or took no part.
pub open spec fn group_of(m: Seq<Option<Seq<char>>>, g: int) -> Option<Seq<char>> {
    if 0 <= g < m.len() {
        m[g]
    } else {
        None
    }
}

/// `regex::Regex::new(pattern)`, then `captures_iter(text)`, each match
/// converted group by group with `Captures::iter`. The contract only names
/// the result; `None` stands for a pattern that `Regex::new` refuses.
#[verifier::external_body]
pub(crate) fn captures(pattern: &str, text: &str) -> (r: Option<Vec<Vec<Option<String>>>>)
    ensures
        match r {
            Some(v) => regex_captures(pattern@, text@) == Some(matches_view(v@)),
            None => regex_captures(pattern@, text@) is None,
        },
{
    match regex::Regex::new(pattern) {
        Ok(re) => Some(
            re.captures_iter(text).map(|c| c.iter().map(|m| m.map(|x| x.as_str().to_string())).collect()).collect(),
        ),
        Err(_) => None,
    }
}

/// Group `g` of one match.
pub fn group_at(m: &Vec<Option<String>>, g: usize) -> (r: Option<&str>)
    ensures
        match r {
            Some(s) => group_of(groups_view(*m), g as int) == Some(s@),
            None => group_of(groups_view(*m), g as int) is None,
        },
{
    if g < m.len() {
        match &m[g] {
            Some(s) => Some(s.as_str()),
            None => None,
        }
    } else {
        None
    }
}

} // verus!
