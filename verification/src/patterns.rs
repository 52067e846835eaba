//! Regular-expression matching, done by the `regex` crate.
//!
//! Each function compiles its pattern and asks one question of the haystack.
//! What the answer is for a given pattern and haystack is named by an
//! uninterpreted spec function; only the short facts that the crate's
//! documentation gives are stated beside it. A pattern that does not compile
//! finds no match.
use vstd::prelude::*;
use regex::Regex;

verus! {

/// Whether the regex built from `pattern` matches somewhere in `hay`.
pub uninterp spec fn regex_matches(pattern: Seq<char>, hay: Seq<char>) -> bool;

/// The text `Regex::replace_all(hay, rep)` gives back.
pub uninterp spec fn regex_replaced(pattern: Seq<char>, hay: Seq<char>, rep: Seq<char>) -> Seq<char>;

/// The character offsets at which `Regex::find_iter` reports its matches, in order.
pub uninterp spec fn regex_match_starts(pattern: Seq<char>, hay: Seq<char>) -> Seq<usize>;

/// What `Regex::captures_iter` reports of group 1 for each match, in order
/// (`None` where the group took no part in the match).
pub uninterp spec fn regex_group1s(pattern: Seq<char>, hay: Seq<char>) -> Seq<Option<Seq<char>>>;

pub open spec fn opt_views(v: Seq<Option<String>>) -> Seq<Option<Seq<char>>> {
    v.map_values(|o: Option<String>| match o {
        Some(s) => Some(s@),
        None => None,
    })
}

/// `Regex::new(pattern)` then `Regex::is_match(hay)`.
///
/// Claimed: the answer is a function of the pattern and the haystack alone.
#[verifier::external_body]
pub(crate) fn is_match(pattern: &str, hay: &str) -> (r: bool)
    ensures
        r == regex_matches(pattern@, hay@),
{
    match Regex::new(pattern) {
        Ok(re) => re.is_match(hay),
        Err(_) => false,
    }
}

/// `Regex::new(pattern)` then `Regex::replace_all(hay, rep)`.
///
/// Claimed: the result is a function of the three texts, and, as the crate
/// documents, a haystack in which the pattern finds no match comes back
/// unchanged.
#[verifier::external_body]
pub(crate) fn replace_all(pattern: &str, hay: &str, rep: &str) -> (r: String)
    ensures
        r@ == regex_replaced(pattern@, hay@, rep@),
        !regex_matches(pattern@, hay@) ==> r@ == hay@,
{
    match Regex::new(pattern) {
        Ok(re) => re.replace_all(hay, rep).to_string(),
        Err(_) => hay.to_string(),
    }
}

/// `Regex::new(pattern)` then `Regex::find_iter(hay)`, each match given by
/// the number of characters before it.
///
/// Claimed: the offsets are a function of the two texts, each lies within
/// the haystack, and there are none when the pattern finds no match.
#[verifier::external_body]
pub(crate) fn match_starts(pattern: &str, hay: &str) -> (r: Vec<usize>)
    ensures
        r@ == regex_match_starts(pattern@, hay@),
        forall|i: int| 0 <= i < r@.len() ==> #[trigger] r@[i] <= hay@.len(),
        !regex_matches(pattern@, hay@) ==> r@.len() == 0,
{
    match Regex::new(pattern) {
        Ok(re) => re.find_iter(hay).map(|m| hay[..m.start()].chars().count()).collect(),
        Err(_) => Vec::new(),
    }
}

/// `Regex::new(pattern)` then `Regex::captures_iter(hay)`, each match
/// given by the text of its group 1.
///
/// Claimed: the groups are a function of the two texts, and there are none
/// when the pattern finds no match.
#[verifier::external_body]
pub(crate) fn group1s(pattern: &str, hay: &str) -> (r: Vec<Option<String>>)
    ensures
        opt_views(r@) == regex_group1s(pattern@, hay@),
        !regex_matches(pattern@, hay@) ==> r@.len() == 0,
{
    match Regex::new(pattern) {
        Ok(re) => re.captures_iter(hay).map(|c| c.get(1).map(|m| m.as_str().to_string())).collect(),
        Err(_) => Vec::new(),
    }
}

} // verus!
