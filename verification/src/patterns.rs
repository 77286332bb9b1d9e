//! Calls into the `regex` crate. Each function compiles its pattern with
//! `regex::Regex::new` and makes one call on the compiled expression; what
//! the call returns is named by a spec function of the pattern and the text.
use vstd::prelude::*;

verus! {

/// What `Regex::new(pattern)` followed by `Regex::captures(haystack)` returns:
/// `None` when the pattern does not compile or does not match, otherwise the
/// text of every capture group (group 0 first), `None` for a group that took
/// no part in the match.
pub uninterp spec fn captures_result(pattern: Seq<char>, haystack: Seq<char>) -> Option<
    Seq<Option<Seq<char>>>,
>;

/// What `Regex::new(pattern)` followed by `Regex::captures_iter(haystack)`
/// yields: the capture groups of every successive non-overlapping match, in
/// order; empty when the pattern does not compile.
pub uninterp spec fn captures_all_result(pattern: Seq<char>, haystack: Seq<char>) -> Seq<
    Seq<Option<Seq<char>>>,
>;

/// What `Regex::new(pattern)` followed by `Regex::replace(haystack,
/// replacement)` returns: the text with its first match replaced, `$n`
/// expanded to group `n`; the text unchanged when the pattern does not compile.
pub uninterp spec fn replace_first_result(
    pattern: Seq<char>,
    haystack: Seq<char>,
    replacement: Seq<char>,
) -> Seq<char>;

/// What `Regex::new(pattern)` followed by `Regex::replace_all(haystack,
/// replacement)` returns; the text unchanged when the pattern does not compile.
pub uninterp spec fn replace_all_result(
    pattern: Seq<char>,
    haystack: Seq<char>,
    replacement: Seq<char>,
) -> Seq<char>;

/// What `Regex::new(pattern)` followed by `Regex::is_match(haystack)` returns;
/// `false` when the pattern does not compile.
pub uninterp spec fn is_match_result(pattern: Seq<char>, haystack: Seq<char>) -> bool;

/// What `Regex::new(pattern)` followed by `Regex::find_iter(haystack)` yields:
/// the text of every successive non-overlapping match.
pub uninterp spec fn find_all_result(pattern: Seq<char>, haystack: Seq<char>) -> Seq<Seq<char>>;

/// Whether `Regex::new(pattern)` succeeds.
pub uninterp spec fn compiles_result(pattern: Seq<char>) -> bool;

/// `regex::Regex::captures`. Claims that the result is `captures_result` of
/// the pattern and the text; says nothing of what that is.
#[verifier::external_body]
pub(crate) fn regex_captures(pattern: &str, haystack: &str) -> (r: Option<Vec<Option<String>>>)
    ensures
        r.deep_view() == captures_result(pattern@, haystack@),
{
    let re = regex::Regex::new(pattern).ok()?;
    re.captures(haystack).map(|caps| caps.iter().map(|m| m.map(|m| m.as_str().to_string())).collect())
}

/// `regex::Regex::captures_iter`. Claims that the result is
/// `captures_all_result` of the pattern and the text.
#[verifier::external_body]
pub(crate) fn regex_captures_all(pattern: &str, haystack: &str) -> (r: Vec<Vec<Option<String>>>)
    ensures
        r.deep_view() == captures_all_result(pattern@, haystack@),
{
    match regex::Regex::new(pattern) {
        Ok(re) => re.captures_iter(haystack).map(|caps| caps.iter().map(|m| m.map(|m| m.as_str().to_string())).collect()).collect(),
        Err(_) => Vec::new(),
    }
}

/// `regex::Regex::replace`. Claims that the result is `replace_first_result`
/// of the pattern, the text and the replacement.
#[verifier::external_body]
pub(crate) fn regex_replace_first(pattern: &str, haystack: &str, replacement: &str) -> (r: String)
    ensures
        r@ == replace_first_result(pattern@, haystack@, replacement@),
{
    match regex::Regex::new(pattern) {
        Ok(re) => re.replace(haystack, replacement).to_string(),
        Err(_) => haystack.to_string(),
    }
}

/// `regex::Regex::replace_all`. Claims that the result is
/// `replace_all_result` of the pattern, the text and the replacement.
#[verifier::external_body]
pub(crate) fn regex_replace_all(pattern: &str, haystack: &str, replacement: &str) -> (r: String)
    ensures
        r@ == replace_all_result(pattern@, haystack@, replacement@),
{
    match regex::Regex::new(pattern) {
        Ok(re) => re.replace_all(haystack, replacement).to_string(),
        Err(_) => haystack.to_string(),
    }
}

/// `regex::Regex::is_match`. Claims that the result is `is_match_result` of
/// the pattern and the text.
#[verifier::external_body]
pub(crate) fn regex_is_match(pattern: &str, haystack: &str) -> (r: bool)
    ensures
        r == is_match_result(pattern@, haystack@),
{
    match regex::Regex::new(pattern) {
        Ok(re) => re.is_match(haystack),
        Err(_) => false,
    }
}

/// `regex::Regex::find_iter`. Claims that the result is `find_all_result` of
/// the pattern and the text.
#[verifier::external_body]
pub(crate) fn regex_find_all(pattern: &str, haystack: &str) -> (r: Vec<String>)
    ensures
        r.deep_view() == find_all_result(pattern@, haystack@),
{
    match regex::Regex::new(pattern) {
        Ok(re) => re.find_iter(haystack).map(|m| m.as_str().to_string()).collect(),
        Err(_) => Vec::new(),
    }
}

/// `regex::Regex::new`. Claims that the result is `compiles_result` of the
/// pattern.
#[verifier::external_body]
pub(crate) fn regex_compiles(pattern: &str) -> (r: bool)
    ensures
        r == compiles_result(pattern@),
{
    regex::Regex::new(pattern).is_ok()
}

/// Text of capture group `i`, empty when the group is absent.
pub open spec fn group(caps: Seq<Option<Seq<char>>>, i: int) -> Seq<char> {
    if 0 <= i < caps.len() {
        match caps[i] {
            Some(text) => text,
            None => Seq::empty(),
        }
    } else {
        Seq::empty()
    }
}

/// Text of capture group `i`, empty when the group is absent.
pub fn capture_group(caps: &Vec<Option<String>>, i: usize) -> (r: String)
    ensures
        r@ == group(caps.deep_view(), i as int),
{
    if i < caps.len() {
        match &caps[i] {
            Some(text) => text.clone(),
            None => String::new(),
        }
    } else {
        String::new()
    }
}

} // verus!
