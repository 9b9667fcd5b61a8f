//! Regular-expression matching and replacement, done by the `regex` crate.
//!
//! What a regular expression matches, and what `replace_all` makes of a text,
//! are functions of the pattern and the text that take pages to state; they
//! are named here and the callers' contracts speak of the names.
use vstd::prelude::*;

verus! {

#[verifier::external_type_specification]
#[verifier::external_body]
pub struct ExRegexError(regex::Error);

/// Whether `Regex::new` accepts `pattern`.
pub uninterp spec fn regex_compiles(pattern: Seq<char>) -> bool;

/// What `Regex::is_match` answers for the compiled `pattern` on `haystack`.
pub uninterp spec fn regex_is_match(pattern: Seq<char>, haystack: Seq<char>) -> bool;

/// What `Regex::replace_all` makes of `haystack` for the compiled `pattern`
/// and the replacement string `replacement`.
pub uninterp spec fn regex_replace_all(
    pattern: Seq<char>,
    haystack: Seq<char>,
    replacement: Seq<char>,
) -> Seq<char>;

/// A pattern that `Regex::new` refused.
#[derive(PartialEq, Eq, Structural, Clone, Copy, Debug)]
pub enum PatternError {
    Rejected,
}

/// `regex::Regex::new` followed by `Regex::is_match`. The result is `Ok`
/// exactly when the pattern compiles, and then it is the named answer of
/// `is_match` for this pattern and haystack.
#[verifier::external_body]
fn regex_new_is_match(pattern: &str, haystack: &str) -> (r: Result<bool, regex::Error>)
    ensures
        r is Ok <==> regex_compiles(pattern@),
        r matches Ok(b) ==> b == regex_is_match(pattern@, haystack@),
{
    match regex::Regex::new(pattern) {
        Ok(re) => Ok(re.is_match(haystack)),
        Err(e) => Err(e),
    }
}

/// `regex::Regex::new` followed by `Regex::replace_all`. The result is `Ok`
/// exactly when the pattern compiles, and then it is the named result of
/// `replace_all` for this pattern, haystack and replacement; as the crate's
/// documentation says, a haystack with no match comes back unchanged.
#[verifier::external_body]
fn regex_new_replace_all(pattern: &str, haystack: &str, replacement: &str) -> (r: Result<
    String,
    regex::Error,
>)
    ensures
        r is Ok <==> regex_compiles(pattern@),
        r matches Ok(out) ==> out@ == regex_replace_all(pattern@, haystack@, replacement@),
        r matches Ok(out) ==> (!regex_is_match(pattern@, haystack@) ==> out@ == haystack@),
{
    match regex::Regex::new(pattern) {
        Ok(re) => Ok(re.replace_all(haystack, replacement).into_owned()),
        Err(e) => Err(e),
    }
}

/// What `is_match` answers, or `None` when the pattern does not compile.
pub open spec fn match_result(pattern: Seq<char>, haystack: Seq<char>) -> Option<bool> {
    if regex_compiles(pattern) {
        Some(regex_is_match(pattern, haystack))
    } else {
        None
    }
}

/// What `replace_all` gives, or `None` when the pattern does not compile.
pub open spec fn replace_result(pattern: Seq<char>, haystack: Seq<char>, replacement: Seq<char>) -> Option<
    Seq<char>,
> {
    if regex_compiles(pattern) {
        Some(regex_replace_all(pattern, haystack, replacement))
    } else {
        None
    }
}

/// Whether `pattern` matches somewhere in `haystack`.
pub fn is_match(pattern: &str, haystack: &str) -> (r: Result<bool, PatternError>)
    ensures
        match r {
            Ok(b) => match_result(pattern@, haystack@) == Some(b),
            Err(_) => match_result(pattern@, haystack@) is None,
        },
{
    match regex_new_is_match(pattern, haystack) {
        Ok(b) => Ok(b),
        Err(_) => Err(PatternError::Rejected),
    }
}

/// Every non-overlapping match of `pattern` in `haystack` replaced by `replacement`.
pub fn replace_all(pattern: &str, haystack: &str, replacement: &str) -> (r: Result<
    String,
    PatternError,
>)
    ensures
        match r {
            Ok(out) => replace_result(pattern@, haystack@, replacement@) == Some(out@),
            Err(_) => replace_result(pattern@, haystack@, replacement@) is None,
        },
        r matches Ok(out) ==> (!regex_is_match(pattern@, haystack@) ==> out@ == haystack@),
{
    match regex_new_replace_all(pattern, haystack, replacement) {
        Ok(out) => Ok(out),
        Err(_) => Err(PatternError::Rejected),
    }
}

} // verus!
