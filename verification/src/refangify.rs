//! Refanging with regular expressions.
use vstd::prelude::*;
use crate::defangify::then_replace;
use crate::pattern::{
    regex_compiles, regex_is_match, regex_replace_all, replace_all, replace_result, PatternError,
};

verus! {

/// A bracketed dot.
pub const BRACKETED_DOTS_PATTERN: &'static str = "\\[\\.\\]";

/// A bracketed colon.
pub const BRACKETED_COLONS_PATTERN: &'static str = "\\[:\\]";

/// A bracketed at sign.
pub const BRACKETED_AT_PATTERN: &'static str = "\\[@\\]";

/// `hxxp` in any case.
pub const HXXP_PATTERN: &'static str = "(?i)hxxp";

/// A bracketed `://`.
pub const BRACKETED_SLASHES_PATTERN: &'static str = "\\[://\\]";

/// What `refangify` gives: `None` when a pattern does not compile.
pub open spec fn spec_refangify(s: Seq<char>) -> Option<Seq<char>> {
    then_replace(
        then_replace(
            then_replace(
                then_replace(replace_result(BRACKETED_DOTS_PATTERN@, s, "."@), HXXP_PATTERN@, "http"@),
                BRACKETED_SLASHES_PATTERN@,
                "://"@,
            ),
            BRACKETED_AT_PATTERN@,
            "@"@,
        ),
        BRACKETED_COLONS_PATTERN@,
        ":"@,
    )
}

/// None of the five refanging patterns matches anywhere in `s`.
pub open spec fn unmatched_by_refanging(s: Seq<char>) -> bool {
    &&& !regex_is_match(BRACKETED_DOTS_PATTERN@, s)
    &&& !regex_is_match(HXXP_PATTERN@, s)
    &&& !regex_is_match(BRACKETED_SLASHES_PATTERN@, s)
    &&& !regex_is_match(BRACKETED_AT_PATTERN@, s)
    &&& !regex_is_match(BRACKETED_COLONS_PATTERN@, s)
}

/// Undoes the brackets and the broken schemes of a defanged line: every
/// `[.]`, `hxxp` (in any case, written back as `http`), `[://]`, `[@]` and
/// `[:]`, in that order. `Err` when one of the patterns does not compile.
pub fn refangify(input: &str) -> (r: Result<String, PatternError>)
    ensures
        match r {
            Ok(out) => spec_refangify(input@) == Some(out@),
            Err(_) => spec_refangify(input@) is None,
        },
        r matches Ok(out) ==> (unmatched_by_refanging(input@) ==> out@ == input@),
{
    let fanged_dots = replace_all(BRACKETED_DOTS_PATTERN, input, ".")?;
    let fanged_http = replace_all(HXXP_PATTERN, fanged_dots.as_str(), "http")?;
    let fanged_slashes = replace_all(BRACKETED_SLASHES_PATTERN, fanged_http.as_str(), "://")?;
    let fanged_ats = replace_all(BRACKETED_AT_PATTERN, fanged_slashes.as_str(), "@")?;
    replace_all(BRACKETED_COLONS_PATTERN, fanged_ats.as_str(), ":")
}

/// The scheme is mended by rewriting the four letters `hxxp`, in any case, as
/// `http`, and nothing more: the pattern is exactly `hxxp` under the
/// case-insensitive flag, and the replacement has as many letters, so what
/// follows the token (the `s` of `hxxps`) is left where it was.
pub proof fn law_refangify_mends_only_hxxp()
    ensures
        HXXP_PATTERN@ == seq!['(', '?', 'i', ')', 'h', 'x', 'x', 'p'],
        "http"@ == seq!['h', 't', 't', 'p'],
{
    reveal_strlit("(?i)hxxp");
    reveal_strlit("http");
}

/// The bracketed tokens that refanging looks for are matched literally: each
/// pattern escapes its brackets and its dot, so it matches `[.]`, `[://]`,
/// `[@]` or `[:]` and nothing else.
pub proof fn law_refangify_tokens_are_literal()
    ensures
        BRACKETED_DOTS_PATTERN@ == seq!['\\', '[', '\\', '.', '\\', ']'],
        BRACKETED_SLASHES_PATTERN@ == seq!['\\', '[', ':', '/', '/', '\\', ']'],
        BRACKETED_AT_PATTERN@ == seq!['\\', '[', '@', '\\', ']'],
        BRACKETED_COLONS_PATTERN@ == seq!['\\', '[', ':', '\\', ']'],
{
    reveal_strlit("\\[\\.\\]");
    reveal_strlit("\\[://\\]");
    reveal_strlit("\\[@\\]");
    reveal_strlit("\\[:\\]");
}

/// When all five patterns compile, refanging is the five replacements in a
/// row: `[.]` by `.`, then `hxxp` by `http`, then `[://]`, `[@]` and `[:]` by
/// what they bracket.
pub proof fn law_refangify_replaces_in_order(s: Seq<char>)
    requires
        regex_compiles(BRACKETED_DOTS_PATTERN@),
        regex_compiles(HXXP_PATTERN@),
        regex_compiles(BRACKETED_SLASHES_PATTERN@),
        regex_compiles(BRACKETED_AT_PATTERN@),
        regex_compiles(BRACKETED_COLONS_PATTERN@),
    ensures
        spec_refangify(s) == Some(
            regex_replace_all(
                BRACKETED_COLONS_PATTERN@,
                regex_replace_all(
                    BRACKETED_AT_PATTERN@,
                    regex_replace_all(
                        BRACKETED_SLASHES_PATTERN@,
                        regex_replace_all(
                            HXXP_PATTERN@,
                            regex_replace_all(BRACKETED_DOTS_PATTERN@, s, "."@),
                            "http"@,
                        ),
                        "://"@,
                    ),
                    "@"@,
                ),
                ":"@,
            ),
        ),
{
}

} // verus!
