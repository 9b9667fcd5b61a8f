//! Defanging with regular expressions: the same four
//! kinds of line, told apart by patterns rather than by scanning.
use vstd::prelude::*;
use crate::dfang::{ioc_kind, kind_of, IocKind};
use crate::pattern::{
    is_match, match_result, regex_compiles, regex_is_match, replace_all, replace_result,
    PatternError,
};

verus! {

/// A literal dot.
pub const DOTS_PATTERN: &'static str = "\\.";

/// A colon.
pub const COLONS_PATTERN: &'static str = ":";

/// An at sign.
pub const AT_PATTERN: &'static str = "@";

/// `http` in any case.
pub const HTTP_PATTERN: &'static str = "(?i)http";

/// The `://` after a scheme.
pub const SLASHES_PATTERN: &'static str = "://";

/// `local@label.label...`, letters of either case.
pub const EMAIL_PATTERN: &'static str = "(?i)([A-Za-z0-9!#$%&'*+/=?^_{|.}~-]+@(?:[a-z0-9](?:[a-z0-9-]*[a-z0-9])?\\.)+[a-z0-9](?:[a-z0-9-]*[a-z0-9])?)";

/// Four dot-separated numbers from 0 to 255.
pub const IPV4_PATTERN: &'static str = "(?:(?:25[0-5]|2[0-4][0-9]|[01]?[0-9][0-9]?)\\.){3}(?:25[0-5]|2[0-4][0-9]|[01]?[0-9][0-9]?)";

/// The textbook IPv6 address, in each of its compressed forms, with an
/// optional zone index and trailing white space.
pub const IPV6_PATTERN: &'static str = "(?:(?:(?:[0-9A-Fa-f]{1,4}:){7}(?:[0-9A-Fa-f]{1,4}|:))|(?:(?:[0-9A-Fa-f]{1,4}:){6}(?::[0-9A-Fa-f]{1,4}|(?:(?:25[0-5]|2[0-4]\\d|1\\d\\d|[1-9]?\\d)(?:\\.(?:25[0-5]|2[0-4]\\d|1\\d\\d|[1-9]?\\d)){3})|:))|(?:(?:[0-9A-Fa-f]{1,4}:){5}(?:(?:(?::[0-9A-Fa-f]{1,4}){1,2})|:(?:(?:25[0-5]|2[0-4]\\d|1\\d\\d|[1-9]?\\d)(?:\\.(?:25[0-5]|2[0-4]\\d|1\\d\\d|[1-9]?\\d)){3})|:))|(?:(?:[0-9A-Fa-f]{1,4}:){4}(?:(?:(?::[0-9A-Fa-f]{1,4}){1,3})|(?:(?::[0-9A-Fa-f]{1,4})?:(?:(?:25[0-5]|2[0-4]\\d|1\\d\\d|[1-9]?\\d)(?:\\.(?:25[0-5]|2[0-4]\\d|1\\d\\d|[1-9]?\\d)){3}))|:))|(?:(?:[0-9A-Fa-f]{1,4}:){3}(?:(?:(?::[0-9A-Fa-f]{1,4}){1,4})|(?:(?::[0-9A-Fa-f]{1,4}){0,2}:(?:(?:25[0-5]|2[0-4]\\d|1\\d\\d|[1-9]?\\d)(?:\\.(?:25[0-5]|2[0-4]\\d|1\\d\\d|[1-9]?\\d)){3}))|:))|(?:(?:[0-9A-Fa-f]{1,4}:){2}(?:(?:(?::[0-9A-Fa-f]{1,4}){1,5})|(?:(?::[0-9A-Fa-f]{1,4}){0,3}:(?:(?:25[0-5]|2[0-4]\\d|1\\d\\d|[1-9]?\\d)(?:\\.(?:25[0-5]|2[0-4]\\d|1\\d\\d|[1-9]?\\d)){3}))|:))|(?:(?:[0-9A-Fa-f]{1,4}:){1}(?:(?:(?::[0-9A-Fa-f]{1,4}){1,6})|(?:(?::[0-9A-Fa-f]{1,4}){0,4}:(?:(?:25[0-5]|2[0-4]\\d|1\\d\\d|[1-9]?\\d)(?:\\.(?:25[0-5]|2[0-4]\\d|1\\d\\d|[1-9]?\\d)){3}))|:))|(?::(?:(?:(?::[0-9A-Fa-f]{1,4}){1,7})|(?:(?::[0-9A-Fa-f]{1,4}){0,5}:(?:(?:25[0-5]|2[0-4]\\d|1\\d\\d|[1-9]?\\d)(?:\\.(?:25[0-5]|2[0-4]\\d|1\\d\\d|[1-9]?\\d)){3}))|:)))(?:%.+)?\\s*";

/// The result of two replacements in a row, the second on the result of the first.
pub open spec fn then_replace(
    first: Option<Seq<char>>,
    pattern: Seq<char>,
    replacement: Seq<char>,
) -> Option<Seq<char>> {
    match first {
        Some(t) => replace_result(pattern, t, replacement),
        None => None,
    }
}

pub open spec fn defangified_url(s: Seq<char>) -> Option<Seq<char>> {
    then_replace(
        then_replace(replace_result(DOTS_PATTERN@, s, "[.]"@), HTTP_PATTERN@, "hxxp"@),
        SLASHES_PATTERN@,
        "[://]"@,
    )
}

pub open spec fn defangified_ipv4(s: Seq<char>) -> Option<Seq<char>> {
    replace_result(DOTS_PATTERN@, s, "[.]"@)
}

pub open spec fn defangified_ipv6(s: Seq<char>) -> Option<Seq<char>> {
    replace_result(COLONS_PATTERN@, s, "[:]"@)
}

pub open spec fn defangified_email(s: Seq<char>) -> Option<Seq<char>> {
    then_replace(replace_result(DOTS_PATTERN@, s, "[.]"@), AT_PATTERN@, "[@]"@)
}

pub open spec fn defangified_as(kind: IocKind, s: Seq<char>) -> Option<Seq<char>> {
    match kind {
        IocKind::Ipv4 => defangified_ipv4(s),
        IocKind::Ipv6 => defangified_ipv6(s),
        IocKind::Email => defangified_email(s),
        IocKind::Url => defangified_url(s),
    }
}

/// What `defangify` gives: `None` when a pattern does not compile.
pub open spec fn spec_defangify(s: Seq<char>) -> Option<Seq<char>> {
    match (
        match_result(IPV4_PATTERN@, s),
        match_result(IPV6_PATTERN@, s),
        match_result(EMAIL_PATTERN@, s),
    ) {
        (Some(ipv4), Some(ipv6), Some(email)) => defangified_as(kind_of(ipv4, ipv6, email), s),
        _ => None,
    }
}

/// Brackets every dot, breaks every `http` and brackets every `://`.
pub fn defangify_url(input: &str) -> (r: Result<String, PatternError>)
    ensures
        match r {
            Ok(out) => defangified_url(input@) == Some(out@),
            Err(_) => defangified_url(input@) is None,
        },
        r matches Ok(out) ==> (!regex_is_match(DOTS_PATTERN@, input@) && !regex_is_match(
            HTTP_PATTERN@,
            input@,
        ) && !regex_is_match(SLASHES_PATTERN@, input@) ==> out@ == input@),
{
    let no_dots = replace_all(DOTS_PATTERN, input, "[.]")?;
    let no_http = replace_all(HTTP_PATTERN, no_dots.as_str(), "hxxp")?;
    let no_slashes = replace_all(SLASHES_PATTERN, no_http.as_str(), "[://]")?;
    Ok(no_slashes)
}

/// Brackets every dot.
pub fn defang_ipv4(input: &str) -> (r: Result<String, PatternError>)
    ensures
        match r {
            Ok(out) => defangified_ipv4(input@) == Some(out@),
            Err(_) => defangified_ipv4(input@) is None,
        },
{
    replace_all(DOTS_PATTERN, input, "[.]")
}

/// Brackets every colon.
pub fn defang_ipv6(input: &str) -> (r: Result<String, PatternError>)
    ensures
        match r {
            Ok(out) => defangified_ipv6(input@) == Some(out@),
            Err(_) => defangified_ipv6(input@) is None,
        },
{
    replace_all(COLONS_PATTERN, input, "[:]")
}

/// Brackets every dot and every at sign.
pub fn defangify_email(input: &str) -> (r: Result<String, PatternError>)
    ensures
        match r {
            Ok(out) => defangified_email(input@) == Some(out@),
            Err(_) => defangified_email(input@) is None,
        },
{
    let no_dots = replace_all(DOTS_PATTERN, input, "[.]")?;
    replace_all(AT_PATTERN, no_dots.as_str(), "[@]")
}

/// No pattern that `defangify` looks for matches anywhere in `s`: it holds
/// no IPv4, IPv6 or email address, no dot, no `http` in any case and no `://`.
pub open spec fn unmatched_by_defanging(s: Seq<char>) -> bool {
    &&& !regex_is_match(IPV4_PATTERN@, s)
    &&& !regex_is_match(IPV6_PATTERN@, s)
    &&& !regex_is_match(EMAIL_PATTERN@, s)
    &&& !regex_is_match(DOTS_PATTERN@, s)
    &&& !regex_is_match(HTTP_PATTERN@, s)
    &&& !regex_is_match(SLASHES_PATTERN@, s)
}

/// Defangs a line by the first kind of IOC that the patterns find in it
/// (IPv4, IPv6, email, else URL). `Err` when one of the patterns used does not
/// compile.
pub fn defangify(input: &str) -> (r: Result<String, PatternError>)
    ensures
        match r {
            Ok(out) => spec_defangify(input@) == Some(out@),
            Err(_) => spec_defangify(input@) is None,
        },
        r matches Ok(out) ==> (unmatched_by_defanging(input@) ==> out@ == input@),
{
    let ipv4 = is_match(IPV4_PATTERN, input)?;
    let ipv6 = is_match(IPV6_PATTERN, input)?;
    let email = is_match(EMAIL_PATTERN, input)?;
    match ioc_kind(ipv4, ipv6, email) {
        IocKind::Ipv4 => defang_ipv4(input),
        IocKind::Ipv6 => defang_ipv6(input),
        IocKind::Email => defangify_email(input),
        IocKind::Url => defangify_url(input),
    }
}

/// `p` turns the case-insensitive flag on at its very start, and every later
/// `(?` in it opens a plain `(?:` group, so no part of `p` turns it off again.
pub open spec fn case_insensitive_throughout(p: Seq<char>) -> bool {
    &&& p.len() >= 4
    &&& p[0] == '(' && p[1] == '?' && p[2] == 'i' && p[3] == ')'
    &&& forall|i: int|
        0 < i && i + 2 < p.len() && #[trigger] p[i] == '(' && p[i + 1] == '?' ==> p[i + 2] == ':'
}

/// From position `i` on, every `(?` in `p` opens a plain `(?:` group.
spec fn plain_groups_from(p: Seq<char>, i: int) -> bool
    decreases p.len() - i,
{
    if i < 0 || i + 2 >= p.len() {
        true
    } else {
        &&& (p[i] == '(' && p[i + 1] == '?' ==> p[i + 2] == ':')
        &&& plain_groups_from(p, i + 1)
    }
}

proof fn lemma_plain_groups(p: Seq<char>, i: int, j: int)
    requires
        0 <= i <= j,
        j + 2 < p.len(),
        plain_groups_from(p, i),
    ensures
        p[j] == '(' && p[j + 1] == '?' ==> p[j + 2] == ':',
    decreases j - i,
{
    if i < j {
        lemma_plain_groups(p, i + 1, j);
    }
}

/// The email test of `defangify` ignores case: its pattern sets the
/// case-insensitive flag at the start and never clears it, so a capitalised
/// local part or domain is matched as its lower-case form is. Likewise the
/// scheme that URL defanging breaks is `http` in any case.
pub proof fn law_email_pattern_ignores_case()
    ensures
        case_insensitive_throughout(EMAIL_PATTERN@),
        HTTP_PATTERN@ == seq!['(', '?', 'i', ')', 'h', 't', 't', 'p'],
{
    reveal_strlit("(?i)([A-Za-z0-9!#$%&'*+/=?^_{|.}~-]+@(?:[a-z0-9](?:[a-z0-9-]*[a-z0-9])?\\.)+[a-z0-9](?:[a-z0-9-]*[a-z0-9])?)");
    reveal_strlit("(?i)http");
    let p = EMAIL_PATTERN@;
    assert(p.len() == 107);
    reveal_with_fuel(plain_groups_from, 11);
    assert(plain_groups_from(p, 105));
    assert(plain_groups_from(p, 95));
    assert(plain_groups_from(p, 85));
    assert(plain_groups_from(p, 75));
    assert(plain_groups_from(p, 65));
    assert(plain_groups_from(p, 55));
    assert(plain_groups_from(p, 45));
    assert(plain_groups_from(p, 35));
    assert(plain_groups_from(p, 25));
    assert(plain_groups_from(p, 15));
    assert(plain_groups_from(p, 5));
    assert(plain_groups_from(p, 1));
    assert forall|i: int|
        0 < i && i + 2 < p.len() && #[trigger] p[i] == '(' && p[i + 1] == '?' implies p[i + 2]
            == ':' by {
        lemma_plain_groups(p, 1, i);
    }
}

/// The separators that defanging brackets are matched literally: an escaped
/// dot, a colon, an at sign and `://`.
pub proof fn law_defangify_separators_are_literal()
    ensures
        DOTS_PATTERN@ == seq!['\\', '.'],
        COLONS_PATTERN@ == seq![':'],
        AT_PATTERN@ == seq!['@'],
        SLASHES_PATTERN@ == seq![':', '/', '/'],
{
    reveal_strlit("\\.");
    reveal_strlit(":");
    reveal_strlit("@");
    reveal_strlit("://");
}

/// When the three detection patterns compile, `defangify` takes the first
/// kind whose pattern matches the line, in the order IPv4, IPv6, email, and
/// defangs the line as a URL when none does. The email decision is the match
/// of the case-insensitive `EMAIL_PATTERN`.
pub proof fn law_defangify_takes_first_kind(s: Seq<char>)
    requires
        regex_compiles(IPV4_PATTERN@),
        regex_compiles(IPV6_PATTERN@),
        regex_compiles(EMAIL_PATTERN@),
    ensures
        regex_is_match(IPV4_PATTERN@, s) ==> spec_defangify(s) == defangified_ipv4(s),
        !regex_is_match(IPV4_PATTERN@, s) && regex_is_match(IPV6_PATTERN@, s) ==> spec_defangify(s)
            == defangified_ipv6(s),
        !regex_is_match(IPV4_PATTERN@, s) && !regex_is_match(IPV6_PATTERN@, s) && regex_is_match(
            EMAIL_PATTERN@,
            s,
        ) ==> spec_defangify(s) == defangified_email(s),
        !regex_is_match(IPV4_PATTERN@, s) && !regex_is_match(IPV6_PATTERN@, s) && !regex_is_match(
            EMAIL_PATTERN@,
            s,
        ) ==> spec_defangify(s) == defangified_url(s),
{
}

} // verus!
