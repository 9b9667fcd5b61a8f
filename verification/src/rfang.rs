//! Refanging of defanged IOCs, undoing what `defang` writes.
use vstd::prelude::*;
use crate::text::{chars_of, replace_chars, replace_spec, string_of, Mode};

verus! {

pub open spec fn unbracket_dots(s: Seq<char>) -> Seq<char> {
    replace_spec(s, seq!['[', '.', ']'], seq!['.'], Mode::Exact)
}

/// Every `hxxp`, in any case, becomes `http` in the case it arrived in.
pub open spec fn mend_schemes(s: Seq<char>) -> Seq<char> {
    replace_spec(s, seq!['h', 'x', 'x', 'p'], seq!['h', 't', 't', 'p'], Mode::PreserveCase)
}

pub open spec fn unbracket_separators(s: Seq<char>) -> Seq<char> {
    replace_spec(s, seq!['[', ':', '/', '/', ']'], seq![':', '/', '/'], Mode::Exact)
}

pub open spec fn unbracket_ats(s: Seq<char>) -> Seq<char> {
    replace_spec(s, seq!['[', '@', ']'], seq!['@'], Mode::Exact)
}

pub open spec fn unbracket_colons(s: Seq<char>) -> Seq<char> {
    replace_spec(s, seq!['[', ':', ']'], seq![':'], Mode::Exact)
}

/// The five replacements of `refang`, in the order it makes them.
pub open spec fn spec_refang(s: Seq<char>) -> Seq<char> {
    unbracket_colons(unbracket_ats(unbracket_separators(mend_schemes(unbracket_dots(s)))))
}

/// Peels off a single layer of defanging. Input that was never defanged comes
/// back unchanged.
pub fn refang(input: &str) -> (r: String)
    ensures
        r@ == spec_refang(input@),
{
    let s = chars_of(input);

    let dot = vec!['.'];
    let bracketed_dot = vec!['[', '.', ']'];
    assert(dot@ =~= seq!['.'] && bracketed_dot@ =~= seq!['[', '.', ']']);
    let s = replace_chars(&s, &bracketed_dot, &dot, Mode::Exact);

    let broken = vec!['h', 'x', 'x', 'p'];
    let scheme = vec!['h', 't', 't', 'p'];
    assert(scheme@ =~= seq!['h', 't', 't', 'p'] && broken@ =~= seq!['h', 'x', 'x', 'p']);
    let s = replace_chars(&s, &broken, &scheme, Mode::PreserveCase);

    let sep = vec![':', '/', '/'];
    let bracketed_sep = vec!['[', ':', '/', '/', ']'];
    assert(sep@ =~= seq![':', '/', '/'] && bracketed_sep@ =~= seq!['[', ':', '/', '/', ']']);
    let s = replace_chars(&s, &bracketed_sep, &sep, Mode::Exact);

    let at = vec!['@'];
    let bracketed_at = vec!['[', '@', ']'];
    assert(at@ =~= seq!['@'] && bracketed_at@ =~= seq!['[', '@', ']']);
    let s = replace_chars(&s, &bracketed_at, &at, Mode::Exact);

    let colon = vec![':'];
    let bracketed_colon = vec!['[', ':', ']'];
    assert(colon@ =~= seq![':'] && bracketed_colon@ =~= seq!['[', ':', ']']);
    let s = replace_chars(&s, &bracketed_colon, &colon, Mode::Exact);

    string_of(&s)
}

/// Non-overlapping, leftmost replacement of an ASCII `needle` of the same
/// length as `to`. Matching ignores case and each character written keeps the
/// case of the one it replaced, so "HXXP" gives back "HTTP".
pub fn replace_preserving_ascii_case(haystack: &str, needle: &str, to: &str) -> (r: String)
    requires
        needle@.len() > 0,
        needle@.len() == to@.len(),
        vstd::utf8::is_ascii_chars(needle@),
        vstd::utf8::is_ascii_chars(to@),
    ensures
        r@ == replace_spec(haystack@, needle@, to@, Mode::PreserveCase),
{
    let h = chars_of(haystack);
    let n = chars_of(needle);
    let t = chars_of(to);
    string_of(&replace_chars(&h, &n, &t, Mode::PreserveCase))
}

} // verus!
