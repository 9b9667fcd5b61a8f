//! What holds of defanging and refanging taken together.
use vstd::prelude::*;
use crate::dfang::{
    double_colon_at, email_at, hex_groups_from, quad_from, spec_defang, spec_has_email,
    spec_has_ipv4, spec_has_ipv6,
};
use crate::lemmas::{
    broken_scheme, bracketed_separator, lemma_free_identity, lemma_free_ignoring_case,
    lemma_mend_break, lemma_mend_commutes_with_separators, lemma_unwrap_wrap,
    lemma_replace_recase, lemma_unwrap_wrap_separators, lemma_wrap_commutes, lemma_wrap_keeps_free,
    scheme, separator,
};
use crate::rfang::{
    mend_schemes, spec_refang, unbracket_ats, unbracket_colons, unbracket_dots,
    unbracket_separators,
};
use crate::text::{
    bracketed, free_of, occurs_at, recase_all, replace_spec, same_char, wrap, Mode,
};

verus! {

/// `s` holds something that refanging would take for defanging: a bracketed
/// dot, colon, at sign or `://`, or an `hxxp` in any case.
pub open spec fn looks_defanged(s: Seq<char>) -> bool {
    ||| !free_of(s, bracketed('.'), Mode::Exact)
    ||| !free_of(s, bracketed(':'), Mode::Exact)
    ||| !free_of(s, bracketed('@'), Mode::Exact)
    ||| !free_of(s, bracketed_separator(), Mode::Exact)
    ||| !free_of(s, broken_scheme(), Mode::IgnoreCase)
}

/// Input that was never defanged comes back from refanging unchanged.
pub proof fn law_refang_leaves_plain_text(s: Seq<char>)
    requires
        !looks_defanged(s),
    ensures
        spec_refang(s) == s,
{
    lemma_free_identity(s, bracketed('.'), seq!['.'], Mode::Exact);
    lemma_free_ignoring_case(s, broken_scheme());
    lemma_free_identity(s, broken_scheme(), scheme(), Mode::PreserveCase);
    lemma_free_identity(s, bracketed_separator(), separator(), Mode::Exact);
    lemma_free_identity(s, bracketed('@'), seq!['@'], Mode::Exact);
    lemma_free_identity(s, bracketed(':'), seq![':'], Mode::Exact);
}

/// Each bracket that defanging writes, refanging takes off again, one layer
/// at a time: whatever the text held before, bracketing its dots, colons, at
/// signs or `://` and then unbracketing them gives it back.
pub proof fn law_refang_peels_one_layer(s: Seq<char>)
    ensures
        unbracket_dots(wrap(s, '.')) == s,
        unbracket_colons(wrap(s, ':')) == s,
        unbracket_ats(wrap(s, '@')) == s,
        unbracket_separators(replace_spec(s, separator(), bracketed_separator(), Mode::Exact))
            == s,
{
    lemma_unwrap_wrap(s, '.');
    lemma_unwrap_wrap(s, ':');
    lemma_unwrap_wrap(s, '@');
    lemma_unwrap_wrap_separators(s);
}

/// Refanging a defanged line gives the line back, whenever the line did not
/// already look defanged.
pub proof fn law_refang_undoes_defang(s: Seq<char>)
    requires
        !looks_defanged(s),
    ensures
        spec_refang(spec_defang(s)) == s,
{
    let mm = Mode::PreserveCase;
    let ex = Mode::Exact;
    let ipv6 = spec_has_ipv6(s);
    let email = spec_has_email(s);
    // colons first, when the line holds an IPv6 form
    let z0 = if ipv6 {
        wrap(s, ':')
    } else {
        s
    };
    if ipv6 {
        lemma_wrap_keeps_free(s, ':', broken_scheme(), Mode::IgnoreCase);
        lemma_wrap_keeps_free(s, ':', bracketed('@'), ex);
    }
    // then the at signs, which may go before the dots
    let a0 = if email {
        wrap(z0, '@')
    } else {
        z0
    };
    if email {
        lemma_wrap_commutes(z0, '.', seq!['@'], bracketed('@'), ex);
        lemma_wrap_keeps_free(z0, '@', broken_scheme(), Mode::IgnoreCase);
    }
    assert(free_of(a0, broken_scheme(), Mode::IgnoreCase));
    // breaking schemes and bracketing `://` leave the dots where they were
    let h = replace_spec(a0, scheme(), broken_scheme(), mm);
    let hs = replace_spec(h, separator(), bracketed_separator(), ex);
    lemma_wrap_commutes(a0, '.', scheme(), broken_scheme(), mm);
    lemma_wrap_commutes(h, '.', separator(), bracketed_separator(), ex);
    assert(spec_defang(s) == wrap(hs, '.'));
    // refanging: dots, schemes, `://`
    lemma_unwrap_wrap(hs, '.');
    lemma_mend_commutes_with_separators(h);
    lemma_mend_break(a0);
    lemma_unwrap_wrap_separators(a0);
    assert(unbracket_separators(mend_schemes(unbracket_dots(spec_defang(s)))) == a0);
    // at signs
    if email {
        lemma_unwrap_wrap(z0, '@');
    } else {
        lemma_free_identity(z0, bracketed('@'), seq!['@'], ex);
    }
    assert(unbracket_ats(a0) == z0);
    // colons
    if ipv6 {
        lemma_unwrap_wrap(s, ':');
    } else {
        lemma_free_identity(s, bracketed(':'), seq![':'], ex);
    }
}

/// `c` occurs nowhere in `s`.
pub open spec fn lacks(s: Seq<char>, c: char) -> bool {
    forall|i: int| 0 <= i < s.len() ==> s[i] != c
}

proof fn lemma_lacks_free(s: Seq<char>, c: char)
    requires
        lacks(s, c),
    ensures
        free_of(s, seq![c], Mode::Exact),
{
    assert forall|i: int| !#[trigger] occurs_at(s, seq![c], Mode::Exact, i) by {
        if occurs_at(s, seq![c], Mode::Exact, i) {
            assert(same_char(s.subrange(i, i + 1)[0], seq![c][0], Mode::Exact));
        }
    }
}

pub proof fn lemma_hex_run_at_least(s: Seq<char>, at: int, k: int)
    requires
        0 <= k,
    ensures
        crate::dfang::hex_run(s, at, k) >= k,
    decreases 4 - k,
{
    if 0 <= k < 4 && 0 <= at + k < s.len() && crate::text::is_hex(s[at + k]) {
        lemma_hex_run_at_least(s, at, k + 1);
    }
}

/// A line with no dot, colon or at sign and no `http` in any case is left as
/// it is by defanging: it holds nothing to make unclickable.
pub proof fn law_defang_leaves_plain_text(s: Seq<char>)
    requires
        lacks(s, '.'),
        lacks(s, ':'),
        lacks(s, '@'),
        free_of(s, scheme(), Mode::IgnoreCase),
    ensures
        spec_defang(s) == s,
{
    assert forall|i: int| 0 <= i < s.len() implies !#[trigger] quad_from(s, i, 0) by {}
    assert forall|i: int| !#[trigger] double_colon_at(s, i) by {}
    assert forall|i: int| 0 <= i < s.len() implies !#[trigger] hex_groups_from(s, i, 0) by {
        let l = crate::dfang::hex_run(s, i, 0);
        lemma_hex_run_at_least(s, i, 0);
        if 0 <= i + l < s.len() {
            assert(s[i + l] != ':');
        }
    }
    assert forall|i: int| !#[trigger] email_at(s, i) by {}
    assert(!spec_has_ipv4(s));
    assert(!spec_has_ipv6(s));
    assert(!spec_has_email(s));
    lemma_lacks_free(s, '.');
    lemma_free_identity(s, seq!['.'], bracketed('.'), Mode::Exact);
    lemma_free_ignoring_case(s, scheme());
    lemma_free_identity(s, scheme(), broken_scheme(), Mode::PreserveCase);
    assert forall|i: int| !#[trigger] occurs_at(s, separator(), Mode::Exact, i) by {
        if occurs_at(s, separator(), Mode::Exact, i) {
            assert(same_char(s.subrange(i, i + 3)[0], separator()[0], Mode::Exact));
        }
    }
    lemma_free_identity(s, separator(), bracketed_separator(), Mode::Exact);
}

/// Refanging commutes with ASCII upper- and lower-casing: it matches `hxxp`
/// in any case, writes `http` in the case it found, and its brackets and
/// punctuation have no case.
pub proof fn law_refang_commutes_with_ascii_case(s: Seq<char>, upper: bool)
    ensures
        spec_refang(recase_all(s, upper)) == recase_all(spec_refang(s), upper),
{
    let ex = Mode::Exact;
    let d = unbracket_dots(s);
    let m = mend_schemes(d);
    let u = unbracket_separators(m);
    let a = unbracket_ats(u);
    lemma_replace_recase(s, bracketed('.'), seq!['.'], ex, upper);
    lemma_replace_recase(d, broken_scheme(), scheme(), Mode::PreserveCase, upper);
    lemma_replace_recase(m, bracketed_separator(), separator(), ex, upper);
    lemma_replace_recase(u, bracketed('@'), seq!['@'], ex, upper);
    lemma_replace_recase(a, bracketed(':'), seq![':'], ex, upper);
}

} // verus!
