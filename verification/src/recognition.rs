//! What the recognisers accept, stated by the shape of the text: exactly the
//! addresses they are meant to find, whatever their case.
use vstd::prelude::*;
use crate::dfang::{
    dot_at, double_colon_at, email_at, hex_groups_from, hex_run, label_end, label_len, octet_at,
    quad_from, spec_has_email, spec_has_ipv4, spec_has_ipv6,
};
use crate::lemmas::lemma_recase_char;
use crate::text::{is_hex, recase, recase_all};

verus! {

/// An ASCII letter or digit.
pub open spec fn letter_or_digit(c: char) -> bool {
    ('0' <= c <= '9') || ('a' <= c <= 'z') || ('A' <= c <= 'Z')
}

/// A domain label: letters, digits and inner hyphens, starting and ending
/// with a letter or digit.
pub open spec fn domain_label(d: Seq<char>) -> bool {
    &&& d.len() > 0
    &&& letter_or_digit(d[0])
    &&& letter_or_digit(d[d.len() - 1])
    &&& forall|k: int| 0 <= k < d.len() ==> letter_or_digit(#[trigger] d[k]) || d[k] == '-'
}

proof fn lemma_label_end_exact(s: Seq<char>, i: int, e: int, stop: int)
    requires
        0 <= i <= stop < s.len(),
        forall|j: int| i <= j < stop ==> letter_or_digit(#[trigger] s[j]) || s[j] == '-',
        i == stop ==> e == stop,
        i < stop ==> letter_or_digit(s[stop - 1]),
        !letter_or_digit(s[stop]),
        s[stop] != '-',
    ensures
        label_end(s, i, e) == stop,
    decreases stop - i,
{
    if i < stop {
        if letter_or_digit(s[i]) {
            lemma_label_end_exact(s, i + 1, i + 1, stop);
        } else {
            lemma_label_end_exact(s, i + 1, e, stop);
        }
    }
}

proof fn lemma_label_end_at_least(s: Seq<char>, i: int, e: int)
    requires
        e <= i,
    ensures
        label_end(s, i, e) >= e,
    decreases s.len() - i,
{
    if 0 <= i < s.len() {
        lemma_label_end_at_least(s, i + 1, if letter_or_digit(s[i]) {
            i + 1
        } else {
            e
        });
    }
}

/// An address `local@label.label` is recognised wherever it stands, hyphens
/// inside its labels included, when the local part ends in a letter or digit.
pub proof fn law_email_is_recognised(
    before: Seq<char>,
    d1: Seq<char>,
    d2: Seq<char>,
    after: Seq<char>,
)
    requires
        before.len() > 0,
        letter_or_digit(before[before.len() - 1]),
        domain_label(d1),
        domain_label(d2),
    ensures
        spec_has_email(before + seq!['@'] + d1 + seq!['.'] + d2 + after),
{
    let s = before + seq!['@'] + d1 + seq!['.'] + d2 + after;
    let i = before.len() as int;
    let p = i + 1;
    let stop = p + d1.len();
    assert(s[i] == '@');
    assert(s[i - 1] == before[i - 1]);
    assert forall|j: int| p <= j < stop implies letter_or_digit(#[trigger] s[j]) || s[j] == '-' by {
        assert(s[j] == d1[j - p]);
    }
    assert(s[stop] == '.');
    assert(s[stop - 1] == d1[d1.len() - 1]);
    assert(s[p] == d1[0]);
    lemma_label_end_exact(s, p + 1, p + 1, stop);
    assert(label_len(s, p) == d1.len());
    assert(dot_at(s, stop));
    assert(s[stop + 1] == d2[0]);
    lemma_label_end_at_least(s, stop + 2, stop + 2);
    assert(label_len(s, stop + 1) > 0);
    assert(email_at(s, i));
}

// ---------------------------------------------------------------------------
// IPv6
// ---------------------------------------------------------------------------
proof fn lemma_hex_char_recase(c: char, upper: bool)
    ensures
        is_hex(recase(c, upper)) == is_hex(c),
        (recase(c, upper) == ':') == (c == ':'),
{
    lemma_recase_char(c, upper);
}

proof fn lemma_hex_run_recase(s: Seq<char>, at: int, k: int, upper: bool)
    ensures
        hex_run(recase_all(s, upper), at, k) == hex_run(s, at, k),
    decreases 4 - k,
{
    let f = recase_all(s, upper);
    if 0 <= k < 4 && 0 <= at + k < s.len() {
        lemma_hex_char_recase(s[at + k], upper);
        lemma_hex_run_recase(s, at, k + 1, upper);
    }
}

proof fn lemma_hex_groups_recase(s: Seq<char>, at: int, group: int, upper: bool)
    ensures
        hex_groups_from(recase_all(s, upper), at, group) == hex_groups_from(s, at, group),
    decreases 8 - group,
{
    let f = recase_all(s, upper);
    lemma_hex_run_recase(s, at, 0, upper);
    crate::laws::lemma_hex_run_at_least(s, at, 0);
    let l = hex_run(s, at, 0);
    assert(hex_run(f, at, 0) == l);
    assert(f.len() == s.len());
    if l != 0 && group < 7 && 0 <= at + l < s.len() {
        assert(f[at + l] == recase(s[at + l], upper));
        lemma_hex_char_recase(s[at + l], upper);
        lemma_hex_groups_recase(s, at + l + 1, group + 1, upper);
    }
}

/// Whether a line holds an IPv6 form does not depend on the ASCII case of
/// its letters.
pub proof fn law_ipv6_ignores_case(s: Seq<char>, upper: bool)
    ensures
        spec_has_ipv6(recase_all(s, upper)) == spec_has_ipv6(s),
{
    let f = recase_all(s, upper);
    assert forall|i: int| #[trigger] double_colon_at(f, i) == double_colon_at(s, i) by {
        if 0 <= i && i + 1 < s.len() {
            lemma_hex_char_recase(s[i], upper);
            lemma_hex_char_recase(s[i + 1], upper);
        }
    }
    assert forall|i: int| #[trigger] hex_groups_from(f, i, 0) == hex_groups_from(s, i, 0) by {
        lemma_hex_groups_recase(s, i, 0, upper);
    }
    if spec_has_ipv6(s) {
        if exists|i: int| #[trigger] double_colon_at(s, i) {
            let i = choose|i: int| #[trigger] double_colon_at(s, i);
            assert(double_colon_at(f, i));
        } else {
            let i = choose|i: int| 0 <= i < s.len() && #[trigger] hex_groups_from(s, i, 0);
            assert(hex_groups_from(f, i, 0));
        }
    }
    if spec_has_ipv6(f) {
        if exists|i: int| #[trigger] double_colon_at(f, i) {
            let i = choose|i: int| #[trigger] double_colon_at(f, i);
            assert(double_colon_at(s, i));
        } else {
            let i = choose|i: int| 0 <= i < f.len() && #[trigger] hex_groups_from(f, i, 0);
            assert(hex_groups_from(s, i, 0));
        }
    }
}

/// A hex digit, in either case.
pub open spec fn hex_digit(c: char) -> bool {
    ('0' <= c <= '9') || ('a' <= c <= 'f') || ('A' <= c <= 'F')
}

/// One to four hex digits.
pub open spec fn hex_group(g: Seq<char>) -> bool {
    1 <= g.len() <= 4 && forall|k: int| 0 <= k < g.len() ==> hex_digit(#[trigger] g[k])
}

/// The groups written one after another, with a colon between each two.
pub open spec fn colon_joined(g: Seq<Seq<char>>) -> Seq<char>
    decreases g.len(),
{
    if g.len() == 0 {
        Seq::empty()
    } else if g.len() == 1 {
        g[0]
    } else {
        g[0] + seq![':'] + colon_joined(g.drop_first())
    }
}

proof fn lemma_hex_run_exact(s: Seq<char>, at: int, k: int, n: int)
    requires
        0 <= at,
        0 <= k <= n <= 4,
        at + n <= s.len(),
        forall|j: int| at + k <= j < at + n ==> hex_digit(#[trigger] s[j]),
        n == 4 || (at + n < s.len() && !hex_digit(s[at + n])),
    ensures
        hex_run(s, at, k) == n,
    decreases n - k,
{
    if k < n {
        assert(hex_digit(s[at + k]));
        lemma_hex_run_exact(s, at, k + 1, n);
    }
}

proof fn lemma_joined_groups(s: Seq<char>, p: int, g: Seq<Seq<char>>, group: int)
    requires
        0 <= group <= 7,
        g.len() == 8 - group,
        0 <= p,
        p + colon_joined(g).len() <= s.len(),
        s.subrange(p, p + colon_joined(g).len()) == colon_joined(g),
        forall|k: int| 0 <= k < g.len() ==> hex_group(#[trigger] g[k]),
    ensures
        hex_groups_from(s, p, group),
    decreases g.len(),
{
    let j = colon_joined(g);
    let g0 = g[0];
    assert(hex_group(g0));
    assert forall|t: int| 0 <= t < g0.len() implies s[p + t] == g0[t] by {
        if g.len() == 1 {
            assert(j == g0);
        } else {
            assert(j == g0 + seq![':'] + colon_joined(g.drop_first()));
        }
        assert(s.subrange(p, p + j.len())[t] == j[t]);
    }
    if g.len() == 1 {
        assert(s[p] == g0[0]);
        assert(hex_digit(g0[0]));
        assert(hex_run(s, p, 0) == hex_run(s, p, 1));
        crate::laws::lemma_hex_run_at_least(s, p, 1);
    } else {
        let rest = g.drop_first();
        let jr = colon_joined(rest);
        assert(j == g0 + seq![':'] + jr);
        let n = g0.len() as int;
        assert(s[p + n] == ':') by {
            assert(s.subrange(p, p + j.len())[n] == j[n]);
        }
        assert forall|t: int| p <= t < p + n implies hex_digit(#[trigger] s[t]) by {
            assert(s[p + (t - p)] == g0[t - p]);
            assert(hex_digit(g0[t - p]));
        }
        lemma_hex_run_exact(s, p, 0, n);
        let q = p + n + 1;
        assert(s.subrange(q, q + jr.len()) =~= jr) by {
            assert forall|t: int| 0 <= t < jr.len() implies s.subrange(q, q + jr.len())[t]
                == jr[t] by {
                assert(s.subrange(p, p + j.len())[n + 1 + t] == j[n + 1 + t]);
            }
        }
        assert forall|k: int| 0 <= k < rest.len() implies hex_group(#[trigger] rest[k]) by {
            assert(rest[k] == g[k + 1]);
        }
        lemma_joined_groups(s, q, rest, group + 1);
    }
}

/// Eight colon-separated groups of one to four hex digits, in either case,
/// are recognised as an IPv6 form wherever they stand.
pub proof fn law_ipv6_groups_are_recognised(
    before: Seq<char>,
    groups: Seq<Seq<char>>,
    after: Seq<char>,
)
    requires
        groups.len() == 8,
        forall|k: int| 0 <= k < 8 ==> hex_group(#[trigger] groups[k]),
    ensures
        spec_has_ipv6(before + colon_joined(groups) + after),
{
    let j = colon_joined(groups);
    let s = before + j + after;
    let p = before.len() as int;
    assert(s.subrange(p, p + j.len()) =~= j);
    lemma_joined_groups(s, p, groups, 0);
    assert(j == groups[0] + seq![':'] + colon_joined(groups.drop_first()));
    assert(p < s.len());
    assert(hex_groups_from(s, p, 0));
}

// ---------------------------------------------------------------------------
// IPv4
// ---------------------------------------------------------------------------
/// The number that a run of decimal digits denotes.
pub open spec fn decimal_value(d: Seq<char>) -> int
    decreases d.len(),
{
    if d.len() == 0 {
        0
    } else {
        decimal_value(d.drop_last()) * 10 + ((d.last() as int) - ('0' as int))
    }
}

/// A number from 0 to 255 written in one to three decimal digits.
pub open spec fn decimal_octet(d: Seq<char>) -> bool {
    &&& 1 <= d.len() <= 3
    &&& forall|k: int| 0 <= k < d.len() ==> '0' <= #[trigger] d[k] <= '9'
    &&& decimal_value(d) <= 255
}

proof fn lemma_octet_placed(s: Seq<char>, p: int, d: Seq<char>)
    requires
        decimal_octet(d),
        0 <= p,
        p + d.len() <= s.len(),
        forall|k: int| 0 <= k < d.len() ==> s[p + k] == #[trigger] d[k],
    ensures
        octet_at(s, p, d.len() as int),
{
    assert forall|j: int| p <= j < p + d.len() implies crate::text::is_digit(#[trigger] s[j]) by {
        assert(s[p + (j - p)] == d[j - p]);
    }
    if d.len() == 3 {
        assert(s[p] == d[0] && s[p + 1] == d[1] && s[p + 2] == d[2]);
        let d1 = d.drop_last();
        let d0 = d1.drop_last();
        assert(d0.len() == 1 && d0.last() == d[0]);
        assert(d1.last() == d[1]);
        assert(d.last() == d[2]);
        assert(decimal_value(d0.drop_last()) == 0);
        assert(decimal_value(d0) == decimal_value(d0.drop_last()) * 10 + ((d[0] as int) - (
        '0' as int)));
        assert(decimal_value(d1) == decimal_value(d0) * 10 + ((d[1] as int) - ('0' as int)));
        assert(decimal_value(d) == decimal_value(d1) * 10 + ((d[2] as int) - ('0' as int)));
    }
}

/// Four numbers from 0 to 255, each in one to three digits, with a dot
/// between each two, are recognised as an IPv4 address wherever they stand.
pub proof fn law_dotted_quad_is_recognised(
    before: Seq<char>,
    a: Seq<char>,
    b: Seq<char>,
    c: Seq<char>,
    d: Seq<char>,
    after: Seq<char>,
)
    requires
        decimal_octet(a),
        decimal_octet(b),
        decimal_octet(c),
        decimal_octet(d),
    ensures
        spec_has_ipv4(
            before + a + seq!['.'] + b + seq!['.'] + c + seq!['.'] + d + after,
        ),
{
    let s = before + a + seq!['.'] + b + seq!['.'] + c + seq!['.'] + d + after;
    let pa = before.len() as int;
    let pb = pa + a.len() + 1;
    let pc = pb + b.len() + 1;
    let pd = pc + c.len() + 1;
    assert forall|k: int| 0 <= k < a.len() implies s[pa + k] == #[trigger] a[k] by {}
    assert forall|k: int| 0 <= k < b.len() implies s[pb + k] == #[trigger] b[k] by {}
    assert forall|k: int| 0 <= k < c.len() implies s[pc + k] == #[trigger] c[k] by {}
    assert forall|k: int| 0 <= k < d.len() implies s[pd + k] == #[trigger] d[k] by {}
    lemma_octet_placed(s, pa, a);
    lemma_octet_placed(s, pb, b);
    lemma_octet_placed(s, pc, c);
    lemma_octet_placed(s, pd, d);
    assert(dot_at(s, pb - 1) && dot_at(s, pc - 1) && dot_at(s, pd - 1));
    assert(quad_from(s, pd, 3));
    assert(quad_from(s, pc, 2));
    assert(quad_from(s, pb, 1));
    assert(quad_from(s, pa, 0));
    assert(pa < s.len());
}

/// `s[i..]` begins with four numbers from 0 to 255, written in `la`, `lb`,
/// `lc` and `ld` decimal digits, with a dot between each two.
pub open spec fn dotted_quad_at(s: Seq<char>, i: int, la: int, lb: int, lc: int, ld: int) -> bool {
    let pb = i + la + 1;
    let pc = pb + lb + 1;
    let pd = pc + lc + 1;
    &&& 0 <= i
    &&& 1 <= la <= 3 && 1 <= lb <= 3 && 1 <= lc <= 3 && 1 <= ld <= 3
    &&& pd + ld <= s.len()
    &&& decimal_octet(s.subrange(i, i + la))
    &&& s[i + la] == '.'
    &&& decimal_octet(s.subrange(pb, pb + lb))
    &&& s[pb + lb] == '.'
    &&& decimal_octet(s.subrange(pc, pc + lc))
    &&& s[pc + lc] == '.'
    &&& decimal_octet(s.subrange(pd, pd + ld))
}

proof fn lemma_octet_sound(s: Seq<char>, at: int, len: int)
    requires
        1 <= len <= 3,
        octet_at(s, at, len),
    ensures
        decimal_octet(s.subrange(at, at + len)),
{
    let d = s.subrange(at, at + len);
    assert forall|k: int| 0 <= k < d.len() implies '0' <= #[trigger] d[k] <= '9' by {
        assert(d[k] == s[at + k]);
        assert(crate::text::is_digit(s[at + k]));
    }
    let d1 = d.drop_last();
    assert(decimal_value(d) == decimal_value(d1) * 10 + ((d.last() as int) - ('0' as int)));
    assert(d.last() == d[len - 1]);
    if len == 1 {
        assert(d1.len() == 0);
        assert(decimal_value(d1) == 0);
    } else {
        let d0 = d1.drop_last();
        assert(d1.last() == d[len - 2]);
        assert(decimal_value(d1) == decimal_value(d0) * 10 + ((d1.last() as int) - ('0' as int)));
        if len == 2 {
            assert(d0.len() == 0);
            assert(decimal_value(d0) == 0);
        } else {
            assert(d0.len() == 1 && d0.last() == d[0]);
            assert(decimal_value(d0.drop_last()) == 0);
            assert(decimal_value(d0) == decimal_value(d0.drop_last()) * 10 + ((d[0] as int) - (
            '0' as int)));
            assert(d[0] == s[at] && d[1] == s[at + 1] && d[2] == s[at + 2]);
        }
    }
}

proof fn lemma_quad_step(s: Seq<char>, at: int, k: int) -> (l: int)
    requires
        0 <= k < 3,
        quad_from(s, at, k),
    ensures
        1 <= l <= 3,
        octet_at(s, at, l),
        dot_at(s, at + l),
        quad_from(s, at + l + 1, k + 1),
{
    if octet_at(s, at, 3) && dot_at(s, at + 3) && quad_from(s, at + 4, k + 1) {
        3
    } else if octet_at(s, at, 2) && dot_at(s, at + 2) && quad_from(s, at + 3, k + 1) {
        2
    } else {
        1
    }
}

proof fn lemma_quad_last(s: Seq<char>, at: int) -> (l: int)
    requires
        quad_from(s, at, 3),
    ensures
        1 <= l <= 3,
        octet_at(s, at, l),
{
    if octet_at(s, at, 3) {
        3
    } else if octet_at(s, at, 2) {
        2
    } else {
        1
    }
}

/// A line holds an IPv4 address exactly when somewhere in it stand four
/// numbers from 0 to 255, each in one to three digits, with a dot between
/// each two.
pub proof fn law_ipv4_is_a_dotted_quad(s: Seq<char>)
    ensures
        spec_has_ipv4(s) <==> exists|i: int, la: int, lb: int, lc: int, ld: int|
            #[trigger] dotted_quad_at(s, i, la, lb, lc, ld),
{
    if spec_has_ipv4(s) {
        let i = choose|i: int| 0 <= i < s.len() && #[trigger] quad_from(s, i, 0);
        let la = lemma_quad_step(s, i, 0);
        let pb = i + la + 1;
        let lb = lemma_quad_step(s, pb, 1);
        let pc = pb + lb + 1;
        let lc = lemma_quad_step(s, pc, 2);
        let pd = pc + lc + 1;
        let ld = lemma_quad_last(s, pd);
        lemma_octet_sound(s, i, la);
        lemma_octet_sound(s, pb, lb);
        lemma_octet_sound(s, pc, lc);
        lemma_octet_sound(s, pd, ld);
        assert(dotted_quad_at(s, i, la, lb, lc, ld));
    }
    if exists|i: int, la: int, lb: int, lc: int, ld: int|
        #[trigger] dotted_quad_at(s, i, la, lb, lc, ld) {
        let (i, la, lb, lc, ld) = choose|i: int, la: int, lb: int, lc: int, ld: int|
            #[trigger] dotted_quad_at(s, i, la, lb, lc, ld);
        let pb = i + la + 1;
        let pc = pb + lb + 1;
        let pd = pc + lc + 1;
        lemma_octet_placed(s, i, s.subrange(i, i + la));
        lemma_octet_placed(s, pb, s.subrange(pb, pb + lb));
        lemma_octet_placed(s, pc, s.subrange(pc, pc + lc));
        lemma_octet_placed(s, pd, s.subrange(pd, pd + ld));
        assert(dot_at(s, pb - 1) && dot_at(s, pc - 1) && dot_at(s, pd - 1));
        assert(quad_from(s, pd, 3));
        assert(quad_from(s, pc, 2));
        assert(quad_from(s, pb, 1));
        assert(quad_from(s, i, 0));
        assert(i < s.len());
    }
}

/// A character that may end the local part of an address: a letter, a digit
/// or one of `!#$%&'*+/=?^_{|.}~-`.
pub open spec fn local_char(c: char) -> bool {
    ||| letter_or_digit(c)
    ||| c == '!' || c == '#' || c == '$' || c == '%' || c == '&' || c == '\'' || c == '*'
    ||| c == '+' || c == '/' || c == '=' || c == '?' || c == '^' || c == '_' || c == '{'
    ||| c == '|' || c == '.' || c == '}' || c == '~' || c == '-'
}

/// `s[i]` is an `@` after a local-part character and before a label of `l1`
/// characters, a dot and a label of `l2` characters.
pub open spec fn address_at(s: Seq<char>, i: int, l1: int, l2: int) -> bool {
    let q = i + 2 + l1;
    &&& 0 < i
    &&& 0 < l1 && 0 < l2
    &&& q + l2 <= s.len()
    &&& s[i] == '@'
    &&& local_char(s[i - 1])
    &&& domain_label(s.subrange(i + 1, i + 1 + l1))
    &&& s[i + 1 + l1] == '.'
    &&& domain_label(s.subrange(q, q + l2))
}

proof fn lemma_label_end_sound(s: Seq<char>, at: int, i: int, e: int)
    requires
        0 <= at < e <= i <= s.len(),
        letter_or_digit(s[e - 1]),
        forall|j: int| at <= j < i ==> letter_or_digit(#[trigger] s[j]) || s[j] == '-',
    ensures
        e <= label_end(s, i, e) <= s.len(),
        letter_or_digit(s[label_end(s, i, e) - 1]),
        forall|j: int|
            at <= j < label_end(s, i, e) ==> letter_or_digit(#[trigger] s[j]) || s[j] == '-',
    decreases s.len() - i,
{
    if i < s.len() {
        if letter_or_digit(s[i]) {
            lemma_label_end_sound(s, at, i + 1, i + 1);
        } else if s[i] == '-' {
            lemma_label_end_sound(s, at, i + 1, e);
        }
    }
}

proof fn lemma_label_sound(s: Seq<char>, at: int)
    requires
        label_len(s, at) > 0,
    ensures
        at + label_len(s, at) <= s.len(),
        domain_label(s.subrange(at, at + label_len(s, at))),
{
    lemma_label_end_sound(s, at, at + 1, at + 1);
    let l = label_len(s, at);
    let d = s.subrange(at, at + l);
    assert(d[0] == s[at]);
    assert(d[l - 1] == s[at + l - 1]);
    assert forall|k: int| 0 <= k < d.len() implies letter_or_digit(#[trigger] d[k]) || d[k]
        == '-' by {
        assert(d[k] == s[at + k]);
    }
}

/// A line holds an email address exactly when somewhere in it an `@` stands
/// after a local-part character and before two domain labels joined by a
/// dot, each label made of letters, digits and inner hyphens.
pub proof fn law_email_is_an_address(s: Seq<char>)
    ensures
        spec_has_email(s) <==> exists|i: int, l1: int, l2: int| #[trigger] address_at(s, i, l1, l2),
{
    if spec_has_email(s) {
        let i = choose|i: int| #[trigger] email_at(s, i);
        let l1 = label_len(s, i + 1);
        let q = i + 2 + l1;
        let l2 = label_len(s, q);
        lemma_label_sound(s, i + 1);
        lemma_label_sound(s, q);
        assert(address_at(s, i, l1, l2));
    }
    if exists|i: int, l1: int, l2: int| #[trigger] address_at(s, i, l1, l2) {
        let (i, l1, l2) = choose|i: int, l1: int, l2: int| #[trigger] address_at(s, i, l1, l2);
        let p = i + 1;
        let stop = p + l1;
        let d1 = s.subrange(p, stop);
        let d2 = s.subrange(stop + 1, stop + 1 + l2);
        assert forall|j: int| p <= j < stop implies letter_or_digit(#[trigger] s[j]) || s[j]
            == '-' by {
            assert(s[j] == d1[j - p]);
        }
        assert(s[stop - 1] == d1[l1 - 1]);
        assert(s[p] == d1[0]);
        lemma_label_end_exact(s, p + 1, p + 1, stop);
        assert(label_len(s, p) == l1);
        assert(dot_at(s, stop));
        assert(s[stop + 1] == d2[0]);
        lemma_label_end_at_least(s, stop + 2, stop + 2);
        assert(label_len(s, stop + 1) > 0);
        assert(email_at(s, i));
    }
}

/// `s[at..at + l]` is made of hex digits.
pub open spec fn hex_digits_at(s: Seq<char>, at: int, l: int) -> bool {
    &&& 0 <= at
    &&& at + l <= s.len()
    &&& forall|j: int| at <= j < at + l ==> hex_digit(#[trigger] s[j])
}

/// `s[at..]` begins with `8 - group` groups of one to four hex digits, with a
/// colon between each two.
pub open spec fn colon_groups(s: Seq<char>, at: int, group: int) -> bool
    decreases 8 - group,
{
    if group >= 8 {
        false
    } else {
        exists|l: int|
            1 <= l <= 4 && #[trigger] hex_digits_at(s, at, l) && (group == 7 || (at + l < s.len()
                && s[at + l] == ':' && colon_groups(s, at + l + 1, group + 1)))
    }
}

proof fn lemma_hex_run_facts(s: Seq<char>, at: int, k: int)
    requires
        0 <= at,
        0 <= k <= 4,
        at + k <= s.len(),
        forall|j: int| at <= j < at + k ==> hex_digit(#[trigger] s[j]),
    ensures
        k <= hex_run(s, at, k) <= 4,
        hex_digits_at(s, at, hex_run(s, at, k)),
        hex_run(s, at, k) < 4 ==> !(at + hex_run(s, at, k) < s.len() && hex_digit(
            s[at + hex_run(s, at, k)],
        )),
    decreases 4 - k,
{
    if k < 4 && at + k < s.len() && is_hex(s[at + k]) {
        lemma_hex_run_facts(s, at, k + 1);
    }
}

proof fn lemma_colon_groups(s: Seq<char>, at: int, group: int)
    requires
        0 <= at <= s.len(),
        0 <= group <= 7,
    ensures
        hex_groups_from(s, at, group) <==> colon_groups(s, at, group),
    decreases 8 - group,
{
    lemma_hex_run_facts(s, at, 0);
    let r = hex_run(s, at, 0);
    if hex_groups_from(s, at, group) {
        if group < 7 {
            lemma_colon_groups(s, at + r + 1, group + 1);
        }
        assert(hex_digits_at(s, at, r));
    }
    if colon_groups(s, at, group) {
        let l = choose|l: int|
            1 <= l <= 4 && #[trigger] hex_digits_at(s, at, l) && (group == 7 || (at + l < s.len()
                && s[at + l] == ':' && colon_groups(s, at + l + 1, group + 1)));
        assert(hex_digit(s[at]));
        assert(r >= 1);
        if group < 7 {
            assert(!hex_digit(s[at + l]));
            if r < l {
                assert(hex_digit(s[at + r]));
            }
            if l < r {
                assert(hex_digit(s[at + l]));
            }
            assert(r == l);
            lemma_colon_groups(s, at + l + 1, group + 1);
        }
    }
}

/// A line holds an IPv6 form exactly when it holds `::` or, somewhere, eight
/// groups of one to four hex digits (of either case) with a colon between
/// each two.
pub proof fn law_ipv6_is_eight_groups_or_compressed(s: Seq<char>)
    ensures
        spec_has_ipv6(s) <==> (exists|i: int| #[trigger] double_colon_at(s, i)) || (exists|i: int|
            0 <= i < s.len() && #[trigger] colon_groups(s, i, 0)),
{
    assert forall|i: int| 0 <= i < s.len() implies #[trigger] hex_groups_from(s, i, 0)
        == colon_groups(s, i, 0) by {
        lemma_colon_groups(s, i, 0);
    }
    if exists|i: int| 0 <= i < s.len() && #[trigger] colon_groups(s, i, 0) {
        let i = choose|i: int| 0 <= i < s.len() && #[trigger] colon_groups(s, i, 0);
        assert(hex_groups_from(s, i, 0));
    }
}

} // verus!
