//! Facts about `replace_spec` that the laws are proved from.
use vstd::prelude::*;
use crate::text::{
    is_lower, is_upper, keep_case, recase, recase_all, to_lower, to_upper, bracketed, free_of, occurs_at, replace_spec, same_char, unwrap, window_matches, wrap, written, Mode,
};

verus! {

/// One step of the scan: an occurrence at the front is replaced, otherwise the
/// first character is kept.
pub proof fn lemma_unfold(s: Seq<char>, needle: Seq<char>, to: Seq<char>, mode: Mode)
    requires
        needle.len() > 0,
        s.len() > 0,
    ensures
        replace_spec(s, needle, to, mode) == if occurs_at(s, needle, mode, 0) {
            written(s.take(needle.len() as int), to, mode) + replace_spec(
                s.skip(needle.len() as int),
                needle,
                to,
                mode,
            )
        } else {
            seq![s[0]] + replace_spec(s.drop_first(), needle, to, mode)
        },
{
    let n = needle.len() as int;
    if s.len() < n {
        assert(s =~= seq![s[0]] + s.drop_first());
    } else {
        assert(s.subrange(0, n) =~= s.take(n));
    }
}

/// Characters at which no occurrence starts pass through unchanged.
pub proof fn lemma_prefix_free(p: Seq<char>, y: Seq<char>, needle: Seq<char>, to: Seq<char>, mode: Mode)
    requires
        needle.len() > 0,
        forall|i: int| 0 <= i < p.len() ==> !#[trigger] occurs_at(p + y, needle, mode, i),
    ensures
        replace_spec(p + y, needle, to, mode) == p + replace_spec(y, needle, to, mode),
    decreases p.len(),
{
    let n = needle.len() as int;
    if p.len() == 0 {
        assert(p + y =~= y);
    } else {
        let s = p + y;
        assert(!occurs_at(s, needle, mode, 0));
        lemma_unfold(s, needle, to, mode);
        let p1 = p.drop_first();
        assert(s.drop_first() =~= p1 + y);
        assert forall|i: int| 0 <= i < p1.len() implies !#[trigger] occurs_at(
            p1 + y,
            needle,
            mode,
            i,
        ) by {
            assert(!occurs_at(s, needle, mode, i + 1));
            if i + n <= (p1 + y).len() {
                assert(s.subrange(i + 1, i + 1 + n) =~= (p1 + y).subrange(i, i + n));
            }
        }
        lemma_prefix_free(p1, y, needle, to, mode);
        assert(seq![p[0]] + (p1 + replace_spec(y, needle, to, mode)) =~= p + replace_spec(
            y,
            needle,
            to,
            mode,
        ));
    }
}

/// A text in which the needle does not occur is left as it is.
pub proof fn lemma_free_identity(s: Seq<char>, needle: Seq<char>, to: Seq<char>, mode: Mode)
    requires
        needle.len() > 0,
        free_of(s, needle, mode),
    ensures
        replace_spec(s, needle, to, mode) == s,
{
    let e = Seq::<char>::empty();
    assert(s + e =~= s);
    lemma_prefix_free(s, e, needle, to, mode);
    assert(replace_spec(e, needle, to, mode) == e);
}

/// Occurrences in a suffix are occurrences in the whole, shifted.
pub proof fn lemma_free_suffix(s: Seq<char>, k: int, needle: Seq<char>, mode: Mode)
    requires
        0 <= k <= s.len(),
        free_of(s, needle, mode),
    ensures
        free_of(s.skip(k), needle, mode),
{
    let n = needle.len() as int;
    assert forall|i: int| !#[trigger] occurs_at(s.skip(k), needle, mode, i) by {
        assert(!occurs_at(s, needle, mode, i + k));
        if 0 <= i && i + n <= s.skip(k).len() {
            assert(s.subrange(i + k, i + k + n) =~= s.skip(k).subrange(i, i + n));
        }
    }
}

/// A text is free of the needle when no occurrence starts in its prefix `p`
/// and the rest is free of it.
pub proof fn lemma_free_concat(p: Seq<char>, y: Seq<char>, needle: Seq<char>, mode: Mode)
    requires
        free_of(y, needle, mode),
        forall|i: int| 0 <= i < p.len() ==> !#[trigger] occurs_at(p + y, needle, mode, i),
    ensures
        free_of(p + y, needle, mode),
{
    let n = needle.len() as int;
    assert forall|i: int| !#[trigger] occurs_at(p + y, needle, mode, i) by {
        if i >= p.len() {
            assert(!occurs_at(y, needle, mode, i - p.len()));
            if i + n <= (p + y).len() {
                assert((p + y).subrange(i, i + n) =~= y.subrange(i - p.len(), i - p.len() + n));
            }
        }
    }
}

/// Replacing a single character distributes over concatenation.
pub proof fn lemma_single_distributes(p: Seq<char>, q: Seq<char>, c: char, to: Seq<char>)
    ensures
        replace_spec(p + q, seq![c], to, Mode::Exact) == replace_spec(p, seq![c], to, Mode::Exact)
            + replace_spec(q, seq![c], to, Mode::Exact),
    decreases p.len(),
{
    let n = seq![c];
    if p.len() == 0 {
        assert(p + q =~= q);
        assert(replace_spec(p, n, to, Mode::Exact) == p);
    } else {
        let s = p + q;
        lemma_unfold(s, n, to, Mode::Exact);
        lemma_unfold(p, n, to, Mode::Exact);
        assert(s.subrange(0, 1) =~= seq![p[0]]);
        assert(p.subrange(0, 1) =~= seq![p[0]]);
        assert(occurs_at(s, n, Mode::Exact, 0) == (p[0] == c)) by {
            if p[0] == c {
                assert(same_char(s.subrange(0, 1)[0], n[0], Mode::Exact));
            } else {
                assert(!same_char(s.subrange(0, 1)[0], n[0], Mode::Exact));
            }
        }
        assert(occurs_at(p, n, Mode::Exact, 0) == (p[0] == c)) by {
            if p[0] == c {
                assert(same_char(p.subrange(0, 1)[0], n[0], Mode::Exact));
            } else {
                assert(!same_char(p.subrange(0, 1)[0], n[0], Mode::Exact));
            }
        }
        assert(s.skip(1) =~= p.skip(1) + q);
        assert(s.drop_first() =~= p.drop_first() + q);
        assert(p.skip(1) =~= p.drop_first());
        lemma_single_distributes(p.drop_first(), q, c, to);
        if p[0] == c {
            assert(written(s.take(1), to, Mode::Exact) == to);
            assert(written(p.take(1), to, Mode::Exact) == to);
        }
    }
}

/// Bracketing, one character at a time.
pub proof fn lemma_wrap_cons(z: Seq<char>, c: char)
    requires
        z.len() > 0,
    ensures
        wrap(z, c) == (if z[0] == c {
            bracketed(c)
        } else {
            seq![z[0]]
        }) + wrap(z.drop_first(), c),
{
    let head = seq![z[0]];
    assert(z =~= head + z.drop_first());
    lemma_single_distributes(head, z.drop_first(), c, bracketed(c));
    lemma_unfold(head, seq![c], bracketed(c), Mode::Exact);
    assert(head.subrange(0, 1) =~= head);
    if z[0] == c {
        assert(same_char(head.subrange(0, 1)[0], seq![c][0], Mode::Exact));
        assert(head.skip(1) =~= Seq::<char>::empty());
        assert(head.take(1) =~= head);
    } else {
        assert(!same_char(head.subrange(0, 1)[0], seq![c][0], Mode::Exact));
        assert(head.drop_first() =~= Seq::<char>::empty());
    }
}

/// Bracketing never leaves `c` in front.
pub proof fn lemma_wrap_head(z: Seq<char>, c: char)
    requires
        z.len() > 0,
        c != '[',
    ensures
        wrap(z, c).len() > 0,
        wrap(z, c)[0] != c,
        wrap(z, c)[0] == (if z[0] == c {
            '['
        } else {
            z[0]
        }),
{
    lemma_wrap_cons(z, c);
}

/// Up to the first `c` that bracketing writes, the bracketed text is the text
/// itself; if that first `c` falls just outside the prefix, its `[` ends it.
pub proof fn lemma_wrap_prefix(z: Seq<char>, c: char, k: int)
    requires
        c != '[',
        0 <= k <= wrap(z, c).len(),
        forall|i: int| 0 <= i < k ==> wrap(z, c)[i] != c,
    ensures
        (k <= z.len() && wrap(z, c).take(k) == z.take(k)) || (1 <= k <= z.len() && z[k - 1] == c
            && wrap(z, c)[k - 1] == '[' && wrap(z, c).take(k - 1) == z.take(k - 1)),
    decreases k,
{
    let w = wrap(z, c);
    if k == 0 {
        assert(w.take(0) =~= z.take(0));
    } else {
        if z.len() == 0 {
            assert(w == z);
        } else {
            lemma_wrap_cons(z, c);
            let w1 = wrap(z.drop_first(), c);
            if z[0] == c {
                if k >= 2 {
                    assert(w[1] == c);
                }
                assert(w.take(0) =~= z.take(0));
            } else {
                assert forall|i: int| 0 <= i < k - 1 implies w1[i] != c by {
                    assert(w[i + 1] == w1[i]);
                }
                lemma_wrap_prefix(z.drop_first(), c, k - 1);
                if k - 1 <= z.drop_first().len() && w1.take(k - 1) == z.drop_first().take(k - 1) {
                    assert(w.take(k) =~= seq![z[0]] + w1.take(k - 1));
                    assert(z.take(k) =~= seq![z[0]] + z.drop_first().take(k - 1));
                } else {
                    assert(w.take(k - 1) =~= seq![z[0]] + w1.take(k - 2));
                    assert(z.take(k - 1) =~= seq![z[0]] + z.drop_first().take(k - 2));
                }
            }
        }
    }
}

/// Unbracketing undoes bracketing, whatever the text held before.
pub proof fn lemma_unwrap_wrap(x: Seq<char>, c: char)
    requires
        c != '[',
    ensures
        unwrap(wrap(x, c), c) == x,
    decreases x.len(),
{
    let b = bracketed(c);
    if x.len() == 0 {
        assert(wrap(x, c) == x);
        assert(unwrap(x, c) == x);
    } else {
        lemma_wrap_cons(x, c);
        let r = x.drop_first();
        let w1 = wrap(r, c);
        lemma_unwrap_wrap(r, c);
        if x[0] == c {
            let s = b + w1;
            lemma_unfold(s, b, seq![c], Mode::Exact);
            assert(s.subrange(0, 3) =~= b);
            assert(same_char(s.subrange(0, 3)[0], b[0], Mode::Exact));
            assert(same_char(s.subrange(0, 3)[1], b[1], Mode::Exact));
            assert(same_char(s.subrange(0, 3)[2], b[2], Mode::Exact));
            assert(occurs_at(s, b, Mode::Exact, 0));
            assert(s.skip(3) =~= w1);
            assert(s.take(3) =~= b);
            assert(x =~= seq![c] + r);
        } else {
            let s = seq![x[0]] + w1;
            if r.len() > 0 {
                lemma_wrap_head(r, c);
                if occurs_at(s, b, Mode::Exact, 0) {
                    assert(same_char(s.subrange(0, 3)[1], b[1], Mode::Exact));
                }
            } else {
                assert(w1 == r);
            }
            assert(!occurs_at(s, b, Mode::Exact, 0));
            assert forall|i: int| 0 <= i < 1 implies !#[trigger] occurs_at(
                seq![x[0]] + w1,
                b,
                Mode::Exact,
                i,
            ) by {}
            lemma_prefix_free(seq![x[0]], w1, b, seq![c], Mode::Exact);
            assert(x =~= seq![x[0]] + r);
        }
    }
}

/// What bracketing `c` cannot create in front of a text: an occurrence of a
/// needle with no `c` in it and no `[` at its end.
pub open spec fn wrap_safe_needle(c: char, needle: Seq<char>, mode: Mode) -> bool {
    &&& c != '['
    &&& c != ']'
    &&& needle.len() >= 1
    &&& forall|k: int| 0 <= k < needle.len() ==> !#[trigger] same_char(c, needle[k], mode)
    &&& !same_char('[', needle[needle.len() - 1], mode)
    &&& !same_char(']', needle[0], mode)
}

/// Bracketing the rest of a text does not make an occurrence at its front.
pub proof fn lemma_wrap_front(x: Seq<char>, c: char, needle: Seq<char>, mode: Mode)
    requires
        x.len() > 0,
        x[0] != c,
        wrap_safe_needle(c, needle, mode),
        !occurs_at(x, needle, mode, 0),
    ensures
        !occurs_at(seq![x[0]] + wrap(x.drop_first(), c), needle, mode, 0),
{
    let r = x.drop_first();
    let w = wrap(r, c);
    let s = seq![x[0]] + w;
    let m = needle.len() as int;
    if occurs_at(s, needle, mode, 0) {
        let win = s.subrange(0, m);
        if m == 1 {
            assert(x.subrange(0, 1) =~= win);
            assert(occurs_at(x, needle, mode, 0));
        } else {
            assert forall|i: int| 0 <= i < m - 1 implies w[i] != c by {
                assert(same_char(win[i + 1], needle[i + 1], mode));
                assert(win[i + 1] == w[i]);
                if w[i] == c {
                    assert(same_char(c, needle[i + 1], mode));
                }
            }
            lemma_wrap_prefix(r, c, m - 1);
            if m - 1 <= r.len() && w.take(m - 1) == r.take(m - 1) {
                assert(x.subrange(0, m) =~= seq![x[0]] + r.take(m - 1));
                assert(win =~= seq![x[0]] + w.take(m - 1));
                assert(occurs_at(x, needle, mode, 0));
            } else {
                assert(win[m - 1] == w[m - 2]);
                assert(same_char(win[m - 1], needle[m - 1], mode));
            }
        }
    }
}

/// The occurrences in `[c]` followed by anything, for a needle without `c`.
proof fn lemma_bracketed_front(y: Seq<char>, c: char, needle: Seq<char>, mode: Mode)
    requires
        wrap_safe_needle(c, needle, mode),
    ensures
        forall|i: int| 0 <= i < 3 ==> !#[trigger] occurs_at(bracketed(c) + y, needle, mode, i),
{
    let s = bracketed(c) + y;
    let m = needle.len() as int;
    assert forall|i: int| 0 <= i < 3 implies !#[trigger] occurs_at(s, needle, mode, i) by {
        if occurs_at(s, needle, mode, i) {
            let win = s.subrange(i, i + m);
            if i == 0 {
                if m >= 2 {
                    assert(same_char(win[1], needle[1], mode));
                    assert(win[1] == c);
                } else {
                    assert(same_char(win[0], needle[0], mode));
                    assert(win[0] == '[');
                }
            } else if i == 1 {
                assert(same_char(win[0], needle[0], mode));
                assert(win[0] == c);
            } else {
                assert(same_char(win[0], needle[0], mode));
                assert(win[0] == ']');
            }
        }
    }
}

/// Bracketing `c` keeps a text free of a needle that holds no `c`.
pub proof fn lemma_wrap_keeps_free(x: Seq<char>, c: char, needle: Seq<char>, mode: Mode)
    requires
        wrap_safe_needle(c, needle, mode),
        free_of(x, needle, mode),
    ensures
        free_of(wrap(x, c), needle, mode),
    decreases x.len(),
{
    if x.len() == 0 {
        assert(wrap(x, c) == x);
    } else {
        lemma_wrap_cons(x, c);
        let r = x.drop_first();
        lemma_free_suffix(x, 1, needle, mode);
        assert(x.skip(1) =~= r);
        lemma_wrap_keeps_free(r, c, needle, mode);
        if x[0] == c {
            lemma_bracketed_front(wrap(r, c), c, needle, mode);
            lemma_free_concat(bracketed(c), wrap(r, c), needle, mode);
        } else {
            assert(!occurs_at(x, needle, mode, 0));
            lemma_wrap_front(x, c, needle, mode);
            lemma_free_concat(seq![x[0]], wrap(r, c), needle, mode);
        }
    }
}

/// Bracketing `c` and replacing a needle that holds no `c` by a text that holds
/// no `c`, in either case, can be done in either order.
pub proof fn lemma_wrap_commutes(x: Seq<char>, c: char, needle: Seq<char>, to: Seq<char>, mode: Mode)
    requires
        wrap_safe_needle(c, needle, mode),
        forall|k: int| 0 <= k < to.len() ==> to[k] != c && to_upper(to[k]) != c,
    ensures
        replace_spec(wrap(x, c), needle, to, mode) == wrap(replace_spec(x, needle, to, mode), c),
    decreases x.len(),
{
    let m = needle.len() as int;
    if x.len() == 0 {
        assert(wrap(x, c) == x);
        assert(replace_spec(x, needle, to, mode) == x);
    } else if occurs_at(x, needle, mode, 0) {
        lemma_unfold(x, needle, to, mode);
        let head = x.take(m);
        let rest = x.skip(m);
        let wr = written(head, to, mode);
        assert(wr.len() == to.len());
        // the occurrence holds no `c`, and neither does what is written for it
        assert forall|i: int| !#[trigger] occurs_at(head, seq![c], Mode::Exact, i) by {
            if occurs_at(head, seq![c], Mode::Exact, i) {
                assert(same_char(head.subrange(i, i + 1)[0], seq![c][0], Mode::Exact));
                assert(same_char(x.subrange(0, m)[i], needle[i], mode));
                assert(x.subrange(0, m)[i] == head[i]);
            }
        }
        assert forall|i: int| !#[trigger] occurs_at(wr, seq![c], Mode::Exact, i) by {
            if occurs_at(wr, seq![c], Mode::Exact, i) {
                assert(same_char(wr.subrange(i, i + 1)[0], seq![c][0], Mode::Exact));
                assert(wr.subrange(i, i + 1)[0] == wr[i]);
                assert(wr[i] == to[i] || wr[i] == to_upper(to[i]));
            }
        }
        lemma_free_identity(head, seq![c], bracketed(c), Mode::Exact);
        lemma_free_identity(wr, seq![c], bracketed(c), Mode::Exact);
        assert(x =~= head + rest);
        lemma_single_distributes(head, rest, c, bracketed(c));
        lemma_single_distributes(wr, replace_spec(rest, needle, to, mode), c, bracketed(c));
        let wx = wrap(x, c);
        assert(wx == head + wrap(rest, c));
        lemma_unfold(wx, needle, to, mode);
        assert(wx.subrange(0, m) =~= x.subrange(0, m));
        assert(wx.take(m) =~= head);
        assert(wx.skip(m) =~= wrap(rest, c));
        lemma_wrap_commutes(rest, c, needle, to, mode);
    } else {
        lemma_wrap_cons(x, c);
        lemma_unfold(x, needle, to, mode);
        let r = x.drop_first();
        let rr = replace_spec(r, needle, to, mode);
        lemma_wrap_cons(seq![x[0]] + rr, c);
        assert((seq![x[0]] + rr).drop_first() =~= rr);
        lemma_wrap_commutes(r, c, needle, to, mode);
        if x[0] == c {
            lemma_bracketed_front(wrap(r, c), c, needle, mode);
            lemma_prefix_free(bracketed(c), wrap(r, c), needle, to, mode);
        } else {
            lemma_wrap_front(x, c, needle, mode);
            lemma_prefix_free(seq![x[0]], wrap(r, c), needle, to, mode);
        }
    }
}

/// Up to the first character that a replacement writes, the result is the
/// text itself.
pub proof fn lemma_front_kept(s: Seq<char>, needle: Seq<char>, to: Seq<char>, mode: Mode, k: int)
    requires
        needle.len() > 0,
        to.len() > 0,
        0 <= k <= replace_spec(s, needle, to, mode).len(),
        forall|i: int|
            0 <= i < k ==> #[trigger] replace_spec(s, needle, to, mode)[i] != to[0]
                && replace_spec(s, needle, to, mode)[i] != to_upper(to[0]),
    ensures
        k <= s.len(),
        replace_spec(s, needle, to, mode).take(k) == s.take(k),
    decreases k,
{
    let r = replace_spec(s, needle, to, mode);
    if k == 0 {
        assert(r.take(0) =~= s.take(0));
    } else {
        if s.len() == 0 {
            assert(r == s);
        } else {
            lemma_unfold(s, needle, to, mode);
            if occurs_at(s, needle, mode, 0) {
                let w = written(s.take(needle.len() as int), to, mode);
                assert(r[0] == w[0]);
                assert(r[0] != to[0]);
            } else {
                let r1 = replace_spec(s.drop_first(), needle, to, mode);
                assert(r =~= seq![s[0]] + r1);
                assert forall|i: int| 0 <= i < k - 1 implies #[trigger] r1[i] != to[0] && r1[i]
                    != to_upper(to[0]) by {
                    assert(r[i + 1] == r1[i]);
                }
                lemma_front_kept(s.drop_first(), needle, to, mode, k - 1);
                assert(r.take(k) =~= seq![s[0]] + r1.take(k - 1));
                assert(s.take(k) =~= seq![s[0]] + s.drop_first().take(k - 1));
            }
        }
    }
}

pub open spec fn separator() -> Seq<char> {
    seq![':', '/', '/']
}

pub open spec fn bracketed_separator() -> Seq<char> {
    seq!['[', ':', '/', '/', ']']
}

pub open spec fn scheme() -> Seq<char> {
    seq!['h', 't', 't', 'p']
}

pub open spec fn broken_scheme() -> Seq<char> {
    seq!['h', 'x', 'x', 'p']
}

/// Bracketing `://` never leaves one in front.
pub proof fn lemma_bracketed_separators_front(z: Seq<char>)
    ensures
        !occurs_at(replace_spec(z, separator(), bracketed_separator(), Mode::Exact), separator(), Mode::Exact, 0),
    decreases z.len(),
{
    let n = separator();
    let t = bracketed_separator();
    let b = replace_spec(z, n, t, Mode::Exact);
    if z.len() > 0 {
        lemma_unfold(z, n, t, Mode::Exact);
        if occurs_at(b, n, Mode::Exact, 0) {
            assert(same_char(b.subrange(0, 3)[0], n[0], Mode::Exact));
            assert(same_char(b.subrange(0, 3)[1], n[1], Mode::Exact));
            assert(same_char(b.subrange(0, 3)[2], n[2], Mode::Exact));
            if occurs_at(z, n, Mode::Exact, 0) {
                assert(b[0] == '[');
            } else {
                let z1 = z.drop_first();
                let b1 = replace_spec(z1, n, t, Mode::Exact);
                assert(b =~= seq![z[0]] + b1);
                lemma_front_kept(z1, n, t, Mode::Exact, 2);
                assert(b1.take(2)[0] == z1[0] && b1.take(2)[1] == z1[1]);
                assert(z.subrange(0, 3) =~= b.subrange(0, 3));
                assert(occurs_at(z, n, Mode::Exact, 0));
            }
        }
    }
}

/// Unbracketing `[://]` undoes bracketing `://`.
pub proof fn lemma_unwrap_wrap_separators(x: Seq<char>)
    ensures
        replace_spec(
            replace_spec(x, separator(), bracketed_separator(), Mode::Exact),
            bracketed_separator(),
            separator(),
            Mode::Exact,
        ) == x,
    decreases x.len(),
{
    let n = separator();
    let t = bracketed_separator();
    if x.len() == 0 {
        assert(replace_spec(x, n, t, Mode::Exact) == x);
        assert(replace_spec(x, t, n, Mode::Exact) == x);
    } else if occurs_at(x, n, Mode::Exact, 0) {
        lemma_unfold(x, n, t, Mode::Exact);
        let rest = x.skip(3);
        let b = replace_spec(rest, n, t, Mode::Exact);
        let s = t + b;
        lemma_unfold(s, t, n, Mode::Exact);
        assert(s.subrange(0, 5) =~= t);
        assert forall|k: int| 0 <= k < 5 implies #[trigger] same_char(
            s.subrange(0, 5)[k],
            t[k],
            Mode::Exact,
        ) by {}
        assert(occurs_at(s, t, Mode::Exact, 0));
        assert(s.skip(5) =~= b);
        assert(s.take(5) =~= t);
        lemma_unwrap_wrap_separators(rest);
        assert(x.take(3) =~= x.subrange(0, 3));
        assert forall|k: int| 0 <= k < 3 implies x[k] == n[k] by {
            assert(same_char(x.subrange(0, 3)[k], n[k], Mode::Exact));
        }
        assert(x =~= n + rest);
    } else {
        lemma_unfold(x, n, t, Mode::Exact);
        let r = x.drop_first();
        let b = replace_spec(r, n, t, Mode::Exact);
        let s = seq![x[0]] + b;
        lemma_bracketed_separators_front(r);
        assert forall|i: int| 0 <= i < 1 implies !#[trigger] occurs_at(s, t, Mode::Exact, i) by {
            if occurs_at(s, t, Mode::Exact, 0) {
                assert forall|k: int| 0 <= k < 3 implies #[trigger] same_char(
                    b.subrange(0, 3)[k],
                    n[k],
                    Mode::Exact,
                ) by {
                    assert(same_char(s.subrange(0, 5)[k + 1], t[k + 1], Mode::Exact));
                }
                assert(occurs_at(b, n, Mode::Exact, 0));
            }
        }
        lemma_prefix_free(seq![x[0]], b, t, n, Mode::Exact);
        lemma_unwrap_wrap_separators(r);
        assert(x =~= seq![x[0]] + r);
    }
}

/// Writing a lower-case letter in the case of `a`, and then writing `a`'s own
/// lower-case form in the case of the result, gives `a` back.
pub proof fn lemma_keep_case_twice(a: char, lower_a: char, to: char)
    requires
        'a' <= lower_a <= 'z',
        'a' <= to <= 'z',
        to_lower(a) == lower_a,
    ensures
        to_lower(keep_case(a, to)) == to,
        keep_case(keep_case(a, to), lower_a) == a,
{
}

/// Mending the schemes that breaking them wrote gives back the text, when it
/// held no `hxxp`.
pub proof fn lemma_mend_break(x: Seq<char>)
    requires
        free_of(x, broken_scheme(), Mode::IgnoreCase),
    ensures
        replace_spec(
            replace_spec(x, scheme(), broken_scheme(), Mode::PreserveCase),
            broken_scheme(),
            scheme(),
            Mode::PreserveCase,
        ) == x,
    decreases x.len(),
{
    let h = scheme();
    let b = broken_scheme();
    let mm = Mode::PreserveCase;
    if x.len() == 0 {
        assert(replace_spec(x, h, b, mm) == x);
        assert(replace_spec(x, b, h, mm) == x);
    } else if occurs_at(x, h, mm, 0) {
        lemma_unfold(x, h, b, mm);
        let head = x.take(4);
        let rest = x.skip(4);
        assert(head =~= x.subrange(0, 4));
        let wr = written(head, b, mm);
        let y = replace_spec(rest, h, b, mm);
        let s = wr + y;
        assert forall|k: int| 0 <= k < 4 implies to_lower(#[trigger] wr[k]) == b[k] && keep_case(
            wr[k],
            h[k],
        ) == head[k] by {
            assert(same_char(x.subrange(0, 4)[k], h[k], mm));
            lemma_keep_case_twice(head[k], h[k], b[k]);
        }
        lemma_unfold(s, b, h, mm);
        assert(s.subrange(0, 4) =~= wr);
        assert forall|k: int| 0 <= k < 4 implies #[trigger] same_char(
            s.subrange(0, 4)[k],
            b[k],
            mm,
        ) by {
            assert(to_lower(wr[k]) == b[k]);
            assert(to_lower(b[k]) == b[k]);
        }
        assert(occurs_at(s, b, mm, 0));
        assert(s.take(4) =~= wr);
        assert(s.skip(4) =~= y);
        assert(written(wr, h, mm) =~= head);
        lemma_free_suffix(x, 4, b, Mode::IgnoreCase);
        lemma_mend_break(rest);
        assert(x =~= head + rest);
    } else {
        lemma_unfold(x, h, b, mm);
        let r = x.drop_first();
        let y = replace_spec(r, h, b, mm);
        let s = seq![x[0]] + y;
        assert forall|i: int| 0 <= i < 1 implies !#[trigger] occurs_at(s, b, mm, i) by {
            if occurs_at(s, b, mm, 0) {
                let win = s.subrange(0, 4);
                assert forall|k: int| 0 <= k < 3 implies #[trigger] y[k] != b[0] && y[k] != to_upper(
                    b[0],
                ) by {
                    assert(same_char(win[k + 1], b[k + 1], mm));
                    assert(win[k + 1] == y[k]);
                }
                lemma_front_kept(r, h, b, mm, 3);
                assert(x.subrange(0, 4) =~= seq![x[0]] + r.take(3));
                assert(win =~= seq![x[0]] + y.take(3));
                assert forall|k: int| 0 <= k < 4 implies #[trigger] same_char(
                    x.subrange(0, 4)[k],
                    b[k],
                    Mode::IgnoreCase,
                ) by {
                    assert(same_char(win[k], b[k], mm));
                }
                assert(occurs_at(x, b, Mode::IgnoreCase, 0));
            }
        }
        lemma_prefix_free(seq![x[0]], y, b, h, mm);
        lemma_free_suffix(x, 1, b, Mode::IgnoreCase);
        assert(x.skip(1) =~= r);
        lemma_mend_break(r);
        assert(x =~= seq![x[0]] + r);
    }
}

/// Mending schemes and bracketing `://` can be done in either order.
pub proof fn lemma_mend_commutes_with_separators(z: Seq<char>)
    ensures
        replace_spec(
            replace_spec(z, separator(), bracketed_separator(), Mode::Exact),
            broken_scheme(),
            scheme(),
            Mode::PreserveCase,
        ) == replace_spec(
            replace_spec(z, broken_scheme(), scheme(), Mode::PreserveCase),
            separator(),
            bracketed_separator(),
            Mode::Exact,
        ),
    decreases z.len(),
{
    let sep = separator();
    let bsep = bracketed_separator();
    let h = scheme();
    let b = broken_scheme();
    let mm = Mode::PreserveCase;
    let ex = Mode::Exact;
    if z.len() == 0 {
        assert(replace_spec(z, sep, bsep, ex) == z);
        assert(replace_spec(z, b, h, mm) == z);
    } else if occurs_at(z, sep, ex, 0) {
        let rest = z.skip(3);
        assert forall|k: int| 0 <= k < 3 implies z[k] == sep[k] by {
            assert(same_char(z.subrange(0, 3)[k], sep[k], ex));
        }
        assert(z =~= sep + rest);
        // bracketing first
        lemma_unfold(z, sep, bsep, ex);
        assert(z.take(3) =~= sep);
        let y = replace_spec(rest, sep, bsep, ex);
        assert forall|i: int| 0 <= i < 5 implies !#[trigger] occurs_at(bsep + y, b, mm, i) by {
            if occurs_at(bsep + y, b, mm, i) {
                assert(same_char((bsep + y).subrange(i, i + 4)[0], b[0], mm));
            }
        }
        lemma_prefix_free(bsep, y, b, h, mm);
        // mending first
        assert forall|i: int| 0 <= i < 3 implies !#[trigger] occurs_at(sep + rest, b, mm, i) by {
            if occurs_at(sep + rest, b, mm, i) {
                assert(same_char((sep + rest).subrange(i, i + 4)[0], b[0], mm));
            }
        }
        lemma_prefix_free(sep, rest, b, h, mm);
        let m = replace_spec(rest, b, h, mm);
        let s = sep + m;
        lemma_unfold(s, sep, bsep, ex);
        assert(s.subrange(0, 3) =~= sep);
        assert forall|k: int| 0 <= k < 3 implies #[trigger] same_char(s.subrange(0, 3)[k], sep[k], ex) by {}
        assert(occurs_at(s, sep, ex, 0));
        assert(s.take(3) =~= sep);
        assert(s.skip(3) =~= m);
        lemma_mend_commutes_with_separators(rest);
    } else if occurs_at(z, b, mm, 0) {
        let rest = z.skip(4);
        let head = z.take(4);
        assert(z =~= head + rest);
        assert(head =~= z.subrange(0, 4));
        let k4 = written(head, h, mm);
        // the occurrence and what is written for it are letters
        assert forall|k: int| 0 <= k < 4 implies head[k] != ':' by {
            assert(same_char(z.subrange(0, 4)[k], b[k], mm));
        }
        assert forall|i: int| 0 <= i < 4 implies !#[trigger] occurs_at(head + rest, sep, ex, i) by {
            if occurs_at(head + rest, sep, ex, i) {
                assert(same_char((head + rest).subrange(i, i + 3)[0], sep[0], ex));
            }
        }
        lemma_prefix_free(head, rest, sep, bsep, ex);
        let y = replace_spec(rest, sep, bsep, ex);
        let s1 = head + y;
        lemma_unfold(s1, b, h, mm);
        assert(s1.subrange(0, 4) =~= head);
        assert(occurs_at(s1, b, mm, 0));
        assert(s1.take(4) =~= head);
        assert(s1.skip(4) =~= y);
        // mending first
        lemma_unfold(z, b, h, mm);
        let m = replace_spec(rest, b, h, mm);
        assert(k4.len() == 4);
        assert forall|i: int| 0 <= i < 4 implies !#[trigger] occurs_at(k4 + m, sep, ex, i) by {
            if occurs_at(k4 + m, sep, ex, i) {
                assert(same_char((k4 + m).subrange(i, i + 3)[0], sep[0], ex));
                assert((k4 + m)[i] == k4[i]);
            }
        }
        lemma_prefix_free(k4, m, sep, bsep, ex);
        lemma_mend_commutes_with_separators(rest);
    } else {
        let z1 = z.drop_first();
        assert(z =~= seq![z[0]] + z1);
        lemma_unfold(z, sep, bsep, ex);
        lemma_unfold(z, b, h, mm);
        let y = replace_spec(z1, sep, bsep, ex);
        let m = replace_spec(z1, b, h, mm);
        // no broken scheme in front of the bracketed rest
        assert forall|i: int| 0 <= i < 1 implies !#[trigger] occurs_at(seq![z[0]] + y, b, mm, i) by {
            let s = seq![z[0]] + y;
            if occurs_at(s, b, mm, 0) {
                let win = s.subrange(0, 4);
                assert forall|k: int| 0 <= k < 3 implies #[trigger] y[k] != bsep[0] && y[k]
                    != to_upper(bsep[0]) by {
                    assert(same_char(win[k + 1], b[k + 1], mm));
                    assert(win[k + 1] == y[k]);
                }
                lemma_front_kept(z1, sep, bsep, ex, 3);
                assert(z.subrange(0, 4) =~= seq![z[0]] + z1.take(3));
                assert(win =~= seq![z[0]] + y.take(3));
                assert forall|k: int| 0 <= k < 4 implies #[trigger] same_char(
                    z.subrange(0, 4)[k],
                    b[k],
                    mm,
                ) by {
                    assert(same_char(win[k], b[k], mm));
                }
                assert(occurs_at(z, b, mm, 0));
            }
        }
        lemma_prefix_free(seq![z[0]], y, b, h, mm);
        // no separator in front of the mended rest
        assert forall|i: int| 0 <= i < 1 implies !#[trigger] occurs_at(seq![z[0]] + m, sep, ex, i) by {
            let s = seq![z[0]] + m;
            if occurs_at(s, sep, ex, 0) {
                let win = s.subrange(0, 3);
                assert forall|k: int| 0 <= k < 2 implies #[trigger] m[k] != h[0] && m[k] != to_upper(
                    h[0],
                ) by {
                    assert(same_char(win[k + 1], sep[k + 1], ex));
                    assert(win[k + 1] == m[k]);
                }
                lemma_front_kept(z1, b, h, mm, 2);
                assert(z.subrange(0, 3) =~= seq![z[0]] + z1.take(2));
                assert(win =~= seq![z[0]] + m.take(2));
                assert forall|k: int| 0 <= k < 3 implies #[trigger] same_char(
                    z.subrange(0, 3)[k],
                    sep[k],
                    ex,
                ) by {
                    assert(same_char(win[k], sep[k], ex));
                }
                assert(occurs_at(z, sep, ex, 0));
            }
        }
        lemma_prefix_free(seq![z[0]], m, sep, bsep, ex);
        lemma_mend_commutes_with_separators(z1);
    }
}

/// Matching ignores case the same way whether or not case is kept in writing.
pub proof fn lemma_free_ignoring_case(s: Seq<char>, needle: Seq<char>)
    requires
        free_of(s, needle, Mode::IgnoreCase),
    ensures
        free_of(s, needle, Mode::PreserveCase),
{
    assert forall|i: int| !#[trigger] occurs_at(s, needle, Mode::PreserveCase, i) by {
        if occurs_at(s, needle, Mode::PreserveCase, i) {
            let w = s.subrange(i, i + needle.len());
            assert forall|k: int| 0 <= k < w.len() implies #[trigger] same_char(
                w[k],
                needle[k],
                Mode::IgnoreCase,
            ) by {
                assert(same_char(w[k], needle[k], Mode::PreserveCase));
            }
            assert(occurs_at(s, needle, Mode::IgnoreCase, i));
        }
    }
}

/// What ASCII upper- and lower-casing do to one character.
pub proof fn lemma_recase_char(a: char, upper: bool)
    ensures
        (is_upper(a) || is_lower(a)) == (is_upper(recase(a, upper)) || is_lower(recase(a, upper))),
        !(is_upper(a) || is_lower(a)) ==> recase(a, upper) == a,
        to_lower(recase(a, upper)) == to_lower(a),
        upper && (is_upper(a) || is_lower(a)) ==> is_upper(recase(a, upper)),
        !upper ==> !is_upper(recase(a, upper)),
{
}

/// The replacements of refanging commute with ASCII upper- and lower-casing:
/// exact ones because neither side holds a letter, case-keeping ones because
/// they match ignoring case and write in the case they found.
pub proof fn lemma_replace_recase(
    s: Seq<char>,
    needle: Seq<char>,
    to: Seq<char>,
    mode: Mode,
    upper: bool,
)
    requires
        needle.len() > 0,
        (mode == Mode::Exact && (forall|k: int|
            0 <= k < needle.len() ==> !is_upper(#[trigger] needle[k]) && !is_lower(needle[k])) && (
        forall|k: int| 0 <= k < to.len() ==> !is_upper(#[trigger] to[k]) && !is_lower(to[k])))
            || (mode == Mode::PreserveCase && to.len() == needle.len() && (forall|k: int|
            0 <= k < needle.len() ==> is_lower(#[trigger] needle[k])) && (forall|k: int|
            0 <= k < to.len() ==> is_lower(#[trigger] to[k]))),
    ensures
        replace_spec(recase_all(s, upper), needle, to, mode) == recase_all(
            replace_spec(s, needle, to, mode),
            upper,
        ),
    decreases s.len(),
{
    let m = needle.len() as int;
    let f = recase_all(s, upper);
    if s.len() == 0 {
        assert(f =~= s);
        assert(replace_spec(s, needle, to, mode) == s);
    } else {
        lemma_unfold(s, needle, to, mode);
        lemma_unfold(f, needle, to, mode);
        if s.len() >= m {
            let w = s.subrange(0, m);
            let fw = f.subrange(0, m);
            assert(fw =~= recase_all(w, upper));
            assert forall|k: int| 0 <= k < m implies #[trigger] same_char(fw[k], needle[k], mode)
                == same_char(w[k], needle[k], mode) by {
                lemma_recase_char(w[k], upper);
            }
            assert(occurs_at(f, needle, mode, 0) == occurs_at(s, needle, mode, 0)) by {
                if occurs_at(s, needle, mode, 0) {
                    assert forall|k: int| 0 <= k < m implies #[trigger] same_char(
                        fw[k],
                        needle[k],
                        mode,
                    ) by {
                        assert(same_char(w[k], needle[k], mode));
                    }
                }
                if occurs_at(f, needle, mode, 0) {
                    assert forall|k: int| 0 <= k < m implies #[trigger] same_char(
                        w[k],
                        needle[k],
                        mode,
                    ) by {
                        assert(same_char(fw[k], needle[k], mode));
                    }
                }
            }
            if occurs_at(s, needle, mode, 0) {
                let head = s.take(m);
                let rest = s.skip(m);
                assert(f.take(m) =~= recase_all(head, upper));
                assert(f.skip(m) =~= recase_all(rest, upper));
                let wr = written(head, to, mode);
                let fwr = written(recase_all(head, upper), to, mode);
                assert(fwr =~= recase_all(wr, upper)) by {
                    assert forall|k: int| 0 <= k < to.len() implies #[trigger] fwr[k] == recase(
                        wr[k],
                        upper,
                    ) by {
                        lemma_recase_char(to[k], upper);
                        if mode == Mode::PreserveCase {
                            assert(same_char(w[k], needle[k], mode));
                            assert(head[k] == w[k]);
                            lemma_recase_char(head[k], upper);
                            lemma_recase_char(to_upper(to[k]), upper);
                        }
                    }
                }
                lemma_replace_recase(rest, needle, to, mode, upper);
                assert(recase_all(wr + replace_spec(rest, needle, to, mode), upper) =~= recase_all(
                    wr,
                    upper,
                ) + recase_all(replace_spec(rest, needle, to, mode), upper));
            } else {
                assert(f.drop_first() =~= recase_all(s.drop_first(), upper));
                lemma_replace_recase(s.drop_first(), needle, to, mode, upper);
                assert(recase_all(seq![s[0]] + replace_spec(s.drop_first(), needle, to, mode), upper)
                    =~= seq![f[0]] + recase_all(replace_spec(s.drop_first(), needle, to, mode), upper));
            }
        } else {
            assert(f.drop_first() =~= recase_all(s.drop_first(), upper));
            lemma_replace_recase(s.drop_first(), needle, to, mode, upper);
            assert(recase_all(seq![s[0]] + replace_spec(s.drop_first(), needle, to, mode), upper)
                =~= seq![f[0]] + recase_all(replace_spec(s.drop_first(), needle, to, mode), upper));
        }
    }
}

} // verus!
