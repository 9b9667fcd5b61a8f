//! Characters, ASCII classes and the leftmost, non-overlapping replacement
//! that both directions of the transformation are built from.
use vstd::prelude::*;

verus! {

broadcast use vstd::string::group_string_axioms;

pub open spec fn is_upper(c: char) -> bool {
    'A' <= c <= 'Z'
}

pub open spec fn is_lower(c: char) -> bool {
    'a' <= c <= 'z'
}

pub open spec fn is_digit(c: char) -> bool {
    '0' <= c <= '9'
}

pub open spec fn is_alnum(c: char) -> bool {
    is_digit(c) || is_upper(c) || is_lower(c)
}

pub open spec fn is_hex(c: char) -> bool {
    is_digit(c) || ('a' <= c <= 'f') || ('A' <= c <= 'F')
}

/// ASCII lower-casing: only `A`..`Z` change.
pub open spec fn to_lower(c: char) -> char {
    if is_upper(c) {
        ((c as u32) + 32) as char
    } else {
        c
    }
}

/// ASCII upper-casing: only `a`..`z` change.
pub open spec fn to_upper(c: char) -> char {
    if is_lower(c) {
        ((c as u32) - 32) as char
    } else {
        c
    }
}

/// `c` upper-cased, or lower-cased, the ASCII way.
pub open spec fn recase(c: char, upper: bool) -> char {
    if upper {
        to_upper(c)
    } else {
        to_lower(c)
    }
}

/// Every character of `s` upper-cased, or lower-cased, the ASCII way.
pub open spec fn recase_all(s: Seq<char>, upper: bool) -> Seq<char> {
    s.map_values(|c: char| recase(c, upper))
}

/// How a window of the text is compared with the needle, and what is
/// written in its place.
#[derive(PartialEq, Eq, Structural, Clone, Copy)]
pub enum Mode {
    /// Characters must be equal; the replacement is written as given.
    Exact,
    /// ASCII letters match regardless of case; the replacement is written as given.
    IgnoreCase,
    /// ASCII letters match regardless of case; each written character takes
    /// the case of the character it replaces.
    PreserveCase,
}

pub open spec fn same_char(a: char, b: char, mode: Mode) -> bool {
    match mode {
        Mode::Exact => a == b,
        _ => to_lower(a) == to_lower(b),
    }
}

/// `w` is an occurrence of `needle` under `mode`.
pub open spec fn window_matches(w: Seq<char>, needle: Seq<char>, mode: Mode) -> bool {
    &&& w.len() == needle.len()
    &&& forall|k: int| 0 <= k < w.len() ==> #[trigger] same_char(w[k], needle[k], mode)
}

/// `to`, upper-cased where `from` is an upper-case letter.
pub open spec fn keep_case(from: char, to: char) -> char {
    if is_upper(from) {
        to_upper(to)
    } else {
        to
    }
}

/// What is written in place of the occurrence `w`.
pub open spec fn written(w: Seq<char>, to: Seq<char>, mode: Mode) -> Seq<char> {
    match mode {
        Mode::PreserveCase => Seq::new(to.len(), |k: int| keep_case(w[k], to[k])),
        _ => to,
    }
}

/// Leftmost, non-overlapping replacement of every occurrence of `needle` in
/// `s` by `to`.
pub open spec fn replace_spec(s: Seq<char>, needle: Seq<char>, to: Seq<char>, mode: Mode) -> Seq<
    char,
>
    decreases s.len(),
{
    if needle.len() == 0 || s.len() < needle.len() {
        s
    } else if window_matches(s.take(needle.len() as int), needle, mode) {
        written(s.take(needle.len() as int), to, mode) + replace_spec(
            s.skip(needle.len() as int),
            needle,
            to,
            mode,
        )
    } else {
        seq![s[0]] + replace_spec(s.drop_first(), needle, to, mode)
    }
}

/// `needle` occurs in `s` at `i` under `mode`.
pub open spec fn occurs_at(s: Seq<char>, needle: Seq<char>, mode: Mode, i: int) -> bool {
    &&& 0 <= i
    &&& i + needle.len() <= s.len()
    &&& window_matches(s.subrange(i, i + needle.len()), needle, mode)
}

/// `needle` occurs nowhere in `s` under `mode`.
pub open spec fn free_of(s: Seq<char>, needle: Seq<char>, mode: Mode) -> bool {
    forall|i: int| !#[trigger] occurs_at(s, needle, mode, i)
}

/// `c` between square brackets, as defanging writes it.
pub open spec fn bracketed(c: char) -> Seq<char> {
    seq!['[', c, ']']
}

/// Every `c` in `s` put between square brackets.
pub open spec fn wrap(s: Seq<char>, c: char) -> Seq<char> {
    replace_spec(s, seq![c], bracketed(c), Mode::Exact)
}

/// Every `[c]` in `s` replaced by `c`.
pub open spec fn unwrap(s: Seq<char>, c: char) -> Seq<char> {
    replace_spec(s, bracketed(c), seq![c], Mode::Exact)
}

/// The characters of `s`, in order.
pub fn chars_of(s: &str) -> (v: Vec<char>)
    ensures
        v@ == s@,
{
    let mut v: Vec<char> = Vec::new();
    for c in iter: s.chars()
        invariant
            v@ == iter.history(),
    {
        v.push(c);
    }
    v
}

/// `String::push`: appends one character.
#[verifier::external_body]
fn push_char(s: &mut String, c: char)
    ensures
        final(s)@ == old(s)@.push(c),
{
    s.push(c);
}

/// The string made of the characters of `v`.
pub fn string_of(v: &Vec<char>) -> (s: String)
    ensures
        s@ == v@,
{
    let mut s = String::new();
    for i in 0..v.len()
        invariant
            s@ == v@.take(i as int),
    {
        push_char(&mut s, v[i]);
        assert(v@.take(i + 1) =~= v@.take(i as int).push(v@[i as int]));
    }
    assert(v@.take(v.len() as int) =~= v@);
    s
}

pub fn lower(c: char) -> (r: char)
    ensures
        r == to_lower(c),
{
    if 'A' <= c && c <= 'Z' {
        ((c as u8) + 32) as char
    } else {
        c
    }
}

pub fn upper(c: char) -> (r: char)
    ensures
        r == to_upper(c),
{
    if 'a' <= c && c <= 'z' {
        ((c as u8) - 32) as char
    } else {
        c
    }
}

/// Whether `needle` occurs in `hay` at `at`.
fn matches_at(hay: &Vec<char>, at: usize, needle: &Vec<char>, mode: Mode) -> (b: bool)
    requires
        at + needle@.len() <= hay@.len(),
    ensures
        b == window_matches(hay@.subrange(at as int, at + needle@.len()), needle@, mode),
{
    let n = needle.len();
    let ghost w = hay@.subrange(at as int, at + n);
    for k in 0..n
        invariant
            n == needle@.len(),
            at + n <= hay.len(),
            w == hay@.subrange(at as int, at + n),
            forall|j: int| 0 <= j < k ==> #[trigger] same_char(w[j], needle@[j], mode),
    {
        let a = hay[at + k];
        let b = needle[k];
        let same = match mode {
            Mode::Exact => a == b,
            _ => lower(a) == lower(b),
        };
        if !same {
            assert(!same_char(w[k as int], needle@[k as int], mode));
            return false;
        }
    }
    true
}

/// Leftmost, non-overlapping replacement over characters.
pub fn replace_chars(hay: &Vec<char>, needle: &Vec<char>, to: &Vec<char>, mode: Mode) -> (out: Vec<
    char,
>)
    requires
        needle@.len() > 0,
        mode == Mode::PreserveCase ==> to@.len() == needle@.len(),
    ensures
        out@ == replace_spec(hay@, needle@, to@, mode),
{
    let n = needle.len();
    let len = hay.len();
    let mut out: Vec<char> = Vec::new();
    let mut i: usize = 0;
    assert(hay@.skip(0) =~= hay@);
    while i < len
        invariant
            n == needle@.len() > 0,
            len == hay@.len(),
            i <= len,
            mode == Mode::PreserveCase ==> to@.len() == n,
            out@ + replace_spec(hay@.skip(i as int), needle@, to@, mode) =~= replace_spec(
                hay@,
                needle@,
                to@,
                mode,
            ),
        decreases len - i,
    {
        let ghost s = hay@.skip(i as int);
        let ghost out0 = out@;
        if n <= len - i && matches_at(hay, i, needle, mode) {
            assert(s.take(n as int) =~= hay@.subrange(i as int, i + n));
            assert(s.skip(n as int) =~= hay@.skip(i + n));
            let ghost w = s.take(n as int);
            let m = to.len();
            for k in 0..m
                invariant
                    m == to@.len(),
                    n == needle@.len(),
                    i + n <= len == hay@.len(),
                    w == hay@.subrange(i as int, i + n),
                    mode == Mode::PreserveCase ==> m == n,
                    out@ == out0 + written(w, to@, mode).take(k as int),
            {
                let c = match mode {
                    Mode::PreserveCase => {
                        let from = hay[i + k];
                        if 'A' <= from && from <= 'Z' {
                            upper(to[k])
                        } else {
                            to[k]
                        }
                    },
                    _ => to[k],
                };
                out.push(c);
                assert(written(w, to@, mode).take(k + 1) =~= written(w, to@, mode).take(
                    k as int,
                ).push(c));
            }
            assert(written(w, to@, mode).take(m as int) =~= written(w, to@, mode));
            i = i + n;
        } else {
            if n <= len - i {
                assert(s.take(n as int) =~= hay@.subrange(i as int, i + n));
            }
            assert(s.drop_first() =~= hay@.skip(i + 1));
            out.push(hay[i]);
            i = i + 1;
        }
    }
    assert(hay@.skip(len as int) =~= Seq::<char>::empty());
    out
}

} // verus!
