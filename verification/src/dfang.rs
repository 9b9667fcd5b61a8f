//! Defanging: recognising what kind of IOC a line holds and making it
//! unclickable.
use vstd::prelude::*;
use crate::text::{
    chars_of, is_alnum, is_digit, is_hex, replace_chars, replace_spec, string_of, Mode,
};

verus! {

// ---------------------------------------------------------------------------
// IPv4
// ---------------------------------------------------------------------------
pub open spec fn dot_at(s: Seq<char>, i: int) -> bool {
    0 <= i < s.len() && s[i] == '.'
}

pub open spec fn digit_value(c: char) -> int {
    (c as int) - ('0' as int)
}

/// `s[at..at + len]` is an octet: all digits and, when three wide, at most 255.
pub open spec fn octet_at(s: Seq<char>, at: int, len: int) -> bool {
    &&& 0 <= at
    &&& at + len <= s.len()
    &&& forall|j: int| at <= j < at + len ==> #[trigger] is_digit(s[j])
    &&& len == 3 ==> 100 * digit_value(s[at]) + 10 * digit_value(s[at + 1]) + digit_value(
        s[at + 2],
    ) <= 255
}

/// `s[at..]` begins with `4 - octets` octets of one to three digits, separated
/// by dots (`octets` of the four having been read already).
pub open spec fn quad_from(s: Seq<char>, at: int, octets: int) -> bool
    decreases 3 - octets,
{
    if octets >= 3 {
        octet_at(s, at, 3) || octet_at(s, at, 2) || octet_at(s, at, 1)
    } else {
        ||| octet_at(s, at, 3) && dot_at(s, at + 3) && quad_from(s, at + 4, octets + 1)
        ||| octet_at(s, at, 2) && dot_at(s, at + 2) && quad_from(s, at + 3, octets + 1)
        ||| octet_at(s, at, 1) && dot_at(s, at + 1) && quad_from(s, at + 2, octets + 1)
    }
}

/// Some position of `s` starts four dot-separated octets.
pub open spec fn spec_has_ipv4(s: Seq<char>) -> bool {
    exists|i: int| 0 <= i < s.len() && #[trigger] quad_from(s, i, 0)
}

fn is_digit_char(c: char) -> (b: bool)
    ensures
        b == is_digit(c),
{
    '0' <= c && c <= '9'
}

/// Whether `s[at..at + len]` is an octet.
pub fn is_octet(s: &Vec<char>, at: usize, len: usize) -> (b: bool)
    requires
        at <= s.len(),
        1 <= len <= 3,
    ensures
        b == octet_at(s@, at as int, len as int),
{
    if s.len() - at < len {
        return false;
    }
    for k in 0..len
        invariant
            at + len <= s.len(),
            forall|j: int| at <= j < at + k ==> #[trigger] is_digit(s@[j]),
    {
        if !is_digit_char(s[at + k]) {
            return false;
        }
    }
    if len < 3 {
        return true;
    }
    assert(is_digit(s@[at as int]) && is_digit(s@[at + 1]) && is_digit(s@[at + 2]));
    let value = ((s[at] as u32) - 48) * 100 + ((s[at + 1] as u32) - 48) * 10 + ((s[at + 2] as u32)
        - 48);
    value <= 255
}

/// Whether `s[at..]` begins with the octets still to read after `octets` of them.
/// Longest octet first, falling back to shorter ones so a leading digit can be
/// skipped when that is what lines the separator up.
pub fn ipv4_at(s: &Vec<char>, at: usize, octets: usize) -> (b: bool)
    requires
        at <= s.len(),
        octets <= 3,
    ensures
        b == quad_from(s@, at as int, octets as int),
    decreases 3 - octets,
{
    let mut len: usize = 4;
    while len > 1
        invariant
            1 <= len <= 4,
            at <= s.len(),
            octets <= 3,
            forall|l: int|
                len <= l <= 3 ==> !(#[trigger] octet_at(s@, at as int, l) && (octets >= 3 || (
                dot_at(s@, at + l) && quad_from(s@, at + l + 1, octets + 1)))),
        decreases len,
    {
        len = len - 1;
        if is_octet(s, at, len) {
            if octets == 3 {
                return true;
            }
            if at + len < s.len() && s[at + len] == '.' && ipv4_at(s, at + len + 1, octets + 1) {
                return true;
            }
        }
    }
    false
}

/// True if any substring parses as four dot-separated octets.
pub fn has_ipv4(input: &str) -> (b: bool)
    ensures
        b == spec_has_ipv4(input@),
{
    let s = chars_of(input);
    for i in 0..s.len()
        invariant
            s@ == input@,
            forall|j: int| 0 <= j < i ==> !#[trigger] quad_from(s@, j, 0),
    {
        if ipv4_at(&s, i, 0) {
            return true;
        }
    }
    false
}

// ---------------------------------------------------------------------------
// IPv6
// ---------------------------------------------------------------------------
pub open spec fn double_colon_at(s: Seq<char>, i: int) -> bool {
    0 <= i && i + 1 < s.len() && s[i] == ':' && s[i + 1] == ':'
}

/// How many of `s[at + k..]`, up to `s[at + 3]`, are hex digits in a row.
pub open spec fn hex_run(s: Seq<char>, at: int, k: int) -> int
    decreases 4 - k,
{
    if 0 <= k < 4 && 0 <= at + k < s.len() && is_hex(s[at + k]) {
        hex_run(s, at, k + 1)
    } else {
        k
    }
}

/// `s[at..]` begins with `8 - group` groups of one to four hex digits,
/// separated by colons, each group taking as many digits as it can.
pub open spec fn hex_groups_from(s: Seq<char>, at: int, group: int) -> bool
    decreases 8 - group,
{
    let l = hex_run(s, at, 0);
    if l == 0 {
        false
    } else if group >= 7 {
        true
    } else {
        at + l < s.len() && s[at + l] == ':' && hex_groups_from(s, at + l + 1, group + 1)
    }
}

/// A `::` run, or eight uncompressed hex groups, somewhere in `s`.
pub open spec fn spec_has_ipv6(s: Seq<char>) -> bool {
    ||| exists|i: int| #[trigger] double_colon_at(s, i)
    ||| exists|i: int| 0 <= i < s.len() && #[trigger] hex_groups_from(s, i, 0)
}

fn is_hex_char(c: char) -> (b: bool)
    ensures
        b == is_hex(c),
{
    ('0' <= c && c <= '9') || ('a' <= c && c <= 'f') || ('A' <= c && c <= 'F')
}

/// Number of hex digits, at most four, that `s[at..]` begins with.
pub fn hex_group_len(s: &Vec<char>, at: usize) -> (n: usize)
    requires
        at <= s.len(),
    ensures
        n == hex_run(s@, at as int, 0),
        at + n <= s.len(),
{
    let mut k: usize = 0;
    while k < 4 && at + k < s.len() && is_hex_char(s[at + k])
        invariant
            at <= s.len(),
            k <= 4,
            at + k <= s.len(),
            hex_run(s@, at as int, 0) == hex_run(s@, at as int, k as int),
        decreases 4 - k,
    {
        k = k + 1;
    }
    k
}

/// Whether `s[at..]` begins with eight colon-separated hex groups.
pub fn eight_hex_groups_at(s: &Vec<char>, at: usize) -> (b: bool)
    requires
        at <= s.len(),
    ensures
        b == hex_groups_from(s@, at as int, 0),
{
    let mut i = at;
    let mut group: usize = 0;
    loop
        invariant
            i <= s.len(),
            group <= 7,
            hex_groups_from(s@, at as int, 0) == hex_groups_from(s@, i as int, group as int),
        decreases 7 - group,
    {
        let len = hex_group_len(s, i);
        if len == 0 {
            return false;
        }
        if group == 7 {
            return true;
        }
        i = i + len;
        if i >= s.len() || s[i] != ':' {
            return false;
        }
        i = i + 1;
        group = group + 1;
    }
}

/// True if the input looks like an IPv6 address: a `::` run or eight
/// uncompressed hex groups.
pub fn has_ipv6(input: &str) -> (b: bool)
    ensures
        b == spec_has_ipv6(input@),
{
    let s = chars_of(input);
    let n = s.len();
    let mut i: usize = 0;
    while i < n && n - i > 1
        invariant
            s@ == input@,
            n == s.len(),
            i <= n,
            forall|j: int| 0 <= j < i ==> !#[trigger] double_colon_at(s@, j),
        decreases n - i,
    {
        if s[i] == ':' && s[i + 1] == ':' {
            assert(double_colon_at(s@, i as int));
            return true;
        }
        i = i + 1;
    }
    assert forall|j: int| #[trigger] double_colon_at(s@, j) implies false by {
        if j >= i {
        }
    }
    for i in 0..n
        invariant
            s@ == input@,
            n == s@.len(),
            !exists|j: int| #[trigger] double_colon_at(s@, j),
            forall|j: int| 0 <= j < i ==> !#[trigger] hex_groups_from(s@, j, 0),
    {
        if eight_hex_groups_at(&s, i) {
            return true;
        }
    }
    false
}

// ---------------------------------------------------------------------------
// Email
// ---------------------------------------------------------------------------
/// The symbols besides letters and digits that may end the local part.
pub open spec fn local_part_symbol(c: char) -> bool {
    ||| c == '!'
    ||| c == '#'
    ||| c == '$'
    ||| c == '%'
    ||| c == '&'
    ||| c == '\''
    ||| c == '*'
    ||| c == '+'
    ||| c == '/'
    ||| c == '='
    ||| c == '?'
    ||| c == '^'
    ||| c == '_'
    ||| c == '{'
    ||| c == '|'
    ||| c == '.'
    ||| c == '}'
    ||| c == '~'
    ||| c == '-'
}

/// Scanning a label from `i`, having last seen a letter or digit just before
/// `end`: where the label ends.
pub open spec fn label_end(s: Seq<char>, i: int, end: int) -> int
    decreases s.len() - i,
{
    if i < 0 || i >= s.len() {
        end
    } else if is_alnum(s[i]) {
        label_end(s, i + 1, i + 1)
    } else if s[i] == '-' {
        label_end(s, i + 1, end)
    } else {
        end
    }
}

/// Length of a leading `[a-z0-9]([a-z0-9-]*[a-z0-9])?` label of `s[at..]`
/// (letters of either case), 0 if there is none.
pub open spec fn label_len(s: Seq<char>, at: int) -> int {
    if 0 <= at < s.len() && is_alnum(s[at]) {
        label_end(s, at + 1, at + 1) - at
    } else {
        0
    }
}

/// `s[at..]` begins with a label, a dot and another label.
pub open spec fn dotted_domain_at(s: Seq<char>, at: int) -> bool {
    let l = label_len(s, at);
    &&& l > 0
    &&& dot_at(s, at + l)
    &&& label_len(s, at + l + 1) > 0
}

/// `s[i]` is an `@` between a local part and a dotted domain.
pub open spec fn email_at(s: Seq<char>, i: int) -> bool {
    &&& 0 < i < s.len()
    &&& s[i] == '@'
    &&& (is_alnum(s[i - 1]) || local_part_symbol(s[i - 1]))
    &&& dotted_domain_at(s, i + 1)
}

pub open spec fn spec_has_email(s: Seq<char>) -> bool {
    exists|i: int| #[trigger] email_at(s, i)
}

fn is_alnum_char(c: char) -> (b: bool)
    ensures
        b == is_alnum(c),
{
    ('0' <= c && c <= '9') || ('A' <= c && c <= 'Z') || ('a' <= c && c <= 'z')
}

fn is_local_part_symbol(c: char) -> (b: bool)
    ensures
        b == local_part_symbol(c),
{
    match c {
        '!' | '#' | '$' | '%' | '&' | '\'' | '*' | '+' | '/' | '=' | '?' | '^' | '_' | '{' | '|'
        | '.' | '}' | '~' | '-' => true,
        _ => false,
    }
}

/// Length of a leading label of `s[at..]`, 0 if there isn't one.
pub fn domain_label_len(s: &Vec<char>, at: usize) -> (n: usize)
    requires
        at <= s.len(),
    ensures
        n == label_len(s@, at as int),
        at + n <= s.len(),
{
    if at >= s.len() || !is_alnum_char(s[at]) {
        return 0;
    }
    let mut end = at + 1;
    let mut i = at + 1;
    while i < s.len() && (is_alnum_char(s[i]) || s[i] == '-')
        invariant
            at < end <= i <= s.len(),
            label_end(s@, at + 1, at + 1) == label_end(s@, i as int, end as int),
        decreases s@.len() - i,
    {
        if is_alnum_char(s[i]) {
            end = i + 1;
        }
        i = i + 1;
    }
    end - at
}

/// Whether `s[at..]` begins with `label.label`.
pub fn is_dotted_domain(s: &Vec<char>, at: usize) -> (b: bool)
    requires
        at <= s.len(),
    ensures
        b == dotted_domain_at(s@, at as int),
{
    let first = domain_label_len(s, at);
    if first == 0 {
        return false;
    }
    let i = at + first;
    if i >= s.len() || s[i] != '.' {
        return false;
    }
    domain_label_len(s, i + 1) > 0
}

/// True if the input contains `local@domain.tld`.
pub fn has_email(input: &str) -> (b: bool)
    ensures
        b == spec_has_email(input@),
{
    let s = chars_of(input);
    for i in 0..s.len()
        invariant
            s@ == input@,
            forall|j: int| 0 <= j < i ==> !#[trigger] email_at(s@, j),
    {
        if s[i] == '@' && i > 0 && (is_alnum_char(s[i - 1]) || is_local_part_symbol(s[i - 1]))
            && is_dotted_domain(&s, i + 1) {
            assert(email_at(s@, i as int));
            return true;
        }
    }
    false
}

// ---------------------------------------------------------------------------
// Defanging
// ---------------------------------------------------------------------------
/// A kind of IOC, for when a single kind is to decide how a whole line is
/// treated (as `defangify` does).
#[derive(PartialEq, Eq, Structural, Clone, Copy, Debug)]
pub enum IocKind {
    Ipv4,
    Ipv6,
    Email,
    Url,
}

pub open spec fn kind_of(ipv4: bool, ipv6: bool, email: bool) -> IocKind {
    if ipv4 {
        IocKind::Ipv4
    } else if ipv6 {
        IocKind::Ipv6
    } else if email {
        IocKind::Email
    } else {
        IocKind::Url
    }
}

/// The first kind found wins, in the order IPv4, IPv6, email; a line with
/// none of them is taken for a URL.
pub fn ioc_kind(ipv4: bool, ipv6: bool, email: bool) -> (k: IocKind)
    ensures
        k == kind_of(ipv4, ipv6, email),
{
    if ipv4 {
        IocKind::Ipv4
    } else if ipv6 {
        IocKind::Ipv6
    } else if email {
        IocKind::Email
    } else {
        IocKind::Url
    }
}

pub open spec fn bracket_dots(s: Seq<char>) -> Seq<char> {
    replace_spec(s, seq!['.'], seq!['[', '.', ']'], Mode::Exact)
}

pub open spec fn bracket_colons(s: Seq<char>) -> Seq<char> {
    replace_spec(s, seq![':'], seq!['[', ':', ']'], Mode::Exact)
}

pub open spec fn bracket_ats(s: Seq<char>) -> Seq<char> {
    replace_spec(s, seq!['@'], seq!['[', '@', ']'], Mode::Exact)
}

/// Every `http`, in any case, becomes `hxxp`, each letter in the case of the
/// one it replaces (`HTTP` gives `HXXP`).
pub open spec fn break_schemes(s: Seq<char>) -> Seq<char> {
    replace_spec(s, seq!['h', 't', 't', 'p'], seq!['h', 'x', 'x', 'p'], Mode::PreserveCase)
}

pub open spec fn bracket_separators(s: Seq<char>) -> Seq<char> {
    replace_spec(s, seq![':', '/', '/'], seq!['[', ':', '/', '/', ']'], Mode::Exact)
}

pub open spec fn defanged_url(s: Seq<char>) -> Seq<char> {
    bracket_separators(break_schemes(bracket_dots(s)))
}

pub open spec fn defanged_email(s: Seq<char>) -> Seq<char> {
    bracket_ats(bracket_dots(s))
}

/// Every IOC of the line defanged: colons bracketed when the line holds an
/// IPv6 form, then every dot bracketed, at signs bracketed when it holds an
/// email address, every `http` broken and every `://` bracketed.
pub open spec fn spec_defang(s: Seq<char>) -> Seq<char> {
    let colons = if spec_has_ipv6(s) {
        bracket_colons(s)
    } else {
        s
    };
    let dots = bracket_dots(colons);
    let ats = if spec_has_email(s) {
        bracket_ats(dots)
    } else {
        dots
    };
    bracket_separators(break_schemes(ats))
}

fn bracket_dots_in(s: &Vec<char>) -> (r: Vec<char>)
    ensures
        r@ == bracket_dots(s@),
{
    let needle = vec!['.'];
    let to = vec!['[', '.', ']'];
    assert(needle@ =~= seq!['.'] && to@ =~= seq!['[', '.', ']']);
    replace_chars(s, &needle, &to, Mode::Exact)
}

fn bracket_colons_in(s: &Vec<char>) -> (r: Vec<char>)
    ensures
        r@ == bracket_colons(s@),
{
    let needle = vec![':'];
    let to = vec!['[', ':', ']'];
    assert(needle@ =~= seq![':'] && to@ =~= seq!['[', ':', ']']);
    replace_chars(s, &needle, &to, Mode::Exact)
}

fn bracket_ats_in(s: &Vec<char>) -> (r: Vec<char>)
    ensures
        r@ == bracket_ats(s@),
{
    let needle = vec!['@'];
    let to = vec!['[', '@', ']'];
    assert(needle@ =~= seq!['@'] && to@ =~= seq!['[', '@', ']']);
    replace_chars(s, &needle, &to, Mode::Exact)
}

fn break_schemes_in(s: &Vec<char>) -> (r: Vec<char>)
    ensures
        r@ == break_schemes(s@),
{
    let scheme = vec!['h', 't', 't', 'p'];
    let broken = vec!['h', 'x', 'x', 'p'];
    assert(scheme@ =~= seq!['h', 't', 't', 'p'] && broken@ =~= seq!['h', 'x', 'x', 'p']);
    replace_chars(s, &scheme, &broken, Mode::PreserveCase)
}

fn bracket_separators_in(s: &Vec<char>) -> (r: Vec<char>)
    ensures
        r@ == bracket_separators(s@),
{
    let sep = vec![':', '/', '/'];
    let bracketed = vec!['[', ':', '/', '/', ']'];
    assert(sep@ =~= seq![':', '/', '/'] && bracketed@ =~= seq!['[', ':', '/', '/', ']']);
    replace_chars(s, &sep, &bracketed, Mode::Exact)
}

/// Makes every `.` into `[.]`, every `http` into `hxxp` (in the case it
/// arrived in) and every `://` into `[://]`.
pub fn defang_url(input: &str) -> (r: String)
    ensures
        r@ == defanged_url(input@),
{
    let s = chars_of(input);
    let s = bracket_dots_in(&s);
    let s = break_schemes_in(&s);
    string_of(&bracket_separators_in(&s))
}

/// Makes every `.` into `[.]`.
pub fn defang_ipv4(input: &str) -> (r: String)
    ensures
        r@ == bracket_dots(input@),
{
    let s = chars_of(input);
    string_of(&bracket_dots_in(&s))
}

/// Makes every `:` into `[:]`.
pub fn defang_ipv6(input: &str) -> (r: String)
    ensures
        r@ == bracket_colons(input@),
{
    let s = chars_of(input);
    string_of(&bracket_colons_in(&s))
}

/// Makes every `.` into `[.]` and every `@` into `[@]`.
pub fn defang_email(input: &str) -> (r: String)
    ensures
        r@ == defanged_email(input@),
{
    let s = chars_of(input);
    let s = bracket_dots_in(&s);
    string_of(&bracket_ats_in(&s))
}

/// Makes every IOC of a line unclickable. Colons are bracketed only when the
/// line holds an IPv6 form, and at signs only when it holds an email address;
/// dots, `http` (kept in its case, `HTTP` giving `HXXP`) and `://` always.
/// Colons go first, so on a line holding an IPv6 form a `://` reads `[:]//`.
pub fn defang(input: &str) -> (r: String)
    ensures
        r@ == spec_defang(input@),
{
    let ipv6 = has_ipv6(input);
    let email = has_email(input);
    let s = chars_of(input);
    let s = if ipv6 {
        bracket_colons_in(&s)
    } else {
        s
    };
    let s = bracket_dots_in(&s);
    let s = if email {
        bracket_ats_in(&s)
    } else {
        s
    };
    let s = break_schemes_in(&s);
    string_of(&bracket_separators_in(&s))
}

/// Non-overlapping, leftmost replacement of an ASCII `needle`, ignoring case.
pub fn replace_ignore_ascii_case(haystack: &str, needle: &str, to: &str) -> (r: String)
    requires
        needle@.len() > 0,
        vstd::utf8::is_ascii_chars(needle@),
    ensures
        r@ == replace_spec(haystack@, needle@, to@, Mode::IgnoreCase),
{
    let h = chars_of(haystack);
    let n = chars_of(needle);
    let t = chars_of(to);
    string_of(&replace_chars(&h, &n, &t, Mode::IgnoreCase))
}

} // verus!
