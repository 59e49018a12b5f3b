//! Character-level string helpers shared by the editor's naming, escaping
//! and parsing rules.

use vstd::prelude::*;
use vstd::string::StrSliceExecFns;

verus! {

// ---------------------------------------------------------------------
// Character classes (as std documents them for `char`).
// ---------------------------------------------------------------------

/// Unicode general category Cc, which is what `char::is_control` tests.
pub open spec fn is_control(c: char) -> bool {
    (c as u32) <= 0x1f || (0x7f <= (c as u32) && (c as u32) <= 0x9f)
}

/// The Unicode `White_Space` property, which is what `char::is_whitespace` tests.
pub open spec fn is_whitespace(c: char) -> bool {
    let u = c as u32;
    (0x09 <= u && u <= 0x0d) || u == 0x20 || u == 0x85 || u == 0xa0 || u == 0x1680 || (0x2000
        <= u && u <= 0x200a) || u == 0x2028 || u == 0x2029 || u == 0x202f || u == 0x205f || u
        == 0x3000
}

pub open spec fn is_ascii_digit(c: char) -> bool {
    '0' <= c && c <= '9'
}

pub open spec fn is_ascii_upper(c: char) -> bool {
    'A' <= c && c <= 'Z'
}

pub open spec fn is_ascii_lower(c: char) -> bool {
    'a' <= c && c <= 'z'
}

pub open spec fn is_ascii_alphanumeric(c: char) -> bool {
    is_ascii_digit(c) || is_ascii_upper(c) || is_ascii_lower(c)
}

/// `char::to_ascii_lowercase`: ASCII capitals map to small letters, all else is kept.
pub open spec fn ascii_lower(c: char) -> char {
    if is_ascii_upper(c) {
        ((c as u32) + 32) as char
    } else {
        c
    }
}

pub fn control_char(c: char) -> (r: bool)
    ensures
        r == is_control(c),
{
    let u = c as u32;
    u <= 0x1f || (0x7f <= u && u <= 0x9f)
}

pub fn whitespace_char(c: char) -> (r: bool)
    ensures
        r == is_whitespace(c),
{
    let u = c as u32;
    (0x09 <= u && u <= 0x0d) || u == 0x20 || u == 0x85 || u == 0xa0 || u == 0x1680 || (0x2000
        <= u && u <= 0x200a) || u == 0x2028 || u == 0x2029 || u == 0x202f || u == 0x205f || u
        == 0x3000
}

pub fn ascii_digit_char(c: char) -> (r: bool)
    ensures
        r == is_ascii_digit(c),
{
    '0' <= c && c <= '9'
}

pub fn ascii_alphanumeric_char(c: char) -> (r: bool)
    ensures
        r == is_ascii_alphanumeric(c),
{
    ('0' <= c && c <= '9') || ('A' <= c && c <= 'Z') || ('a' <= c && c <= 'z')
}

pub fn ascii_lower_char(c: char) -> (r: char)
    ensures
        r == ascii_lower(c),
{
    if 'A' <= c && c <= 'Z' {
        let u = (c as u32) + 32;
        assert(0x61 <= u <= 0x7a);
        char_from_ascii(u)
    } else {
        c
    }
}

/// A small ASCII code as a `char`.
fn char_from_ascii(u: u32) -> (c: char)
    requires
        u < 0x80,
    ensures
        c as u32 == u,
        c == u as char,
{
    let b: u8 = u as u8;
    b as char
}

// ---------------------------------------------------------------------
// Building strings.
// ---------------------------------------------------------------------

/// Appends one character to a `String` (std `String::push`).
/// Trusted: the string afterwards is the old one with `c` at its end.
#[verifier::external_body]
pub(crate) fn push_char(s: &mut String, c: char)
    ensures
        final(s)@ == old(s)@.push(c),
{
    s.push(c);
}

/// Appends all of `t` to `s`.
pub fn push_str(s: &mut String, t: &str)
    ensures
        final(s)@ == old(s)@ + t@,
{
    let cs = chars_of(t);
    push_chars(s, &cs);
}

/// Appends the characters of `v` to `s`.
pub fn push_chars(s: &mut String, v: &Vec<char>)
    ensures
        final(s)@ == old(s)@ + v@,
{
    let ghost start = s@;
    let mut i: usize = 0;
    while i < v.len()
        invariant
            i <= v.len(),
            s@ == start + v@.take(i as int),
        decreases v.len() - i,
    {
        push_char(s, v[i]);
        assert(v@.take(i + 1) == v@.take(i as int).push(v@[i as int]));
        i = i + 1;
    }
    assert(v@.take(v.len() as int) == v@);
}

/// The characters of `s`, in order.
pub fn chars_of(s: &str) -> (v: Vec<char>)
    ensures
        v@ == s@,
{
    let n = s.unicode_len();
    let mut v: Vec<char> = Vec::new();
    let mut i: usize = 0;
    while i < n
        invariant
            i <= n,
            n == s@.len(),
            v@ == s@.take(i as int),
        decreases n - i,
    {
        let c = s.get_char(i);
        v.push(c);
        assert(s@.take(i + 1) == s@.take(i as int).push(c));
        i = i + 1;
    }
    assert(s@.take(n as int) == s@);
    v
}

/// A `String` holding exactly the characters of `v`.
pub fn string_of(v: &Vec<char>) -> (s: String)
    ensures
        s@ == v@,
{
    let mut s = String::new();
    push_chars(&mut s, v);
    s
}

/// A `String` with the same characters as `t`.
pub fn owned(t: &str) -> (s: String)
    ensures
        s@ == t@,
{
    let mut s = String::new();
    push_str(&mut s, t);
    s
}

// ---------------------------------------------------------------------
// Trimming.
// ---------------------------------------------------------------------

/// The sets of characters that the editor trims from names.
#[derive(Clone, Copy, Debug, PartialEq, Eq)]
pub enum TrimSet {
    /// `str::trim`: Unicode white space.
    Whitespace,
    /// Spaces and dots, which Windows strips from folder names.
    SpaceOrDot,
    /// Underscores and dashes at the ends of a Rust package name.
    UnderscoreOrDash,
    /// Commas.
    Comma,
}

pub open spec fn in_trim_set(set: TrimSet, c: char) -> bool {
    match set {
        TrimSet::Whitespace => is_whitespace(c),
        TrimSet::SpaceOrDot => c == ' ' || c == '.',
        TrimSet::UnderscoreOrDash => c == '_' || c == '-',
        TrimSet::Comma => c == ',',
    }
}

pub fn in_trim_set_exec(set: TrimSet, c: char) -> (r: bool)
    ensures
        r == in_trim_set(set, c),
{
    match set {
        TrimSet::Whitespace => whitespace_char(c),
        TrimSet::SpaceOrDot => c == ' ' || c == '.',
        TrimSet::UnderscoreOrDash => c == '_' || c == '-',
        TrimSet::Comma => c == ',',
    }
}

/// Number of leading characters of `s` that lie in `set`.
pub open spec fn leading(s: Seq<char>, set: TrimSet) -> nat
    decreases s.len(),
{
    if s.len() == 0 {
        0
    } else if in_trim_set(set, s[0]) {
        1 + leading(s.drop_first(), set)
    } else {
        0
    }
}

/// Number of trailing characters of `s` that lie in `set`.
pub open spec fn trailing(s: Seq<char>, set: TrimSet) -> nat
    decreases s.len(),
{
    if s.len() == 0 {
        0
    } else if in_trim_set(set, s.last()) {
        1 + trailing(s.drop_last(), set)
    } else {
        0
    }
}

/// `s` without its leading and trailing characters from `set`
/// (`str::trim_matches`).
pub open spec fn trimmed(s: Seq<char>, set: TrimSet) -> Seq<char> {
    if leading(s, set) >= s.len() {
        Seq::empty()
    } else {
        s.subrange(leading(s, set) as int, s.len() - trailing(s, set))
    }
}

pub proof fn lemma_leading(s: Seq<char>, set: TrimSet, i: int)
    requires
        0 <= i <= s.len(),
        forall|j: int| 0 <= j < i ==> in_trim_set(set, #[trigger] s[j]),
        i == s.len() || !in_trim_set(set, s[i]),
    ensures
        leading(s, set) == i,
    decreases i,
{
    if i > 0 {
        assert(in_trim_set(set, s[0]));
        let t = s.drop_first();
        assert forall|j: int| 0 <= j < i - 1 implies in_trim_set(set, #[trigger] t[j]) by {
            assert(t[j] == s[j + 1]);
        }
        if i < s.len() {
            assert(t[i - 1] == s[i]);
        }
        lemma_leading(t, set, i - 1);
    }
}

pub proof fn lemma_trailing(s: Seq<char>, set: TrimSet, k: int)
    requires
        0 <= k <= s.len(),
        forall|j: int| 0 <= j < k ==> in_trim_set(set, #[trigger] s[s.len() - 1 - j]),
        k == s.len() || !in_trim_set(set, s[s.len() - 1 - k]),
    ensures
        trailing(s, set) == k,
    decreases k,
{
    if k > 0 {
        assert(in_trim_set(set, s[s.len() - 1 - 0]));
        let t = s.drop_last();
        assert forall|j: int| 0 <= j < k - 1 implies in_trim_set(set, #[trigger] t[t.len() - 1 - j]) by {
            assert(t[t.len() - 1 - j] == s[s.len() - 1 - (j + 1)]);
        }
        if k < s.len() {
            assert(t[t.len() - 1 - (k - 1)] == s[s.len() - 1 - k]);
        }
        lemma_trailing(t, set, k - 1);
    }
}

/// The leading count stops at the first character outside `set`.
pub proof fn lemma_leading_stops(s: Seq<char>, set: TrimSet)
    ensures
        leading(s, set) <= s.len(),
        forall|j: int| 0 <= j < leading(s, set) ==> in_trim_set(set, #[trigger] s[j]),
        leading(s, set) < s.len() ==> !in_trim_set(set, s[leading(s, set) as int]),
    decreases s.len(),
{
    if s.len() > 0 && in_trim_set(set, s[0]) {
        let t = s.drop_first();
        lemma_leading_stops(t, set);
        assert forall|j: int| 0 <= j < leading(s, set) implies in_trim_set(set, #[trigger] s[j]) by {
            if j > 0 {
                assert(s[j] == t[j - 1]);
            }
        }
        if leading(s, set) < s.len() {
            assert(s[leading(s, set) as int] == t[leading(t, set) as int]);
        }
    }
}

/// The trailing count stops at the last character outside `set`.
pub proof fn lemma_trailing_stops(s: Seq<char>, set: TrimSet)
    ensures
        trailing(s, set) <= s.len(),
        forall|j: int| 0 <= j < trailing(s, set) ==> in_trim_set(set, #[trigger] s[s.len() - 1 - j]),
        trailing(s, set) < s.len() ==> !in_trim_set(set, s[s.len() - 1 - trailing(s, set)]),
    decreases s.len(),
{
    if s.len() > 0 && in_trim_set(set, s.last()) {
        let t = s.drop_last();
        lemma_trailing_stops(t, set);
        assert forall|j: int| 0 <= j < trailing(s, set) implies in_trim_set(set, #[trigger] s[s.len() - 1 - j]) by {
            if j > 0 {
                assert(s[s.len() - 1 - j] == t[t.len() - 1 - (j - 1)]);
            }
        }
        if trailing(s, set) < s.len() {
            assert(s[s.len() - 1 - trailing(s, set)] == t[t.len() - 1 - trailing(t, set)]);
        }
    }
}

/// A trimmed text that is not empty starts and ends outside `set`.
pub proof fn lemma_trimmed_ends(s: Seq<char>, set: TrimSet)
    ensures
        trimmed(s, set).len() > 0 ==> !in_trim_set(set, trimmed(s, set)[0]) && !in_trim_set(
            set,
            trimmed(s, set).last(),
        ),
{
    lemma_leading_stops(s, set);
    lemma_trailing_stops(s, set);
    let a = leading(s, set) as int;
    let b = trailing(s, set) as int;
    if a < s.len() {
        assert(!in_trim_set(set, s[a]));
        if b > s.len() - 1 - a {
            let j = s.len() - 1 - a;
            assert(in_trim_set(set, s[s.len() - 1 - j]));
        }
        assert(b < s.len());
        assert(trimmed(s, set)[0] == s[a]);
        assert(trimmed(s, set).last() == s[s.len() - 1 - b]);
    }
}

/// The trimmed text is a stretch of the text.
pub proof fn lemma_trimmed_within(s: Seq<char>, set: TrimSet)
    ensures
        trimmed(s, set).len() <= s.len(),
        trimmed(s, set).len() > 0 ==> leading(s, set) + trimmed(s, set).len() <= s.len(),
        forall|k: int| 0 <= k < trimmed(s, set).len() ==> #[trigger] trimmed(s, set)[k] == s[leading(s, set) + k],
{
    lemma_leading_stops(s, set);
    lemma_trailing_stops(s, set);
    let a = leading(s, set) as int;
    let b = trailing(s, set) as int;
    if a < s.len() {
        if b > s.len() - 1 - a {
            let j = s.len() - 1 - a;
            assert(in_trim_set(set, s[s.len() - 1 - j]));
        }
    }
}

/// A text that starts and ends outside `set` is its own trimmed text.
pub proof fn lemma_trimmed_fixed(s: Seq<char>, set: TrimSet)
    requires
        s.len() > 0,
        !in_trim_set(set, s[0]),
        !in_trim_set(set, s.last()),
    ensures
        trimmed(s, set) == s,
{
    lemma_leading(s, set, 0);
    lemma_trailing(s, set, 0);
    assert(s.subrange(0, s.len() as int) =~= s);
}

/// The characters of `v` without leading and trailing members of `set`.
pub fn trim_chars(v: &Vec<char>, set: TrimSet) -> (r: Vec<char>)
    ensures
        r@ == trimmed(v@, set),
{
    let n = v.len();
    let mut a: usize = 0;
    while a < n && in_trim_set_exec(set, v[a])
        invariant
            a <= n,
            n == v@.len(),
            forall|j: int| 0 <= j < a ==> in_trim_set(set, #[trigger] v@[j]),
        decreases n - a,
    {
        a = a + 1;
    }
    proof {
        lemma_leading(v@, set, a as int);
    }
    if a == n {
        return Vec::new();
    }
    let mut k: usize = 0;
    while k < n - a - 1 && in_trim_set_exec(set, v[n - 1 - k])
        invariant
            a < n,
            n == v@.len(),
            k <= n - a - 1,
            forall|j: int| 0 <= j < k ==> in_trim_set(set, #[trigger] v@[n - 1 - j]),
        decreases n - a - 1 - k,
    {
        k = k + 1;
    }
    proof {
        if k == n - a - 1 {
            assert(v@[n - 1 - k as int] == v@[a as int]);
        }
        lemma_trailing(v@, set, k as int);
    }
    let mut r: Vec<char> = Vec::new();
    let mut i: usize = a;
    while i < n - k
        invariant
            a <= i <= n - k,
            k <= n - a - 1,
            n == v@.len(),
            r@ == v@.subrange(a as int, i as int),
        decreases n - k - i,
    {
        r.push(v[i]);
        assert(v@.subrange(a as int, i + 1) == v@.subrange(a as int, i as int).push(v@[i as int]));
        i = i + 1;
    }
    r
}

/// `s` without its trailing characters from `set` (`str::trim_end_matches`).
pub open spec fn trimmed_end(s: Seq<char>, set: TrimSet) -> Seq<char> {
    s.take(s.len() - trailing(s, set))
}

pub fn trim_end_chars(v: &Vec<char>, set: TrimSet) -> (r: Vec<char>)
    ensures
        r@ == trimmed_end(v@, set),
{
    let n = v.len();
    let mut k: usize = 0;
    while k < n && in_trim_set_exec(set, v[n - 1 - k])
        invariant
            k <= n,
            n == v@.len(),
            forall|j: int| 0 <= j < k ==> in_trim_set(set, #[trigger] v@[n - 1 - j]),
        decreases n - k,
    {
        k = k + 1;
    }
    proof {
        lemma_trailing(v@, set, k as int);
    }
    chars_between(v, 0, n - k)
}

/// The position of the first `key` in `s` at or after `i`.
pub open spec fn find_from(s: Seq<char>, key: Seq<char>, i: int) -> Option<int>
    decreases s.len() + 1 - i,
{
    if i < 0 || i + key.len() > s.len() {
        None
    } else if occurs_at(s, key, i) {
        Some(i)
    } else {
        find_from(s, key, i + 1)
    }
}

/// The position of the first `key` in `s` (`str::find`).
pub open spec fn find_text(s: Seq<char>, key: Seq<char>) -> Option<int> {
    find_from(s, key, 0)
}

pub fn find_exec(s: &Vec<char>, key: &Vec<char>) -> (r: Option<usize>)
    ensures
        match r {
            Some(i) => find_text(s@, key@) == Some(i as int) && i + key@.len() <= s@.len(),
            None => find_text(s@, key@) is None,
        },
{
    if key.len() > s.len() {
        return None;
    }
    let mut i: usize = 0;
    while i <= s.len() - key.len()
        invariant
            key.len() <= s.len(),
            i <= s.len() - key.len() + 1,
            find_text(s@, key@) == find_from(s@, key@, i as int),
        decreases s.len() - key.len() + 1 - i,
    {
        if matches_at(s, key, i) {
            return Some(i);
        }
        if i == s.len() - key.len() {
            assert(find_from(s@, key@, i + 1) is None);
            return None;
        }
        i = i + 1;
    }
    None
}

/// `s` with every `from` replaced by `to`, scanning from the left
/// (`str::replace` for a non-empty `from`).
pub open spec fn replace_text(s: Seq<char>, from: Seq<char>, to: Seq<char>) -> Seq<char>
    decreases s.len(),
{
    if from.len() == 0 || s.len() == 0 {
        s
    } else if occurs_at(s, from, 0) {
        to + replace_text(s.skip(from.len() as int), from, to)
    } else {
        seq![s[0]] + replace_text(s.skip(1), from, to)
    }
}

pub fn replace_exec(s: &Vec<char>, from: &Vec<char>, to: &Vec<char>) -> (r: Vec<char>)
    requires
        from.len() > 0,
    ensures
        r@ == replace_text(s@, from@, to@),
{
    let mut out: Vec<char> = Vec::new();
    let mut i: usize = 0;
    assert(out@ + replace_text(s@.skip(0), from@, to@) =~= replace_text(s@, from@, to@)) by {
        assert(s@.skip(0) =~= s@);
    }
    while i < s.len()
        invariant
            i <= s.len(),
            from.len() > 0,
            out@ + replace_text(s@.skip(i as int), from@, to@) == replace_text(s@, from@, to@),
        decreases s.len() - i,
    {
        let rest = chars_from(s, i);
        assert(rest@ == s@.skip(i as int));
        if matches_at(&rest, from, 0) {
            let ghost before = out@;
            push_all(&mut out, to);
            assert(s@.skip(i as int).skip(from.len() as int) =~= s@.skip(i + from.len()));
            assert(out@ + replace_text(s@.skip(i + from.len()), from@, to@) =~= before
                + replace_text(s@.skip(i as int), from@, to@));
            i = i + from.len();
        } else {
            let ghost before = out@;
            out.push(s[i]);
            assert(s@.skip(i as int).skip(1) =~= s@.skip(i + 1));
            assert(out@ + replace_text(s@.skip(i + 1), from@, to@) =~= before + replace_text(
                s@.skip(i as int),
                from@,
                to@,
            ));
            i = i + 1;
        }
    }
    assert(out@ =~= out@ + replace_text(s@.skip(i as int), from@, to@));
    out
}

fn push_all(out: &mut Vec<char>, v: &Vec<char>)
    ensures
        final(out)@ == old(out)@ + v@,
{
    let mut i: usize = 0;
    while i < v.len()
        invariant
            i <= v.len(),
            out@ == old(out)@ + v@.take(i as int),
        decreases v.len() - i,
    {
        out.push(v[i]);
        assert(v@.take(i + 1) =~= v@.take(i as int).push(v@[i as int]));
        i = i + 1;
    }
    assert(v@.take(v.len() as int) =~= v@);
}

/// `str::trim`: `s` without leading and trailing white space.
pub fn trim(s: &str) -> (r: String)
    ensures
        r@ == trimmed(s@, TrimSet::Whitespace),
{
    let v = chars_of(s);
    let t = trim_chars(&v, TrimSet::Whitespace);
    string_of(&t)
}

// ---------------------------------------------------------------------
// Comparisons and searches over characters.
// ---------------------------------------------------------------------

pub fn chars_equal(a: &Vec<char>, b: &Vec<char>) -> (r: bool)
    ensures
        r == (a@ == b@),
{
    if a.len() != b.len() {
        return false;
    }
    let mut i: usize = 0;
    while i < a.len()
        invariant
            i <= a.len(),
            a.len() == b.len(),
            forall|j: int| 0 <= j < i ==> a@[j] == b@[j],
        decreases a.len() - i,
    {
        if a[i] != b[i] {
            return false;
        }
        i = i + 1;
    }
    assert(a@ =~= b@);
    true
}

/// Whether `s` and `t` hold the same characters.
pub fn str_equal(s: &str, t: &str) -> (r: bool)
    ensures
        r == (s@ == t@),
{
    let a = chars_of(s);
    let b = chars_of(t);
    chars_equal(&a, &b)
}

/// `p` is a prefix of `s`.
pub open spec fn has_prefix(s: Seq<char>, p: Seq<char>) -> bool {
    p.len() <= s.len() && s.take(p.len() as int) == p
}

/// `p` is a suffix of `s`.
pub open spec fn has_suffix(s: Seq<char>, p: Seq<char>) -> bool {
    p.len() <= s.len() && s.skip(s.len() - p.len()) == p
}

/// `p` occurs in `s` starting at index `i`.
pub open spec fn occurs_at(s: Seq<char>, p: Seq<char>, i: int) -> bool {
    0 <= i && i + p.len() <= s.len() && s.subrange(i, i + p.len()) == p
}

pub fn starts_with(s: &Vec<char>, p: &Vec<char>) -> (r: bool)
    ensures
        r == has_prefix(s@, p@),
{
    matches_at(s, p, 0)
}

pub fn ends_with(s: &Vec<char>, p: &Vec<char>) -> (r: bool)
    ensures
        r == has_suffix(s@, p@),
{
    if p.len() > s.len() {
        return false;
    }
    let r = matches_at(s, p, s.len() - p.len());
    assert(s@.skip(s.len() - p.len()) =~= s@.subrange(s.len() - p.len(), s.len() as int));
    r
}

/// Whether `p` occurs in `s` at index `i`.
pub fn matches_at(s: &Vec<char>, p: &Vec<char>, i: usize) -> (r: bool)
    ensures
        r == occurs_at(s@, p@, i as int),
        i == 0 ==> r == has_prefix(s@, p@),
{
    if p.len() > s.len() || i > s.len() - p.len() {
        return false;
    }
    let mut j: usize = 0;
    while j < p.len()
        invariant
            j <= p.len(),
            i + p.len() <= s.len(),
            forall|k: int| 0 <= k < j ==> s@[i + k] == p@[k],
        decreases p.len() - j,
    {
        if s[i + j] != p[j] {
            assert(s@.subrange(i as int, i + p.len())[j as int] == s@[i + j]);
            return false;
        }
        j = j + 1;
    }
    assert(s@.subrange(i as int, i + p.len()) =~= p@);
    if i == 0 {
        assert(s@.take(p.len() as int) =~= s@.subrange(0, p.len() as int));
    }
    true
}


// ---------------------------------------------------------------------
// Numbers as text.
// ---------------------------------------------------------------------

pub open spec fn decimal_digit(d: nat) -> char {
    ((('0' as u32) + d) as u32) as char
}

/// The decimal digits of `n`, most significant first, without leading zeros.
pub open spec fn decimal(n: nat) -> Seq<char>
    decreases n,
{
    if n < 10 {
        seq![decimal_digit(n)]
    } else {
        decimal(n / 10).push(decimal_digit(n % 10))
    }
}

pub open spec fn hex_lower_digit(d: nat) -> char {
    if d < 10 {
        decimal_digit(d)
    } else {
        ((('a' as u32) + (d - 10)) as u32) as char
    }
}

pub open spec fn hex_upper_digit(d: nat) -> char {
    if d < 10 {
        decimal_digit(d)
    } else {
        ((('A' as u32) + (d - 10)) as u32) as char
    }
}

/// Lower-case hexadecimal digits of `n`, without leading zeros.
pub open spec fn hex_lower(n: nat) -> Seq<char>
    decreases n,
{
    if n < 16 {
        seq![hex_lower_digit(n)]
    } else {
        hex_lower(n / 16).push(hex_lower_digit(n % 16))
    }
}

fn digit_char(d: u32, upper: bool) -> (c: char)
    requires
        d < 16,
    ensures
        upper ==> c == hex_upper_digit(d as nat),
        !upper ==> c == hex_lower_digit(d as nat),
        d < 10 ==> c == decimal_digit(d as nat),
{
    if d < 10 {
        char_from_ascii(0x30 + d)
    } else if upper {
        char_from_ascii(0x41 + d - 10)
    } else {
        char_from_ascii(0x61 + d - 10)
    }
}

/// The lower-case hexadecimal digit for `d`.
pub fn hex_digit(d: u32) -> (c: char)
    requires
        d < 16,
    ensures
        c == hex_lower_digit(d as nat),
{
    digit_char(d, false)
}

/// Appends the decimal form of `n`.
pub fn push_decimal(s: &mut String, n: u64)
    ensures
        final(s)@ == old(s)@ + decimal(n as nat),
    decreases n,
{
    if n >= 10 {
        push_decimal(s, n / 10);
    }
    let c = digit_char((n % 10) as u32, false);
    push_char(s, c);
    proof {
        if n < 10 {
            assert(decimal(n as nat) == seq![decimal_digit(n as nat)]);
        }
    }
}

/// The decimal form of a signed integer: a minus sign before the digits of
/// a negative number.
pub open spec fn signed_decimal(n: int) -> Seq<char> {
    if n < 0 {
        "-"@ + decimal((-n) as nat)
    } else {
        decimal(n as nat)
    }
}

/// Appends the decimal form of `n` (`i64`'s `Display`).
pub fn push_signed_decimal(s: &mut String, n: i64)
    ensures
        final(s)@ == old(s)@ + signed_decimal(n as int),
{
    if n < 0 {
        push_str(s, "-");
        let magnitude: u64 = (0i128 - n as i128) as u64;
        push_decimal(s, magnitude);
        proof {
            reveal_strlit("-");
            assert(s@ =~= old(s)@ + signed_decimal(n as int));
        }
    } else {
        push_decimal(s, n as u64);
    }
}

/// Appends the lower-case hexadecimal form of `n`.
pub fn push_hex_lower(s: &mut String, n: u32)
    ensures
        final(s)@ == old(s)@ + hex_lower(n as nat),
    decreases n,
{
    if n >= 16 {
        push_hex_lower(s, n / 16);
    }
    let c = digit_char(n % 16, false);
    push_char(s, c);
    proof {
        if n < 16 {
            assert(hex_lower(n as nat) == seq![hex_lower_digit(n as nat)]);
        }
    }
}

/// Appends exactly four upper-case hexadecimal digits of `n`.
pub fn push_hex4_upper(s: &mut String, n: u32)
    requires
        n < 0x10000,
    ensures
        final(s)@ == old(s)@ + seq![
            hex_upper_digit(((n / 4096) % 16) as nat),
            hex_upper_digit(((n / 256) % 16) as nat),
            hex_upper_digit(((n / 16) % 16) as nat),
            hex_upper_digit((n % 16) as nat),
        ],
{
    let a = digit_char((n / 4096) % 16, true);
    let b = digit_char((n / 256) % 16, true);
    let c = digit_char((n / 16) % 16, true);
    let d = digit_char(n % 16, true);
    push_char(s, a);
    push_char(s, b);
    push_char(s, c);
    push_char(s, d);
}

/// The result of replacing each character `c` of `s` by the text `f(c)`.
pub open spec fn flat_map_chars(s: Seq<char>, f: spec_fn(char) -> Seq<char>) -> Seq<char>
    decreases s.len(),
{
    if s.len() == 0 {
        Seq::empty()
    } else {
        flat_map_chars(s.drop_last(), f) + f(s.last())
    }
}

pub proof fn lemma_flat_map_step(s: Seq<char>, f: spec_fn(char) -> Seq<char>, i: int)
    requires
        0 <= i < s.len(),
    ensures
        flat_map_chars(s.take(i + 1), f) == flat_map_chars(s.take(i), f) + f(s[i]),
{
    assert(s.take(i + 1).drop_last() =~= s.take(i));
}

/// `s` with every occurrence of the character `from` replaced by `to`.
pub open spec fn replace_char(s: Seq<char>, from: char, to: char) -> Seq<char> {
    s.map_values(|c: char| if c == from { to } else { c })
}

pub fn replace_char_exec(v: &Vec<char>, from: char, to: char) -> (r: Vec<char>)
    ensures
        r@ == replace_char(v@, from, to),
{
    let mut r: Vec<char> = Vec::new();
    let mut i: usize = 0;
    while i < v.len()
        invariant
            i <= v.len(),
            r@ == v@.take(i as int).map_values(|c: char| if c == from { to } else { c }),
        decreases v.len() - i,
    {
        let c = v[i];
        if c == from {
            r.push(to);
        } else {
            r.push(c);
        }
        assert(v@.take(i + 1).map_values(|c: char| if c == from { to } else { c }) =~= v@.take(
            i as int,
        ).map_values(|c: char| if c == from { to } else { c }).push(
            if c == from { to } else { c },
        ));
        i = i + 1;
    }
    assert(v@.take(v.len() as int) =~= v@);
    r
}

/// Copies the characters of `v` from index `start` to its end.
pub fn chars_from(v: &Vec<char>, start: usize) -> (r: Vec<char>)
    requires
        start <= v.len(),
    ensures
        r@ == v@.skip(start as int),
{
    let mut r: Vec<char> = Vec::new();
    let mut i: usize = start;
    while i < v.len()
        invariant
            start <= i <= v.len(),
            r@ == v@.subrange(start as int, i as int),
        decreases v.len() - i,
    {
        r.push(v[i]);
        assert(v@.subrange(start as int, i + 1) =~= v@.subrange(start as int, i as int).push(
            v@[i as int],
        ));
        i = i + 1;
    }
    assert(v@.skip(start as int) =~= v@.subrange(start as int, v.len() as int));
    r
}

/// Copies the characters of `v` in `start..end`.
pub fn chars_between(v: &Vec<char>, start: usize, end: usize) -> (r: Vec<char>)
    requires
        start <= end <= v.len(),
    ensures
        r@ == v@.subrange(start as int, end as int),
{
    let mut r: Vec<char> = Vec::new();
    let mut i: usize = start;
    while i < end
        invariant
            start <= i <= end,
            end <= v.len(),
            r@ == v@.subrange(start as int, i as int),
        decreases end - i,
    {
        r.push(v[i]);
        assert(v@.subrange(start as int, i + 1) =~= v@.subrange(start as int, i as int).push(
            v@[i as int],
        ));
        i = i + 1;
    }
    r
}


// ---------------------------------------------------------------------
// Lines.
// ---------------------------------------------------------------------

/// `s` cut at every line feed (one more piece than there are line feeds).
pub open spec fn split_at_newlines(s: Seq<char>) -> Seq<Seq<char>>
    decreases s.len(),
{
    if s.len() == 0 {
        seq![Seq::empty()]
    } else {
        let prev = split_at_newlines(s.drop_last());
        if s.last() == '\n' {
            prev.push(Seq::empty())
        } else {
            prev.update(prev.len() - 1, prev.last().push(s.last()))
        }
    }
}

pub proof fn lemma_split_nonempty(s: Seq<char>)
    ensures
        split_at_newlines(s).len() >= 1,
    decreases s.len(),
{
    if s.len() > 0 {
        lemma_split_nonempty(s.drop_last());
    }
}

/// A piece ended by a line feed loses one trailing carriage return.
pub open spec fn strip_cr(piece: Seq<char>) -> Seq<char> {
    if piece.len() > 0 && piece.last() == '\r' {
        piece.drop_last()
    } else {
        piece
    }
}

/// `str::lines`: the text cut at `\n` or `\r\n`; a final line ending
/// does not start another line.
pub open spec fn spec_lines(s: Seq<char>) -> Seq<Seq<char>> {
    let pieces = split_at_newlines(s);
    let n = pieces.len();
    let stripped = Seq::new(
        n,
        |i: int|
            if i < n - 1 {
                strip_cr(pieces[i])
            } else {
                pieces[i]
            },
    );
    if pieces[n - 1].len() == 0 {
        stripped.drop_last()
    } else {
        stripped
    }
}

/// The lines of `text` (see `spec_lines`).
pub fn lines_of(text: &str) -> (r: Vec<String>)
    ensures
        r@.len() == spec_lines(text@).len(),
        forall|i: int| 0 <= i < r@.len() ==> #[trigger] r@[i]@ == spec_lines(text@)[i],
{
    let v = chars_of(text);
    let mut done: Vec<String> = Vec::new();
    let mut current: Vec<char> = Vec::new();
    let mut i: usize = 0;
    proof {
        lemma_split_nonempty(v@.take(0));
    }
    while i < v.len()
        invariant
            i <= v.len(),
            split_at_newlines(v@.take(i as int)).len() == done.len() + 1,
            forall|k: int| 0 <= k < done.len() ==> #[trigger] done@[k]@ == strip_cr(split_at_newlines(v@.take(i as int))[k]),
            current@ == split_at_newlines(v@.take(i as int)).last(),
        decreases v.len() - i,
    {
        let c = v[i];
        let ghost prev = split_at_newlines(v@.take(i as int));
        assert(v@.take(i + 1).drop_last() =~= v@.take(i as int));
        if c == '\n' {
            let mut piece = current;
            if piece.len() > 0 && piece[piece.len() - 1] == '\r' {
                piece.pop();
            }
            assert(piece@ == strip_cr(prev.last()));
            done.push(string_of(&piece));
            current = Vec::new();
            proof {
                let next = split_at_newlines(v@.take(i + 1));
                assert(next == prev.push(Seq::empty()));
                assert forall|k: int| 0 <= k < done.len() implies #[trigger] done@[k]@ == strip_cr(next[k]) by {
                    if k < done.len() - 1 {
                        assert(next[k] == prev[k]);
                    } else {
                        assert(next[k] == prev[prev.len() - 1]);
                    }
                }
                assert(current@ =~= next.last());
            }
        } else {
            current.push(c);
            proof {
                let next = split_at_newlines(v@.take(i + 1));
                assert(next == prev.update(prev.len() - 1, prev.last().push(c)));
                assert forall|k: int| 0 <= k < done.len() implies #[trigger] done@[k]@ == strip_cr(next[k]) by {
                    assert(next[k] == prev[k]);
                }
            }
        }
        i = i + 1;
    }
    assert(v@.take(v.len() as int) =~= v@);
    let ghost pieces = split_at_newlines(text@);
    if current.len() > 0 {
        done.push(string_of(&current));
    }
    proof {
        let n = pieces.len();
        let stripped = Seq::new(n, |i: int| if i < n - 1 { strip_cr(pieces[i]) } else { pieces[i] });
        if pieces[n - 1].len() == 0 {
            assert(spec_lines(text@) == stripped.drop_last());
            assert forall|k: int| 0 <= k < done@.len() implies #[trigger] done@[k]@ == spec_lines(text@)[k] by {
                assert(stripped[k] == strip_cr(pieces[k]));
            }
        } else {
            assert(spec_lines(text@) == stripped);
            assert forall|k: int| 0 <= k < done@.len() implies #[trigger] done@[k]@ == spec_lines(text@)[k] by {
                if k < n - 1 {
                    assert(stripped[k] == strip_cr(pieces[k]));
                } else {
                    assert(stripped[k] == pieces[k]);
                }
            }
        }
    }
    done
}

/// `items` joined with `sep` between neighbours (`[String]::join`).
pub open spec fn join_with(items: Seq<Seq<char>>, sep: Seq<char>) -> Seq<char>
    decreases items.len(),
{
    if items.len() == 0 {
        Seq::empty()
    } else if items.len() == 1 {
        items[0]
    } else {
        join_with(items.drop_last(), sep) + sep + items.last()
    }
}

pub open spec fn string_views(v: Seq<String>) -> Seq<Seq<char>> {
    v.map_values(|s: String| s@)
}

pub fn join_strings(items: &Vec<String>, sep: &str) -> (r: String)
    ensures
        r@ == join_with(string_views(items@), sep@),
{
    let mut out = String::new();
    let mut i: usize = 0;
    while i < items.len()
        invariant
            i <= items.len(),
            out@ == join_with(string_views(items@.take(i as int)), sep@),
        decreases items.len() - i,
    {
        assert(string_views(items@.take(i + 1)).drop_last() =~= string_views(items@.take(i as int)));
        assert(string_views(items@.take(i + 1)).last() == items@[i as int]@);
        if i > 0 {
            push_str(&mut out, sep);
        } else {
            assert(string_views(items@.take(i as int)).len() == 0);
        }
        push_str(&mut out, items[i].as_str());
        i = i + 1;
    }
    assert(items@.take(items.len() as int) =~= items@);
    out
}


/// The index of the first `c` in `s`, or the length of `s` when absent.
pub open spec fn first_index_of(s: Seq<char>, c: char) -> int
    decreases s.len(),
{
    if s.len() == 0 {
        0
    } else if s[0] == c {
        0
    } else {
        1 + first_index_of(s.drop_first(), c)
    }
}

pub proof fn lemma_first_index_of(s: Seq<char>, c: char, i: int)
    requires
        0 <= i <= s.len(),
        forall|k: int| 0 <= k < i ==> s[k] != c,
        i == s.len() || s[i] == c,
    ensures
        first_index_of(s, c) == i,
    decreases i,
{
    if i > 0 {
        assert forall|k: int| 0 <= k < i - 1 implies s.drop_first()[k] != c by {
            assert(s.drop_first()[k] == s[k + 1]);
        }
        if i < s.len() {
            assert(s.drop_first()[i - 1] == s[i]);
        }
        lemma_first_index_of(s.drop_first(), c, i - 1);
    }
}

/// `pattern` occurs somewhere in `s`.
pub open spec fn contains_text(s: Seq<char>, pattern: Seq<char>) -> bool {
    exists|i: int| occurs_at(s, pattern, i)
}

pub fn contains_text_exec(s: &Vec<char>, pattern: &Vec<char>) -> (r: bool)
    ensures
        r == contains_text(s@, pattern@),
{
    if pattern.len() > s.len() {
        assert forall|i: int| !occurs_at(s@, pattern@, i) by {}
        return false;
    }
    let mut i: usize = 0;
    while i <= s.len() - pattern.len()
        invariant
            pattern.len() <= s.len(),
            i <= s.len() - pattern.len() + 1,
            forall|k: int| 0 <= k < i ==> !occurs_at(s@, pattern@, k),
        decreases s.len() - pattern.len() + 1 - i,
    {
        if matches_at(s, pattern, i) {
            return true;
        }
        assert(pattern@.len() > 0) by {
            if pattern@.len() == 0 {
                assert(s@.subrange(i as int, i as int) =~= pattern@);
            }
        }
        i = i + 1;
    }
    assert forall|k: int| !occurs_at(s@, pattern@, k) by {
        if k >= i {
            assert(k + pattern@.len() > s@.len());
        }
    }
    false
}

} // verus!
