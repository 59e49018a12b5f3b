//! Project settings: the draft edited in the settings window, its
//! validation, and the line-preserving update of `project.toml`.

use vstd::prelude::*;

use crate::path_ops::{
    all_names, only_names, path_is_absolute, path_join, path_parts, spec_path_is_absolute,
    spec_path_join, spec_path_parts,
};
use crate::toml_doc::{entry, item_get, item_is_table, node_is_table, parse_toml, toml_parse};
use crate::text::{
    TrimSet, ascii_lower, ascii_lower_char, chars_between, chars_from, chars_of, flat_map_chars,
    has_prefix, is_ascii_digit, is_control, is_whitespace, join_strings, join_with, lemma_flat_map_step,
    lines_of, matches_at, owned, push_char, push_chars, push_decimal, push_str, replace_char,
    replace_char_exec, spec_lines, starts_with, str_equal, string_of, string_views, trim,
    trim_chars, trimmed, decimal, chars_equal, control_char,
};

verus! {

// ---------------------------------------------------------------------
// Whole numbers.
// ---------------------------------------------------------------------

/// The value of a run of decimal digits.
pub open spec fn digits_value(d: Seq<char>) -> nat
    decreases d.len(),
{
    if d.len() == 0 {
        0
    } else {
        digits_value(d.drop_last()) * 10 + ((d.last() as u32) - ('0' as u32)) as nat
    }
}

pub open spec fn all_digits(d: Seq<char>) -> bool {
    forall|i: int| 0 <= i < d.len() ==> is_ascii_digit(#[trigger] d[i])
}

/// `u32::from_str`: an optional `+`, then at least one digit, no overflow.
pub open spec fn spec_parse_u32(s: Seq<char>) -> Option<u32> {
    let d = if s.len() > 0 && s[0] == '+' {
        s.drop_first()
    } else {
        s
    };
    if d.len() == 0 || !all_digits(d) || digits_value(d) > u32::MAX {
        None
    } else {
        Some(digits_value(d) as u32)
    }
}

proof fn lemma_digits_monotone(d: Seq<char>, k: int)
    requires
        0 <= k <= d.len(),
        all_digits(d),
    ensures
        digits_value(d.take(k)) <= digits_value(d),
    decreases d.len() - k,
{
    if k < d.len() {
        assert(d.take(k + 1).drop_last() =~= d.take(k));
        assert(is_ascii_digit(d[k]));
        assert(d.take(k + 1).last() == d[k]);
        lemma_digits_monotone(d, k + 1);
    } else {
        assert(d.take(k) =~= d);
    }
}

pub fn parse_u32(s: &Vec<char>) -> (r: Option<u32>)
    ensures
        r == spec_parse_u32(s@),
{
    let start: usize = if s.len() > 0 && s[0] == '+' {
        1
    } else {
        0
    };
    let d = chars_from(s, start);
    assert(start == 1 ==> d@ =~= s@.drop_first());
    assert(start == 0 ==> d@ =~= s@);
    let ghost sd = if s@.len() > 0 && s@[0] == '+' {
        s@.drop_first()
    } else {
        s@
    };
    assert(d@ == sd);
    if d.len() == 0 {
        return None;
    }
    let mut i: usize = 0;
    while i < d.len()
        invariant
            i <= d.len(),
            d@ == sd,
            sd == (if s@.len() > 0 && s@[0] == '+' { s@.drop_first() } else { s@ }),
            forall|k: int| 0 <= k < i ==> is_ascii_digit(#[trigger] d@[k]),
        decreases d.len() - i,
    {
        if !('0' <= d[i] && d[i] <= '9') {
            assert(!is_ascii_digit(d@[i as int]));
            assert(!all_digits(d@));
            return None;
        }
        i = i + 1;
    }
    let mut value: u64 = 0;
    let mut j: usize = 0;
    while j < d.len()
        invariant
            j <= d.len(),
            d@ == sd,
            sd == (if s@.len() > 0 && s@[0] == '+' { s@.drop_first() } else { s@ }),
            d@.len() > 0,
            all_digits(d@),
            value as nat == digits_value(d@.take(j as int)),
            value <= u32::MAX,
        decreases d.len() - j,
    {
        assert(d@.take(j + 1).drop_last() =~= d@.take(j as int));
        assert(d@.take(j + 1).last() == d@[j as int]);
        assert(is_ascii_digit(d@[j as int]));
        let digit = (d[j] as u32 - '0' as u32) as u64;
        assert(digits_value(d@.take(j + 1)) == digits_value(d@.take(j as int)) * 10 + digit as nat);
        value = value * 10 + digit;
        if value > u32::MAX as u64 {
            proof {
                lemma_digits_monotone(d@, j + 1);
            }
            return None;
        }
        j = j + 1;
    }
    assert(d@.take(d.len() as int) =~= d@);
    Some(value as u32)
}

/// A window dimension typed by the user, between `minimum` and 16384.
pub open spec fn spec_parse_dimension(label: Seq<char>, value: Seq<char>, minimum: u32) -> Result<
    u32,
    Seq<char>,
> {
    match spec_parse_u32(trimmed(value, TrimSet::Whitespace)) {
        None => Err(label + " must be a whole number."@),
        Some(n) => if minimum <= n && n <= 16384 {
            Ok(n)
        } else {
            Err(label + " must be between "@ + decimal(minimum as nat) + " and 16384 pixels."@)
        },
    }
}

pub open spec fn u32_result(r: Result<u32, String>) -> Result<u32, Seq<char>> {
    match r {
        Ok(n) => Ok(n),
        Err(e) => Err(e@),
    }
}

pub fn parse_dimension(label: &str, value: &str, minimum: u32) -> (r: Result<u32, String>)
    ensures
        u32_result(r) == spec_parse_dimension(label@, value@, minimum),
{
    let v = chars_of(value);
    let t = trim_chars(&v, TrimSet::Whitespace);
    match parse_u32(&t) {
        None => {
            let mut e = owned(label);
            push_str(&mut e, " must be a whole number.");
            Err(e)
        },
        Some(n) => if minimum <= n && n <= 16384 {
            Ok(n)
        } else {
            let mut e = owned(label);
            push_str(&mut e, " must be between ");
            push_decimal(&mut e, minimum as u64);
            push_str(&mut e, " and 16384 pixels.");
            Err(e)
        },
    }
}

// ---------------------------------------------------------------------
// TOML text.
// ---------------------------------------------------------------------

pub open spec fn toml_literal_char(c: char) -> Seq<char> {
    if c == '\\' {
        seq!['\\', '\\']
    } else if c == '"' {
        seq!['\\', '"']
    } else if c == '\n' {
        seq!['\\', 'n']
    } else if c == '\r' {
        seq!['\\', 'r']
    } else if c == '\t' {
        seq!['\\', 't']
    } else {
        seq![c]
    }
}

/// A TOML basic string holding `value`.
pub open spec fn spec_toml_string(value: Seq<char>) -> Seq<char> {
    seq!['"'] + flat_map_chars(value, |c: char| toml_literal_char(c)) + seq!['"']
}

pub fn toml_string(value: &str) -> (r: String)
    ensures
        r@ == spec_toml_string(value@),
{
    let v = chars_of(value);
    let mut out = String::new();
    push_char(&mut out, '"');
    let ghost head = out@;
    let mut i: usize = 0;
    while i < v.len()
        invariant
            i <= v.len(),
            head == seq!['"'],
            out@ == head + flat_map_chars(v@.take(i as int), |c: char| toml_literal_char(c)),
        decreases v.len() - i,
    {
        let c = v[i];
        proof {
            lemma_flat_map_step(v@, |c: char| toml_literal_char(c), i as int);
        }
        if c == '\\' {
            push_char(&mut out, '\\');
            push_char(&mut out, '\\');
        } else if c == '"' {
            push_char(&mut out, '\\');
            push_char(&mut out, '"');
        } else if c == '\n' {
            push_char(&mut out, '\\');
            push_char(&mut out, 'n');
        } else if c == '\r' {
            push_char(&mut out, '\\');
            push_char(&mut out, 'r');
        } else if c == '\t' {
            push_char(&mut out, '\\');
            push_char(&mut out, 't');
        } else {
            push_char(&mut out, c);
        }
        assert(out@ == head + flat_map_chars(v@.take(i as int), |c: char| toml_literal_char(c))
            + toml_literal_char(c));
        i = i + 1;
    }
    assert(v@.take(v.len() as int) =~= v@);
    push_char(&mut out, '"');
    out
}

/// A line is a table header: trimmed, it starts with `[` and ends with `]`.
pub open spec fn is_header_line(line: Seq<char>) -> bool {
    let t = trimmed(line, TrimSet::Whitespace);
    t.len() > 0 && t[0] == '[' && t.last() == ']'
}

/// The key of a `key = value` line: the text before the first `=`, trimmed.
pub open spec fn key_of_line(line: Seq<char>) -> Option<Seq<char>> {
    let i = crate::text::first_index_of(line, '=');
    if i < line.len() {
        Some(trimmed(line.take(i), TrimSet::Whitespace))
    } else {
        None
    }
}

/// The first index in `from..to` whose line holds `key`.
pub open spec fn line_with_key(lines: Seq<Seq<char>>, from: int, to: int, key: Seq<char>) -> Option<int>
    decreases to - from,
{
    if from >= to || from < 0 || from >= lines.len() {
        None
    } else if key_of_line(lines[from]) == Some(key) {
        Some(from)
    } else {
        line_with_key(lines, from + 1, to, key)
    }
}

/// The first index at or after `from` holding a table header, or the
/// number of lines.
pub open spec fn next_header(lines: Seq<Seq<char>>, from: int) -> int
    decreases lines.len() - from,
{
    if from < 0 || from >= lines.len() {
        lines.len() as int
    } else if is_header_line(lines[from]) {
        from
    } else {
        next_header(lines, from + 1)
    }
}

/// The first index whose trimmed line is `header`.
pub open spec fn header_line(lines: Seq<Seq<char>>, header: Seq<char>, from: int) -> Option<int>
    decreases lines.len() - from,
{
    if from < 0 || from >= lines.len() {
        None
    } else if trimmed(lines[from], TrimSet::Whitespace) == header {
        Some(from)
    } else {
        header_line(lines, header, from + 1)
    }
}

/// Sets each `key = literal` pair inside the section whose header is at
/// `start` and whose body ends at `end`: an existing line for the key is
/// replaced, otherwise a line is added at the end of the section.
pub open spec fn set_keys(
    lines: Seq<Seq<char>>,
    start: int,
    end: int,
    pairs: Seq<(Seq<char>, Seq<char>)>,
) -> (Seq<Seq<char>>, int)
    decreases pairs.len(),
{
    if pairs.len() == 0 {
        (lines, end)
    } else {
        let (prev, e) = set_keys(lines, start, end, pairs.drop_last());
        let (key, literal) = pairs.last();
        let line = key + " = "@ + literal;
        match line_with_key(prev, start + 1, e, key) {
            Some(i) => (prev.update(i, line), e),
            None => (prev.insert(e, line), e + 1),
        }
    }
}

/// A line found for a key lies in the searched range.
proof fn lemma_line_with_key_in_range(lines: Seq<Seq<char>>, from: int, to: int, key: Seq<char>)
    ensures
        match line_with_key(lines, from, to, key) {
            Some(i) => from <= i < to && 0 <= i < lines.len() && key_of_line(lines[i]) == Some(key),
            None => true,
        },
    decreases to - from,
{
    if from >= to || from < 0 || from >= lines.len() {
    } else if key_of_line(lines[from]) == Some(key) {
    } else {
        lemma_line_with_key_in_range(lines, from + 1, to, key);
    }
}

/// Setting keys in a section keeps every line outside it: the lines up to
/// and including the section's header, and the lines from the end of its
/// body on, come out unchanged and in order; the section grows by the lines
/// added for keys it did not hold.
pub proof fn lemma_set_keys_keeps_other_lines(
    lines: Seq<Seq<char>>,
    start: int,
    end: int,
    pairs: Seq<(Seq<char>, Seq<char>)>,
)
    requires
        0 <= start < end <= lines.len(),
    ensures
        end <= set_keys(lines, start, end, pairs).1,
        set_keys(lines, start, end, pairs).0.len() == lines.len() + (set_keys(lines, start, end, pairs).1 - end),
        set_keys(lines, start, end, pairs).0.take(start + 1) == lines.take(start + 1),
        set_keys(lines, start, end, pairs).0.skip(set_keys(lines, start, end, pairs).1) == lines.skip(end),
    decreases pairs.len(),
{
    if pairs.len() > 0 {
        lemma_set_keys_keeps_other_lines(lines, start, end, pairs.drop_last());
        let (prev, e) = set_keys(lines, start, end, pairs.drop_last());
        let (key, literal) = pairs.last();
        let line = key + " = "@ + literal;
        lemma_line_with_key_in_range(prev, start + 1, e, key);
        match line_with_key(prev, start + 1, e, key) {
            Some(i) => {
                let done = prev.update(i, line);
                assert(done.take(start + 1) =~= prev.take(start + 1));
                assert(done.skip(e) =~= prev.skip(e));
            },
            None => {
                let done = prev.insert(e, line);
                assert(done.take(start + 1) =~= prev.take(start + 1));
                assert(done.skip(e + 1) =~= prev.skip(e));
            },
        }
    }
}

/// A key that reads back from the line written for it: no `=` and no
/// white space in it.
pub open spec fn plain_key(key: Seq<char>) -> bool {
    forall|i: int| 0 <= i < key.len() ==> #[trigger] key[i] != '=' && !is_whitespace(key[i])
}

/// The literal of the last pair for `key`, if any pair sets it.
pub open spec fn last_literal(pairs: Seq<(Seq<char>, Seq<char>)>, key: Seq<char>) -> Option<Seq<char>>
    decreases pairs.len(),
{
    if pairs.len() == 0 {
        None
    } else if pairs.last().0 == key {
        Some(pairs.last().1)
    } else {
        last_literal(pairs.drop_last(), key)
    }
}

/// The line written for a plain key holds that key.
proof fn lemma_key_of_set_line(key: Seq<char>, literal: Seq<char>)
    requires
        plain_key(key),
    ensures
        key_of_line(key + " = "@ + literal) == Some(key),
{
    reveal_strlit(" = ");
    let line = key + " = "@ + literal;
    let n = key.len() as int;
    assert forall|k: int| 0 <= k < n + 1 implies line[k] != '=' by {
        if k < n {
            assert(line[k] == key[k]);
        }
    }
    crate::text::lemma_first_index_of(line, '=', n + 1);
    let head = line.take(n + 1);
    assert(head =~= key.push(' '));
    if n == 0 {
        crate::text::lemma_leading(head, TrimSet::Whitespace, 1);
        assert(trimmed(head, TrimSet::Whitespace) =~= key);
    } else {
        crate::text::lemma_leading(head, TrimSet::Whitespace, 0);
        assert(head[head.len() - 1 - 1] == key[n - 1]);
        crate::text::lemma_trailing(head, TrimSet::Whitespace, 1);
        assert(trimmed(head, TrimSet::Whitespace) =~= key);
    }
}

/// `line_with_key` finds the first line in the range that holds the key.
proof fn lemma_line_with_key_first(lines: Seq<Seq<char>>, from: int, to: int, key: Seq<char>)
    requires
        0 <= from,
    ensures
        match line_with_key(lines, from, to, key) {
            Some(i) => from <= i < to && i < lines.len() && key_of_line(lines[i]) == Some(key)
                && forall|j: int| from <= j < i ==> key_of_line(#[trigger] lines[j]) != Some(key),
            None => forall|j: int| from <= j < to && j < lines.len() ==> key_of_line(#[trigger] lines[j]) != Some(key),
        },
    decreases to - from,
{
    if from >= to || from >= lines.len() {
    } else if key_of_line(lines[from]) == Some(key) {
    } else {
        lemma_line_with_key_first(lines, from + 1, to, key);
    }
}

/// After setting `pairs` in a section, each key they set is found in the
/// section, on the line `key = literal` with the last literal given for it.
pub proof fn lemma_set_keys_reads_back(
    lines: Seq<Seq<char>>,
    start: int,
    end: int,
    pairs: Seq<(Seq<char>, Seq<char>)>,
    key: Seq<char>,
)
    requires
        0 <= start < end <= lines.len(),
        forall|j: int| 0 <= j < pairs.len() ==> plain_key(#[trigger] pairs[j].0),
        last_literal(pairs, key) is Some,
    ensures
        ({
            let (done, e) = set_keys(lines, start, end, pairs);
            line_with_key(done, start + 1, e, key) matches Some(i) && done[i] == key + " = "@
                + last_literal(pairs, key)->0
        }),
    decreases pairs.len(),
{
    let rest = pairs.drop_last();
    let (prev, e0) = set_keys(lines, start, end, rest);
    let (k0, l0) = pairs.last();
    let line0 = k0 + " = "@ + l0;
    assert(plain_key(pairs[pairs.len() - 1].0));
    lemma_key_of_set_line(k0, l0);
    lemma_set_keys_keeps_other_lines(lines, start, end, rest);
    lemma_line_with_key_first(prev, start + 1, e0, k0);
    let (done, e) = set_keys(lines, start, end, pairs);
    if key == k0 {
        match line_with_key(prev, start + 1, e0, k0) {
            Some(i0) => {
                assert(done == prev.update(i0, line0));
                lemma_line_with_key_first(done, start + 1, e, key);
                assert forall|j: int| start + 1 <= j < i0 implies key_of_line(#[trigger] done[j]) != Some(key) by {
                    assert(done[j] == prev[j]);
                }
                assert(done[i0] == line0);
                assert(line_with_key(done, start + 1, e, key) == Some(i0));
                assert(last_literal(pairs, key) == Some(l0));
            },
            None => {
                assert(done == prev.insert(e0, line0));
                lemma_line_with_key_first(done, start + 1, e, key);
                assert forall|j: int| start + 1 <= j < e0 implies key_of_line(#[trigger] done[j]) != Some(key) by {
                    assert(done[j] == prev[j]);
                }
                assert(done[e0] == line0);
                assert(line_with_key(done, start + 1, e, key) == Some(e0));
                assert(last_literal(pairs, key) == Some(l0));
            },
        }
    } else {
        assert forall|j: int| 0 <= j < rest.len() implies plain_key(#[trigger] rest[j].0) by {
            assert(rest[j] == pairs[j]);
        }
        lemma_set_keys_reads_back(lines, start, end, rest, key);
        lemma_line_with_key_first(prev, start + 1, e0, key);
        let ik = line_with_key(prev, start + 1, e0, key)->0;
        match line_with_key(prev, start + 1, e0, k0) {
            Some(i0) => {
                assert(done == prev.update(i0, line0));
                assert(i0 != ik);
                lemma_line_with_key_first(done, start + 1, e, key);
                assert forall|j: int| start + 1 <= j < ik implies key_of_line(#[trigger] done[j]) != Some(key) by {
                    if j != i0 {
                        assert(done[j] == prev[j]);
                    }
                }
                assert(done[ik] == prev[ik]);
                assert(line_with_key(done, start + 1, e, key) == Some(ik));
                assert(last_literal(pairs, key) == last_literal(rest, key));
            },
            None => {
                assert(done == prev.insert(e0, line0));
                lemma_line_with_key_first(done, start + 1, e, key);
                assert forall|j: int| start + 1 <= j < ik implies key_of_line(#[trigger] done[j]) != Some(key) by {
                    assert(done[j] == prev[j]);
                }
                assert(done[ik] == prev[ik]);
                assert(line_with_key(done, start + 1, e, key) == Some(ik));
                assert(last_literal(pairs, key) == last_literal(rest, key));
            },
        }
    }
}

/// `project.toml` text after setting `pairs` in `[section]` (creating the
/// section at the end when `create` allows), keeping every other line.
pub open spec fn spec_update_toml_section(
    source: Seq<char>,
    section: Seq<char>,
    pairs: Seq<(Seq<char>, Seq<char>)>,
    create: bool,
) -> Result<Seq<char>, Seq<char>> {
    let newline = if exists|i: int| crate::text::occurs_at(source, "\r\n"@, i) {
        "\r\n"@
    } else {
        "\n"@
    };
    let ended = source.len() > 0 && source.last() == '\n';
    let lines = spec_lines(source);
    let header = "["@ + section + "]"@;
    let located: Option<(Seq<Seq<char>>, int)> = match header_line(lines, header, 0) {
        Some(i) => Some((lines, i)),
        None => if create {
            let padded = if lines.len() > 0 && trimmed(lines.last(), TrimSet::Whitespace).len() > 0 {
                lines.push(Seq::empty())
            } else {
                lines
            };
            Some((padded.push(header), padded.len() as int))
        } else {
            None
        },
    };
    match located {
        None => Err("project.toml is missing ["@ + section + "]"@),
        Some((ls, start)) => {
            let (done, _) = set_keys(ls, start, next_header(ls, start + 1), pairs);
            let rendered = join_with(done, newline);
            Ok(
                if ended || rendered.len() > 0 {
                    rendered + newline
                } else {
                    rendered
                },
            )
        },
    }
}

pub open spec fn pair_views(v: Seq<(String, String)>) -> Seq<(Seq<char>, Seq<char>)> {
    v.map_values(|p: (String, String)| (p.0@, p.1@))
}

fn position_of(v: &Vec<char>, c: char) -> (r: Option<usize>)
    ensures
        match r {
            Some(i) => i == crate::text::first_index_of(v@, c) && i < v.len(),
            None => crate::text::first_index_of(v@, c) == v.len(),
        },
{
    let mut i: usize = 0;
    while i < v.len()
        invariant
            i <= v.len(),
            forall|k: int| 0 <= k < i ==> v@[k] != c,
        decreases v.len() - i,
    {
        if v[i] == c {
            proof {
                crate::text::lemma_first_index_of(v@, c, i as int);
            }
            return Some(i);
        }
        i = i + 1;
    }
    proof {
        crate::text::lemma_first_index_of(v@, c, v.len() as int);
    }
    None
}

fn key_of_line_exec(line: &str) -> (r: Option<String>)
    ensures
        match r {
            Some(k) => key_of_line(line@) == Some(k@),
            None => key_of_line(line@) is None,
        },
{
    let v = chars_of(line);
    match position_of(&v, '=') {
        Some(i) => {
            let before = chars_between(&v, 0, i);
            assert(before@ =~= v@.take(i as int));
            let t = trim_chars(&before, TrimSet::Whitespace);
            Some(string_of(&t))
        },
        None => None,
    }
}

fn is_header_line_exec(line: &str) -> (r: bool)
    ensures
        r == is_header_line(line@),
{
    let v = chars_of(line);
    let t = trim_chars(&v, TrimSet::Whitespace);
    t.len() > 0 && t[0] == '[' && t[t.len() - 1] == ']'
}

fn line_with_key_exec(lines: &Vec<String>, from: usize, to: usize, key: &str) -> (r: Option<usize>)
    requires
        to <= lines.len(),
    ensures
        match r {
            Some(i) => line_with_key(string_views(lines@), from as int, to as int, key@) == Some(i as int) && i < to,
            None => line_with_key(string_views(lines@), from as int, to as int, key@) is None,
        },
{
    let ghost ls = string_views(lines@);
    let mut i: usize = from;
    while i < to
        invariant
            from <= i,
            to <= lines.len(),
            ls == string_views(lines@),
            line_with_key(ls, from as int, to as int, key@) == line_with_key(ls, i as int, to as int, key@),
        decreases to - i,
    {
        assert(ls[i as int] == lines@[i as int]@);
        let found = match key_of_line_exec(lines[i].as_str()) {
            Some(k) => str_equal(k.as_str(), key),
            None => false,
        };
        if found {
            return Some(i);
        }
        i = i + 1;
    }
    None
}

fn next_header_exec(lines: &Vec<String>, from: usize) -> (r: usize)
    ensures
        r as int == next_header(string_views(lines@), from as int),
        from <= r <= lines.len() || (from > lines.len() && r == lines.len()),
{
    let ghost ls = string_views(lines@);
    if from >= lines.len() {
        return lines.len();
    }
    let mut i: usize = from;
    while i < lines.len()
        invariant
            from <= i <= lines.len(),
            ls == string_views(lines@),
            next_header(ls, from as int) == next_header(ls, i as int),
        decreases lines.len() - i,
    {
        assert(ls[i as int] == lines@[i as int]@);
        if is_header_line_exec(lines[i].as_str()) {
            return i;
        }
        i = i + 1;
    }
    lines.len()
}

fn header_line_exec(lines: &Vec<String>, header: &str) -> (r: Option<usize>)
    ensures
        match r {
            Some(i) => header_line(string_views(lines@), header@, 0) == Some(i as int) && i < lines.len(),
            None => header_line(string_views(lines@), header@, 0) is None,
        },
{
    let ghost ls = string_views(lines@);
    let mut i: usize = 0;
    while i < lines.len()
        invariant
            i <= lines.len(),
            ls == string_views(lines@),
            header_line(ls, header@, 0) == header_line(ls, header@, i as int),
        decreases lines.len() - i,
    {
        assert(ls[i as int] == lines@[i as int]@);
        let t = trim(lines[i].as_str());
        if str_equal(t.as_str(), header) {
            return Some(i);
        }
        i = i + 1;
    }
    None
}

fn contains_crlf(source: &Vec<char>) -> (r: bool)
    ensures
        r == exists|i: int| crate::text::occurs_at(source@, "\r\n"@, i),
{
    let pattern = chars_of("\r\n");
    let mut i: usize = 0;
    while i < source.len()
        invariant
            i <= source.len(),
            pattern@ == "\r\n"@,
            forall|k: int| 0 <= k < i ==> !crate::text::occurs_at(source@, pattern@, k),
        decreases source.len() - i,
    {
        if matches_at(source, &pattern, i) {
            return true;
        }
        i = i + 1;
    }
    assert forall|k: int| !crate::text::occurs_at(source@, pattern@, k) by {
        if k >= source.len() {
            assert(k + pattern@.len() > source.len()) by {
                reveal_strlit("\r\n");
            }
        }
    }
    false
}

/// Sets `key = literal` pairs inside `[section]` of a TOML text, keeping
/// every other line as it is (see `spec_update_toml_section`).
pub fn update_toml_section(
    source: &str,
    section: &str,
    replacements: &Vec<(String, String)>,
    create: bool,
) -> (r: Result<String, String>)
    ensures
        crate::scene::string_result(r) == spec_update_toml_section(
            source@,
            section@,
            pair_views(replacements@),
            create,
        ),
{
    let src = chars_of(source);
    let crlf = contains_crlf(&src);
    let newline: &str = if crlf {
        "\r\n"
    } else {
        "\n"
    };
    let ended = src.len() > 0 && src[src.len() - 1] == '\n';
    let mut lines = lines_of(source);
    assert(string_views(lines@) =~= spec_lines(source@));
    let mut header = owned("[");
    push_str(&mut header, section);
    push_str(&mut header, "]");
    let start = match header_line_exec(&lines, header.as_str()) {
        Some(i) => i,
        None => {
            if !create {
                let mut e = owned("project.toml is missing [");
                push_str(&mut e, section);
                push_str(&mut e, "]");
                return Err(e);
            }
            let ghost before = string_views(lines@);
            if lines.len() > 0 {
                let last = trim(lines[lines.len() - 1].as_str());
                assert(before.last() == lines@[lines.len() - 1]@);
                if last.unicode_len() > 0 {
                    lines.push(String::new());
                    assert(string_views(lines@) =~= before.push(Seq::empty()));
                }
            }
            let ghost padded = string_views(lines@);
            lines.push(header.clone());
            assert(string_views(lines@) =~= padded.push(header@));
            lines.len() - 1
        },
    };
    let ghost located = string_views(lines@);
    let mut end = next_header_exec(&lines, start + 1);
    let mut j: usize = 0;
    assert(pair_views(replacements@.take(0)) =~= Seq::<(Seq<char>, Seq<char>)>::empty());
    while j < replacements.len()
        invariant
            j <= replacements.len(),
            start < lines.len(),
            start < end <= lines.len(),
            set_keys(located, start as int, next_header(located, start + 1), pair_views(replacements@.take(j as int)))
                == (string_views(lines@), end as int),
        decreases replacements.len() - j,
    {
        assert(pair_views(replacements@.take(j + 1)).drop_last() =~= pair_views(replacements@.take(j as int)));
        assert(pair_views(replacements@.take(j + 1)).last() == (replacements@[j as int].0@, replacements@[j as int].1@));
        let key = replacements[j].0.as_str();
        let mut line = owned(key);
        push_str(&mut line, " = ");
        push_str(&mut line, replacements[j].1.as_str());
        let ghost prev = string_views(lines@);
        match line_with_key_exec(&lines, start + 1, end, key) {
            Some(i) => {
                lines.set(i, line);
                assert(string_views(lines@) =~= prev.update(i as int, line@));
            },
            None => {
                lines.insert(end, line);
                assert(string_views(lines@) =~= prev.insert(end as int, line@));
                assert(end < lines.len());
                end = end + 1;
            },
        }
        j = j + 1;
    }
    assert(replacements@.take(replacements.len() as int) =~= replacements@);
    let mut rendered = join_strings(&lines, newline);
    if ended || rendered.unicode_len() > 0 {
        push_str(&mut rendered, newline);
    }
    Ok(rendered)
}


// ---------------------------------------------------------------------
// The main scene.
// ---------------------------------------------------------------------

/// The name `Path::extension` gives a path; see `path_extension`.
pub uninterp spec fn spec_path_extension(path: Seq<char>) -> Option<Seq<char>>;

/// `Path::extension` of a path given as text. Trusted: the result depends
/// on the text alone.
#[verifier::external_body]
pub(crate) fn path_extension(path: &str) -> (r: Option<String>)
    ensures
        crate::project_manager::model::opt_view(r) == spec_path_extension(path@),
{
    std::path::Path::new(path).extension().map(|e| e.to_string_lossy().into_owned())
}

/// Whether a regular file exists at `path` (std `Path::is_file`). Trusted;
/// the answer depends on the disk, so nothing is stated of it.
#[verifier::external_body]
pub(crate) fn file_exists(path: &str) -> bool {
    std::path::Path::new(path).is_file()
}

pub open spec fn eq_ignore_ascii_case(a: Seq<char>, b: Seq<char>) -> bool {
    a.len() == b.len() && forall|i: int| 0 <= i < a.len() ==> ascii_lower(#[trigger] a[i]) == ascii_lower(b[i])
}

pub(crate) fn eq_ignore_ascii_case_exec(a: &Vec<char>, b: &Vec<char>) -> (r: bool)
    ensures
        r == eq_ignore_ascii_case(a@, b@),
{
    if a.len() != b.len() {
        return false;
    }
    let mut i: usize = 0;
    while i < a.len()
        invariant
            i <= a.len(),
            a.len() == b.len(),
            forall|k: int| 0 <= k < i ==> ascii_lower(#[trigger] a@[k]) == ascii_lower(b@[k]),
        decreases a.len() - i,
    {
        if ascii_lower_char(a[i]) != ascii_lower_char(b[i]) {
            return false;
        }
        i = i + 1;
    }
    true
}

/// The main scene as the manifest stores it: the input trimmed, without
/// `res://`, with `/` separators. Empty means none. The path must stay
/// inside the project and name a `.bsn` file.
pub open spec fn spec_main_scene_path(input: Seq<char>) -> Result<Seq<char>, Seq<char>> {
    let t = trimmed(input, TrimSet::Whitespace);
    let stripped = if has_prefix(t, "res://"@) {
        t.skip(6)
    } else {
        t
    };
    let normalized = replace_char(stripped, '\\', '/');
    if normalized.len() == 0 {
        Ok(normalized)
    } else if spec_path_is_absolute(normalized) || !only_names(spec_path_parts(normalized)) {
        Err("Main Scene must stay inside the project directory."@)
    } else {
        match spec_path_extension(normalized) {
            Some(ext) => if eq_ignore_ascii_case(ext, "bsn"@) {
                Ok(normalized)
            } else {
                Err("Main Scene must be a .bsn scene file."@)
            },
            None => Err("Main Scene must be a .bsn scene file."@),
        }
    }
}

/// The main scene check with the disk's answer `found` to whether the file exists.
pub open spec fn spec_normalize_main_scene(input: Seq<char>, found: bool) -> Result<Seq<char>, Seq<char>> {
    match spec_main_scene_path(input) {
        Err(e) => Err(e),
        Ok(n) => if n.len() == 0 || found {
            Ok(n)
        } else {
            Err("Main Scene does not exist: res://"@ + n)
        },
    }
}

pub fn main_scene_path(input: &str) -> (r: Result<String, String>)
    ensures
        crate::scene::string_result(r) == spec_main_scene_path(input@),
{
    let v = chars_of(input);
    let t = trim_chars(&v, TrimSet::Whitespace);
    let prefix = chars_of("res://");
    proof {
        reveal_strlit("res://");
    }
    let stripped = if starts_with(&t, &prefix) {
        chars_from(&t, 6)
    } else {
        t
    };
    let normalized = replace_char_exec(&stripped, '\\', '/');
    if normalized.len() == 0 {
        assert(normalized@ =~= Seq::<char>::empty());
        return Ok(String::new());
    }
    let text = string_of(&normalized);
    let parts = path_parts(text.as_str());
    if path_is_absolute(text.as_str()) || !all_names(&parts) {
        return Err(owned("Main Scene must stay inside the project directory."));
    }
    let bsn = chars_of("bsn");
    match path_extension(text.as_str()) {
        Some(ext) => {
            let e = chars_of(ext.as_str());
            if eq_ignore_ascii_case_exec(&e, &bsn) {
                Ok(text)
            } else {
                Err(owned("Main Scene must be a .bsn scene file."))
            }
        },
        None => Err(owned("Main Scene must be a .bsn scene file.")),
    }
}

/// The file a main scene `scene` (as stored) names inside the project at
/// `project_root`.
pub fn main_scene_file(project_root: &str, scene: &str) -> (r: String)
    ensures
        r@ == spec_path_join(project_root@, scene@),
{
    path_join(project_root, scene)
}

/// The main scene as stored, checked against the project on disk: the disk
/// is asked whether the path `main_scene_file` makes is a file.
pub fn normalize_main_scene(project_root: &str, input: &str) -> (r: Result<String, String>)
    ensures
        exists|found: bool| crate::scene::string_result(r) == spec_normalize_main_scene(input@, found),
{
    let n = match main_scene_path(input) {
        Ok(n) => n,
        Err(e) => {
            assert(crate::scene::string_result(Err::<String, String>(e)) == spec_normalize_main_scene(input@, true));
            return Err(e);
        },
    };
    if n.unicode_len() == 0 {
        assert(crate::scene::string_result(Ok::<String, String>(n)) == spec_normalize_main_scene(input@, true));
        return Ok(n);
    }
    let full = main_scene_file(project_root, n.as_str());
    let found = file_exists(full.as_str());
    if found {
        assert(crate::scene::string_result(Ok::<String, String>(n)) == spec_normalize_main_scene(input@, found));
        Ok(n)
    } else {
        let mut e = owned("Main Scene does not exist: res://");
        push_str(&mut e, n.as_str());
        assert(crate::scene::string_result(Err::<String, String>(e)) == spec_normalize_main_scene(input@, found));
        Err(e)
    }
}

/// The name `Path::strip_prefix` gives: what is left of `path` after the
/// components of `base`, as text.
pub uninterp spec fn spec_strip_prefix(path: Seq<char>, base: Seq<char>) -> Option<Seq<char>>;

/// `Path::strip_prefix`, with the rest written back as text (a path made
/// from UTF-8 text reads back without loss). Trusted: the answer depends on
/// the two texts alone; how `Path` splits and compares components is not
/// restated here.
#[verifier::external_body]
pub(crate) fn strip_path_prefix(path: &str, base: &str) -> (r: Option<String>)
    ensures
        match r {
            Some(rest) => spec_strip_prefix(path@, base@) == Some(rest@),
            None => spec_strip_prefix(path@, base@) is None,
        },
{
    std::path::Path::new(path).strip_prefix(base).ok().map(|rest| rest.to_string_lossy().into_owned())
}

/// The scene's path inside the project, `/`-separated, from what is left
/// of it after the project's folder (`None`: it is not inside).
pub fn scene_path_in_project(rest: Option<String>) -> (r: Result<String, String>)
    ensures
        match rest {
            Some(p) => r matches Ok(s) && s@ == replace_char(p@, '\\', '/'),
            None => r matches Err(e) && e@ == "The current scene is outside the active project."@,
        },
{
    match rest {
        Some(p) => {
            let v = chars_of(p.as_str());
            Ok(string_of(&replace_char_exec(&v, '\\', '/')))
        },
        None => Err(owned("The current scene is outside the active project.")),
    }
}

/// The path of a scene relative to the project, when it lies inside it;
/// both paths as resolved on disk.
pub fn project_relative_path(project_root: &str, path: &str) -> (r: Result<String, String>)
    ensures
        match spec_strip_prefix(path@, project_root@) {
            Some(rest) => r matches Ok(s) && s@ == replace_char(rest, '\\', '/'),
            None => r matches Err(e) && e@ == "The current scene is outside the active project."@,
        },
{
    scene_path_in_project(strip_path_prefix(path, project_root))
}

// ---------------------------------------------------------------------
// The settings and their draft.
// ---------------------------------------------------------------------

/// The game window's settings. `mode` is the engine's name for the window
/// mode (as the manifest stores it).
#[derive(Debug)]
pub struct ProjectWindowSettings {
    pub title: String,
    pub width: u32,
    pub height: u32,
    pub mode: String,
    pub vsync: bool,
}

/// What the settings window saves into `project.toml`.
#[derive(Debug)]
pub struct ProjectSettings {
    pub name: String,
    pub main_scene: String,
    pub window: ProjectWindowSettings,
}

pub struct ProjectSettingsView {
    pub name: Seq<char>,
    pub main_scene: Seq<char>,
    pub title: Seq<char>,
    pub width: u32,
    pub height: u32,
    pub mode: Seq<char>,
    pub vsync: bool,
}

impl View for ProjectSettings {
    type V = ProjectSettingsView;

    open spec fn view(&self) -> ProjectSettingsView {
        ProjectSettingsView {
            name: self.name@,
            main_scene: self.main_scene@,
            title: self.window.title@,
            width: self.window.width,
            height: self.window.height,
            mode: self.window.mode@,
            vsync: self.window.vsync,
        }
    }
}

/// The settings as typed in the window, before validation.
#[derive(Debug)]
pub struct ProjectSettingsDraft {
    pub project_name: String,
    pub main_scene: String,
    pub window_title: String,
    pub window_width: String,
    pub window_height: String,
    pub window_mode: String,
    pub vsync: bool,
}

/// The draft's text fields.
#[derive(Clone, Copy, Debug, PartialEq, Eq, Structural)]
pub enum ProjectSettingsField {
    ProjectName,
    MainScene,
    WindowTitle,
    WindowWidth,
    WindowHeight,
}

impl ProjectSettingsDraft {
    /// The draft showing saved settings.
    pub fn from_settings(settings: ProjectSettings) -> (r: Self)
        ensures
            r.project_name@ == settings@.name,
            r.main_scene@ == settings@.main_scene,
            r.window_title@ == settings@.title,
            r.window_width@ == crate::text::decimal(settings@.width as nat),
            r.window_height@ == crate::text::decimal(settings@.height as nat),
            r.window_mode@ == settings@.mode,
            r.vsync == settings@.vsync,
    {
        let mut width = String::new();
        push_decimal(&mut width, settings.window.width as u64);
        let mut height = String::new();
        push_decimal(&mut height, settings.window.height as u64);
        ProjectSettingsDraft {
            project_name: settings.name,
            main_scene: settings.main_scene,
            window_title: settings.window.title,
            window_width: width,
            window_height: height,
            window_mode: settings.window.mode,
            vsync: settings.window.vsync,
        }
    }

    /// Copies a field's text into the draft.
    pub fn set_field(&mut self, field: ProjectSettingsField, value: String)
        ensures
            field == ProjectSettingsField::ProjectName ==> final(self).project_name@ == value@,
            field != ProjectSettingsField::ProjectName ==> final(self).project_name == old(self).project_name,
            field == ProjectSettingsField::MainScene ==> final(self).main_scene@ == value@,
            field != ProjectSettingsField::MainScene ==> final(self).main_scene == old(self).main_scene,
            field == ProjectSettingsField::WindowTitle ==> final(self).window_title@ == value@,
            field != ProjectSettingsField::WindowTitle ==> final(self).window_title == old(self).window_title,
            field == ProjectSettingsField::WindowWidth ==> final(self).window_width@ == value@,
            field != ProjectSettingsField::WindowWidth ==> final(self).window_width == old(self).window_width,
            field == ProjectSettingsField::WindowHeight ==> final(self).window_height@ == value@,
            field != ProjectSettingsField::WindowHeight ==> final(self).window_height == old(self).window_height,
            final(self).window_mode == old(self).window_mode,
            final(self).vsync == old(self).vsync,
    {
        match field {
            ProjectSettingsField::ProjectName => self.project_name = value,
            ProjectSettingsField::MainScene => self.main_scene = value,
            ProjectSettingsField::WindowTitle => self.window_title = value,
            ProjectSettingsField::WindowWidth => self.window_width = value,
            ProjectSettingsField::WindowHeight => self.window_height = value,
        }
    }
}

/// A project name is at most 128 characters, none of them control characters.
pub open spec fn name_is_printable(name: Seq<char>) -> bool {
    name.len() <= 128 && forall|i: int| 0 <= i < name.len() ==> !is_control(#[trigger] name[i])
}

/// The verdict on a draft, given the disk's answer `found` to whether the
/// main scene file exists.
pub open spec fn spec_validate_draft(
    name: Seq<char>,
    main_scene: Seq<char>,
    title: Seq<char>,
    width: Seq<char>,
    height: Seq<char>,
    mode: Seq<char>,
    vsync: bool,
    found: bool,
) -> Result<ProjectSettingsView, Seq<char>> {
    let n = trimmed(name, TrimSet::Whitespace);
    let t = trimmed(title, TrimSet::Whitespace);
    if n.len() == 0 {
        Err("Project Name cannot be empty."@)
    } else if !name_is_printable(n) {
        Err("Project Name must be 128 printable characters or fewer."@)
    } else if t.len() == 0 {
        Err("Window Title cannot be empty."@)
    } else {
        match spec_parse_dimension("Width"@, width, 320) {
            Err(e) => Err(e),
            Ok(w) => match spec_parse_dimension("Height"@, height, 240) {
                Err(e) => Err(e),
                Ok(h) => match spec_normalize_main_scene(main_scene, found) {
                    Err(e) => Err(e),
                    Ok(m) => Ok(
                        ProjectSettingsView {
                            name: n,
                            main_scene: m,
                            title: t,
                            width: w,
                            height: h,
                            mode,
                            vsync,
                        },
                    ),
                },
            },
        }
    }
}

pub open spec fn settings_result(r: Result<ProjectSettings, String>) -> Result<ProjectSettingsView, Seq<char>> {
    match r {
        Ok(s) => Ok(s@),
        Err(e) => Err(e@),
    }
}

fn printable_name(v: &Vec<char>) -> (r: bool)
    ensures
        r == name_is_printable(v@),
{
    if v.len() > 128 {
        return false;
    }
    let mut i: usize = 0;
    while i < v.len()
        invariant
            i <= v.len(),
            forall|k: int| 0 <= k < i ==> !is_control(#[trigger] v@[k]),
        decreases v.len() - i,
    {
        if control_char(v[i]) {
            return false;
        }
        i = i + 1;
    }
    true
}

/// What an accepted draft holds, whatever the disk answered: a non-empty
/// trimmed name and window title, exactly as typed apart from the
/// surrounding whitespace; a size within bounds; and the mode and vsync as
/// chosen. A draft whose trimmed name or window title is empty is refused.
pub proof fn lemma_accepted_draft(
    name: Seq<char>,
    main_scene: Seq<char>,
    title: Seq<char>,
    width: Seq<char>,
    height: Seq<char>,
    mode: Seq<char>,
    vsync: bool,
    found: bool,
)
    ensures
        match spec_validate_draft(name, main_scene, title, width, height, mode, vsync, found) {
            Ok(s) => {
                &&& s.name == trimmed(name, TrimSet::Whitespace)
                &&& s.name.len() > 0
                &&& s.title == trimmed(title, TrimSet::Whitespace)
                &&& s.title.len() > 0
                &&& 320 <= s.width <= 16384
                &&& 240 <= s.height <= 16384
                &&& s.mode == mode
                &&& s.vsync == vsync
            },
            Err(_) => true,
        },
        trimmed(name, TrimSet::Whitespace).len() == 0 ==> spec_validate_draft(
            name,
            main_scene,
            title,
            width,
            height,
            mode,
            vsync,
            found,
        ) == Err::<ProjectSettingsView, Seq<char>>("Project Name cannot be empty."@),
        trimmed(title, TrimSet::Whitespace).len() == 0 ==> spec_validate_draft(
            name,
            main_scene,
            title,
            width,
            height,
            mode,
            vsync,
            found,
        ) is Err,
{
}

/// Validates the draft into settings (see `spec_validate_draft`); the main
/// scene's existence is read from the project on disk.
pub fn validate_draft(draft: &ProjectSettingsDraft, project_root: &str) -> (r: Result<ProjectSettings, String>)
    ensures
        exists|found: bool|
            settings_result(r) == spec_validate_draft(
                draft.project_name@,
                draft.main_scene@,
                draft.window_title@,
                draft.window_width@,
                draft.window_height@,
                draft.window_mode@,
                draft.vsync,
                found,
            ),
{
    let name_chars = chars_of(draft.project_name.as_str());
    let name = trim_chars(&name_chars, TrimSet::Whitespace);
    if name.len() == 0 {
        let e = owned("Project Name cannot be empty.");
        assert(settings_result(Err::<ProjectSettings, String>(e)) == spec_validate_draft(draft.project_name@, draft.main_scene@, draft.window_title@, draft.window_width@, draft.window_height@, draft.window_mode@, draft.vsync, true));
        return Err(e);
    }
    if !printable_name(&name) {
        let e = owned("Project Name must be 128 printable characters or fewer.");
        assert(settings_result(Err::<ProjectSettings, String>(e)) == spec_validate_draft(draft.project_name@, draft.main_scene@, draft.window_title@, draft.window_width@, draft.window_height@, draft.window_mode@, draft.vsync, true));
        return Err(e);
    }
    let title = trim(draft.window_title.as_str());
    if title.unicode_len() == 0 {
        let e = owned("Window Title cannot be empty.");
        assert(settings_result(Err::<ProjectSettings, String>(e)) == spec_validate_draft(draft.project_name@, draft.main_scene@, draft.window_title@, draft.window_width@, draft.window_height@, draft.window_mode@, draft.vsync, true));
        return Err(e);
    }
    let width = match parse_dimension("Width", draft.window_width.as_str(), 320) {
        Ok(w) => w,
        Err(e) => {
            assert(settings_result(Err::<ProjectSettings, String>(e)) == spec_validate_draft(draft.project_name@, draft.main_scene@, draft.window_title@, draft.window_width@, draft.window_height@, draft.window_mode@, draft.vsync, true));
            return Err(e);
        },
    };
    let height = match parse_dimension("Height", draft.window_height.as_str(), 240) {
        Ok(h) => h,
        Err(e) => {
            assert(settings_result(Err::<ProjectSettings, String>(e)) == spec_validate_draft(draft.project_name@, draft.main_scene@, draft.window_title@, draft.window_width@, draft.window_height@, draft.window_mode@, draft.vsync, true));
            return Err(e);
        },
    };
    let main_scene = normalize_main_scene(project_root, draft.main_scene.as_str());
    let ghost found = choose|found: bool| crate::scene::string_result(main_scene) == spec_normalize_main_scene(draft.main_scene@, found);
    match main_scene {
        Err(e) => {
            assert(settings_result(Err::<ProjectSettings, String>(e)) == spec_validate_draft(draft.project_name@, draft.main_scene@, draft.window_title@, draft.window_width@, draft.window_height@, draft.window_mode@, draft.vsync, found));
            Err(e)
        },
        Ok(m) => {
            let settings = ProjectSettings {
                name: string_of(&name),
                main_scene: m,
                window: ProjectWindowSettings {
                    title,
                    width,
                    height,
                    mode: draft.window_mode.clone(),
                    vsync: draft.vsync,
                },
            };
            assert(settings_result(Ok::<ProjectSettings, String>(settings)) == spec_validate_draft(draft.project_name@, draft.main_scene@, draft.window_title@, draft.window_width@, draft.window_height@, draft.window_mode@, draft.vsync, found));
            Ok(settings)
        },
    }
}

/// The `key = literal` pairs the `[project]` section receives.
pub open spec fn project_pairs(s: ProjectSettingsView) -> Seq<(Seq<char>, Seq<char>)> {
    seq![("name"@, spec_toml_string(s.name)), ("main_scene"@, spec_toml_string(s.main_scene))]
}

/// The `key = literal` pairs the `[display.window]` section receives.
pub open spec fn window_pairs(s: ProjectSettingsView) -> Seq<(Seq<char>, Seq<char>)> {
    seq![
        ("title"@, spec_toml_string(s.title)),
        ("width"@, decimal(s.width as nat)),
        ("height"@, decimal(s.height as nat)),
        ("mode"@, spec_toml_string(s.mode)),
        ("vsync"@, if s.vsync { "true"@ } else { "false"@ }),
    ]
}

/// The manifest text with the settings written in, all else kept: the
/// `[project]` section must exist, `[display.window]` is created if absent.
pub open spec fn spec_render_project_settings(source: Seq<char>, s: ProjectSettingsView) -> Result<Seq<char>, Seq<char>> {
    match spec_update_toml_section(source, "project"@, project_pairs(s), false) {
        Err(e) => Err(e),
        Ok(text) => spec_update_toml_section(text, "display.window"@, window_pairs(s), true),
    }
}

fn pair(key: &str, value: String) -> (r: (String, String))
    ensures
        r.0@ == key@,
        r.1@ == value@,
{
    (owned(key), value)
}

pub fn render_project_settings(source: &str, settings: &ProjectSettings) -> (r: Result<String, String>)
    ensures
        crate::scene::string_result(r) == spec_render_project_settings(source@, settings@),
{
    let mut project: Vec<(String, String)> = Vec::new();
    project.push(pair("name", toml_string(settings.name.as_str())));
    project.push(pair("main_scene", toml_string(settings.main_scene.as_str())));
    assert(pair_views(project@) =~= project_pairs(settings@));
    let text = match update_toml_section(source, "project", &project, false) {
        Ok(t) => t,
        Err(e) => {
            return Err(e);
        },
    };
    let mut width = String::new();
    push_decimal(&mut width, settings.window.width as u64);
    let mut height = String::new();
    push_decimal(&mut height, settings.window.height as u64);
    let vsync = if settings.window.vsync {
        owned("true")
    } else {
        owned("false")
    };
    let mut window: Vec<(String, String)> = Vec::new();
    window.push(pair("title", toml_string(settings.window.title.as_str())));
    window.push(pair("width", width));
    window.push(pair("height", height));
    window.push(pair("mode", toml_string(settings.window.mode.as_str())));
    window.push(pair("vsync", vsync));
    assert(pair_views(window@) =~= window_pairs(settings@));
    update_toml_section(text.as_str(), "display.window", &window, true)
}

/// The new text of `project.toml` (as read from disk, or the read error)
/// holding `settings`: it must parse and keep a `[project]` table; then the
/// `[project]` and `[display.window]` keys are rewritten in place.
pub open spec fn spec_saved_settings_text(
    read: Result<Seq<char>, Seq<char>>,
    s: ProjectSettingsView,
) -> Result<Seq<char>, Seq<char>> {
    match read {
        Err(e) => Err("Could not read project.toml: "@ + e),
        Ok(source) => match toml_parse(source) {
            Err(e) => Err("Invalid project.toml: "@ + e),
            Ok(document) => if node_is_table(entry(document, "project"@)) {
                spec_render_project_settings(source, s)
            } else {
                Err("project.toml is missing [project]"@)
            },
        },
    }
}

/// Computes what saving the settings writes to `project.toml` (see
/// `spec_saved_settings_text`); the caller writes it to disk.
pub fn saved_settings_text(read: &Result<String, String>, settings: &ProjectSettings) -> (r: Result<
    String,
    String,
>)
    ensures
        crate::scene::string_result(r) == spec_saved_settings_text(
            crate::project_manager::model::string_result_view(*read),
            settings@,
        ),
{
    let source = match read {
        Ok(s) => s,
        Err(e) => {
            let mut m = owned("Could not read project.toml: ");
            push_str(&mut m, e.as_str());
            return Err(m);
        },
    };
    let document = match parse_toml(source.as_str()) {
        Ok(d) => d,
        Err(e) => {
            let mut m = owned("Invalid project.toml: ");
            push_str(&mut m, e.as_str());
            return Err(m);
        },
    };
    let has_project = match item_get(&document, "project") {
        Some(p) => item_is_table(p),
        None => false,
    };
    if !has_project {
        return Err(owned("project.toml is missing [project]"));
    }
    render_project_settings(source.as_str(), settings)
}


// ---------------------------------------------------------------------
// The settings window.
// ---------------------------------------------------------------------

/// The game resolution the editor shows everywhere.
#[derive(Clone, Copy, Debug, PartialEq, Eq, Structural)]
pub struct ProjectDisplaySettings {
    pub width: u32,
    pub height: u32,
}

impl ProjectDisplaySettings {
    pub fn from_settings(settings: &ProjectSettings) -> (r: Self)
        ensures
            r.width == settings.window.width,
            r.height == settings.window.height,
    {
        ProjectDisplaySettings { width: settings.window.width, height: settings.window.height }
    }
}

/// Kinds of text edit the settings inputs receive.
#[derive(Clone, Copy, Debug, PartialEq, Eq, Structural)]
pub enum EditKind {
    SelectAll,
    Copy,
    Cut,
    Paste,
    Insert,
    Backspace,
    BackspaceWord,
    Delete,
    DeleteWord,
    Other,
}

pub open spec fn spec_edit_replaces_selection(edit: EditKind) -> bool {
    edit == EditKind::Cut || edit == EditKind::Paste || edit == EditKind::Insert || edit
        == EditKind::Backspace || edit == EditKind::BackspaceWord || edit == EditKind::Delete
        || edit == EditKind::DeleteWord
}

/// Whether an edit replaces the selected text.
pub fn edit_replaces_selection(edit: EditKind) -> (r: bool)
    ensures
        r == spec_edit_replaces_selection(edit),
{
    match edit {
        EditKind::Cut | EditKind::Paste | EditKind::Insert | EditKind::Backspace
        | EditKind::BackspaceWord | EditKind::Delete | EditKind::DeleteWord => true,
        _ => false,
    }
}

/// Whether typed `text` may enter `field`: the resolution fields take digits only.
pub fn field_accepts_text(field: ProjectSettingsField, text: &str) -> (r: bool)
    ensures
        r == ((field != ProjectSettingsField::WindowWidth && field != ProjectSettingsField::WindowHeight)
            || all_digits(text@)),
{
    if field != ProjectSettingsField::WindowWidth && field != ProjectSettingsField::WindowHeight {
        return true;
    }
    let v = chars_of(text);
    let mut i: usize = 0;
    while i < v.len()
        invariant
            i <= v.len(),
            v@ == text@,
            field == ProjectSettingsField::WindowWidth || field == ProjectSettingsField::WindowHeight,
            forall|k: int| 0 <= k < i ==> is_ascii_digit(#[trigger] v@[k]),
        decreases v.len() - i,
    {
        if !('0' <= v[i] && v[i] <= '9') {
            assert(!is_ascii_digit(v@[i as int]));
            return false;
        }
        i = i + 1;
    }
    true
}

/// A key as the settings window reads it: its logical meaning.
#[derive(Debug, PartialEq, Eq)]
pub enum KeyPress {
    Character(String),
    Space,
    Escape,
    Copy,
    Cut,
    Paste,
    Backspace,
    Delete,
    ArrowLeft,
    ArrowRight,
    ArrowUp,
    ArrowDown,
    Home,
    End,
    Other,
}

/// The modifier keys held while a key is pressed.
#[derive(Clone, Copy, Debug, PartialEq, Eq, Structural)]
pub struct KeyModifiers {
    pub control: bool,
    pub shift: bool,
    pub alt: bool,
    pub super_key: bool,
}

/// An edit of a text input. The flag of a movement says whether it
/// extends the selection.
#[derive(Debug, PartialEq, Eq)]
pub enum TextEditAction {
    SelectAll,
    Copy,
    Cut,
    Paste,
    Backspace,
    BackspaceWord,
    Delete,
    DeleteWord,
    Left(bool),
    Right(bool),
    WordLeft(bool),
    WordRight(bool),
    Up(bool),
    Down(bool),
    LineStart(bool),
    LineEnd(bool),
    TextStart(bool),
    TextEnd(bool),
    Insert(String),
}

pub open spec fn spec_edit_kind(edit: TextEditAction) -> EditKind {
    match edit {
        TextEditAction::SelectAll => EditKind::SelectAll,
        TextEditAction::Copy => EditKind::Copy,
        TextEditAction::Cut => EditKind::Cut,
        TextEditAction::Paste => EditKind::Paste,
        TextEditAction::Insert(_) => EditKind::Insert,
        TextEditAction::Backspace => EditKind::Backspace,
        TextEditAction::BackspaceWord => EditKind::BackspaceWord,
        TextEditAction::Delete => EditKind::Delete,
        TextEditAction::DeleteWord => EditKind::DeleteWord,
        _ => EditKind::Other,
    }
}

impl TextEditAction {
    pub fn kind(&self) -> (r: EditKind)
        ensures
            r == spec_edit_kind(*self),
    {
        match self {
            TextEditAction::SelectAll => EditKind::SelectAll,
            TextEditAction::Copy => EditKind::Copy,
            TextEditAction::Cut => EditKind::Cut,
            TextEditAction::Paste => EditKind::Paste,
            TextEditAction::Insert(_) => EditKind::Insert,
            TextEditAction::Backspace => EditKind::Backspace,
            TextEditAction::BackspaceWord => EditKind::BackspaceWord,
            TextEditAction::Delete => EditKind::Delete,
            TextEditAction::DeleteWord => EditKind::DeleteWord,
            _ => EditKind::Other,
        }
    }
}

/// The command key: Super on macOS, Control elsewhere.
pub open spec fn command_held(m: KeyModifiers, mac: bool) -> bool {
    if mac {
        m.super_key
    } else {
        m.control
    }
}

/// The key that moves by words: Alt on macOS, Control elsewhere.
pub open spec fn word_held(m: KeyModifiers, mac: bool) -> bool {
    if mac {
        m.alt
    } else {
        m.control
    }
}

/// The edit a key asks for, other than typing text.
pub open spec fn key_edit(key: KeyPress, m: KeyModifiers, mac: bool) -> Option<TextEditAction> {
    let command = command_held(m, mac);
    let word = word_held(m, mac);
    match key {
        KeyPress::Character(c) => if command && eq_ignore_ascii_case(c@, "a"@) {
            Some(TextEditAction::SelectAll)
        } else if command && eq_ignore_ascii_case(c@, "c"@) {
            Some(TextEditAction::Copy)
        } else if command && eq_ignore_ascii_case(c@, "x"@) {
            Some(TextEditAction::Cut)
        } else if command && eq_ignore_ascii_case(c@, "v"@) {
            Some(TextEditAction::Paste)
        } else {
            None
        },
        KeyPress::Copy => Some(TextEditAction::Copy),
        KeyPress::Cut => Some(TextEditAction::Cut),
        KeyPress::Paste => Some(TextEditAction::Paste),
        KeyPress::Backspace => Some(
            if word {
                TextEditAction::BackspaceWord
            } else {
                TextEditAction::Backspace
            },
        ),
        KeyPress::Delete => Some(
            if word {
                TextEditAction::DeleteWord
            } else {
                TextEditAction::Delete
            },
        ),
        KeyPress::ArrowLeft => Some(
            if word {
                TextEditAction::WordLeft(m.shift)
            } else {
                TextEditAction::Left(m.shift)
            },
        ),
        KeyPress::ArrowRight => Some(
            if word {
                TextEditAction::WordRight(m.shift)
            } else {
                TextEditAction::Right(m.shift)
            },
        ),
        KeyPress::ArrowUp => Some(TextEditAction::Up(m.shift)),
        KeyPress::ArrowDown => Some(TextEditAction::Down(m.shift)),
        KeyPress::Home => Some(
            if command {
                TextEditAction::TextStart(m.shift)
            } else {
                TextEditAction::LineStart(m.shift)
            },
        ),
        KeyPress::End => Some(
            if command {
                TextEditAction::TextEnd(m.shift)
            } else {
                TextEditAction::LineEnd(m.shift)
            },
        ),
        _ => None,
    }
}

/// Whether a key types text: a character or the space bar with no
/// command, Alt or Super key held.
pub open spec fn types_text(key: KeyPress, m: KeyModifiers, mac: bool) -> bool {
    (key is Character || key is Space) && !command_held(m, mac) && !m.alt && !m.super_key
}

/// The text a key types: the text the key event carries when it is not
/// empty, else the character itself, or a space for the space bar.
pub open spec fn typed_text(key: KeyPress, text: Option<Seq<char>>) -> Option<Seq<char>> {
    match text {
        Some(t) if t.len() > 0 => Some(t),
        _ => match key {
            KeyPress::Character(c) => Some(c@),
            KeyPress::Space => Some(" "@),
            _ => None,
        },
    }
}

pub open spec fn digits_only(field: ProjectSettingsField) -> bool {
    field == ProjectSettingsField::WindowWidth || field == ProjectSettingsField::WindowHeight
}

/// `r` is the edit a key press makes in a settings input of `field`:
/// a command key's edit, else the typed text (digits only in the
/// resolution fields), else none.
pub open spec fn is_settings_text_edit(
    key: KeyPress,
    text: Option<Seq<char>>,
    mods: KeyModifiers,
    mac: bool,
    field: ProjectSettingsField,
    r: Option<TextEditAction>,
) -> bool {
    match key_edit(key, mods, mac) {
        Some(e) => r == Some(e),
        None => if !types_text(key, mods, mac) {
            r is None
        } else {
            match typed_text(key, text) {
                None => r is None,
                Some(t) => if digits_only(field) && !all_digits(t) {
                    r is None
                } else {
                    r matches Some(TextEditAction::Insert(s)) && s@ == t
                },
            }
        },
    }
}

/// The edit a key press makes in a settings input of `field`, on macOS
/// when `mac`; `text` is the text the key event carries.
pub fn settings_text_edit(
    key: &KeyPress,
    text: Option<&str>,
    mods: KeyModifiers,
    mac: bool,
    field: ProjectSettingsField,
) -> (r: Option<TextEditAction>)
    ensures
        is_settings_text_edit(*key, opt_str_view(text), mods, mac, field, r),
{
    let command = if mac {
        mods.super_key
    } else {
        mods.control
    };
    let word = if mac {
        mods.alt
    } else {
        mods.control
    };
    let shift = mods.shift;
    match key {
        KeyPress::Character(c) => {
            if command {
                let v = chars_of(c.as_str());
                if eq_ignore_ascii_case_exec(&v, &chars_of("a")) {
                    return Some(TextEditAction::SelectAll);
                }
                if eq_ignore_ascii_case_exec(&v, &chars_of("c")) {
                    return Some(TextEditAction::Copy);
                }
                if eq_ignore_ascii_case_exec(&v, &chars_of("x")) {
                    return Some(TextEditAction::Cut);
                }
                if eq_ignore_ascii_case_exec(&v, &chars_of("v")) {
                    return Some(TextEditAction::Paste);
                }
                return None;
            }
        },
        KeyPress::Space => {
            if command {
                return None;
            }
        },
        KeyPress::Copy => {
            return Some(TextEditAction::Copy);
        },
        KeyPress::Cut => {
            return Some(TextEditAction::Cut);
        },
        KeyPress::Paste => {
            return Some(TextEditAction::Paste);
        },
        KeyPress::Backspace => {
            return Some(
                if word {
                    TextEditAction::BackspaceWord
                } else {
                    TextEditAction::Backspace
                },
            );
        },
        KeyPress::Delete => {
            return Some(
                if word {
                    TextEditAction::DeleteWord
                } else {
                    TextEditAction::Delete
                },
            );
        },
        KeyPress::ArrowLeft => {
            return Some(
                if word {
                    TextEditAction::WordLeft(shift)
                } else {
                    TextEditAction::Left(shift)
                },
            );
        },
        KeyPress::ArrowRight => {
            return Some(
                if word {
                    TextEditAction::WordRight(shift)
                } else {
                    TextEditAction::Right(shift)
                },
            );
        },
        KeyPress::ArrowUp => {
            return Some(TextEditAction::Up(shift));
        },
        KeyPress::ArrowDown => {
            return Some(TextEditAction::Down(shift));
        },
        KeyPress::Home => {
            return Some(
                if command {
                    TextEditAction::TextStart(shift)
                } else {
                    TextEditAction::LineStart(shift)
                },
            );
        },
        KeyPress::End => {
            return Some(
                if command {
                    TextEditAction::TextEnd(shift)
                } else {
                    TextEditAction::LineEnd(shift)
                },
            );
        },
        _ => {
            return None;
        },
    }
    if mods.alt || mods.super_key {
        return None;
    }
    let typed: String = match text {
        Some(t) if t.unicode_len() > 0 => t.to_string(),
        _ => match key {
            KeyPress::Character(c) => c.clone(),
            _ => owned(" "),
        },
    };
    if field == ProjectSettingsField::WindowWidth || field == ProjectSettingsField::WindowHeight {
        if !field_accepts_text(field, typed.as_str()) {
            return None;
        }
    }
    Some(TextEditAction::Insert(typed))
}

pub open spec fn opt_str_view(text: Option<&str>) -> Option<Seq<char>> {
    match text {
        Some(t) => Some(t@),
        None => None,
    }
}

/// The settings window: its draft, its status line, and which input is
/// being typed into (an entity id).
#[derive(Debug)]
pub struct ProjectSettingsDialog {
    pub open: bool,
    pub draft: ProjectSettingsDraft,
    pub status: String,
    pub status_is_error: bool,
    pub ignore_input_changes: bool,
    pub active_input: Option<u64>,
    /// The next replacing edit first selects the whole input.
    pub replace_active_input: bool,
}

impl ProjectSettingsDialog {
    /// Opens the window with the saved settings, or with `defaults` and the
    /// error when they could not be loaded.
    pub fn open_with(&mut self, loaded: Result<ProjectSettings, String>, defaults: ProjectSettingsDraft)
        ensures
            final(self).open,
            final(self).ignore_input_changes,
            final(self).active_input is None,
            !final(self).replace_active_input,
            match loaded {
                Ok(s) => final(self).draft.project_name@ == s@.name && final(self).draft.main_scene@
                    == s@.main_scene && !final(self).status_is_error && final(self).status@
                    == "Changes are stored in project.toml and used by the next game launch."@,
                Err(e) => final(self).draft == defaults && final(self).status_is_error
                    && final(self).status@ == e@,
            },
    {
        match loaded {
            Ok(settings) => {
                self.draft = ProjectSettingsDraft::from_settings(settings);
                self.status = owned("Changes are stored in project.toml and used by the next game launch.");
                self.status_is_error = false;
            },
            Err(error) => {
                self.draft = defaults;
                self.status = error;
                self.status_is_error = true;
            },
        }
        self.open = true;
        self.ignore_input_changes = true;
        self.active_input = None;
        self.replace_active_input = false;
    }

    /// Closes the window (Cancel, Escape, or the window's close button).
    pub fn close(&mut self)
        ensures
            !final(self).open,
            final(self).active_input is None,
            !final(self).replace_active_input,
            final(self).draft == old(self).draft,
            final(self).status == old(self).status,
    {
        self.open = false;
        self.active_input = None;
        self.replace_active_input = false;
    }

    pub fn mark_unsaved(&mut self)
        ensures
            final(self).status@ == "Unsaved changes"@,
            !final(self).status_is_error,
            final(self).open == old(self).open,
            final(self).draft == old(self).draft,
    {
        self.status = owned("Unsaved changes");
        self.status_is_error = false;
    }

    /// Use Current Scene: `relative` is the open scene's path inside the
    /// project (or why it is not inside), `None` when no scene has a path.
    pub fn use_current_scene(&mut self, relative: Option<Result<String, String>>)
        ensures
            match relative {
                None => final(self).status@ == "Save or open a scene before setting the main scene."@
                    && final(self).status_is_error && final(self).draft == old(self).draft,
                Some(Err(e)) => final(self).status@ == e@ && final(self).status_is_error
                    && final(self).draft == old(self).draft,
                Some(Ok(p)) => final(self).draft.main_scene@ == p@ && final(self).status@
                    == "Unsaved changes"@ && !final(self).status_is_error,
            },
    {
        match relative {
            None => {
                self.status = owned("Save or open a scene before setting the main scene.");
                self.status_is_error = true;
            },
            Some(Err(e)) => {
                self.status = e;
                self.status_is_error = true;
            },
            Some(Ok(p)) => {
                self.draft.main_scene = p;
                self.mark_unsaved();
            },
        }
    }

    pub fn set_window_mode(&mut self, mode: String)
        ensures
            final(self).draft.window_mode@ == mode@,
            final(self).status@ == "Unsaved changes"@,
            !final(self).status_is_error,
    {
        self.draft.window_mode = mode;
        self.mark_unsaved();
    }

    pub fn set_vsync(&mut self, vsync: bool)
        ensures
            final(self).draft.vsync == vsync,
            final(self).status@ == "Unsaved changes"@,
            !final(self).status_is_error,
    {
        self.draft.vsync = vsync;
        self.mark_unsaved();
    }

    /// Apply finished: the status shows success or the error. On success
    /// the new display resolution is returned.
    pub fn finish_apply(&mut self, result: Result<ProjectSettings, String>) -> (r: Option<ProjectDisplaySettings>)
        ensures
            match result {
                Ok(s) => r == Some(ProjectDisplaySettings { width: s.window.width, height: s.window.height })
                    && final(self).status@ == "Project settings saved successfully."@
                    && !final(self).status_is_error,
                Err(e) => r is None && final(self).status@ == e@ && final(self).status_is_error,
            },
            final(self).open == old(self).open,
            final(self).draft == old(self).draft,
    {
        match result {
            Ok(settings) => {
                self.status = owned("Project settings saved successfully.");
                self.status_is_error = false;
                Some(ProjectDisplaySettings::from_settings(&settings))
            },
            Err(e) => {
                self.status = e;
                self.status_is_error = true;
                None
            },
        }
    }

    /// A press on a settings input makes it the active one; its next
    /// replacing edit first selects everything.
    pub fn activate_input(&mut self, input: u64)
        ensures
            old(self).open ==> final(self).active_input == Some(input) && final(self).replace_active_input,
            !old(self).open ==> final(self).active_input == old(self).active_input
                && final(self).replace_active_input == old(self).replace_active_input,
            final(self).open == old(self).open,
    {
        if !self.open {
            return;
        }
        self.active_input = Some(input);
        self.replace_active_input = true;
    }

    /// A key edit for the active input: returns whether a Select All must
    /// be queued before it. Only the first replacing edit after activation does.
    pub fn route_edit(&mut self, edit: EditKind) -> (r: bool)
        ensures
            r == (old(self).replace_active_input && spec_edit_replaces_selection(edit)),
            !final(self).replace_active_input,
            final(self).open == old(self).open,
            final(self).active_input == old(self).active_input,
            final(self).draft == old(self).draft,
            final(self).status == old(self).status,
    {
        let replaces = edit_replaces_selection(edit);
        if self.replace_active_input && replaces {
            self.replace_active_input = false;
            true
        } else {
            if !replaces {
                self.replace_active_input = false;
            }
            false
        }
    }
}

impl ProjectSettingsDialog {
    /// A key pressed in the open settings window. `field` is the field of
    /// the active input, `None` when that input no longer exists. Escape
    /// closes the window. Returns the edit to queue for the active input,
    /// and whether a Select All must be queued before it.
    pub fn key_pressed(
        &mut self,
        key: &KeyPress,
        text: Option<&str>,
        mods: KeyModifiers,
        mac: bool,
        field: Option<ProjectSettingsField>,
    ) -> (r: Option<(bool, TextEditAction)>)
        ensures
            final(self).draft == old(self).draft,
            final(self).status == old(self).status,
            !old(self).open ==> r is None && !final(self).open && final(self).active_input
                == old(self).active_input && final(self).replace_active_input == old(self).replace_active_input,
            old(self).open && key is Escape ==> r is None && !final(self).open
                && final(self).active_input is None && !final(self).replace_active_input,
            old(self).open && !(key is Escape) ==> final(self).open,
            old(self).open && !(key is Escape) && old(self).active_input is None ==> r is None
                && final(self).active_input is None && final(self).replace_active_input
                == old(self).replace_active_input,
            old(self).open && !(key is Escape) && old(self).active_input is Some && field is None ==> r is None
                && final(self).active_input is None && !final(self).replace_active_input,
            old(self).open && !(key is Escape) && old(self).active_input is Some && field is Some ==> {
                &&& final(self).active_input == old(self).active_input
                &&& match r {
                    None => is_settings_text_edit(*key, opt_str_view(text), mods, mac, field->0, None)
                        && final(self).replace_active_input == old(self).replace_active_input,
                    Some((first, edit)) => is_settings_text_edit(
                        *key,
                        opt_str_view(text),
                        mods,
                        mac,
                        field->0,
                        Some(edit),
                    ) && first == (old(self).replace_active_input && spec_edit_replaces_selection(
                        spec_edit_kind(edit),
                    )) && !final(self).replace_active_input,
                }
            },
    {
        if !self.open {
            return None;
        }
        if let KeyPress::Escape = key {
            self.close();
            return None;
        }
        if self.active_input.is_none() {
            return None;
        }
        let f = match field {
            Some(f) => f,
            None => {
                self.active_input = None;
                self.replace_active_input = false;
                return None;
            },
        };
        match settings_text_edit(key, text, mods, mac, f) {
            None => None,
            Some(edit) => {
                let first = self.route_edit(edit.kind());
                Some((first, edit))
            },
        }
    }
}

/// Escape in the editor closes the settings window and the Project menu.
pub fn settings_escape(dialog: &mut ProjectSettingsDialog, menu: &mut ProjectMenuState)
    ensures
        !final(dialog).open,
        !final(menu).open,
        final(dialog).active_input == old(dialog).active_input,
        final(dialog).replace_active_input == old(dialog).replace_active_input,
        final(dialog).draft == old(dialog).draft,
        final(dialog).status == old(dialog).status,
{
    dialog.open = false;
    menu.open = false;
}

/// The Project menu's drop-down.
#[derive(Clone, Copy, Debug, Default, PartialEq, Eq, Structural)]
pub struct ProjectMenuState {
    pub open: bool,
}

impl ProjectMenuState {
    pub fn toggle(&mut self)
        ensures
            final(self).open == !old(self).open,
    {
        self.open = !self.open;
    }

    /// A left click closes the open menu unless the pointer is over the menu.
    pub fn click(&mut self, pointer_inside: bool)
        ensures
            final(self).open == (old(self).open && pointer_inside),
    {
        if self.open && !pointer_inside {
            self.open = false;
        }
    }
}

} // verus!
