//! Minimal `.env` syntax: `KEY=VALUE` lines, no interpolation.

use crate::seqs::{
    first_index, is_first, lemma_first_absent, lemma_first_found, lemma_first_meets,
};
use crate::text::{chars_of, spell, views};
use vstd::prelude::*;

verus! {

/// Whether a character is white space.
pub open spec fn is_space(c: char) -> bool {
    let n = c as int;
    ||| 0x9 <= n <= 0xd
    ||| n == 0x20
    ||| n == 0x85
    ||| n == 0xa0
    ||| n == 0x1680
    ||| 0x2000 <= n <= 0x200a
    ||| n == 0x2028
    ||| n == 0x2029
    ||| n == 0x202f
    ||| n == 0x205f
    ||| n == 0x3000
}

fn space(c: char) -> (r: bool)
    ensures
        r == is_space(c),
{
    ('\u{9}' <= c && c <= '\u{d}') || c == ' ' || c == '\u{85}' || c == '\u{a0}' || c == '\u{1680}'
        || ('\u{2000}' <= c && c <= '\u{200a}') || c == '\u{2028}' || c == '\u{2029}' || c
        == '\u{202f}' || c == '\u{205f}' || c == '\u{3000}'
}

/// The text without leading white space.
pub open spec fn trim_start(s: Seq<char>) -> Seq<char>
    decreases s.len(),
{
    if s.len() > 0 && is_space(s[0]) {
        trim_start(s.skip(1))
    } else {
        s
    }
}

/// The text without trailing white space.
pub open spec fn trim_end(s: Seq<char>) -> Seq<char>
    decreases s.len(),
{
    if s.len() > 0 && is_space(s.last()) {
        trim_end(s.drop_last())
    } else {
        s
    }
}

/// The text without white space around it.
pub open spec fn trim(s: Seq<char>) -> Seq<char> {
    trim_end(trim_start(s))
}

/// Whether a character is `c`.
pub open spec fn is_char(c: char) -> spec_fn(char) -> bool {
    |x: char| x == c
}

/// Whether a text holds white space.
pub open spec fn has_space(s: Seq<char>) -> bool {
    exists|i: int| 0 <= i < s.len() && is_space(#[trigger] s[i])
}

/// A value without one layer of matching quotes; in an unquoted value `#` starts
/// a comment.
pub open spec fn unquoted(v: Seq<char>) -> Seq<char> {
    if v.len() >= 2 && (v[0] == '"' && v.last() == '"' || v[0] == '\'' && v.last() == '\'') {
        v.subrange(1, v.len() - 1)
    } else {
        match first_index(v, is_char('#')) {
            Some(i) => trim_end(v.take(i)),
            None => v,
        }
    }
}

/// The line without an `export ` in front.
pub open spec fn unexported(line: Seq<char>) -> Seq<char> {
    if line.len() >= 7 && line.take(7) == "export "@ {
        line.skip(7)
    } else {
        line
    }
}

/// The pair a `KEY=VALUE` text holds, unless it is malformed.
pub open spec fn assignment(body: Seq<char>) -> Option<(Seq<char>, Seq<char>)> {
    match first_index(body, is_char('=')) {
        None => None,
        Some(i) => {
            let key = trim(body.take(i));
            if key.len() == 0 || has_space(key) {
                None
            } else {
                Some((key, unquoted(trim(body.skip(i + 1)))))
            }
        },
    }
}

/// The pair one line holds. Blank lines, comments and malformed lines hold none.
pub open spec fn line_entry(s: Seq<char>) -> Option<(Seq<char>, Seq<char>)> {
    let line = trim(s);
    if line.len() == 0 || line[0] == '#' {
        None
    } else {
        assignment(trim_start(unexported(line)))
    }
}

/// The pairs one line holds: one or none.
pub open spec fn line_entries(s: Seq<char>) -> Seq<(Seq<char>, Seq<char>)> {
    match line_entry(s) {
        Some(entry) => seq![entry],
        None => Seq::empty(),
    }
}

/// The pairs a text holds, line by line.
pub open spec fn entries(text: Seq<char>) -> Seq<(Seq<char>, Seq<char>)>
    decreases text.len(),
{
    match first_index(text, is_char('\n')) {
        None => line_entries(text),
        Some(i) => if 0 <= i < text.len() {
            line_entries(text.take(i)) + entries(text.skip(i + 1))
        } else {
            Seq::empty()
        },
    }
}

/// The views of a list of pairs.
pub open spec fn entry_views(pairs: Seq<(String, String)>) -> Seq<(Seq<char>, Seq<char>)> {
    pairs.map_values(|p: (String, String)| (p.0@, p.1@))
}

fn skip_space(chars: &Vec<char>, from: usize, to: usize) -> (r: usize)
    requires
        from <= to <= chars@.len(),
    ensures
        from <= r <= to,
        chars@.subrange(r as int, to as int) == trim_start(
            chars@.subrange(from as int, to as int),
        ),
{
    let mut i: usize = from;
    while i < to && space(chars[i])
        invariant
            from <= i <= to <= chars@.len(),
            trim_start(chars@.subrange(from as int, to as int)) == trim_start(
                chars@.subrange(i as int, to as int),
            ),
        decreases to - i,
    {
        assert(chars@.subrange(i as int, to as int).skip(1) =~= chars@.subrange(
            i + 1,
            to as int,
        ));
        i = i + 1;
    }
    i
}

fn drop_space(chars: &Vec<char>, from: usize, to: usize) -> (r: usize)
    requires
        from <= to <= chars@.len(),
    ensures
        from <= r <= to,
        chars@.subrange(from as int, r as int) == trim_end(
            chars@.subrange(from as int, to as int),
        ),
{
    let mut i: usize = to;
    while i > from && space(chars[i - 1])
        invariant
            from <= i <= to <= chars@.len(),
            trim_end(chars@.subrange(from as int, to as int)) == trim_end(
                chars@.subrange(from as int, i as int),
            ),
        decreases i,
    {
        assert(chars@.subrange(from as int, i as int).drop_last() =~= chars@.subrange(
            from as int,
            i - 1,
        ));
        i = i - 1;
    }
    i
}

fn trim_range(chars: &Vec<char>, from: usize, to: usize) -> (r: (usize, usize))
    requires
        from <= to <= chars@.len(),
    ensures
        from <= r.0 <= r.1 <= to,
        chars@.subrange(r.0 as int, r.1 as int) == trim(chars@.subrange(from as int, to as int)),
{
    let start = skip_space(chars, from, to);
    let end = drop_space(chars, start, to);
    (start, end)
}

fn find(chars: &Vec<char>, from: usize, to: usize, c: char) -> (r: Option<usize>)
    requires
        from <= to <= chars@.len(),
    ensures
        match r {
            Some(i) => from <= i < to && first_index(
                chars@.subrange(from as int, to as int),
                is_char(c),
            ) == Some((i - from) as int),
            None => first_index(chars@.subrange(from as int, to as int), is_char(c)) is None,
        },
{
    let ghost s = chars@.subrange(from as int, to as int);
    let mut i: usize = from;
    while i < to
        invariant
            from <= i <= to <= chars@.len(),
            s == chars@.subrange(from as int, to as int),
            forall|j: int| 0 <= j < i - from ==> !is_char(c)(#[trigger] s[j]),
        decreases to - i,
    {
        assert(s[i - from] == chars@[i as int]);
        if chars[i] == c {
            proof {
                assert(is_first(s, is_char(c), (i - from) as int));
                lemma_first_found(s, is_char(c), (i - from) as int);
            }
            return Some(i);
        }
        i = i + 1;
    }
    proof {
        lemma_first_absent(s, is_char(c));
    }
    None
}

fn holds_space(chars: &Vec<char>, from: usize, to: usize) -> (r: bool)
    requires
        from <= to <= chars@.len(),
    ensures
        r == has_space(chars@.subrange(from as int, to as int)),
{
    let ghost s = chars@.subrange(from as int, to as int);
    let mut i: usize = from;
    while i < to
        invariant
            from <= i <= to <= chars@.len(),
            s == chars@.subrange(from as int, to as int),
            forall|j: int| 0 <= j < i - from ==> !is_space(#[trigger] s[j]),
        decreases to - i,
    {
        assert(s[i - from] == chars@[i as int]);
        if space(chars[i]) {
            return true;
        }
        i = i + 1;
    }
    false
}

/// Strips one layer of matching quotes; `#` starts a comment in unquoted values.
fn unquote(chars: &Vec<char>, from: usize, to: usize) -> (r: String)
    requires
        from <= to <= chars@.len(),
    ensures
        r@ == unquoted(chars@.subrange(from as int, to as int)),
{
    let ghost v = chars@.subrange(from as int, to as int);
    if to - from >= 2 {
        let head = chars[from];
        let last = chars[to - 1];
        assert(v[0] == head && v.last() == last);
        if (head == '"' && last == '"') || (head == '\'' && last == '\'') {
            assert(v.subrange(1, v.len() - 1) =~= chars@.subrange(from + 1, to - 1));
            return spell(chars, from + 1, to - 1);
        }
    }
    match find(chars, from, to, '#') {
        Some(i) => {
            let end = drop_space(chars, from, i);
            assert(v.take(i - from) =~= chars@.subrange(from as int, i as int));
            spell(chars, from, end)
        },
        None => spell(chars, from, to),
    }
}

fn starts_with_export(chars: &Vec<char>, from: usize, to: usize) -> (r: bool)
    requires
        from <= to <= chars@.len(),
    ensures
        r == ({
            let line = chars@.subrange(from as int, to as int);
            line.len() >= 7 && line.take(7) == "export "@
        }),
{
    proof {
        reveal_strlit("export ");
    }
    if to - from < 7 {
        return false;
    }
    let ghost head = chars@.subrange(from as int, to as int).take(7);
    let r = chars[from] == 'e' && chars[from + 1] == 'x' && chars[from + 2] == 'p' && chars[from + 3]
        == 'o' && chars[from + 4] == 'r' && chars[from + 5] == 't' && chars[from + 6] == ' ';
    proof {
        assert(head[0] == chars@[from as int]);
        assert(head[1] == chars@[from + 1]);
        assert(head[2] == chars@[from + 2]);
        assert(head[3] == chars@[from + 3]);
        assert(head[4] == chars@[from + 4]);
        assert(head[5] == chars@[from + 5]);
        assert(head[6] == chars@[from + 6]);
        if r {
            assert(head =~= "export "@);
        }
    }
    r
}

fn parse_line(chars: &Vec<char>, from: usize, to: usize) -> (r: Option<(String, String)>)
    requires
        from <= to <= chars@.len(),
    ensures
        match line_entry(chars@.subrange(from as int, to as int)) {
            Some(entry) => r matches Some(p) && (p.0@, p.1@) == entry,
            None => r is None,
        },
{
    let (start, end) = trim_range(chars, from, to);
    let ghost line = chars@.subrange(start as int, end as int);
    if start == end {
        return None;
    }
    assert(line[0] == chars@[start as int]);
    if chars[start] == '#' {
        return None;
    }
    let unprefixed: usize = if starts_with_export(chars, start, end) {
        assert(line.skip(7) =~= chars@.subrange(start + 7, end as int));
        start + 7
    } else {
        start
    };
    let at = skip_space(chars, unprefixed, end);
    let ghost body = chars@.subrange(at as int, end as int);
    match find(chars, at, end, '=') {
        None => None,
        Some(i) => {
            let (key_start, key_end) = trim_range(chars, at, i);
            assert(body.take(i - at) =~= chars@.subrange(at as int, i as int));
            if key_start == key_end || holds_space(chars, key_start, key_end) {
                return None;
            }
            let (value_start, value_end) = trim_range(chars, i + 1, end);
            assert(body.skip(i - at + 1) =~= chars@.subrange(i + 1, end as int));
            Some((spell(chars, key_start, key_end), unquote(chars, value_start, value_end)))
        },
    }
}

/// Parses dotenv text into key/value pairs. Supports comments, blank lines, an
/// optional `export ` prefix, and single- or double-quoted values. Malformed lines
/// are skipped.
pub fn parse(text: &str) -> (r: Vec<(String, String)>)
    ensures
        entry_views(r@) == entries(text@),
{
    let chars = chars_of(text);
    let len: usize = chars.len();
    let mut pairs: Vec<(String, String)> = Vec::new();
    let mut start: usize = 0;
    proof {
        assert(chars@.subrange(0, len as int) =~= text@);
        assert(entry_views(pairs@) + entries(text@) =~= entries(text@));
    }
    loop
        invariant
            start <= len,
            len == chars@.len(),
            entry_views(pairs@) + entries(chars@.subrange(start as int, len as int)) == entries(
                text@,
            ),
        decreases len - start,
    {
        let ghost rest = chars@.subrange(start as int, len as int);
        let found = find(&chars, start, len, '\n');
        let end: usize = match found {
            Some(i) => i,
            None => len,
        };
        let ghost line = chars@.subrange(start as int, end as int);
        let ghost before = entry_views(pairs@);
        match parse_line(&chars, start, end) {
            Some(pair) => {
                assert(entry_views(pairs@.push(pair)) =~= before.push((pair.0@, pair.1@)));
                pairs.push(pair);
                assert(entry_views(pairs@) =~= before + line_entries(line));
            },
            None => {
                assert(entry_views(pairs@) =~= before + line_entries(line));
            },
        }
        match found {
            Some(i) => {
                assert(rest.take(i - start) =~= line);
                assert(rest.skip(i - start + 1) =~= chars@.subrange(i + 1, len as int));
                assert(entry_views(pairs@) + entries(chars@.subrange(i + 1, len as int)) =~= before
                    + entries(rest));
                start = i + 1;
            },
            None => {
                assert(line =~= rest);
                return pairs;
            },
        }
    }
}

/// Whether a list of pairs has `key`.
pub open spec fn assigns(pairs: Seq<(Seq<char>, Seq<char>)>, key: Seq<char>) -> bool {
    exists|i: int| 0 <= i < pairs.len() && (#[trigger] pairs[i]).0 == key
}

/// The pairs to set, in order: those whose key is not set already, each key once,
/// with its first value.
pub open spec fn to_set(pairs: Seq<(Seq<char>, Seq<char>)>, present: Seq<Seq<char>>) -> Seq<
    (Seq<char>, Seq<char>),
>
    decreases pairs.len(),
{
    if pairs.len() == 0 {
        Seq::empty()
    } else {
        let before = to_set(pairs.drop_last(), present);
        if present.contains(pairs.last().0) || assigns(before, pairs.last().0) {
            before
        } else {
            before.push(pairs.last())
        }
    }
}

fn is_present(present: &Vec<String>, key: &String) -> (r: bool)
    ensures
        r == views(present@).contains(key@),
{
    let ghost rows = views(present@);
    let mut i: usize = 0;
    while i < present.len()
        invariant
            i <= present@.len(),
            rows == views(present@),
            forall|j: int| 0 <= j < i ==> rows[j] != key@,
        decreases present@.len() - i,
    {
        assert(rows[i as int] == present@[i as int]@);
        if present[i] == *key {
            return true;
        }
        i = i + 1;
    }
    false
}

fn is_assigned(pairs: &Vec<(String, String)>, key: &String) -> (r: bool)
    ensures
        r == assigns(entry_views(pairs@), key@),
{
    let ghost rows = entry_views(pairs@);
    let mut i: usize = 0;
    while i < pairs.len()
        invariant
            i <= pairs@.len(),
            rows == entry_views(pairs@),
            forall|j: int| 0 <= j < i ==> (#[trigger] rows[j]).0 != key@,
        decreases pairs@.len() - i,
    {
        assert(rows[i as int].0 == pairs@[i as int].0@);
        if pairs[i].0 == *key {
            return true;
        }
        i = i + 1;
    }
    false
}

/// The pairs to set so that nothing already set, and nothing set before, is
/// overridden.
pub fn unset(pairs: &Vec<(String, String)>, present: &Vec<String>) -> (r: Vec<(String, String)>)
    ensures
        entry_views(r@) == to_set(entry_views(pairs@), views(present@)),
{
    let ghost rows = entry_views(pairs@);
    let ghost taken = views(present@);
    let mut out: Vec<(String, String)> = Vec::new();
    let mut i: usize = 0;
    assert(entry_views(out@) =~= to_set(rows.take(0), taken));
    while i < pairs.len()
        invariant
            i <= pairs@.len(),
            rows == entry_views(pairs@),
            taken == views(present@),
            entry_views(out@) == to_set(rows.take(i as int), taken),
        decreases pairs@.len() - i,
    {
        proof {
            assert(rows.take(i + 1).drop_last() =~= rows.take(i as int));
            assert(rows.take(i + 1).last() == (pairs@[i as int].0@, pairs@[i as int].1@));
        }
        if !is_present(present, &pairs[i].0) && !is_assigned(&out, &pairs[i].0) {
            let pair = (pairs[i].0.clone(), pairs[i].1.clone());
            assert(entry_views(out@.push(pair)) =~= entry_views(out@).push((pair.0@, pair.1@)));
            out.push(pair);
        }
        i = i + 1;
    }
    assert(rows.take(i as int) =~= rows);
    out
}

/// Nothing that is set already is ever overridden.
pub proof fn law_nothing_set_is_overridden(
    pairs: Seq<(Seq<char>, Seq<char>)>,
    present: Seq<Seq<char>>,
    i: int,
)
    requires
        0 <= i < to_set(pairs, present).len(),
    ensures
        !present.contains(to_set(pairs, present)[i].0),
    decreases pairs.len(),
{
    if pairs.len() > 0 {
        let before = to_set(pairs.drop_last(), present);
        if i < before.len() {
            law_nothing_set_is_overridden(pairs.drop_last(), present, i);
        }
    }
}

/// Lines are parsed one by one: the pairs of two texts with a line break between
/// them are the pairs of the first, then those of the second.
pub proof fn law_lines_are_parsed_one_by_one(text: Seq<char>, rest: Seq<char>)
    ensures
        entries(text + seq!['\n'] + rest) == entries(text) + entries(rest),
    decreases text.len(),
{
    let whole = text + seq!['\n'] + rest;
    lemma_first_meets(text, is_char('\n'));
    match first_index(text, is_char('\n')) {
        None => {
            let at = text.len() as int;
            assert forall|j: int| 0 <= j < at implies !is_char('\n')(#[trigger] whole[j]) by {
                assert(whole[j] == text[j]);
            }
            assert(is_first(whole, is_char('\n'), at));
            lemma_first_found(whole, is_char('\n'), at);
            assert(whole.take(at) =~= text);
            assert(whole.skip(at + 1) =~= rest);
        },
        Some(i) => {
            assert forall|j: int| 0 <= j < i implies !is_char('\n')(#[trigger] whole[j]) by {
                assert(whole[j] == text[j]);
            }
            assert(whole[i] == text[i]);
            assert(is_first(whole, is_char('\n'), i));
            lemma_first_found(whole, is_char('\n'), i);
            let more = text.skip(i + 1);
            law_lines_are_parsed_one_by_one(more, rest);
            assert(whole.take(i) =~= text.take(i));
            assert(whole.skip(i + 1) =~= more + seq!['\n'] + rest);
            assert(line_entries(text.take(i)) + (entries(more) + entries(rest)) =~= line_entries(
                text.take(i),
            ) + entries(more) + entries(rest));
        },
    }
}

/// A parsed key is never empty and holds no white space.
pub proof fn law_a_key_is_one_word(body: Seq<char>)
    ensures
        assignment(body) matches Some(pair) ==> pair.0.len() > 0 && !has_space(pair.0),
{
}

} // verus!
