//! What `.env` syntax promises: how values, quotes, comments, blanks and the
//! `export` prefix are read, and which pairs are set.

use crate::dotenv::{
    assignment, assigns, entries, has_space, is_char, is_space, line_entries, to_set, trim,
    trim_end, trim_start, unexported, unquoted,
};
use crate::seqs::{is_first, lemma_first_absent, lemma_first_found};
use vstd::prelude::*;

verus! {

/// Whether a text is white space alone.
pub open spec fn blank(s: Seq<char>) -> bool {
    forall|i: int| 0 <= i < s.len() ==> is_space(#[trigger] s[i])
}

/// Whether a text neither begins nor ends with white space.
pub open spec fn tight(s: Seq<char>) -> bool {
    s.len() > 0 ==> !is_space(s[0]) && !is_space(s.last())
}

/// Whether a text does not hold a character.
pub open spec fn lacks(s: Seq<char>, c: char) -> bool {
    forall|i: int| 0 <= i < s.len() ==> #[trigger] s[i] != c
}

/// Whether a value stands in matching quotes.
pub open spec fn is_quoted(v: Seq<char>) -> bool {
    &&& v.len() >= 2
    &&& v[0] == v.last()
    &&& v[0] == '"' || v[0] == '\''
}

/// Blanks, tabs and line ends are white space; printable ASCII is not.
pub proof fn law_printable_text_is_no_white_space(c: char)
    ensures
        c == ' ' || c == '\t' || c == '\n' || c == '\r' ==> is_space(c),
        0x21 <= c as int <= 0x7e ==> !is_space(c),
{
}

/// An unquoted value without `#` is kept character for character, whatever blanks it
/// holds inside.
pub proof fn law_a_plain_value_is_kept(v: Seq<char>)
    requires
        lacks(v, '#'),
        !is_quoted(v),
    ensures
        unquoted(v) == v,
{
    lemma_first_absent(v, is_char('#'));
}

/// A quoted value is what stands between its quotes, whatever it holds.
pub proof fn law_a_quoted_value_is_what_stands_inside(inner: Seq<char>, quote: char)
    requires
        quote == '"' || quote == '\'',
    ensures
        unquoted(seq![quote] + inner + seq![quote]) == inner,
{
    let v = seq![quote] + inner + seq![quote];
    assert(v.subrange(1, v.len() - 1) =~= inner);
}

/// In an unquoted value the first `#` begins a comment: what is left is the text in
/// front of it without the blanks before the `#`.
pub proof fn law_a_comment_ends_an_unquoted_value(
    value: Seq<char>,
    gap: Seq<char>,
    comment: Seq<char>,
)
    requires
        tight(value),
        blank(gap),
        lacks(value, '#'),
        !is_quoted(value + gap + seq!['#'] + comment),
    ensures
        unquoted(value + gap + seq!['#'] + comment) == value,
{
    let v = value + gap + seq!['#'] + comment;
    let at = (value.len() + gap.len()) as int;
    assert forall|j: int| 0 <= j < at implies !is_char('#')(#[trigger] v[j]) by {
        if j < value.len() {
            assert(v[j] == value[j]);
        } else {
            assert(v[j] == gap[j - value.len()]);
            assert(is_space(gap[j - value.len()]));
        }
    }
    assert(is_first(v, is_char('#'), at));
    lemma_first_found(v, is_char('#'), at);
    assert(v.take(at) =~= value + gap);
    lemma_trim_end(value, gap);
}

proof fn lemma_trim_start(lead: Seq<char>, s: Seq<char>)
    requires
        blank(lead),
    ensures
        trim_start(lead + s) == trim_start(s),
    decreases lead.len(),
{
    if lead.len() > 0 {
        let rest = lead.skip(1);
        assert(blank(rest)) by {
            assert forall|i: int| 0 <= i < rest.len() implies is_space(#[trigger] rest[i]) by {
                assert(is_space(lead[i + 1]));
            }
        }
        lemma_trim_start(rest, s);
        assert(is_space(lead[0]));
        assert((lead + s).skip(1) =~= rest + s);
    } else {
        assert(lead + s =~= s);
    }
}

proof fn lemma_trim_end(s: Seq<char>, tail: Seq<char>)
    requires
        blank(tail),
        tight(s),
    ensures
        trim_end(s + tail) == s,
    decreases tail.len(),
{
    if tail.len() > 0 {
        let rest = tail.drop_last();
        let n = tail.len() - 1;
        assert(blank(rest)) by {
            assert forall|i: int| 0 <= i < rest.len() implies is_space(#[trigger] rest[i]) by {
                assert(is_space(tail[i]));
            }
        }
        lemma_trim_end(s, rest);
        assert(is_space(tail[n]));
        assert((s + tail).drop_last() =~= s + rest);
        assert((s + tail).last() == tail[n]);
    } else {
        assert(s + tail =~= s);
    }
}

/// Trimming takes the white space around a text, and nothing else.
pub proof fn law_trimming_takes_the_blanks_around(
    lead: Seq<char>,
    s: Seq<char>,
    tail: Seq<char>,
)
    requires
        blank(lead),
        blank(tail),
        tight(s),
    ensures
        trim(lead + s + tail) == s,
{
    assert(lead + s + tail =~= lead + (s + tail));
    lemma_trim_start(lead, s + tail);
    if s.len() > 0 {
        assert((s + tail)[0] == s[0]);
        lemma_trim_end(s, tail);
    } else {
        let none = Seq::<char>::empty();
        assert(s + tail =~= tail + none);
        lemma_trim_start(tail, none);
        assert(s =~= none);
    }
}

proof fn lemma_one_line(text: Seq<char>)
    requires
        lacks(text, '\n'),
    ensures
        entries(text) == line_entries(text),
{
    lemma_first_absent(text, is_char('\n'));
}

proof fn lemma_no_export(key: Seq<char>, rest: Seq<char>)
    requires
        key.len() > 0,
        !has_space(key),
        rest.len() > 0,
        rest[0] == '=' || is_space(rest[0]),
        key != "export"@,
    ensures
        unexported(key + rest) == key + rest,
{
    reveal_strlit("export ");
    reveal_strlit("export");
    let line = key + rest;
    if line.len() >= 7 && line.take(7) == "export "@ {
        let head = line.take(7);
        assert(head[6] == ' ');
        assert(head[0] == 'e' && head[1] == 'x' && head[2] == 'p' && head[3] == 'o' && head[4]
            == 'r' && head[5] == 't');
        if key.len() >= 7 {
            assert(key[6] == head[6]);
            assert(is_space(key[6]));
        } else if key.len() == 6 {
            assert(key =~= "export"@) by {
                assert(key[0] == head[0] && key[1] == head[1] && key[2] == head[2] && key[3]
                    == head[3] && key[4] == head[4] && key[5] == head[5]);
            }
        } else {
            let n = key.len() as int;
            assert(line[n] == rest[0]);
            assert(head[n] == rest[0]);
        }
    }
}

proof fn lemma_assignment(key: Seq<char>, gap: Seq<char>, rest: Seq<char>)
    requires
        key.len() > 0,
        !has_space(key),
        lacks(key, '='),
        blank(gap),
    ensures
        assignment(key + gap + seq!['='] + rest) == Some((key, unquoted(trim(rest)))),
{
    let body = key + gap + seq!['='] + rest;
    let at = (key.len() + gap.len()) as int;
    assert forall|j: int| 0 <= j < at implies !is_char('=')(#[trigger] body[j]) by {
        if j < key.len() {
            assert(body[j] == key[j]);
        } else {
            assert(body[j] == gap[j - key.len()]);
            assert(is_space(gap[j - key.len()]));
        }
    }
    assert(is_first(body, is_char('='), at));
    lemma_first_found(body, is_char('='), at);
    let none = Seq::<char>::empty();
    assert(body.take(at) =~= none + key + gap);
    assert(body.skip(at + 1) =~= rest);
    assert(tight(key)) by {
        assert(!is_space(key[0]));
        assert(!is_space(key[key.len() - 1]));
    }
    law_trimming_takes_the_blanks_around(none, key, gap);
}

/// What stands behind the `=` of a line that ends with `value` and blanks.
proof fn lemma_value(lead: Seq<char>, value: Seq<char>)
    requires
        blank(lead),
        tight(value),
    ensures
        trim(lead + value) == value,
{
    let none = Seq::<char>::empty();
    assert(lead + value + none =~= lead + value);
    law_trimming_takes_the_blanks_around(lead, value, none);
}

proof fn lemma_line(head: Seq<char>, gap: Seq<char>, value: Seq<char>, tail: Seq<char>) -> (r: Seq<
    char,
>)
    requires
        head.len() > 0,
        tight(head),
        blank(gap),
        blank(tail),
        tight(value),
    ensures
        trim_end(head + gap + value + tail) == head + r,
        trim(r) == value,
        value.len() > 0 ==> r == gap + value,
{
    let none = Seq::<char>::empty();
    if value.len() > 0 {
        let whole = head + gap + value;
        assert(whole.last() == value.last());
        assert(whole[0] == head[0]);
        lemma_trim_end(whole, tail);
        lemma_value(gap, value);
        assert(whole =~= head + (gap + value));
        gap + value
    } else {
        let blanks = gap + tail;
        assert(blank(blanks)) by {
            assert forall|i: int| 0 <= i < blanks.len() implies is_space(#[trigger] blanks[i]) by {
                if i < gap.len() {
                    assert(is_space(gap[i]));
                } else {
                    assert(is_space(tail[i - gap.len()]));
                }
            }
        }
        assert(head + gap + value + tail =~= head + blanks);
        lemma_trim_end(head, blanks);
        assert(head + none =~= head);
        lemma_value(none, none);
        assert(none + none =~= none);
        assert(value =~= none);
        none
    }
}

/// A line that assigns a value to a one-word key gives that key and that value, with
/// whatever blanks stand around either: a quoted value without its quotes, an
/// unquoted one without its comment.
pub proof fn law_an_assignment_is_read(
    lead: Seq<char>,
    key: Seq<char>,
    before: Seq<char>,
    after: Seq<char>,
    value: Seq<char>,
    tail: Seq<char>,
)
    requires
        blank(lead) && blank(before) && blank(after) && blank(tail),
        key.len() > 0,
        key[0] != '#',
        !has_space(key),
        lacks(key, '='),
        key != "export"@,
        tight(value),
        lacks(lead + key + before + seq!['='] + after + value + tail, '\n'),
    ensures
        entries(lead + key + before + seq!['='] + after + value + tail) == seq![
            (key, unquoted(value)),
        ],
{
    let text = lead + key + before + seq!['='] + after + value + tail;
    let head = key + before + seq!['='];
    assert(!is_space(key[0]));
    assert(head[0] == key[0]);
    assert(head.last() == '=');
    assert(text =~= lead + (head + after + value + tail));
    lemma_trim_start(lead, head + after + value + tail);
    assert((head + after + value + tail)[0] == key[0]);
    let rest = lemma_line(head, after, value, tail);
    let line = trim(text);
    assert(line == head + rest);
    assert(line[0] == key[0]);
    let behind = before + seq!['='] + rest;
    assert(line =~= key + behind);
    if before.len() > 0 {
        assert(is_space(before[0]));
        assert(behind[0] == before[0]);
    }
    lemma_no_export(key, behind);
    assert(trim_start(line) == line);
    assert(line =~= key + before + seq!['='] + rest);
    lemma_assignment(key, before, rest);
    lemma_one_line(text);
}

/// An `export` in front of an assignment changes nothing.
pub proof fn law_an_exported_assignment_is_read(
    gap: Seq<char>,
    key: Seq<char>,
    value: Seq<char>,
)
    requires
        blank(gap),
        key.len() > 0,
        !has_space(key),
        lacks(key, '='),
        tight(value),
        lacks("export "@ + gap + key + seq!['='] + value, '\n'),
    ensures
        entries("export "@ + gap + key + seq!['='] + value) == seq![(key, unquoted(value))],
{
    reveal_strlit("export ");
    let none = Seq::<char>::empty();
    let text = "export "@ + gap + key + seq!['='] + value;
    assert(text[0] == 'e');
    assert(tight(text)) by {
        if value.len() > 0 {
            assert(text.last() == value.last());
        } else {
            assert(text.last() == '=');
        }
    }
    assert(none + text + none =~= text);
    law_trimming_takes_the_blanks_around(none, text, none);
    assert(text.take(7) =~= "export "@);
    let body = key + none + seq!['='] + value;
    assert(text.skip(7) =~= gap + body);
    lemma_trim_start(gap, body);
    assert(!is_space(key[0]));
    assert(body[0] == key[0]);
    lemma_assignment(key, none, value);
    lemma_value(none, value);
    assert(none + value =~= value);
    lemma_one_line(text);
}

/// A line whose first visible character is `#`, a blank line, and a line without `=`
/// hold nothing.
pub proof fn law_comments_blanks_and_fragments_hold_nothing(lead: Seq<char>, rest: Seq<char>)
    requires
        blank(lead),
        lacks(lead + rest, '\n'),
        rest.len() == 0 || rest[0] == '#' || lacks(rest, '='),
    ensures
        entries(lead + rest) == Seq::<(Seq<char>, Seq<char>)>::empty(),
{
    let text = lead + rest;
    lemma_one_line(text);
    lemma_trim_start(lead, rest);
    let body = trim_start(rest);
    let line = trim(text);
    lemma_trim_parts(rest);
    lemma_trim_end_parts(body);
    if line.len() > 0 && line[0] != '#' {
        assert(rest.len() > 0);
        if rest[0] == '#' {
            assert(body == rest);
            assert(line[0] == rest[0]);
        } else {
            let inner = trim_start(unexported(line));
            lemma_trim_parts(unexported(line));
            assert forall|j: int| 0 <= j < inner.len() implies !is_char('=')(#[trigger] inner[j]) by {
                let from = unexported(line).len() - inner.len();
                assert(inner[j] == unexported(line)[from + j]);
                let skipped = line.len() - unexported(line).len();
                assert(unexported(line)[from + j] == line[skipped + from + j]);
                assert(line[skipped + from + j] == body[skipped + from + j]);
                assert(body[skipped + from + j] == rest[rest.len() - body.len() + skipped + from
                    + j]);
            }
            lemma_first_absent(inner, is_char('='));
        }
    }
}

proof fn lemma_trim_parts(s: Seq<char>)
    ensures
        trim_start(s).len() <= s.len(),
        trim_start(s) == s.skip(s.len() - trim_start(s).len()),
    decreases s.len(),
{
    if s.len() > 0 && is_space(s[0]) {
        lemma_trim_parts(s.skip(1));
        let r = trim_start(s);
        assert(s.skip(1).skip(s.len() - 1 - r.len()) =~= s.skip(s.len() - r.len()));
    } else {
        assert(s.skip(0) =~= s);
    }
}

proof fn lemma_trim_end_parts(s: Seq<char>)
    ensures
        trim_end(s).len() <= s.len(),
        trim_end(s) == s.take(trim_end(s).len() as int),
    decreases s.len(),
{
    if s.len() > 0 && is_space(s.last()) {
        lemma_trim_end_parts(s.drop_last());
        let r = trim_end(s);
        assert(s.drop_last().take(r.len() as int) =~= s.take(r.len() as int));
    } else {
        assert(s.take(s.len() as int) =~= s);
    }
}

/// A line whose key is more than one word holds nothing.
pub proof fn law_a_key_of_two_words_is_refused(
    first: Seq<char>,
    gap: Seq<char>,
    second: Seq<char>,
    value: Seq<char>,
)
    requires
        first.len() > 0 && !has_space(first) && lacks(first, '=') && first[0] != '#',
        first != "export"@,
        gap.len() > 0 && blank(gap),
        second.len() > 0 && !has_space(second) && lacks(second, '='),
        tight(value),
        lacks(first + gap + second + seq!['='] + value, '\n'),
    ensures
        entries(first + gap + second + seq!['='] + value) == Seq::<(Seq<char>, Seq<char>)>::empty(),
{
    let none = Seq::<char>::empty();
    let text = first + gap + second + seq!['='] + value;
    assert(!is_space(first[0]));
    assert(text[0] == first[0]);
    assert(tight(text)) by {
        if value.len() > 0 {
            assert(text.last() == value.last());
        } else {
            assert(text.last() == '=');
        }
    }
    assert(none + text + none =~= text);
    law_trimming_takes_the_blanks_around(none, text, none);
    let behind = gap + second + seq!['='] + value;
    assert(text =~= first + behind);
    assert(is_space(gap[0]));
    assert(behind[0] == gap[0]);
    lemma_no_export(first, behind);
    let key = first + gap + second;
    let at = key.len() as int;
    assert forall|j: int| 0 <= j < at implies !is_char('=')(#[trigger] text[j]) by {
        if j < first.len() {
            assert(text[j] == first[j]);
        } else if j < first.len() + gap.len() {
            assert(text[j] == gap[j - first.len()]);
            assert(is_space(gap[j - first.len()]));
        } else {
            assert(text[j] == second[j - first.len() - gap.len()]);
        }
    }
    assert(is_first(text, is_char('='), at));
    lemma_first_found(text, is_char('='), at);
    assert(text.take(at) =~= none + key + none);
    assert(!is_space(second[second.len() - 1]));
    assert(key.last() == second.last());
    assert(key[0] == first[0]);
    law_trimming_takes_the_blanks_around(none, key, none);
    assert(key[first.len() as int] == gap[0]);
    assert(has_space(key));
    lemma_one_line(text);
}

/// A pair is set exactly if its key is not set already and no earlier pair has it.
pub proof fn law_the_first_value_of_an_unset_key_is_set(
    pairs: Seq<(Seq<char>, Seq<char>)>,
    present: Seq<Seq<char>>,
    key: Seq<char>,
    value: Seq<char>,
)
    ensures
        to_set(pairs, present).contains((key, value)) <==> !present.contains(key) && exists|i: int|
            is_first(pairs, |p: (Seq<char>, Seq<char>)| p.0 == key, i) && #[trigger] pairs[i]
                == (key, value),
        assigns(to_set(pairs, present), key) <==> !present.contains(key) && assigns(pairs, key),
    decreases pairs.len(),
{
    let named = |p: (Seq<char>, Seq<char>)| p.0 == key;
    let set = to_set(pairs, present);
    if pairs.len() > 0 {
        let shorter = pairs.drop_last();
        let n = pairs.len() - 1;
        let last = pairs.last();
        let before = to_set(shorter, present);
        law_the_first_value_of_an_unset_key_is_set(shorter, present, key, value);
        assert(assigns(pairs, key) <==> assigns(shorter, key) || last.0 == key) by {
            if assigns(shorter, key) {
                let i = choose|i: int| 0 <= i < shorter.len() && (#[trigger] shorter[i]).0 == key;
                assert(pairs[i].0 == key);
            }
            if assigns(pairs, key) {
                let i = choose|i: int| 0 <= i < pairs.len() && (#[trigger] pairs[i]).0 == key;
                if i < n {
                    assert(shorter[i].0 == key);
                }
            }
            if last.0 == key {
                assert(pairs[n].0 == key);
            }
        }
        assert(forall|i: int|
            i < n ==> (is_first(pairs, named, i) <==> #[trigger] is_first(shorter, named, i))) by {
            assert forall|i: int| i < n implies (is_first(pairs, named, i) <==> #[trigger] is_first(
                shorter,
                named,
                i,
            )) by {
                if is_first(pairs, named, i) {
                    assert forall|j: int| 0 <= j < i implies !named(#[trigger] shorter[j]) by {
                        assert(!named(pairs[j]));
                    }
                }
                if is_first(shorter, named, i) {
                    assert forall|j: int| 0 <= j < i implies !named(#[trigger] pairs[j]) by {
                        assert(!named(shorter[j]));
                    }
                }
            }
        }
        assert(is_first(pairs, named, n) <==> last.0 == key && !assigns(shorter, key)) by {
            if is_first(pairs, named, n) && assigns(shorter, key) {
                let i = choose|i: int| 0 <= i < shorter.len() && (#[trigger] shorter[i]).0 == key;
                assert(!named(pairs[i]));
            }
            if last.0 == key && !assigns(shorter, key) {
                assert forall|j: int| 0 <= j < n implies !named(#[trigger] pairs[j]) by {
                    assert(shorter[j].0 != key);
                }
            }
        }
        let taken = present.contains(last.0) || assigns(before, last.0);
        if !taken {
            assert(set == before.push(last));
            assert(set.contains((key, value)) <==> before.contains((key, value)) || last == (
                key,
                value,
            )) by {
                if before.contains((key, value)) {
                    let i = choose|i: int| 0 <= i < before.len() && before[i] == (key, value);
                    assert(set[i] == (key, value));
                }
                assert(set[before.len() as int] == last);
                if set.contains((key, value)) {
                    let i = choose|i: int| 0 <= i < set.len() && set[i] == (key, value);
                    if i < before.len() {
                        assert(before[i] == (key, value));
                    }
                }
            }
            assert(assigns(set, key) <==> assigns(before, key) || last.0 == key) by {
                if assigns(before, key) {
                    let i = choose|i: int| 0 <= i < before.len() && (#[trigger] before[i]).0 == key;
                    assert(set[i].0 == key);
                }
                assert(set[before.len() as int] == last);
                if assigns(set, key) {
                    let i = choose|i: int| 0 <= i < set.len() && (#[trigger] set[i]).0 == key;
                    if i < before.len() {
                        assert(before[i].0 == key);
                    }
                }
            }
        }
        let now = !present.contains(key) && exists|i: int|
            is_first(pairs, named, i) && #[trigger] pairs[i] == (key, value);
        let then = !present.contains(key) && exists|i: int|
            is_first(shorter, named, i) && #[trigger] shorter[i] == (key, value);
        assert(now <==> then || !present.contains(key) && is_first(pairs, named, n) && last == (
            key,
            value,
        )) by {
            if now {
                let i = choose|i: int|
                    is_first(pairs, named, i) && #[trigger] pairs[i] == (key, value);
                if i < n {
                    assert(is_first(shorter, named, i));
                    assert(shorter[i] == (key, value));
                }
            }
            if then {
                let i = choose|i: int|
                    is_first(shorter, named, i) && #[trigger] shorter[i] == (key, value);
                assert(i < n);
                assert(is_first(pairs, named, i));
                assert(pairs[i] == (key, value));
            }
            if is_first(pairs, named, n) && last == (key, value) {
                assert(pairs[n] == (key, value));
            }
        }
        if last.0 == key {
            assert(assigns(before, key) <==> !present.contains(key) && assigns(shorter, key));
        }
    }
}

} // verus!
