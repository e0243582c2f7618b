//! Small string building blocks.

use vstd::prelude::*;
use vstd::string::StringExecFns;

verus! {

/// `std::string::String::push`: appends one character to the end of the string.
pub assume_specification[ String::push ](s: &mut String, ch: char)
    ensures
        final(s)@ == old(s)@.push(ch),
;

/// The concatenation of two texts.
pub fn join2(a: &str, b: &str) -> (r: String)
    ensures
        r@ == a@ + b@,
{
    let mut out: String = a.to_owned();
    out.append(b);
    out
}

/// The concatenation of three texts.
pub fn join3(a: &str, b: &str, c: &str) -> (r: String)
    ensures
        r@ == a@ + b@ + c@,
{
    let mut out: String = a.to_owned();
    out.append(b);
    out.append(c);
    out
}

/// The concatenation of four texts.
pub fn join4(a: &str, b: &str, c: &str, d: &str) -> (r: String)
    ensures
        r@ == a@ + b@ + c@ + d@,
{
    let mut out: String = a.to_owned();
    out.append(b);
    out.append(c);
    out.append(d);
    out
}

/// The concatenation of five texts.
pub fn join5(a: &str, b: &str, c: &str, d: &str, e: &str) -> (r: String)
    ensures
        r@ == a@ + b@ + c@ + d@ + e@,
{
    let mut out: String = a.to_owned();
    out.append(b);
    out.append(c);
    out.append(d);
    out.append(e);
    out
}

/// The characters of a text.
pub fn chars_of(text: &str) -> (r: Vec<char>)
    ensures
        r@ == text@,
{
    let mut out: Vec<char> = Vec::new();
    for c in it: text.chars()
        invariant
            out@ == it.seq().subrange(0, it.index()),
            it.seq() == text@,
    {
        out.push(c);
    }
    out
}

/// The text that the characters from `from` up to `to` spell.
pub fn spell(chars: &Vec<char>, from: usize, to: usize) -> (r: String)
    requires
        from <= to <= chars@.len(),
    ensures
        r@ == chars@.subrange(from as int, to as int),
{
    let mut out: String = String::new();
    let mut i: usize = from;
    while i < to
        invariant
            from <= i <= to <= chars@.len(),
            out@ == chars@.subrange(from as int, i as int),
        decreases to - i,
    {
        out.push(chars[i]);
        assert(chars@.subrange(from as int, i as int).push(chars@[i as int])
            =~= chars@.subrange(from as int, i + 1));
        i = i + 1;
    }
    out
}

/// The views of a list of names.
pub open spec fn views(names: Seq<String>) -> Seq<Seq<char>> {
    names.map_values(|s: String| s@)
}

} // verus!
