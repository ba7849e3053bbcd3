//! The text buffer (a `ropey::Rope`) and the few string operations that the
//! editor needs, each stated over the characters it holds.

use ropey::Rope;
use vstd::prelude::*;
use vstd::utf8::encode_utf8;

verus! {

#[verifier::external_type_specification]
#[verifier::external_body]
pub struct ExRope(Rope);

/// The characters that a rope holds.
pub uninterp spec fn rope_chars(r: Rope) -> Seq<char>;

/// The number of lines that ropey counts in a text: one more than its line
/// breaks.
pub uninterp spec fn line_count_of(t: Seq<char>) -> nat;

/// The char index at which ropey has line `line` (counted from 0) of a text
/// start.
pub uninterp spec fn line_start_of(t: Seq<char>, line: nat) -> nat;

/// Relies on `Rope::new`: an empty rope.
#[verifier::external_body]
pub(crate) fn empty_rope() -> (r: Rope)
    ensures
        rope_chars(r) == Seq::<char>::empty(),
{
    Rope::new()
}

/// Relies on `Rope::len_chars`: the number of chars held.
#[verifier::external_body]
pub(crate) fn len_chars(r: &Rope) -> (n: usize)
    ensures
        n == rope_chars(*r).len(),
{
    r.len_chars()
}

/// Relies on `Rope::len_bytes`: the length of the text in UTF-8.
#[verifier::external_body]
pub(crate) fn len_bytes(r: &Rope) -> (n: usize)
    ensures
        n == encode_utf8(rope_chars(*r)).len(),
{
    r.len_bytes()
}

/// Relies on `Rope::len_lines`: one more than the number of line breaks.
#[verifier::external_body]
pub(crate) fn len_lines(r: &Rope) -> (n: usize)
    ensures
        n == line_count_of(rope_chars(*r)),
        n >= 1,
        rope_chars(*r).len() == 0 ==> n == 1,
{
    r.len_lines()
}

/// Relies on `Rope::line_to_char`: where a line starts; one past the last
/// line, the end of the text.
#[verifier::external_body]
pub(crate) fn line_to_char(r: &Rope, line: usize) -> (c: usize)
    requires
        line <= line_count_of(rope_chars(*r)),
    ensures
        c == line_start_of(rope_chars(*r), line as nat),
        c <= rope_chars(*r).len(),
        line == 0 ==> c == 0,
        line == line_count_of(rope_chars(*r)) ==> c == rope_chars(*r).len(),
{
    r.line_to_char(line)
}

/// Relies on `Rope::char`: the char at an index.
#[verifier::external_body]
pub(crate) fn char_at(r: &Rope, i: usize) -> (c: char)
    requires
        i < rope_chars(*r).len(),
    ensures
        c == rope_chars(*r)[i as int],
{
    r.char(i)
}

/// Relies on `Rope::insert`: the text goes in before char `i`.
#[verifier::external_body]
pub(crate) fn insert(r: &mut Rope, i: usize, s: &str)
    requires
        i <= rope_chars(*old(r)).len(),
    ensures
        rope_chars(*final(r)) == rope_chars(*old(r)).subrange(0, i as int) + s@
            + rope_chars(*old(r)).subrange(i as int, rope_chars(*old(r)).len() as int),
{
    r.insert(i, s)
}

/// Relies on `Rope::slice` and `String::from` on its result: the chars from
/// `from` up to `to`.
#[verifier::external_body]
pub(crate) fn text_between(r: &Rope, from: usize, to: usize) -> (s: String)
    requires
        from <= to <= rope_chars(*r).len(),
    ensures
        s@ == rope_chars(*r).subrange(from as int, to as int),
{
    String::from(r.slice(from..to))
}

/// Relies on `String::push_str`: appends `t`.
#[verifier::external_body]
pub(crate) fn push_str(s: &mut String, t: &str)
    ensures
        final(s)@ == old(s)@ + t@,
{
    s.push_str(t)
}

/// Relies on `String::push`: appends one char.
#[verifier::external_body]
pub(crate) fn push_char(s: &mut String, c: char)
    ensures
        final(s)@ == old(s)@.push(c),
{
    s.push(c)
}

/// The text of `s` without leading and trailing white space, as
/// `str::trim` gives it.
pub uninterp spec fn trimmed_of(s: Seq<char>) -> Seq<char>;

/// Relies on `str::trim`: the text without white space at either end.
#[verifier::external_body]
pub(crate) fn trim(s: &str) -> (r: &str)
    ensures
        r@ == trimmed_of(s@),
        s@.len() == 0 ==> r@.len() == 0,
{
    s.trim()
}

} // verus!
