use vstd::prelude::*;

verus! {

#[verifier::external_type_specification]
#[verifier::external_body]
pub struct ExRope(ropey::Rope);

/// The characters a rope holds, in order.
pub uninterp spec fn rope_chars(r: ropey::Rope) -> Seq<char>;

/// Relies on ropey::Rope::len_chars: the total number of chars in the rope.
#[verifier::external_body]
pub(crate) fn rope_len_chars(doc: &ropey::Rope) -> (n: usize)
    ensures
        n == rope_chars(*doc).len(),
{
    doc.len_chars()
}

/// Relies on ropey::Rope::char: the char at the given char index. It panics
/// out of bounds, which the precondition rules out.
#[verifier::external_body]
pub(crate) fn rope_char_at(doc: &ropey::Rope, char_idx: usize) -> (c: char)
    requires
        char_idx < rope_chars(*doc).len(),
    ensures
        c == rope_chars(*doc)[char_idx as int],
{
    doc.char(char_idx)
}

/// Relies on ropey::Rope::slice, and on RopeSlice's Display writing the
/// slice's chars in order: the chars of the rope between the two char
/// indices. Slicing panics when the range is out of bounds, which the
/// precondition rules out.
#[verifier::external_body]
pub(crate) fn rope_slice_to_string(doc: &ropey::Rope, from: usize, to: usize) -> (s: String)
    requires
        from <= to,
        to <= rope_chars(*doc).len(),
    ensures
        s@ == rope_chars(*doc).subrange(from as int, to as int),
{
    doc.slice(from..to).to_string()
}

/// Relies on String::push: appends exactly the one character.
#[verifier::external_body]
pub(crate) fn push_char(s: &mut String, c: char)
    ensures
        final(s)@ == old(s)@.push(c),
{
    s.push(c);
}

} // verus!
