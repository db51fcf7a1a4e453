use vstd::prelude::*;

verus! {

/// One region substitution against the original document snapshot: a start
/// offset, an end offset, and the optional replacement text.
pub type Change = (usize, usize, Option<String>);

/// The mathematical value of a change: its offsets as integers and its
/// replacement as a character sequence.
pub open spec fn change_view(c: Change) -> (int, int, Option<Seq<char>>) {
    (
        c.0 as int,
        c.1 as int,
        match c.2 {
            Some(s) => Some(s@),
            None => None,
        },
    )
}

/// The document that results from substituting `repl` for the span
/// `[start, end)` of `text`.
pub open spec fn apply_change(text: Seq<char>, start: int, end: int, repl: Seq<char>) -> Seq<char>
    recommends
        0 <= start <= end <= text.len(),
{
    text.subrange(0, start) + repl + text.subrange(end, text.len() as int)
}

/// A change is well-formed for a document of `text_len` characters: its
/// span lies within the document and it always carries replacement text.
pub open spec fn change_wf(ch: (int, int, Option<Seq<char>>), text_len: int) -> bool {
    0 <= ch.0 <= ch.1 <= text_len && ch.2 is Some
}

/// An ordered collection of changes, one per cursor, all of whose offsets
/// address the same original document snapshot; the editor applies it as one
/// atomic edit and one undo step.
#[derive(Debug, Clone, PartialEq, Eq)]
pub struct Transaction {
    pub changes: Vec<Change>,
}

impl Transaction {
    pub fn len(&self) -> (n: usize)
        ensures
            n == self.changes@.len(),
    {
        self.changes.len()
    }

    pub fn is_empty(&self) -> (b: bool)
        ensures
            b == (self.changes@.len() == 0),
    {
        self.changes.len() == 0
    }
}

} // verus!
