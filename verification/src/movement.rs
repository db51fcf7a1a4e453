use crate::selection::Range;
use crate::text::rope_char_at;
use crate::text::rope_chars;
use crate::text::rope_len_chars;
use vstd::prelude::*;

verus! {

/// The word-boundary oracle the expansion engine delegates word discovery
/// to, so that what it matches is exactly what the editor's word movement
/// treats as "the previous word". Implementors answer, for a probe offset,
/// the range of the word at or immediately before that offset: the returned
/// head marks the word's start, the anchor the offset just after its end,
/// or a degenerate (empty) range when no word precedes the probe.
pub trait WordBoundaryOracle {
    /// The (start, end) pair the oracle answers for a probe offset; each
    /// implementation fixes this function, and `move_prev_word_start` is
    /// bound to it.
    spec fn prev_word_range_spec(&self, text: Seq<char>, pos: int) -> (int, int);

    /// Move-to-previous-word-start, with a count of one: returns the range
    /// of the word preceding the probe, within the document's bounds and
    /// never to the right of the probe.
    fn move_prev_word_start(&self, doc: &ropey::Rope, range: Range, count: usize) -> (r: Range)
        requires
            count == 1,
            range.head < rope_chars(*doc).len(),
        ensures
            r.head == self.prev_word_range_spec(rope_chars(*doc), range.head as int).0,
            r.anchor == self.prev_word_range_spec(rope_chars(*doc), range.head as int).1,
            r.head <= r.anchor <= rope_chars(*doc).len(),
            r.head <= range.head,
    ;
}

/// True of the characters the crate's own oracle counts as word characters:
/// ASCII letters, digits and the underscore.
pub open spec fn is_word_char(c: char) -> bool {
    let u = c as u32;
    (48 <= u && u <= 57) || (65 <= u && u <= 90) || (97 <= u && u <= 122) || u == 95
}

fn is_word_char_exec(c: char) -> (r: bool)
    ensures
        r == is_word_char(c),
{
    let u = c as u32;
    (48 <= u && u <= 57) || (65 <= u && u <= 90) || (97 <= u && u <= 122) || u == 95
}

/// The start of the run of word characters that ends at offset `p` of
/// `text`: walks left while the previous character is a word character.
pub open spec fn word_start(text: Seq<char>, p: int) -> int
    recommends
        0 <= p <= text.len(),
    decreases p,
{
    if p <= 0 {
        0
    } else if is_word_char(text[p - 1]) {
        word_start(text, p - 1)
    } else {
        p
    }
}

/// A deterministic word-boundary oracle: a word is a maximal run of ASCII
/// word characters. If the probe offset holds a word character, the answer
/// spans from that run's start to just after the probe; otherwise the
/// answer is the degenerate range at the probe.
#[derive(Debug, Clone, Copy, PartialEq, Eq)]
pub struct AsciiWordOracle;

impl WordBoundaryOracle for AsciiWordOracle {
    open spec fn prev_word_range_spec(&self, text: Seq<char>, pos: int) -> (int, int) {
        if !is_word_char(text[pos]) {
            (pos, pos)
        } else {
            (word_start(text, pos), pos + 1)
        }
    }

    fn move_prev_word_start(&self, doc: &ropey::Rope, range: Range, _count: usize) -> (r: Range) {
        // The length as a machine word bounds the probe, so `p + 1` below
        // cannot overflow.
        let _doc_len = rope_len_chars(doc);
        let p = range.head;
        let c0 = rope_char_at(doc, p);
        if !is_word_char_exec(c0) {
            return Range { anchor: p, head: p, old_visual_position: None };
        }
        let mut s = p;
        loop
            invariant_except_break
                s <= p,
                p < rope_chars(*doc).len(),
                word_start(rope_chars(*doc), p as int) == word_start(rope_chars(*doc), s as int),
            ensures
                s <= p,
                s as int == word_start(rope_chars(*doc), p as int),
            decreases s,
        {
            if s == 0 {
                break;
            }
            let ch = rope_char_at(doc, s - 1);
            if !is_word_char_exec(ch) {
                break;
            }
            s = s - 1;
        }
        Range { anchor: p + 1, head: s, old_visual_position: None }
    }
}

} // verus!
