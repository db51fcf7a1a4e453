use crate::movement::WordBoundaryOracle;
use crate::selection::Range;
use crate::selection::Selection;
use crate::text::push_char;
use crate::text::rope_chars;
use crate::text::rope_slice_to_string;
use crate::transaction::apply_change;
use crate::transaction::change_view;
use crate::transaction::change_wf;
use crate::transaction::Change;
use crate::transaction::Transaction;
use vstd::prelude::*;
use vstd::string::StrSliceExecFns;

verus! {

/// The change that inserts the typed character at the cursor and touches
/// nothing else.
pub open spec fn insert_change_at(cursor: int, c: char) -> (int, int, Option<Seq<char>>) {
    (cursor, cursor, Some(seq![c]))
}

/// The change one cursor contributes once the oracle has answered the word
/// range `(h, a)`: with no candidate word, or with a word the table does
/// not know, the plain insert at the cursor; with a known word, the
/// replacement of the span `[h, cursor)` by the word's expansion followed
/// by the typed character.
pub open spec fn change_for_word_range(
    table: Map<Seq<char>, Seq<char>>,
    text: Seq<char>,
    cursor: int,
    c: char,
    h: int,
    a: int,
) -> (int, int, Option<Seq<char>>) {
    if a - h < 1 {
        insert_change_at(cursor, c)
    } else {
        let w = text.subrange(h, a);
        if table.contains_key(w) {
            (h, cursor, Some(table[w].push(c)))
        } else {
            insert_change_at(cursor, c)
        }
    }
}

/// The change one cursor contributes: at the document's start always the
/// plain insert, with no lookup; otherwise decided by the oracle's answer
/// for the probe one offset left of the cursor.
pub open spec fn change_for_cursor<O: WordBoundaryOracle>(
    oracle: O,
    table: Map<Seq<char>, Seq<char>>,
    text: Seq<char>,
    cursor: int,
    c: char,
) -> (int, int, Option<Seq<char>>) {
    if cursor == 0 {
        insert_change_at(0, c)
    } else {
        let wr = oracle.prev_word_range_spec(text, cursor - 1);
        change_for_word_range(table, text, cursor, c, wr.0, wr.1)
    }
}

/// The change that inserts `c` at `cursor` with no deletion.
fn insert_char(c: char, cursor: usize) -> (ch: Change)
    ensures
        change_view(ch) == insert_change_at(cursor as int, c),
{
    let mut t = String::new();
    push_char(&mut t, c);
    proof {
        assert(t@ =~= seq![c]);
    }
    (cursor, cursor, Some(t))
}

/// No two entries share an abbreviation.
pub open spec fn entries_keys_unique(s: Seq<(String, String)>) -> bool {
    forall|i: int, j: int| 0 <= i < j < s.len() ==> (#[trigger] s[i]).0@ != (#[trigger] s[j]).0@
}

/// No entry maps the empty abbreviation.
pub open spec fn entries_keys_nonempty(s: Seq<(String, String)>) -> bool {
    forall|i: int| 0 <= i < s.len() ==> (#[trigger] s[i]).0@.len() != 0
}

/// The well-formedness every table's entry list keeps: abbreviations are
/// pairwise distinct and never empty.
pub open spec fn entries_wf(s: Seq<(String, String)>) -> bool {
    entries_keys_unique(s) && entries_keys_nonempty(s)
}

/// The mapping an entry list stands for; a later entry for the same
/// abbreviation overrides an earlier one.
pub open spec fn entries_map(s: Seq<(String, String)>) -> Map<Seq<char>, Seq<char>>
    decreases s.len(),
{
    if s.len() == 0 {
        Map::empty()
    } else {
        entries_map(s.drop_last()).insert(s.last().0@, s.last().1@)
    }
}

/// The abbreviation registry: a mapping from abbreviation to expansion,
/// with unique, non-empty abbreviations and no ordering guarantee.
#[derive(Debug, Clone, PartialEq, Eq)]
pub struct Abbreviations {
    entries: Vec<(String, String)>,
}

impl View for Abbreviations {
    type V = Map<Seq<char>, Seq<char>>;

    closed spec fn view(&self) -> Map<Seq<char>, Seq<char>> {
        entries_map(self.entries@)
    }
}

impl Abbreviations {
    /// The invariant the table's methods keep.
    pub closed spec fn wf(&self) -> bool {
        entries_wf(self.entries@)
    }

    /// The empty table.
    pub fn default() -> (t: Self)
        ensures
            t.wf(),
            t@ == Map::<Seq<char>, Seq<char>>::empty(),
    {
        Abbreviations { entries: Vec::new() }
    }

    /// Deletes the mapping for `key` if present; a no-op, and no error,
    /// when it is absent.
    pub fn remove(&mut self, key: &str)
        requires
            old(self).wf(),
        ensures
            final(self).wf(),
            final(self)@ == old(self)@.remove(key@),
    {
        let k: String = key.to_owned();
        let n = self.entries.len();
        let mut i: usize = 0;
        while i < n
            invariant
                i <= n,
                *self == *old(self),
                self.wf(),
                k@ == key@,
                n == self.entries.len(),
                forall|j: int| 0 <= j < i ==> (#[trigger] self.entries@[j]).0@ != key@,
            decreases n - i,
        {
            if self.entries[i].0 == k {
                proof {
                    lemma_entries_map_remove(self.entries@, i as int);
                    lemma_entries_wf_remove(self.entries@, i as int);
                }
                self.entries.remove(i);
                return ;
            }
            i = i + 1;
        }
        proof {
            lemma_entries_map_contains(self.entries@, key@);
            assert(!self@.contains_key(key@));
            assert(self@.remove(key@) =~= self@);
        }
    }

    /// Stores the mapping from `abbr` to `whole_word`, overwriting any
    /// earlier expansion of `abbr`; the abbreviation must not be empty.
    pub fn insert(&mut self, abbr: &str, whole_word: &str)
        requires
            old(self).wf(),
            abbr@.len() != 0,
        ensures
            final(self).wf(),
            final(self)@ == old(self)@.insert(abbr@, whole_word@),
    {
        self.remove(abbr);
        let k: String = abbr.to_owned();
        let v: String = whole_word.to_owned();
        proof {
            lemma_entries_map_contains(self.entries@, abbr@);
        }
        let ghost pre = self.entries@;
        self.entries.push((k, v));
        proof {
            assert(self.entries@.drop_last() =~= pre);
            assert forall|x: int, y: int| 0 <= x < y < self.entries@.len() implies (#[trigger] self.entries@[x]).0@
                != (#[trigger] self.entries@[y]).0@ by {
                if y < pre.len() {
                    assert(pre[x].0@ != pre[y].0@);
                } else {
                    assert(self.entries@[y].0@ == abbr@);
                    assert(pre[x].0@ != abbr@);
                }
            }
            assert forall|x: int| 0 <= x < self.entries@.len() implies (#[trigger] self.entries@[x]).0@.len()
                != 0 by {
                if x < pre.len() {
                    assert(pre[x].0@.len() != 0);
                }
            }
            assert(self@ =~= old(self)@.insert(abbr@, whole_word@));
        }
    }

    /// Exact, case-sensitive lookup: the expansion registered for `word`,
    /// or nothing when `word` is not an abbreviation of the table.
    pub fn lookup(&self, word: &str) -> (r: Option<String>)
        requires
            self.wf(),
        ensures
            r is Some <==> self@.contains_key(word@),
            r is Some ==> r.unwrap()@ == self@[word@],
    {
        let w: String = word.to_owned();
        let n = self.entries.len();
        let mut i: usize = 0;
        while i < n
            invariant
                i <= n,
                n == self.entries.len(),
                self.wf(),
                w@ == word@,
                forall|j: int| 0 <= j < i ==> (#[trigger] self.entries@[j]).0@ != word@,
            decreases n - i,
        {
            if self.entries[i].0 == w {
                let res = self.entries[i].1.clone();
                proof {
                    lemma_entries_map_value(self.entries@, i as int);
                }
                return Some(res);
            }
            i = i + 1;
        }
        proof {
            lemma_entries_map_contains(self.entries@, word@);
        }
        None
    }

    /// Builds the one transaction for a typed character: one change per
    /// cursor of the selection, in the selection's order, each computed
    /// against the same original document snapshot. The word immediately
    /// before each cursor is found by the injected word-boundary oracle;
    /// where the table knows it, the change replaces it with its expansion
    /// followed by the typed character, and everywhere else the change is a
    /// plain insert of the character. Every branch yields a well-formed
    /// change, so a transaction is always returned.
    pub fn expand_or_insert<O: WordBoundaryOracle>(
        &self,
        doc: &ropey::Rope,
        selection: &Selection,
        c: char,
        oracle: &O,
    ) -> (r: Option<Transaction>)
        requires
            self.wf(),
            selection.in_bounds(rope_chars(*doc).len() as int),
        ensures
            r is Some,
            r.unwrap().changes@.len() == selection.ranges@.len(),
            forall|i: int|
                0 <= i < selection.ranges@.len() ==> change_view(
                    #[trigger] r.unwrap().changes@[i],
                ) == change_for_cursor(
                    *oracle,
                    self@,
                    rope_chars(*doc),
                    selection.ranges@[i].head as int,
                    c,
                ),
            forall|i: int|
                0 <= i < selection.ranges@.len() ==> change_wf(
                    change_view(#[trigger] r.unwrap().changes@[i]),
                    rope_chars(*doc).len() as int,
                ),
    {
        let mut changes: Vec<Change> = Vec::new();
        let n = selection.ranges.len();
        let mut i: usize = 0;
        while i < n
            invariant
                i <= n,
                n == selection.ranges.len(),
                self.wf(),
                selection.in_bounds(rope_chars(*doc).len() as int),
                changes@.len() == i,
                forall|j: int|
                    0 <= j < i ==> change_view(#[trigger] changes@[j]) == change_for_cursor(
                        *oracle,
                        self@,
                        rope_chars(*doc),
                        selection.ranges@[j].head as int,
                        c,
                    ),
                forall|j: int|
                    0 <= j < i ==> change_wf(
                        change_view(#[trigger] changes@[j]),
                        rope_chars(*doc).len() as int,
                    ),
            decreases n - i,
        {
            let range = selection.ranges[i];
            let cursor = range.cursor();
            let ch: Change;
            if cursor == 0 {
                // No word can precede the start of the document.
                ch = insert_char(c, cursor);
            } else {
                // Probe one offset left of the cursor and ask the oracle
                // for the word there.
                let probe = Range::new(cursor - 1, cursor - 1);
                let wr = oracle.move_prev_word_start(doc, probe, 1);
                if wr.len() < 1 {
                    // Degenerate answer: no candidate word.
                    ch = insert_char(c, cursor);
                } else {
                    let word = rope_slice_to_string(doc, wr.head, wr.anchor);
                    match self.lookup(word.as_str()) {
                        Some(expansion) => {
                            let mut t = expansion;
                            push_char(&mut t, c);
                            ch = (wr.head, cursor, Some(t));
                        },
                        None => {
                            ch = insert_char(c, cursor);
                        },
                    }
                }
            }
            changes.push(ch);
            i = i + 1;
        }
        Some(Transaction { changes })
    }

    /// Bulk load from a line-based source: each line is split on its first
    /// space into abbreviation and expansion, and malformed lines — no
    /// space, or an empty abbreviation — are silently skipped. Loading is
    /// best-effort and never fails: a source that could not be read is
    /// handed here as no lines at all and loads the empty table.
    pub fn load_from_source(lines: &Vec<String>) -> (t: Abbreviations)
        ensures
            t.wf(),
            t@ == lines_map(lines@.map_values(|l: String| l@)),
    {
        let mut t = Abbreviations::default();
        let n = lines.len();
        let mut i: usize = 0;
        proof {
            assert(lines@.map_values(|l: String| l@).take(0) =~= Seq::<Seq<char>>::empty());
        }
        while i < n
            invariant
                i <= n,
                n == lines.len(),
                t.wf(),
                t@ == lines_map(lines@.map_values(|l: String| l@).take(i as int)),
            decreases n - i,
        {
            let s: &str = lines[i].as_str();
            let m = s.unicode_len();
            let mut j: usize = 0;
            loop
                invariant_except_break
                    j <= m,
                    m == s@.len(),
                    first_space_from(s@, 0) == first_space_from(s@, j as int),
                ensures
                    (j < m && s@[j as int] == ' ' && first_space_from(s@, 0) == j) || (j == m
                        && first_space_from(s@, 0) == -1),
                decreases m - j,
            {
                if j == m {
                    break ;
                }
                let cj = s.get_char(j);
                if cj == ' ' {
                    break ;
                }
                proof {
                    assert(first_space_from(s@, j as int) == first_space_from(s@, j as int + 1));
                }
                j = j + 1;
            }
            if 0 < j && j < m {
                let abbr = s.substring_char(0, j);
                let expansion = s.substring_char(j + 1, m);
                t.insert(abbr, expansion);
            }
            proof {
                let vls = lines@.map_values(|l: String| l@);
                assert(vls.take(i as int + 1).drop_last() =~= vls.take(i as int));
                assert(vls.take(i as int + 1).last() == s@);
            }
            i = i + 1;
        }
        proof {
            assert(lines@.map_values(|l: String| l@).take(n as int) =~= lines@.map_values(
                |l: String| l@,
            ));
        }
        t
    }

    /// Read access to the underlying entry list.
    pub fn map(&self) -> (r: &Vec<(String, String)>)
        ensures
            entries_map(r@) == self@,
            self.wf() ==> entries_wf(r@),
    {
        &self.entries
    }

    /// Write access to the underlying entry list; the table stays usable
    /// afterward exactly as long as the caller leaves the entries
    /// well-formed.
    pub fn map_mut(&mut self) -> (r: &mut Vec<(String, String)>)
        ensures
            entries_map((*r)@) == old(self)@,
            old(self).wf() ==> entries_wf((*r)@),
            final(self)@ == entries_map((*final(r))@),
            final(self).wf() == entries_wf((*final(r))@),
    {
        &mut self.entries
    }
}

/// Law: typing any character with the cursor at offset 0 yields the plain
/// insert of that character, never a lookup — whatever the document, the
/// table and the oracle.
pub proof fn lemma_start_of_document_inserts<O: WordBoundaryOracle>(
    oracle: O,
    table: Map<Seq<char>, Seq<char>>,
    text: Seq<char>,
    c: char,
)
    ensures
        change_for_cursor(oracle, table, text, 0, c) == insert_change_at(0, c),
{
}

/// Law: where the word immediately preceding the cursor is not a table
/// key — or where no word precedes the cursor at all — the cursor's change
/// is identical to the unconditional single-character insert at the
/// cursor.
pub proof fn lemma_no_match_inserts<O: WordBoundaryOracle>(
    oracle: O,
    table: Map<Seq<char>, Seq<char>>,
    text: Seq<char>,
    cursor: int,
    c: char,
)
    requires
        cursor >= 1,
        ({
            let wr = oracle.prev_word_range_spec(text, cursor - 1);
            wr.1 - wr.0 >= 1 ==> !table.contains_key(text.subrange(wr.0, wr.1))
        }),
    ensures
        change_for_cursor(oracle, table, text, cursor, c) == insert_change_at(cursor, c),
{
}

/// Law: where the word `w` immediately preceding the cursor — the span
/// `[h, cursor)` — is a table key with expansion `e`, the cursor's change
/// replaces exactly that span with `e` followed by the typed character,
/// and the document's length after applying the change is
/// `len(before) - len(w) + len(e) + 1`.
pub proof fn lemma_match_substitutes<O: WordBoundaryOracle>(
    oracle: O,
    table: Map<Seq<char>, Seq<char>>,
    text: Seq<char>,
    cursor: int,
    c: char,
    h: int,
)
    requires
        0 <= h,
        h + 1 <= cursor <= text.len(),
        oracle.prev_word_range_spec(text, cursor - 1) == (h, cursor),
        table.contains_key(text.subrange(h, cursor)),
    ensures
        ({
            let w = text.subrange(h, cursor);
            let e = table[w];
            change_for_cursor(oracle, table, text, cursor, c) == (h, cursor, Some(e.push(c)))
                && apply_change(text, h, cursor, e.push(c)).len() == text.len() - w.len() + e.len()
                + 1
        }),
{
}

/// Law: cursors are independent: two selections that put a cursor at the
/// same offset are prescribed the same change for it, whatever their other
/// ranges hold — each cursor's change is computed as if it were the sole
/// cursor, against the unmodified document snapshot.
pub proof fn lemma_multi_cursor_independence<O: WordBoundaryOracle>(
    oracle: O,
    table: Map<Seq<char>, Seq<char>>,
    text: Seq<char>,
    s1: Selection,
    s2: Selection,
    i: int,
    j: int,
    c: char,
)
    requires
        0 <= i < s1.ranges@.len(),
        0 <= j < s2.ranges@.len(),
        s1.ranges@[i].head == s2.ranges@[j].head,
    ensures
        change_for_cursor(oracle, table, text, s1.ranges@[i].head as int, c) == change_for_cursor(
            oracle,
            table,
            text,
            s2.ranges@[j].head as int,
            c,
        ),
{
}

/// Law: registering the same abbreviation and expansion twice leaves the
/// table exactly as one registration does, so lookups cannot tell the two
/// apart.
pub proof fn lemma_insert_idempotent(m: Map<Seq<char>, Seq<char>>, k: Seq<char>, v: Seq<char>)
    ensures
        m.insert(k, v).insert(k, v) == m.insert(k, v),
{
    assert(m.insert(k, v).insert(k, v) =~= m.insert(k, v));
}

/// Law: removing an abbreviation the table does not hold changes nothing.
pub proof fn lemma_remove_absent_is_noop(m: Map<Seq<char>, Seq<char>>, k: Seq<char>)
    requires
        !m.contains_key(k),
    ensures
        m.remove(k) == m,
{
    assert(m.remove(k) =~= m);
}

/// The index of the first space of `l` at or after position `i`, or -1
/// when no space follows.
pub open spec fn first_space_from(l: Seq<char>, i: int) -> int
    decreases l.len() - i,
{
    if i < 0 || i >= l.len() {
        -1
    } else if l[i] == ' ' {
        i
    } else {
        first_space_from(l, i + 1)
    }
}

/// What one line of an abbreviation source contributes: the line split at
/// its first space into abbreviation and expansion. A line without a
/// space, or with an empty left-hand side, contributes nothing.
pub open spec fn parse_line(l: Seq<char>) -> Option<(Seq<char>, Seq<char>)> {
    let i = first_space_from(l, 0);
    if i <= 0 {
        None
    } else {
        Some((l.subrange(0, i), l.subrange(i + 1, l.len() as int)))
    }
}

/// The table a sequence of source lines loads to; a later line for the
/// same abbreviation overrides an earlier one.
pub open spec fn lines_map(ls: Seq<Seq<char>>) -> Map<Seq<char>, Seq<char>>
    decreases ls.len(),
{
    if ls.len() == 0 {
        Map::empty()
    } else {
        match parse_line(ls.last()) {
            Some(kv) => lines_map(ls.drop_last()).insert(kv.0, kv.1),
            None => lines_map(ls.drop_last()),
        }
    }
}

/// Removing one entry keeps an entry list well-formed.
proof fn lemma_entries_wf_remove(s: Seq<(String, String)>, i: int)
    requires
        entries_wf(s),
        0 <= i < s.len(),
    ensures
        entries_wf(s.remove(i)),
{
    assert forall|x: int| 0 <= x < s.remove(i).len() implies (#[trigger] s.remove(i)[x]).0@.len()
        != 0 by {
        if x < i {
            assert(s.remove(i)[x] == s[x]);
        } else {
            assert(s.remove(i)[x] == s[x + 1]);
        }
    }
    assert forall|x: int, y: int| 0 <= x < y < s.remove(i).len() implies (#[trigger] s.remove(i)[x]).0@
        != (#[trigger] s.remove(i)[y]).0@ by {
        let xs: int = if x < i { x } else { x + 1 };
        let ys: int = if y < i { y } else { y + 1 };
        assert(s.remove(i)[x] == s[xs]);
        assert(s.remove(i)[y] == s[ys]);
        assert(s[xs].0@ != s[ys].0@);
    }
}

/// An entry list's mapping holds an abbreviation exactly when some entry
/// carries it.
proof fn lemma_entries_map_contains(s: Seq<(String, String)>, k: Seq<char>)
    ensures
        entries_map(s).contains_key(k) <==> exists|i: int| 0 <= i < s.len() && (#[trigger] s[i]).0@ == k,
    decreases s.len(),
{
    if s.len() == 0 {
    } else {
        lemma_entries_map_contains(s.drop_last(), k);
        if s.last().0@ == k {
            assert(s[s.len() - 1].0@ == k);
        } else {
            if entries_map(s).contains_key(k) {
                let i = choose|i: int| 0 <= i < s.drop_last().len() && (#[trigger] s.drop_last()[i]).0@ == k;
                assert(s[i].0@ == k);
            }
            if exists|i: int| 0 <= i < s.len() && (#[trigger] s[i]).0@ == k {
                let i = choose|i: int| 0 <= i < s.len() && (#[trigger] s[i]).0@ == k;
                assert(i < s.len() - 1);
                assert(s.drop_last()[i].0@ == k);
            }
        }
    }
}

/// With unique abbreviations, removing the entry at one index removes
/// exactly that entry's abbreviation from the mapping.
proof fn lemma_entries_map_remove(s: Seq<(String, String)>, i: int)
    requires
        entries_keys_unique(s),
        0 <= i < s.len(),
    ensures
        entries_map(s.remove(i)) == entries_map(s).remove(s[i].0@),
    decreases s.len(),
{
    let k = s[i].0@;
    if i == s.len() - 1 {
        assert(s.remove(i) =~= s.drop_last());
        lemma_entries_map_contains(s.drop_last(), k);
        assert forall|x: int| 0 <= x < s.drop_last().len() implies (#[trigger] s.drop_last()[x]).0@ != k by {
            assert(s[x].0@ != s[i].0@);
        }
        assert(!entries_map(s.drop_last()).contains_key(k));
        assert(entries_map(s).remove(k) =~= entries_map(s.drop_last()));
    } else {
        assert(entries_keys_unique(s.drop_last())) by {
            assert forall|x: int, y: int| 0 <= x < y < s.drop_last().len() implies (#[trigger] s.drop_last()[x]).0@
                != (#[trigger] s.drop_last()[y]).0@ by {
                assert(s[x].0@ != s[y].0@);
            }
        }
        assert(s.drop_last()[i] == s[i]);
        lemma_entries_map_remove(s.drop_last(), i);
        assert(s.remove(i).drop_last() =~= s.drop_last().remove(i));
        assert(s.remove(i).last() == s.last());
        assert(k != s.last().0@);
        assert(entries_map(s.remove(i)) == entries_map(s.drop_last().remove(i)).insert(
            s.last().0@,
            s.last().1@,
        ));
        assert(entries_map(s.drop_last()).remove(k).insert(s.last().0@, s.last().1@)
            =~= entries_map(s.drop_last()).insert(s.last().0@, s.last().1@).remove(k));
    }
}

/// With unique abbreviations, the mapping sends each entry's abbreviation
/// to that entry's expansion.
proof fn lemma_entries_map_value(s: Seq<(String, String)>, i: int)
    requires
        entries_keys_unique(s),
        0 <= i < s.len(),
    ensures
        entries_map(s).contains_key(s[i].0@),
        entries_map(s)[s[i].0@] == s[i].1@,
    decreases s.len(),
{
    if i == s.len() - 1 {
    } else {
        assert(entries_keys_unique(s.drop_last())) by {
            assert forall|x: int, y: int| 0 <= x < y < s.drop_last().len() implies (#[trigger] s.drop_last()[x]).0@
                != (#[trigger] s.drop_last()[y]).0@ by {
                assert(s[x].0@ != s[y].0@);
            }
        }
        lemma_entries_map_value(s.drop_last(), i);
        assert(s.drop_last()[i] == s[i]);
        assert(s[i].0@ != s.last().0@);
    }
}

} // verus!

