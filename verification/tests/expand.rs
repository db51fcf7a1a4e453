use abbreviations::movement::AsciiWordOracle;
use abbreviations::movement::WordBoundaryOracle;
use abbreviations::selection::Range;
use abbreviations::selection::Selection;
use abbreviations::Abbreviations;
use ropey::Rope;

fn btw_table() -> Abbreviations {
    let mut t = Abbreviations::default();
    t.insert("btw", "by the way");
    t
}

#[test]
fn typing_at_offset_zero_is_plain_insert() {
    let t = btw_table();
    let doc = Rope::from_str("btw");
    let sel = Selection::single(0);
    let tx = t.expand_or_insert(&doc, &sel, 'x', &AsciiWordOracle).unwrap();
    assert_eq!(tx.changes, vec![(0, 0, Some(String::from("x")))]);
}

#[test]
fn matching_word_is_replaced_with_expansion_and_typed_char() {
    let t = btw_table();
    let doc = Rope::from_str("...btw");
    let sel = Selection::single(6);
    let tx = t.expand_or_insert(&doc, &sel, ' ', &AsciiWordOracle).unwrap();
    assert_eq!(tx.changes, vec![(3, 6, Some(String::from("by the way ")))]);
}

#[test]
fn applied_length_matches_substitution() {
    let t = btw_table();
    let doc = Rope::from_str("...btw");
    let sel = Selection::single(6);
    let tx = t.expand_or_insert(&doc, &sel, ' ', &AsciiWordOracle).unwrap();
    let (start, end, repl) = tx.changes[0].clone();
    let mut text: String = doc.to_string();
    text.replace_range(start..end, repl.as_deref().unwrap());
    assert_eq!(text, "...by the way ");
    assert_eq!(text.chars().count(), 6 - "btw".chars().count() + "by the way".chars().count() + 1);
}

#[test]
fn unknown_word_is_plain_insert() {
    let t = btw_table();
    let doc = Rope::from_str("...hello");
    let sel = Selection::single(8);
    let tx = t.expand_or_insert(&doc, &sel, ' ', &AsciiWordOracle).unwrap();
    assert_eq!(tx.changes, vec![(8, 8, Some(String::from(" ")))]);
}

#[test]
fn cursor_after_punctuation_is_plain_insert() {
    let t = btw_table();
    let doc = Rope::from_str("btw.");
    let sel = Selection::single(4);
    let tx = t.expand_or_insert(&doc, &sel, ' ', &AsciiWordOracle).unwrap();
    assert_eq!(tx.changes, vec![(4, 4, Some(String::from(" ")))]);
}

#[test]
fn one_char_abbreviation_expands() {
    let mut t = Abbreviations::default();
    t.insert("w", "with");
    let doc = Rope::from_str("w");
    let sel = Selection::single(1);
    let tx = t.expand_or_insert(&doc, &sel, ' ', &AsciiWordOracle).unwrap();
    assert_eq!(tx.changes, vec![(0, 1, Some(String::from("with ")))]);
}

#[test]
fn empty_selection_yields_empty_transaction() {
    let t = btw_table();
    let doc = Rope::from_str("btw");
    let sel = Selection::from_ranges(Vec::new());
    let tx = t.expand_or_insert(&doc, &sel, ' ', &AsciiWordOracle).unwrap();
    assert!(tx.is_empty());
    assert_eq!(tx.len(), 0);
}

#[test]
fn multi_cursor_changes_come_in_cursor_order() {
    let t = btw_table();
    let doc = Rope::from_str("btw and btw");
    let ranges = vec![Range::point(3), Range::point(11)];
    let sel = Selection::from_ranges(ranges);
    let tx = t.expand_or_insert(&doc, &sel, ' ', &AsciiWordOracle).unwrap();
    assert_eq!(
        tx.changes,
        vec![
            (0, 3, Some(String::from("by the way "))),
            (8, 11, Some(String::from("by the way "))),
        ]
    );
}

#[test]
fn each_cursor_is_decided_as_if_alone() {
    let t = btw_table();
    let doc = Rope::from_str("btw hello");
    let both = Selection::from_ranges(vec![Range::point(3), Range::point(9)]);
    let tx_both = t.expand_or_insert(&doc, &both, ' ', &AsciiWordOracle).unwrap();
    assert_eq!(tx_both.changes.len(), 2);
    let first_alone = t
        .expand_or_insert(&doc, &Selection::single(3), ' ', &AsciiWordOracle)
        .unwrap();
    let second_alone = t
        .expand_or_insert(&doc, &Selection::single(9), ' ', &AsciiWordOracle)
        .unwrap();
    assert_eq!(tx_both.changes[0], first_alone.changes[0]);
    assert_eq!(tx_both.changes[1], second_alone.changes[0]);
}

#[test]
fn non_collapsed_range_uses_its_head() {
    let t = btw_table();
    let doc = Rope::from_str("...btw");
    let sel = Selection::from_ranges(vec![Range::new(0, 6)]);
    let tx = t.expand_or_insert(&doc, &sel, '!', &AsciiWordOracle).unwrap();
    assert_eq!(tx.changes, vec![(3, 6, Some(String::from("by the way!")))]);
}

#[test]
fn oracle_finds_word_run_start() {
    let doc = Rope::from_str("...btw");
    let r = AsciiWordOracle.move_prev_word_start(&doc, Range::point(5), 1);
    assert_eq!((r.head, r.anchor), (3, 6));
    let r2 = AsciiWordOracle.move_prev_word_start(&doc, Range::point(2), 1);
    assert_eq!((r2.head, r2.anchor), (2, 2));
}
