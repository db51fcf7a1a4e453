use abbreviations::Abbreviations;

#[test]
fn empty_table_has_no_entries() {
    let t = Abbreviations::default();
    assert_eq!(t.lookup("btw"), None);
    assert!(t.map().is_empty());
}

#[test]
fn insert_then_lookup() {
    let mut t = Abbreviations::default();
    t.insert("btw", "by the way");
    assert_eq!(t.lookup("btw"), Some(String::from("by the way")));
    assert_eq!(t.lookup("BTW"), None);
    assert_eq!(t.lookup("btw "), None);
    assert_eq!(t.lookup(""), None);
}

#[test]
fn insert_overwrites() {
    let mut t = Abbreviations::default();
    t.insert("btw", "by the way");
    t.insert("btw", "between");
    assert_eq!(t.lookup("btw"), Some(String::from("between")));
    assert_eq!(t.map().len(), 1);
}

#[test]
fn insert_same_pair_twice_is_idempotent() {
    let mut t = Abbreviations::default();
    t.insert("btw", "by the way");
    let once = t.lookup("btw");
    t.insert("btw", "by the way");
    assert_eq!(t.lookup("btw"), once);
    assert_eq!(t.map().len(), 1);
}

#[test]
fn remove_deletes_mapping() {
    let mut t = Abbreviations::default();
    t.insert("btw", "by the way");
    t.insert("omw", "on my way");
    t.remove("btw");
    assert_eq!(t.lookup("btw"), None);
    assert_eq!(t.lookup("omw"), Some(String::from("on my way")));
}

#[test]
fn remove_missing_key_is_noop() {
    let mut t = Abbreviations::default();
    t.insert("btw", "by the way");
    t.remove("nothere");
    assert_eq!(t.lookup("btw"), Some(String::from("by the way")));
    assert_eq!(t.map().len(), 1);
}

#[test]
fn map_enumerates_entries() {
    let mut t = Abbreviations::default();
    t.insert("a", "alpha");
    t.insert("b", "beta");
    let entries = t.map();
    assert_eq!(entries.len(), 2);
    assert!(entries.contains(&(String::from("a"), String::from("alpha"))));
    assert!(entries.contains(&(String::from("b"), String::from("beta"))));
}

#[test]
fn map_mut_edits_entries() {
    let mut t = Abbreviations::default();
    t.insert("a", "alpha");
    {
        let entries = t.map_mut();
        entries[0].1 = String::from("aleph");
    }
    assert_eq!(t.lookup("a"), Some(String::from("aleph")));
}

#[test]
fn load_single_well_formed_line() {
    let t = Abbreviations::load_from_source(&vec![String::from("a b")]);
    assert_eq!(t.lookup("a"), Some(String::from("b")));
    assert_eq!(t.map().len(), 1);
}

#[test]
fn load_skips_line_without_space() {
    let t = Abbreviations::load_from_source(&vec![String::from("noSpaceHere")]);
    assert_eq!(t.lookup("noSpaceHere"), None);
    assert!(t.map().is_empty());
}

#[test]
fn load_skips_empty_left_hand_side() {
    let t = Abbreviations::load_from_source(&vec![String::from(" x")]);
    assert!(t.map().is_empty());
    assert_eq!(t.lookup(""), None);
    assert_eq!(t.lookup("x"), None);
}

#[test]
fn load_from_no_lines_yields_empty_table() {
    // An unreadable or missing source hands the loader no lines at all.
    let t = Abbreviations::load_from_source(&Vec::new());
    assert!(t.map().is_empty());
}

#[test]
fn load_splits_on_first_space_only() {
    let t = Abbreviations::load_from_source(&vec![String::from("omw on my way")]);
    assert_eq!(t.lookup("omw"), Some(String::from("on my way")));
}

#[test]
fn load_mixes_good_and_bad_lines() {
    let lines = vec![
        String::from("btw by the way"),
        String::from("broken"),
        String::from(" x"),
        String::from("omw on my way"),
    ];
    let t = Abbreviations::load_from_source(&lines);
    assert_eq!(t.map().len(), 2);
    assert_eq!(t.lookup("btw"), Some(String::from("by the way")));
    assert_eq!(t.lookup("omw"), Some(String::from("on my way")));
    assert_eq!(t.lookup("broken"), None);
    assert_eq!(t.lookup("x"), None);
}

#[test]
fn later_line_overrides_earlier() {
    let lines = vec![String::from("a first"), String::from("a second")];
    let t = Abbreviations::load_from_source(&lines);
    assert_eq!(t.lookup("a"), Some(String::from("second")));
    assert_eq!(t.map().len(), 1);
}
