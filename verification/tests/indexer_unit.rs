//! Tests of the index items read from dictionary entries.

use ldoce5viewer_tui::indexer::items::{collapse_space, extract_items_from_entry, shorten_id, ExtractError};

#[test]
fn indexer_shorten_id() {
    assert_eq!(shorten_id("u2fc0.1.2.3"), "2.3");
    assert_eq!(shorten_id("a.b.c"), "a.b.c");
    assert_eq!(shorten_id("plain"), "plain");
}

#[test]
fn indexer_collapse_space() {
    assert_eq!(collapse_space("  a \n b\t\tc  "), "a b c");
    assert_eq!(collapse_space(""), "");
}

#[test]
fn indexer_headword_and_definition_items() {
    let xml = br#"<Entry id="u2fc0.1.2.3"><Head><HWD><BASE>run</BASE></HWD><POS>verb</POS></Head><Sense id="u2fc0.1.2.3.4"><DEF>to move fast</DEF></Sense></Entry>"#;
    let (items, vars) = extract_items_from_entry(xml).unwrap();
    assert!(vars.is_empty());
    assert_eq!(items.len(), 2);
    // An element's collected text holds its first text twice: once as the
    // element's own text and once as its text child.
    let hm = &items[0];
    assert_eq!(hm.itemtype, "hm");
    assert_eq!(hm.label, "<h><n>run run</n> <p>verb</p></h>");
    assert_eq!(hm.path, "/fs/2.3");
    assert_eq!(hm.content, "run run verb verb to move fast to move fast");
    assert_eq!(hm.sortkey, "run run");
    assert_eq!(hm.prio, 1);
    let d = &items[1];
    assert_eq!(d.itemtype, "d");
    assert_eq!(d.path, "/fs/2.3#u2fc0.1.2.3.4");
    assert_eq!(d.content, "to move fast to move fast");
    assert_eq!(d.prio, 30);
}

#[test]
fn indexer_phrasal_verb_and_example_items() {
    let xml = br#"<Entry id="e.1.2.3"><Head><HWD><BASE>go</BASE></HWD><FREQ>S1</FREQ></Head><PhrVbEntry id="p.1.5.6"><PHRVBHWD>go on</PHRVBHWD></PhrVbEntry><EXAMPLE id="x.1.7.8"><BASE>Go <COLLOINEXA>home</COLLOINEXA> now</BASE></EXAMPLE></Entry>"#;
    let (items, _) = extract_items_from_entry(xml).unwrap();
    let types: Vec<&str> = items.iter().map(|i| i.itemtype.as_str()).collect();
    assert_eq!(types, vec!["hm", "hp", "e", "p"]);
    assert_eq!(items[0].label, "<h><f>go go</f></h>");
    assert_eq!(items[1].label, "<h><pv>go on go on</pv> <p>phrasal verb</p></h>");
    assert_eq!(items[1].path, "/fs/2.3#5.6");
    assert_eq!(items[2].content, "Go Go home home now now");
    assert_eq!(items[2].path, "/fs/2.3#7.8");
    assert_eq!(items[3].content, "home home");
    assert_eq!(items[3].prio, 15);
}

#[test]
fn indexer_errors() {
    assert_eq!(extract_items_from_entry(&[0xff, 0xfe]).unwrap_err(), ExtractError::NotUtf8);
    assert_eq!(extract_items_from_entry(b"<Entry>").unwrap_err(), ExtractError::Parse);
    assert_eq!(ExtractError::Parse.to_string(), "parse xml");
}
