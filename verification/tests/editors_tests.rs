//! Tests of the entity-list editors: dirty tracking, search, two-phase
//! deletion, and the class collection's serialization.

use fe_editor::classes::{ClassData, ClassEditor};
use fe_editor::editors::{filter_entries, EditorList, ItemEditor, ListItem, UnitEditor};
use fe_editor::ErrorKind;

#[test]
fn fresh_editors_are_clean_and_empty() {
    let items = ItemEditor::new();
    assert!(!items.has_changes());
    assert!(items.entries().is_empty());
    assert!(items.is_shown());
    let units = UnitEditor::new();
    assert!(!units.has_changes());
    let classes = ClassEditor::new("icon.png".to_string());
    assert!(!classes.has_changes());
}

#[test]
fn adding_a_record_sets_dirty_until_saved() {
    let mut ed = ItemEditor::new();
    assert!(!ed.has_changes());
    ed.add_entry();
    assert!(ed.has_changes());
    // Frames that change nothing never clear the flag on their own.
    let _ = filter_entries(&ed);
    let _ = ed.entries().len();
    ed.compact();
    assert!(ed.has_changes());
    ed.mark_saved();
    assert!(!ed.has_changes());
}

#[test]
fn editing_and_deleting_set_dirty() {
    let mut ed = UnitEditor::new();
    ed.add_entry();
    ed.mark_saved();
    assert!(!ed.has_changes());
    ed.set_entry_name(0, "ann".to_string());
    assert!(ed.has_changes());
    ed.mark_saved();
    ed.set_desc(0, "background".to_string());
    assert!(ed.has_changes());
    ed.mark_saved();
    ed.set_class(0, "Knight".to_string());
    assert!(ed.has_changes());
    ed.mark_saved();
    ed.mark_closed(0);
    assert!(ed.has_changes());
}

#[test]
fn fresh_records_are_new_and_open() {
    let mut ed = ItemEditor::new();
    ed.add_entry();
    let e = &ed.entries()[0];
    assert!(e.is_new());
    assert!(e.is_open);
    assert_eq!(e.name(), "");
}

#[test]
fn soft_delete_keeps_the_record_until_compaction() {
    let mut ed = ItemEditor::new();
    ed.add_entry();
    ed.add_entry();
    ed.set_entry_name(0, "first".to_string());
    ed.set_entry_name(1, "second".to_string());
    ed.mark_closed(0);
    // Still present: deletion is deferred to the end-of-frame compaction.
    assert_eq!(ed.entries().len(), 2);
    assert!(!ed.entries()[0].is_open);
    ed.compact();
    assert_eq!(ed.entries().len(), 1);
    assert_eq!(ed.entries()[0].name(), "second");
}

#[test]
fn compaction_without_closed_records_counts_no_change() {
    let mut ed = ItemEditor::new();
    ed.add_entry();
    ed.mark_saved();
    ed.compact();
    assert!(!ed.has_changes());
}

#[test]
fn search_filters_case_insensitively_in_order() {
    let mut ed = UnitEditor::new();
    for name in ["Knight", "archer", "Dark Knight", "mage"] {
        ed.add_entry();
        let i = ed.entries().len() - 1;
        ed.set_entry_name(i, name.to_string());
    }
    ed.set_search("kniGHT".to_string());
    assert_eq!(filter_entries(&ed), vec![0, 2]);
    ed.set_search(String::new());
    // An empty query yields all records in insertion order.
    assert_eq!(filter_entries(&ed), vec![0, 1, 2, 3]);
    ed.set_search("none such".to_string());
    assert_eq!(filter_entries(&ed), Vec::<usize>::new());
}

#[test]
fn blank_class_name_fails_serialization() {
    let c = ClassData::with_texture("icon.png".to_string());
    let err = c.to_toml().unwrap_err();
    assert_eq!(err.kind, ErrorKind::Validation);
    assert_eq!(err.msg, "A class has a blank name.");
}

#[test]
fn named_class_serializes_to_a_keyed_table() {
    let mut c = ClassData::with_texture("icon.png".to_string());
    c.name = "Knight".to_string();
    c.desc = "mounted".to_string();
    assert_eq!(c.to_toml().unwrap(), "[\"Knight\"]\ndesc = \"mounted\"\n");
}

#[test]
fn class_editor_serializes_every_class() {
    let mut ed = ClassEditor::new("icon.png".to_string());
    ed.add_entry();
    ed.set_entry_name(0, "Knight".to_string());
    ed.set_desc(0, "mounted".to_string());
    ed.add_entry();
    ed.set_entry_name(1, "Archer".to_string());
    ed.set_desc(1, "ranged".to_string());
    assert_eq!(
        ed.to_toml().unwrap(),
        "[\"Knight\"]\ndesc = \"mounted\"\n\n[\"Archer\"]\ndesc = \"ranged\"\n\n"
    );
}

#[test]
fn class_editor_with_blank_name_fails_serialization() {
    let mut ed = ClassEditor::new("icon.png".to_string());
    ed.add_entry();
    ed.set_entry_name(0, "Knight".to_string());
    ed.add_entry();
    let err = ed.to_toml().unwrap_err();
    assert_eq!(err.kind, ErrorKind::Validation);
    assert_eq!(err.msg, "A class has a blank name.");
}

#[test]
fn class_editor_opens_a_collection_document() {
    let text = "[Knight]\ndesc = \"mounted\"\n\n[Archer]\ndesc = \"ranged\"\n";
    let ed = ClassEditor::open(text, "icon.png".to_string()).unwrap();
    assert_eq!(ed.entries().len(), 2);
    assert_eq!(ed.entries()[0].name, "Knight");
    assert_eq!(ed.entries()[0].desc, "mounted");
    assert_eq!(ed.entries()[0].texture, "icon.png");
    assert!(ed.entries()[0].is_open);
    assert_eq!(ed.entries()[1].name, "Archer");
    assert!(!ed.has_changes());
}

#[test]
fn class_editor_open_round_trips_its_own_text() {
    let text = "[\"Knight\"]\ndesc = \"mounted\"\n\n[\"Bow Man\"]\ndesc = \"a \\\"b\\\"\"\n\n";
    let ed = ClassEditor::open(text, "i".to_string()).unwrap();
    assert_eq!(ed.to_toml().unwrap(), text);
}

#[test]
fn class_editor_open_rejects_bad_collections() {
    let err = ClassEditor::open("[Knight]\ndesc = 7\n", "i".to_string()).unwrap_err();
    assert_eq!(err.kind, ErrorKind::Schema);
    let err = ClassEditor::open("Knight = 7\n", "i".to_string()).unwrap_err();
    assert_eq!(err.kind, ErrorKind::Schema);
    let err = ClassEditor::open("Knight = {\n", "i".to_string()).unwrap_err();
    assert_eq!(err.kind, ErrorKind::Parse);
}

#[test]
fn distinct_records_get_distinct_identities() {
    let mut ed = ItemEditor::new();
    ed.add_entry();
    ed.add_entry();
    assert_ne!(ed.entries()[0].uuid(), ed.entries()[1].uuid());
}
