use voyena::codec::{
    event_to_row, row_to_event,
    missing_column, note_to_row, row_to_note, tags_from_text, tags_to_text, NoteRow,
    row_to_brain_map_connection, brain_map_connection_to_row, BrainMapConnectionRow,
};
use voyena::models::{
    BrainMapCreate, BrainMapNodeCreate, EventCreate, EventUpdate, FolderCreate, FolderUpdate,
    Note, NoteCreate, NoteUpdate,
};
use voyena::store::{Database, StoreError};
use voyena::text::text_less;

fn strings(v: &[&str]) -> Vec<String> {
    v.iter().map(|s| s.to_string()).collect()
}

fn note_seed(title: &str, folder: Option<&str>, tags: Option<Vec<String>>) -> NoteCreate {
    NoteCreate {
        title: Some(title.to_string()),
        content: None,
        folder_id: folder.map(|f| f.to_string()),
        tags,
    }
}

fn empty_note_patch() -> NoteUpdate {
    NoteUpdate { title: None, content: None, folder_id: None, tags: None, is_pinned: None }
}

fn event_seed(title: &str, start: Option<&str>) -> EventCreate {
    EventCreate {
        title: title.to_string(),
        description: None,
        start_time: start.map(|s| s.to_string()),
        end_time: None,
        time_mode: None,
        duration_minutes: None,
        location: None,
        category: None,
        color: None,
        priority: None,
        tags: None,
        show_on_calendar: None,
        is_all_day: None,
        is_recurring: None,
        recurring_pattern: None,
        reminders: None,
    }
}

fn empty_event_patch() -> EventUpdate {
    EventUpdate {
        title: None,
        description: None,
        start_time: None,
        end_time: None,
        time_mode: None,
        duration_minutes: None,
        location: None,
        category: None,
        color: None,
        priority: None,
        tags: None,
        show_on_calendar: None,
        is_all_day: None,
        is_recurring: None,
        recurring_pattern: None,
        status: None,
        reminders: None,
    }
}

fn folder_seed(name: &str, parent: Option<&str>) -> FolderCreate {
    FolderCreate { name: name.to_string(), parent_id: parent.map(|p| p.to_string()), color: None, icon: None }
}

#[test]
fn note_tags_read_back_in_order() {
    let mut db = Database::new();
    let tags = strings(&["zeta", "alpha", "zeta", "mid"]);
    let n = db.create_note(note_seed("t", None, Some(tags.clone()))).unwrap();
    assert!(n.id.starts_with("note_"));
    assert_eq!(n.id.len(), "note_".len() + 36);
    let got = db.get_note(&n.id).unwrap();
    assert_eq!(got.tags, tags);
}

#[test]
fn note_defaults() {
    let mut db = Database::new();
    let n = db.create_note_at(NoteCreate { title: None, content: None, folder_id: None, tags: None }, "n".to_string(), 5).unwrap();
    assert_eq!(n.title, "");
    assert_eq!(n.content, "");
    assert!(n.tags.is_empty());
    assert!(!n.is_pinned);
    assert_eq!(n.created_at, 5);
    assert_eq!(n.updated_at, 5);
    assert_eq!(n.deleted_at, None);
    let r = db.create_note_at(note_seed("again", None, None), "n".to_string(), 6);
    assert_eq!(r.unwrap_err(), StoreError::DuplicateKey);
}

#[test]
fn soft_deleted_note_is_unlisted_but_fetchable() {
    let mut db = Database::new();
    db.create_note_at(note_seed("a", None, None), "a".to_string(), 1).unwrap();
    db.create_note_at(note_seed("b", None, None), "b".to_string(), 2).unwrap();
    db.delete_note_at(&"a".to_string(), None, 3);
    let ids: Vec<String> = db.get_notes(None).into_iter().map(|n| n.id).collect();
    assert_eq!(ids, vec!["b"]);
    assert_eq!(db.get_note(&"a".to_string()).unwrap().deleted_at, Some(3));
    db.delete_note_at(&"a".to_string(), Some(true), 4);
    assert!(db.get_note(&"a".to_string()).is_none());
}

#[test]
fn hard_deleted_note_unlinks_nodes() {
    let mut db = Database::new();
    db.create_note_at(note_seed("a", None, None), "a".to_string(), 1).unwrap();
    db.create_brain_map_at(BrainMapCreate { title: None, description: None, center_node_text: None, theme: None }, "m".to_string(), "c".to_string(), 2).unwrap();
    let seed = BrainMapNodeCreate {
        brain_map_id: "m".to_string(),
        parent_node_id: None,
        label: "n".to_string(),
        description: None,
        x: None,
        y: None,
        color: None,
        shape: None,
        size: None,
        icon: None,
        linked_note_id: Some("a".to_string()),
        linked_folder_id: None,
    };
    db.create_brain_map_node_at(seed, "x".to_string(), 3).unwrap();
    db.delete_note_at(&"a".to_string(), Some(false), 4);
    assert_eq!(db.nodes[1].linked_note_id.as_deref(), Some("a"));
    db.delete_note_at(&"a".to_string(), Some(true), 5);
    assert_eq!(db.nodes[1].linked_note_id, None);
    assert!(db.is_well_formed());
}

#[test]
fn notes_listed_pinned_then_recent_and_by_folder() {
    let mut db = Database::new();
    db.create_note_at(note_seed("a", Some("f"), None), "a".to_string(), 1).unwrap();
    db.create_note_at(note_seed("b", None, None), "b".to_string(), 2).unwrap();
    db.create_note_at(note_seed("c", Some("f"), None), "c".to_string(), 3).unwrap();
    let mut pin = empty_note_patch();
    pin.is_pinned = Some(true);
    db.update_note_at(&"a".to_string(), pin, 4).unwrap();
    db.update_note_at(&"c".to_string(), empty_note_patch(), 5).unwrap();
    let ids: Vec<String> = db.get_notes(None).into_iter().map(|n| n.id).collect();
    assert_eq!(ids, vec!["a", "c", "b"]);
    let ids: Vec<String> = db.get_notes(Some("f".to_string())).into_iter().map(|n| n.id).collect();
    assert_eq!(ids, vec!["a", "c"]);
}

#[test]
fn empty_note_patch_only_advances_update_time() {
    let mut db = Database::new();
    let before = db.create_note_at(note_seed("a", Some("f"), Some(strings(&["x"]))), "a".to_string(), 1).unwrap();
    let after = db.update_note_at(&"a".to_string(), empty_note_patch(), 9).unwrap();
    assert_eq!(after, Note { updated_at: 9, ..before });
    let r = db.update_note_at(&"q".to_string(), empty_note_patch(), 9);
    assert_eq!(r.unwrap_err(), StoreError::NotFound);
}

#[test]
fn note_patch_applies_given_fields() {
    let mut db = Database::new();
    db.create_note_at(note_seed("a", None, None), "a".to_string(), 1).unwrap();
    let p = NoteUpdate {
        title: Some("new".to_string()),
        content: Some("body".to_string()),
        folder_id: Some("f".to_string()),
        tags: Some(strings(&["t"])),
        is_pinned: Some(true),
    };
    let n = db.update_note_at(&"a".to_string(), p, 2).unwrap();
    assert_eq!(n.title, "new");
    assert_eq!(n.content, "body");
    assert_eq!(n.folder_id.as_deref(), Some("f"));
    assert_eq!(n.tags, strings(&["t"]));
    assert!(n.is_pinned);
    assert_eq!(db.get_note(&"a".to_string()).unwrap(), n);
}

#[test]
fn moving_notes_skips_unknown_ids() {
    let mut db = Database::new();
    db.create_note_at(note_seed("a", None, None), "a".to_string(), 1).unwrap();
    db.create_note_at(note_seed("b", None, None), "b".to_string(), 2).unwrap();
    db.move_notes_to_folder_at(&strings(&["a", "ghost"]), Some("f".to_string()), 7);
    let a = db.get_note(&"a".to_string()).unwrap();
    assert_eq!(a.folder_id.as_deref(), Some("f"));
    assert_eq!(a.updated_at, 7);
    let b = db.get_note(&"b".to_string()).unwrap();
    assert_eq!(b.folder_id, None);
    assert_eq!(b.updated_at, 2);
}

#[test]
fn folders_listed_by_name() {
    let mut db = Database::new();
    for (id, name) in [("1", "beta"), ("2", "Zed"), ("3", "alpha"), ("4", "al")] {
        db.create_folder_at(folder_seed(name, None), id.to_string(), 1).unwrap();
    }
    let names: Vec<String> = db.get_folders().into_iter().map(|f| f.name).collect();
    assert_eq!(names, vec!["Zed", "al", "alpha", "beta"]);
}

#[test]
fn folder_update_and_missing_folder() {
    let mut db = Database::new();
    let f = db.create_folder(folder_seed("a", None)).unwrap();
    assert!(f.id.starts_with("folder_"));
    assert_eq!(f.id.len(), "folder_".len() + 36);
    let p = FolderUpdate { name: Some("b".to_string()), parent_id: None, color: Some("red".to_string()), icon: None };
    let g = db.update_folder_at(&f.id, p, 50).unwrap();
    assert_eq!(g.name, "b");
    assert_eq!(g.color.as_deref(), Some("red"));
    assert_eq!(g.updated_at, 50);
    let empty = FolderUpdate { name: None, parent_id: None, color: None, icon: None };
    assert_eq!(db.update_folder_at(&"x".to_string(), empty, 1).unwrap_err(), StoreError::NotFound);
}

#[test]
fn empty_folder_patch_only_advances_update_time() {
    let mut db = Database::new();
    let before = db.create_folder_at(folder_seed("a", Some("p")), "f".to_string(), 4).unwrap();
    let empty = FolderUpdate { name: None, parent_id: None, color: None, icon: None };
    let after = db.update_folder_at(&"f".to_string(), empty, 6).unwrap();
    assert_eq!(after, voyena::models::Folder { updated_at: 6, ..before });
}

#[test]
fn deleting_folder_releases_notes_children_and_nodes() {
    let mut db = Database::new();
    db.create_folder_at(folder_seed("top", None), "f".to_string(), 1).unwrap();
    db.create_folder_at(folder_seed("sub", Some("f")), "g".to_string(), 1).unwrap();
    db.create_note_at(note_seed("a", Some("f"), None), "a".to_string(), 2).unwrap();
    db.create_brain_map_at(BrainMapCreate { title: None, description: None, center_node_text: None, theme: None }, "m".to_string(), "c".to_string(), 2).unwrap();
    db.nodes[0].linked_folder_id = Some("f".to_string());
    db.delete_folder(&"f".to_string());
    assert_eq!(db.get_folders().len(), 1);
    assert_eq!(db.folders[0].parent_id, None);
    let a = db.get_note(&"a".to_string()).unwrap();
    assert_eq!(a.folder_id, None);
    assert_eq!(a.updated_at, 2);
    assert_eq!(db.nodes[0].linked_folder_id, None);
}

#[test]
fn settings_store_and_replace() {
    let mut db = Database::new();
    assert_eq!(db.get_setting(&"theme".to_string()), None);
    db.set_setting("theme".to_string(), "dark".to_string());
    db.set_setting("lang".to_string(), "en".to_string());
    db.set_setting("theme".to_string(), "light".to_string());
    assert_eq!(db.get_setting(&"theme".to_string()).as_deref(), Some("light"));
    assert_eq!(db.get_setting(&"lang".to_string()).as_deref(), Some("en"));
    assert_eq!(db.settings.len(), 2);
}

#[test]
fn event_defaults() {
    let mut db = Database::new();
    let e = db.create_event_at(event_seed("e", None), "e".to_string(), 3).unwrap();
    assert!(!e.has_scheduled_time);
    assert_eq!(e.time_mode, "at_time");
    assert_eq!(e.category.as_deref(), Some("personal"));
    assert_eq!(e.priority.as_deref(), Some("medium"));
    assert_eq!(e.status.as_deref(), Some("pending"));
    assert!(e.show_on_calendar);
    assert!(!e.is_all_day);
    assert!(!e.is_recurring);
    assert_eq!(e.event_type, None);
    let s = db.create_event_at(event_seed("s", Some("2024-05-01T10:00")), "s".to_string(), 3).unwrap();
    assert!(s.has_scheduled_time);
    assert_eq!(db.create_event_at(event_seed("x", None), "e".to_string(), 4).unwrap_err(), StoreError::DuplicateKey);
}

#[test]
fn events_listed_by_start_unscheduled_first() {
    let mut db = Database::new();
    db.create_event_at(event_seed("late", Some("2024-06-01")), "late".to_string(), 1).unwrap();
    db.create_event_at(event_seed("none", None), "none".to_string(), 2).unwrap();
    db.create_event_at(event_seed("early", Some("2024-01-01")), "early".to_string(), 3).unwrap();
    db.create_event_at(event_seed("gone", Some("2023-01-01")), "gone".to_string(), 4).unwrap();
    db.delete_event_at(&"gone".to_string(), None, 5);
    let ids: Vec<String> = db.get_events().into_iter().map(|e| e.id).collect();
    assert_eq!(ids, vec!["none", "early", "late"]);
    assert_eq!(db.get_event(&"gone".to_string()).unwrap().deleted_at, Some(5));
    db.delete_event_at(&"gone".to_string(), Some(true), 6);
    assert!(db.get_event(&"gone".to_string()).is_none());
}

#[test]
fn empty_event_patch_only_advances_update_time() {
    let mut db = Database::new();
    let before = db.create_event_at(event_seed("e", Some("2024")), "e".to_string(), 3).unwrap();
    let after = db.update_event_at(&"e".to_string(), empty_event_patch(), 8).unwrap();
    assert_eq!(after, voyena::models::Event { updated_at: 8, ..before });
    let mut p = empty_event_patch();
    p.status = Some("done".to_string());
    let done = db.update_event_at(&"e".to_string(), p, 9).unwrap();
    assert_eq!(done.status.as_deref(), Some("done"));
    assert_eq!(db.update_event_at(&"x".to_string(), empty_event_patch(), 9).unwrap_err(), StoreError::NotFound);
}

#[test]
fn clock_backed_record_operations() {
    let mut db = Database::new();
    let e = db.create_event(event_seed("e", None)).unwrap();
    assert!(e.id.starts_with("event_"));
    assert_eq!(e.id.len(), "event_".len() + 36);
    db.update_event(&e.id, empty_event_patch()).unwrap();
    db.delete_event(&e.id, None);
    assert!(db.get_events().is_empty());
    let n = db.create_note(note_seed("n", None, None)).unwrap();
    db.update_note(&n.id, empty_note_patch()).unwrap();
    db.move_notes_to_folder(&vec![n.id.clone()], Some("f".to_string()));
    assert_eq!(db.get_notes(Some("f".to_string())).len(), 1);
    db.delete_note(&n.id, Some(true));
    assert!(db.notes.is_empty());
    let f = db.create_folder(folder_seed("x", None)).unwrap();
    db.update_folder(&f.id, FolderUpdate { name: None, parent_id: None, color: None, icon: None }).unwrap();
}

#[test]
fn tags_written_as_json_text() {
    assert_eq!(tags_to_text(&strings(&["a", "b"])), "[\"a\",\"b\"]");
    assert_eq!(tags_to_text(&vec![]), "[]");
    assert_eq!(tags_to_text(&strings(&["q\"uote"])), "[\"q\\\"uote\"]");
    assert_eq!(tags_from_text("[\"x\",\"y\"]"), strings(&["x", "y"]));
    assert!(tags_from_text("not json").is_empty());
}

#[test]
fn note_rows_convert_both_ways() {
    let row = NoteRow {
        id: "n".to_string(),
        title: "t".to_string(),
        content: "c".to_string(),
        folder_id: None,
        tags: "[\"q\"]".to_string(),
        is_pinned: 1,
        created_at: 1,
        updated_at: 2,
        deleted_at: None,
    };
    let note = row_to_note(row.clone());
    assert_eq!(note.tags, strings(&["q"]));
    assert!(note.is_pinned);
    assert_eq!(note_to_row(&note), row);
    let bad = NoteRow { tags: "{".to_string(), is_pinned: 0, ..row };
    let n2 = row_to_note(bad);
    assert!(n2.tags.is_empty());
    assert!(!n2.is_pinned);
}

#[test]
fn connection_rows_convert_both_ways() {
    let row = BrainMapConnectionRow {
        id: "k".to_string(),
        brain_map_id: "m".to_string(),
        source_node_id: "a".to_string(),
        target_node_id: "b".to_string(),
        label: None,
        color: None,
        style: Some("dashed".to_string()),
        animated: 7,
        created_at: 3,
    };
    let c = row_to_brain_map_connection(row.clone());
    assert!(c.animated);
    assert_eq!(brain_map_connection_to_row(&c).animated, 1);
}

#[test]
fn missing_column_detection() {
    let cols = strings(&["id", "label"]);
    assert!(missing_column(&cols, &"linked_event_id".to_string()));
    assert!(!missing_column(&cols, &"label".to_string()));
}

#[test]
fn text_order_by_code_point() {
    assert!(text_less("Z", "a"));
    assert!(text_less("al", "alpha"));
    assert!(!text_less("alpha", "al"));
    assert!(!text_less("same", "same"));
    assert!(text_less("", "x"));
}

#[test]
fn event_rows_convert_both_ways() {
    let mut db = Database::new();
    let mut seed = event_seed("e", Some("2024-05-01"));
    seed.tags = Some(strings(&["work", "x"]));
    seed.location = Some("here".to_string());
    seed.is_all_day = Some(true);
    let e = db.create_event_at(seed, "e".to_string(), 3).unwrap();
    let row = event_to_row(&e);
    assert_eq!(row.tags, "[\"work\",\"x\"]");
    assert_eq!(row.is_all_day, 1);
    assert_eq!(row.show_on_calendar, 1);
    assert_eq!(row.is_recurring, 0);
    assert_eq!(row.location.as_deref(), Some("here"));
    assert_eq!(row.time_mode, "at_time");
    assert_eq!(row_to_event(row), e);
}
