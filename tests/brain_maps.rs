use voyena::models::{
    BrainMapConnectionCreate, BrainMapCreate, BrainMapNode, BrainMapNodeCreate,
    BrainMapNodeUpdate, BrainMapUpdate, Coord,
};
use voyena::store::{Database, StoreError};

fn no_map_args() -> BrainMapCreate {
    BrainMapCreate { title: None, description: None, center_node_text: None, theme: None }
}

fn node_seed(map_id: &str, label: &str, parent: Option<&str>) -> BrainMapNodeCreate {
    BrainMapNodeCreate {
        brain_map_id: map_id.to_string(),
        parent_node_id: parent.map(|p| p.to_string()),
        label: label.to_string(),
        description: None,
        x: None,
        y: None,
        color: None,
        shape: None,
        size: None,
        icon: None,
        linked_note_id: None,
        linked_folder_id: None,
    }
}

fn empty_node_patch() -> BrainMapNodeUpdate {
    BrainMapNodeUpdate {
        parent_node_id: None,
        label: None,
        description: None,
        x: None,
        y: None,
        color: None,
        shape: None,
        size: None,
        icon: None,
        linked_note_id: None,
        linked_folder_id: None,
        is_collapsed: None,
    }
}

fn link(map_id: &str, a: &str, b: &str) -> BrainMapConnectionCreate {
    BrainMapConnectionCreate {
        brain_map_id: map_id.to_string(),
        source_node_id: a.to_string(),
        target_node_id: b.to_string(),
        label: None,
        color: None,
        style: None,
        animated: None,
    }
}

fn coord(v: f64) -> Coord {
    Coord { bits: v.to_bits() }
}

fn node<'a>(db: &'a Database, id: &str) -> &'a BrainMapNode {
    db.nodes.iter().find(|n| n.id == id).unwrap()
}

/// A store with map "m" (center "c") at time 10.
fn one_map() -> Database {
    let mut db = Database::new();
    db.create_brain_map_at(no_map_args(), "m".to_string(), "c".to_string(), 10).unwrap();
    db
}

#[test]
fn create_map_without_arguments() {
    let mut db = Database::new();
    let w = db.create_brain_map(no_map_args()).unwrap();
    assert_eq!(w.brain_map.title, "Untitled Map");
    assert_eq!(w.brain_map.center_node_text, "Central Idea");
    assert_eq!(w.nodes.len(), 1);
    assert_eq!(w.nodes[0].label, "Central Idea");
    assert_eq!(w.nodes[0].layer, 0);
    assert!(w.connections.is_empty());
    assert!(w.brain_map.id.starts_with("brainmap_"));
    assert!(w.nodes[0].id.starts_with("node_"));
    assert_eq!(w.brain_map.id.len(), "brainmap_".len() + 36);
    assert_eq!(w.nodes[0].id.len(), "node_".len() + 36);
    assert_eq!(w.brain_map.center_node_id.as_deref(), Some(w.nodes[0].id.as_str()));
    assert_eq!(f64::from_bits(w.brain_map.viewport_zoom.bits), 1.0);
    assert_eq!(f64::from_bits(w.brain_map.viewport_x.bits), 0.0);
    assert_eq!(w.nodes[0].color.as_deref(), Some("#6366f1"));
    assert_eq!(w.nodes[0].shape.as_deref(), Some("circle"));
    assert_eq!(w.nodes[0].size.as_deref(), Some("large"));
    assert!(db.is_well_formed());
}

#[test]
fn create_map_with_center_text() {
    let mut db = Database::new();
    let data = BrainMapCreate {
        title: Some("Plans".to_string()),
        description: Some("d".to_string()),
        center_node_text: Some("Trip".to_string()),
        theme: Some("dark".to_string()),
    };
    let w = db.create_brain_map_at(data, "m".to_string(), "c".to_string(), 7).unwrap();
    assert_eq!(w.brain_map.title, "Plans");
    assert_eq!(w.brain_map.center_node_text, "Trip");
    assert_eq!(w.nodes[0].label, "Trip");
    assert_eq!(w.brain_map.center_node_id.as_deref(), Some("c"));
    assert_eq!(w.brain_map.created_at, 7);
    assert_eq!(db.brain_maps.len(), 1);
    assert_eq!(db.nodes.len(), 1);
}

#[test]
fn create_map_with_taken_ids_changes_nothing() {
    let mut db = one_map();
    let r = db.create_brain_map_at(no_map_args(), "m2".to_string(), "c".to_string(), 11);
    assert_eq!(r.unwrap_err(), StoreError::DuplicateKey);
    assert_eq!(db.brain_maps.len(), 1);
    assert_eq!(db.nodes.len(), 1);
}

#[test]
fn node_layers_and_staleness_after_parent_delete() {
    let mut db = one_map();
    let a = db.create_brain_map_node_at(node_seed("m", "A", None), "a".to_string(), 20).unwrap();
    assert_eq!(a.layer, 1);
    let b = db.create_brain_map_node_at(node_seed("m", "B", Some("a")), "b".to_string(), 21).unwrap();
    assert_eq!(b.layer, 2);
    db.delete_brain_map_node_at(&"a".to_string(), 22);
    let b_now = node(&db, "b");
    assert_eq!(b_now.parent_node_id, None);
    assert_eq!(b_now.layer, 2);
    assert!(db.nodes.iter().all(|n| n.id != "a"));
}

#[test]
fn child_of_center_is_layer_one_and_dangling_parent_counts_as_zero() {
    let mut db = one_map();
    let n = db.create_brain_map_node_at(node_seed("m", "x", Some("c")), "x".to_string(), 20).unwrap();
    assert_eq!(n.layer, 1);
    let d = db.create_brain_map_node_at(node_seed("m", "d", Some("ghost")), "d".to_string(), 21).unwrap();
    assert_eq!(d.layer, 1);
    assert_eq!(d.parent_node_id.as_deref(), Some("ghost"));
}

#[test]
fn node_defaults() {
    let mut db = one_map();
    let n = db.create_brain_map_node_at(node_seed("m", "x", None), "x".to_string(), 20).unwrap();
    assert_eq!(n.shape.as_deref(), Some("circle"));
    assert_eq!(n.size.as_deref(), Some("medium"));
    assert_eq!(f64::from_bits(n.x.bits), 0.0);
    assert!(!n.is_collapsed);
    assert_eq!(n.created_at, 20);
}

#[test]
fn node_in_missing_map_is_refused() {
    let mut db = one_map();
    let r = db.create_brain_map_node_at(node_seed("nope", "x", None), "x".to_string(), 20);
    assert_eq!(r.unwrap_err(), StoreError::MissingReference);
    let r = db.create_brain_map_node_at(node_seed("m", "x", None), "c".to_string(), 20);
    assert_eq!(r.unwrap_err(), StoreError::DuplicateKey);
    assert_eq!(db.nodes.len(), 1);
}

#[test]
fn layer_that_would_overflow_is_refused() {
    let mut db = one_map();
    db.nodes[0].layer = i32::MAX;
    let r = db.create_brain_map_node_at(node_seed("m", "x", Some("c")), "x".to_string(), 20);
    assert_eq!(r.unwrap_err(), StoreError::LayerOverflow);
    assert_eq!(db.nodes.len(), 1);
}

#[test]
fn connection_defaults() {
    let mut db = one_map();
    db.create_brain_map_node_at(node_seed("m", "A", None), "a".to_string(), 20).unwrap();
    let c = db.create_brain_map_connection_at(link("m", "c", "a"), "k".to_string(), 30).unwrap();
    assert_eq!(c.style.as_deref(), Some("solid"));
    assert!(!c.animated);
    assert_eq!(c.created_at, 30);
    assert_eq!(db.brain_maps[0].updated_at, 30);
}

#[test]
fn connection_to_missing_node_is_refused() {
    let mut db = one_map();
    let r = db.create_brain_map_connection_at(link("m", "c", "zzz"), "k".to_string(), 30);
    assert_eq!(r.unwrap_err(), StoreError::MissingReference);
    assert!(db.connections.is_empty());
    assert_eq!(db.brain_maps[0].updated_at, 10);
}

#[test]
fn parallel_connections_are_allowed() {
    let mut db = one_map();
    db.create_brain_map_node_at(node_seed("m", "A", None), "a".to_string(), 20).unwrap();
    db.create_brain_map_connection(link("m", "c", "a")).unwrap();
    db.create_brain_map_connection(link("m", "c", "a")).unwrap();
    assert_eq!(db.connections.len(), 2);
    assert!(db.connections.iter().all(|c| c.id.starts_with("conn_")));
}

#[test]
fn reposition_stops_at_missing_node() {
    let mut db = one_map();
    for (id, t) in [("a", 20), ("b", 21), ("d", 22)] {
        db.create_brain_map_node_at(node_seed("m", id, None), id.to_string(), t).unwrap();
    }
    let moves = vec![
        ("a".to_string(), coord(1.5), coord(2.5)),
        ("b".to_string(), coord(3.0), coord(4.0)),
        ("missing".to_string(), coord(9.0), coord(9.0)),
        ("d".to_string(), coord(5.0), coord(6.0)),
    ];
    let r = db.update_node_positions_at(&moves, 40);
    assert_eq!(r, Err(StoreError::NotFound));
    assert_eq!(f64::from_bits(node(&db, "a").x.bits), 1.5);
    assert_eq!(f64::from_bits(node(&db, "a").y.bits), 2.5);
    assert_eq!(node(&db, "a").updated_at, 40);
    assert_eq!(f64::from_bits(node(&db, "b").x.bits), 3.0);
    assert_eq!(f64::from_bits(node(&db, "d").x.bits), 0.0);
    assert_eq!(node(&db, "d").updated_at, 22);
}

#[test]
fn reposition_all_found() {
    let mut db = one_map();
    let moves = vec![("c".to_string(), coord(-1.0), coord(2.0))];
    assert_eq!(db.update_node_positions_at(&moves, 50), Ok(()));
    assert_eq!(f64::from_bits(node(&db, "c").x.bits), -1.0);
    assert_eq!(db.brain_maps[0].updated_at, 10);
}

#[test]
fn soft_deleted_map_is_unlisted_but_fetchable() {
    let mut db = one_map();
    db.create_brain_map_at(no_map_args(), "m2".to_string(), "c2".to_string(), 11).unwrap();
    db.delete_brain_map_at(&"m".to_string(), None, 12);
    let listed = db.get_brain_maps();
    assert_eq!(listed.len(), 1);
    assert_eq!(listed[0].id, "m2");
    let got = db.get_brain_map(&"m".to_string()).unwrap();
    assert_eq!(got.brain_map.deleted_at, Some(12));
    assert_eq!(got.nodes.len(), 1);
}

#[test]
fn hard_deleted_map_takes_its_nodes_and_connections() {
    let mut db = one_map();
    db.create_brain_map_at(no_map_args(), "m2".to_string(), "c2".to_string(), 11).unwrap();
    db.create_brain_map_node_at(node_seed("m", "A", Some("c")), "a".to_string(), 20).unwrap();
    db.create_brain_map_node_at(node_seed("m2", "B", Some("a")), "b".to_string(), 21).unwrap();
    db.create_brain_map_connection_at(link("m", "c", "a"), "k1".to_string(), 22).unwrap();
    db.create_brain_map_connection_at(link("m2", "c2", "a"), "k2".to_string(), 23).unwrap();
    db.create_brain_map_connection_at(link("m2", "c2", "b"), "k3".to_string(), 24).unwrap();
    db.delete_brain_map_at(&"m".to_string(), Some(true), 30);
    assert!(db.get_brain_map(&"m".to_string()).is_none());
    assert!(db.nodes.iter().all(|n| n.brain_map_id != "m"));
    assert_eq!(db.nodes.len(), 2);
    let ids: Vec<&str> = db.connections.iter().map(|c| c.id.as_str()).collect();
    assert_eq!(ids, vec!["k3"]);
    assert_eq!(node(&db, "b").parent_node_id, None);
    assert!(db.is_well_formed());
    assert_eq!(db.get_brain_maps().len(), 1);
}

#[test]
fn deleting_node_removes_its_connections() {
    let mut db = one_map();
    db.create_brain_map_node_at(node_seed("m", "A", None), "a".to_string(), 20).unwrap();
    db.create_brain_map_node_at(node_seed("m", "B", None), "b".to_string(), 21).unwrap();
    db.create_brain_map_connection_at(link("m", "a", "b"), "k1".to_string(), 22).unwrap();
    db.create_brain_map_connection_at(link("m", "c", "a"), "k2".to_string(), 23).unwrap();
    db.create_brain_map_connection_at(link("m", "c", "b"), "k3".to_string(), 24).unwrap();
    db.delete_brain_map_node_at(&"a".to_string(), 25);
    let ids: Vec<&str> = db.connections.iter().map(|c| c.id.as_str()).collect();
    assert_eq!(ids, vec!["k3"]);
    assert_eq!(db.brain_maps[0].updated_at, 25);
}

#[test]
fn deleting_missing_node_is_a_no_op() {
    let mut db = one_map();
    db.delete_brain_map_node_at(&"nope".to_string(), 99);
    assert_eq!(db.nodes.len(), 1);
    assert_eq!(db.brain_maps[0].updated_at, 10);
}

#[test]
fn node_changes_touch_the_map_but_connection_delete_does_not() {
    let mut db = one_map();
    db.create_brain_map_node_at(node_seed("m", "A", None), "a".to_string(), 20).unwrap();
    assert_eq!(db.brain_maps[0].updated_at, 20);
    db.update_brain_map_node_at(&"a".to_string(), empty_node_patch(), 30).unwrap();
    assert_eq!(db.brain_maps[0].updated_at, 30);
    db.create_brain_map_connection_at(link("m", "c", "a"), "k".to_string(), 40).unwrap();
    assert_eq!(db.brain_maps[0].updated_at, 40);
    db.delete_brain_map_connection(&"k".to_string());
    assert!(db.connections.is_empty());
    assert_eq!(db.brain_maps[0].updated_at, 40);
    db.delete_brain_map_node_at(&"a".to_string(), 50);
    assert_eq!(db.brain_maps[0].updated_at, 50);
}

#[test]
fn empty_node_patch_only_advances_update_time() {
    let mut db = one_map();
    let before = db.create_brain_map_node_at(node_seed("m", "A", Some("c")), "a".to_string(), 20).unwrap();
    let after = db.update_brain_map_node_at(&"a".to_string(), empty_node_patch(), 35).unwrap();
    assert_eq!(after, BrainMapNode { updated_at: 35, ..before });
}

#[test]
fn node_patch_keeps_layer_on_reparent() {
    let mut db = one_map();
    db.create_brain_map_node_at(node_seed("m", "A", None), "a".to_string(), 20).unwrap();
    db.create_brain_map_node_at(node_seed("m", "B", Some("a")), "b".to_string(), 21).unwrap();
    let mut p = empty_node_patch();
    p.parent_node_id = Some("c".to_string());
    p.label = Some("B2".to_string());
    p.is_collapsed = Some(true);
    let b = db.update_brain_map_node_at(&"b".to_string(), p, 22).unwrap();
    assert_eq!(b.layer, 2);
    assert_eq!(b.label, "B2");
    assert!(b.is_collapsed);
    assert_eq!(b.parent_node_id.as_deref(), Some("c"));
    let r = db.update_brain_map_node_at(&"zz".to_string(), empty_node_patch(), 23);
    assert_eq!(r.unwrap_err(), StoreError::NotFound);
}

#[test]
fn empty_map_patch_only_advances_update_time() {
    let mut db = one_map();
    let before = db.brain_maps[0].clone();
    let patch = BrainMapUpdate {
        title: None,
        description: None,
        center_node_id: None,
        center_node_text: None,
        viewport_x: None,
        viewport_y: None,
        viewport_zoom: None,
        theme: None,
    };
    let after = db.update_brain_map_at(&"m".to_string(), patch, 15).unwrap();
    assert_eq!(after.title, before.title);
    assert_eq!(after.updated_at, 15);
    assert_eq!(after.created_at, before.created_at);
    assert_eq!(db.brain_maps[0], after);
}

#[test]
fn map_patch_applies_given_fields() {
    let mut db = one_map();
    let patch = BrainMapUpdate {
        title: Some("T".to_string()),
        description: None,
        center_node_id: None,
        center_node_text: None,
        viewport_x: Some(coord(12.5)),
        viewport_y: None,
        viewport_zoom: Some(coord(2.0)),
        theme: Some("light".to_string()),
    };
    let m = db.update_brain_map_at(&"m".to_string(), patch.clone(), 15).unwrap();
    assert_eq!(m.title, "T");
    assert_eq!(f64::from_bits(m.viewport_x.bits), 12.5);
    assert_eq!(f64::from_bits(m.viewport_zoom.bits), 2.0);
    assert_eq!(m.theme.as_deref(), Some("light"));
    assert_eq!(db.update_brain_map_at(&"x".to_string(), patch, 16).unwrap_err(), StoreError::NotFound);
}

#[test]
fn maps_listed_most_recent_first() {
    let mut db = Database::new();
    db.create_brain_map_at(no_map_args(), "m1".to_string(), "c1".to_string(), 10).unwrap();
    db.create_brain_map_at(no_map_args(), "m2".to_string(), "c2".to_string(), 20).unwrap();
    db.create_brain_map_at(no_map_args(), "m3".to_string(), "c3".to_string(), 15).unwrap();
    let ids: Vec<String> = db.get_brain_maps().into_iter().map(|m| m.id).collect();
    assert_eq!(ids, vec!["m2", "m3", "m1"]);
    db.create_brain_map_node_at(node_seed("m1", "x", None), "x".to_string(), 30).unwrap();
    let ids: Vec<String> = db.get_brain_maps().into_iter().map(|m| m.id).collect();
    assert_eq!(ids, vec!["m1", "m2", "m3"]);
}

#[test]
fn map_nodes_by_layer_then_creation() {
    let mut db = one_map();
    db.create_brain_map_node_at(node_seed("m", "A", None), "a".to_string(), 30).unwrap();
    db.create_brain_map_node_at(node_seed("m", "B", Some("a")), "b".to_string(), 20).unwrap();
    db.create_brain_map_node_at(node_seed("m", "D", None), "d".to_string(), 25).unwrap();
    db.create_brain_map_at(no_map_args(), "other".to_string(), "oc".to_string(), 5).unwrap();
    let w = db.get_brain_map(&"m".to_string()).unwrap();
    let ids: Vec<&str> = w.nodes.iter().map(|n| n.id.as_str()).collect();
    assert_eq!(ids, vec!["c", "d", "a", "b"]);
    assert!(db.get_brain_map(&"none".to_string()).is_none());
}

#[test]
fn map_connections_are_its_own() {
    let mut db = one_map();
    db.create_brain_map_at(no_map_args(), "m2".to_string(), "c2".to_string(), 11).unwrap();
    db.create_brain_map_connection_at(link("m", "c", "c2"), "k1".to_string(), 12).unwrap();
    db.create_brain_map_connection_at(link("m2", "c2", "c"), "k2".to_string(), 13).unwrap();
    let w = db.get_brain_map(&"m".to_string()).unwrap();
    assert_eq!(w.connections.len(), 1);
    assert_eq!(w.connections[0].id, "k1");
}

#[test]
fn clock_backed_operations_stamp_rows() {
    let mut db = Database::new();
    let w = db.create_brain_map(no_map_args()).unwrap();
    let map_id = w.brain_map.id.clone();
    let n = db.create_brain_map_node(node_seed(&map_id, "A", Some(&w.nodes[0].id))).unwrap();
    assert_eq!(n.layer, 1);
    assert!(n.created_at >= w.brain_map.created_at);
    let u = db.update_brain_map_node(&n.id, empty_node_patch()).unwrap();
    assert_eq!(u.label, "A");
    db.update_node_positions(&vec![(n.id.clone(), coord(1.0), coord(1.0))]).unwrap();
    db.delete_brain_map_node(&n.id);
    assert_eq!(db.nodes.len(), 1);
    let m = db.update_brain_map(&map_id, BrainMapUpdate {
        title: Some("x".to_string()),
        description: None,
        center_node_id: None,
        center_node_text: None,
        viewport_x: None,
        viewport_y: None,
        viewport_zoom: None,
        theme: None,
    }).unwrap();
    assert_eq!(m.title, "x");
    db.delete_brain_map(&map_id, Some(true));
    assert!(db.brain_maps.is_empty());
    assert!(db.nodes.is_empty());
}

#[test]
fn store_error_messages() {
    assert_eq!(StoreError::NotFound.message(), "Query returned no rows");
    assert_eq!(StoreError::DuplicateKey.message(), "UNIQUE constraint failed");
    assert_eq!(StoreError::MissingReference.message(), "FOREIGN KEY constraint failed");
    assert_eq!(StoreError::LayerOverflow.message(), "layer out of range");
}

#[test]
fn well_formedness_check_finds_broken_references() {
    let mut db = one_map();
    assert!(db.is_well_formed());
    db.nodes[0].brain_map_id = "elsewhere".to_string();
    assert!(!db.is_well_formed());
    let mut db = one_map();
    let dup = db.nodes[0].clone();
    db.nodes.push(dup);
    assert!(!db.is_well_formed());
}

#[test]
fn generated_ids_carry_their_prefix() {
    let mut db = one_map();
    let n = db.create_brain_map_node(node_seed("m", "A", None)).unwrap();
    assert!(n.id.starts_with("node_"));
    assert_eq!(n.id.len(), "node_".len() + 36);
    let c = db.create_brain_map_connection(link("m", "c", &n.id)).unwrap();
    assert!(c.id.starts_with("conn_"));
    assert_eq!(c.id.len(), "conn_".len() + 36);
}

#[test]
fn clock_backed_creation_reports_reference_errors() {
    let mut db = one_map();
    assert_eq!(db.create_brain_map_node(node_seed("nope", "A", None)).unwrap_err(), StoreError::MissingReference);
    assert_eq!(db.create_brain_map_connection(link("m", "c", "nope")).unwrap_err(), StoreError::MissingReference);
    assert_eq!(db.nodes.len(), 1);
}

#[test]
fn only_the_center_node_is_at_layer_zero() {
    let mut db = one_map();
    let a = db.create_brain_map_node_at(node_seed("m", "A", None), "a".to_string(), 20).unwrap();
    let b = db.create_brain_map_node_at(node_seed("m", "B", Some("c")), "b".to_string(), 21).unwrap();
    assert!(a.layer >= 1 && b.layer >= 1);
    let w = db.get_brain_map(&"m".to_string()).unwrap();
    let zero: Vec<&str> = w.nodes.iter().filter(|n| n.layer == 0).map(|n| n.id.as_str()).collect();
    assert_eq!(zero, vec!["c"]);
    assert_eq!(w.brain_map.center_node_id.as_deref(), Some("c"));
}

#[test]
fn well_formedness_check_finds_bad_layers() {
    let mut db = one_map();
    db.nodes[0].layer = -1;
    assert!(!db.is_well_formed());
    let mut db = one_map();
    db.create_brain_map_node_at(node_seed("m", "A", None), "a".to_string(), 20).unwrap();
    assert!(db.is_well_formed());
    db.nodes[1].layer = 0;
    assert!(!db.is_well_formed());
}
