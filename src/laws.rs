//! Properties that relate the store's operations, proved from their
//! contracts.
use vstd::prelude::*;
use crate::connections::connection_deleted;
use crate::events::{event_deleted, event_listed, patched_event};
use crate::folders::patched_folder;
use crate::maps::{
    connection_outside_map, map_created, map_deleted, map_listed, node_ids_of_map, node_of_map,
    patched_map,
};
use crate::models::{
    BrainMap, BrainMapCreate, BrainMapNode, BrainMapNodeCreate,
    BrainMapNodeUpdate, BrainMapUpdate, BrainMapWithData, Event, EventUpdate, Folder, FolderUpdate,
    Note, NoteCreate, NoteUpdate,
};
use crate::nodes::{
    connection_survives, is_text, node_created, node_deleted, node_survives,
    node_updated, patched_node,
};
use crate::notes::{note_created, note_deleted, note_listed, patched_note, tags_or_empty};
use crate::record::{has_key, is_listing, lemma_row_of_index, lists_through, row_of, Record};
use crate::store::{touched, Database};

verus! {

/// A created map comes with exactly one node: its center node, at layer 0,
/// whose identifier is the map's `center_node_id`.
pub proof fn created_map_has_one_center(
    old: Database,
    new: Database,
    data: BrainMapCreate,
    map_id: Seq<char>,
    node_id: Seq<char>,
    now: i64,
    w: BrainMapWithData,
)
    requires
        map_created(old, new, data, map_id, node_id, now, Ok(w)),
    ensures
        w.nodes@.len() > 0,
        w.brain_map.center_node_id.is_some(),
        w.brain_map.center_node_id.unwrap()@ == w.nodes@[0].id@,
        w.nodes@[0].layer == 0,
        forall|i: int| 0 <= i < w.nodes@.len() && (#[trigger] w.nodes@[i]).layer == 0 ==> i == 0,
{
}

/// A node created under a stored parent sits one layer below it; a node
/// created without a parent sits at layer 1.
pub proof fn created_node_layer(
    old: Database,
    new: Database,
    data: BrainMapNodeCreate,
    id: Seq<char>,
    now: i64,
    n: BrainMapNode,
)
    requires
        node_created(old, new, data, id, now, Ok(n)),
    ensures
        data.parent_node_id.is_none() ==> n.layer == 1,
        data.parent_node_id.is_some() && has_key(old.nodes@, data.parent_node_id.unwrap()@) ==> n.layer
            == row_of(old.nodes@, data.parent_node_id.unwrap()@).unwrap().layer + 1,
{
}

/// A node created through the node operation never sits at layer 0: layer
/// 0 is reserved for the center node that map creation makes.
pub proof fn created_node_is_below_center(
    old: Database,
    new: Database,
    data: BrainMapNodeCreate,
    id: Seq<char>,
    now: i64,
    n: BrainMapNode,
)
    requires
        old.wf(),
        node_created(old, new, data, id, now, Ok(n)),
    ensures
        n.layer >= 1,
{
    if data.parent_node_id.is_some() && has_key(old.nodes@, data.parent_node_id.unwrap()@) {
        let k = data.parent_node_id.unwrap()@;
        let i = choose|i: int| 0 <= i < old.nodes@.len() && #[trigger] old.nodes@[i].key() == k;
        lemma_row_of_index(old.nodes@, i);
        assert(old.nodes@[i].layer >= 0);
    }
}

/// In a well-formed store, a map's listed nodes hold at most one node at
/// layer 0; after creation that node is the center node.
pub proof fn map_has_at_most_one_layer_zero_node(db: Database, id: Seq<char>, nodes: Seq<BrainMapNode>)
    requires
        db.wf(),
        is_listing(db.nodes@, nodes, node_of_map(id)),
    ensures
        forall|i: int, j: int|
            0 <= i < nodes.len() && 0 <= j < nodes.len() && (#[trigger] nodes[i]).layer == 0
                && (#[trigger] nodes[j]).layer == 0 ==> i == j,
{
    let idx = choose|idx: Seq<int>| lists_through(db.nodes@, nodes, idx, node_of_map(id));
    assert forall|i: int, j: int|
        0 <= i < nodes.len() && 0 <= j < nodes.len() && (#[trigger] nodes[i]).layer == 0
            && (#[trigger] nodes[j]).layer == 0 implies i == j by {
        let a = idx[i];
        let b = idx[j];
        assert(nodes[i].same(&db.nodes@[a]));
        assert(nodes[j].same(&db.nodes@[b]));
        if i != j {
            assert(a != b);
            assert(db.nodes@[a].brain_map_id@ == id && db.nodes@[b].brain_map_id@ == id);
            assert(db.nodes@[a].brain_map_id@ != db.nodes@[b].brain_map_id@);
        }
    }
}

/// Soft-deleting a stored map hides it from the listing of maps, while it
/// can still be fetched by its identifier.
pub proof fn soft_deleted_map_is_unlisted(
    old: Database,
    new: Database,
    id: Seq<char>,
    now: i64,
    listing: Seq<BrainMap>,
)
    requires
        old.wf(),
        has_key(old.brain_maps@, id),
        map_deleted(old, new, id, None, now),
        is_listing(new.brain_maps@, listing, map_listed()),
    ensures
        has_key(new.brain_maps@, id),
        forall|i: int| 0 <= i < listing.len() ==> (#[trigger] listing[i]).id@ != id,
{
    let maps = new.brain_maps@;
    let k = choose|k: int| 0 <= k < old.brain_maps@.len() && #[trigger] old.brain_maps@[k].key() == id;
    assert(maps[k].id@ == id);
    assert(maps[k].key() == id);
    assert(has_key(maps, id));
    let idx = choose|idx: Seq<int>| lists_through(maps, listing, idx, map_listed());
    assert forall|i: int| 0 <= i < listing.len() implies (#[trigger] listing[i]).id@ != id by {
        let j = idx[i];
        assert(listing[i].same(&maps[j]));
        if j != k {
            assert(old.brain_maps@[j].key() != old.brain_maps@[k].key());
        }
    }
}

/// Soft-deleting a stored note hides it from every listing of notes, while
/// it can still be fetched by its identifier.
pub proof fn soft_deleted_note_is_unlisted(
    old: Database,
    new: Database,
    id: Seq<char>,
    now: i64,
    folder: Option<String>,
    listing: Seq<Note>,
)
    requires
        old.wf(),
        has_key(old.notes@, id),
        note_deleted(old, new, id, None, now),
        is_listing(new.notes@, listing, note_listed(folder)),
    ensures
        has_key(new.notes@, id),
        forall|i: int| 0 <= i < listing.len() ==> (#[trigger] listing[i]).id@ != id,
{
    let notes = new.notes@;
    let k = choose|k: int| 0 <= k < old.notes@.len() && #[trigger] old.notes@[k].key() == id;
    assert(notes[k].id@ == id);
    assert(notes[k].key() == id);
    assert(has_key(notes, id));
    let idx = choose|idx: Seq<int>| lists_through(notes, listing, idx, note_listed(folder));
    assert forall|i: int| 0 <= i < listing.len() implies (#[trigger] listing[i]).id@ != id by {
        let j = idx[i];
        assert(listing[i].same(&notes[j]));
        if j != k {
            assert(old.notes@[j].key() != old.notes@[k].key());
        }
    }
}

/// Soft-deleting a stored event hides it from the listing of events, while
/// it can still be fetched by its identifier.
pub proof fn soft_deleted_event_is_unlisted(
    old: Database,
    new: Database,
    id: Seq<char>,
    now: i64,
    listing: Seq<Event>,
)
    requires
        old.wf(),
        has_key(old.events@, id),
        event_deleted(old, new, id, None, now),
        is_listing(new.events@, listing, event_listed()),
    ensures
        has_key(new.events@, id),
        forall|i: int| 0 <= i < listing.len() ==> (#[trigger] listing[i]).id@ != id,
{
    let events = new.events@;
    let k = choose|k: int| 0 <= k < old.events@.len() && #[trigger] old.events@[k].key() == id;
    assert(events[k].id@ == id);
    assert(events[k].key() == id);
    assert(has_key(events, id));
    let idx = choose|idx: Seq<int>| lists_through(events, listing, idx, event_listed());
    assert forall|i: int| 0 <= i < listing.len() implies (#[trigger] listing[i]).id@ != id by {
        let j = idx[i];
        assert(listing[i].same(&events[j]));
        if j != k {
            assert(old.events@[j].key() != old.events@[k].key());
        }
    }
}

/// Hard-deleting a map leaves no map with its identifier, and none of its
/// nodes or connections.
pub proof fn hard_deleted_map_leaves_nothing(old: Database, new: Database, id: Seq<char>, now: i64)
    requires
        old.wf(),
        map_deleted(old, new, id, Some(true), now),
    ensures
        !has_key(new.brain_maps@, id),
        forall|i: int| 0 <= i < new.nodes@.len() ==> (#[trigger] new.nodes@[i]).brain_map_id@ != id,
        forall|i: int| 0 <= i < new.connections@.len() ==> (#[trigger] new.connections@[i]).brain_map_id@ != id,
{
    broadcast use vstd::seq_lib::group_filter_ensures;

    let maps = new.brain_maps@;
    if has_key(maps, id) {
        let i = choose|i: int| 0 <= i < maps.len() && #[trigger] maps[i].key() == id;
        assert(maps.contains(maps[i]));
        old.brain_maps@.lemma_filter_pred(|m: BrainMap| m.id@ != id, i);
    }
    let gone = node_ids_of_map(old.nodes@, id);
    let f = old.nodes@.filter(node_survives(gone));
    assert forall|i: int| 0 <= i < new.nodes@.len() implies (#[trigger] new.nodes@[i]).brain_map_id@ != id by {
        assert(new.nodes@[i].brain_map_id == f[i].brain_map_id);
        assert(f.contains(f[i]));
        old.nodes@.lemma_filter_contains_rev(node_survives(gone), f[i]);
        let q = choose|q: int| 0 <= q < old.nodes@.len() && old.nodes@[q] == f[i];
        assert(node_survives(gone)(f[i]));
        if f[i].brain_map_id@ == id {
            assert(old.nodes@[q].id@ == f[i].id@ && old.nodes@[q].brain_map_id@ == id);
            assert(gone(f[i].id@));
        }
    }
    let c1 = old.connections@.filter(connection_outside_map(id));
    assert forall|i: int| 0 <= i < new.connections@.len() implies (#[trigger] new.connections@[i]).brain_map_id@ != id by {
        let c = new.connections@[i];
        assert(new.connections@.contains(c));
        c1.lemma_filter_contains_rev(connection_survives(gone), c);
        let q = choose|q: int| 0 <= q < c1.len() && c1[q] == c;
        assert(connection_outside_map(id)(c1[q]));
    }
}

/// Deleting a node leaves no connection that starts or ends at it.
pub proof fn deleted_node_leaves_no_connection(old: Database, new: Database, id: Seq<char>, now: i64)
    requires
        node_deleted(old, new, id, now),
        has_key(old.nodes@, id),
    ensures
        forall|i: int|
            0 <= i < new.connections@.len() ==> (#[trigger] new.connections@[i]).source_node_id@ != id
                && new.connections@[i].target_node_id@ != id,
{
    broadcast use vstd::seq_lib::group_filter_ensures;

    assert forall|i: int| 0 <= i < new.connections@.len() implies (#[trigger] new.connections@[i]).source_node_id@
        != id && new.connections@[i].target_node_id@ != id by {
        assert(connection_survives(is_text(id))(new.connections@[i]));
    }
}

/// Touching a map at a time no earlier than its last update never moves
/// that update back, and moves no other map.
pub proof fn touch_never_goes_back(old: Seq<BrainMap>, new: Seq<BrainMap>, id: Seq<char>, now: i64)
    requires
        touched(old, new, id, now),
        forall|i: int| 0 <= i < old.len() && (#[trigger] old[i]).id@ == id ==> old[i].updated_at <= now,
    ensures
        forall|i: int|
            0 <= i < new.len() ==> (#[trigger] new[i]).updated_at >= old[i].updated_at,
        forall|i: int| 0 <= i < new.len() && (#[trigger] old[i]).id@ == id ==> new[i].updated_at == now,
        forall|i: int| 0 <= i < new.len() && (#[trigger] old[i]).id@ != id ==> new[i] == old[i],
{
    assert forall|i: int| 0 <= i < new.len() implies (#[trigger] new[i]).updated_at >= old[i].updated_at by {
        assert(new[i] == if old[i].id@ == id { BrainMap { updated_at: now, ..old[i] } } else { old[i] });
    }
    assert forall|i: int| 0 <= i < new.len() && (#[trigger] old[i]).id@ == id implies new[i].updated_at == now by {
        assert(new[i] == if old[i].id@ == id { BrainMap { updated_at: now, ..old[i] } } else { old[i] });
    }
    assert forall|i: int| 0 <= i < new.len() && (#[trigger] old[i]).id@ != id implies new[i] == old[i] by {
        assert(new[i] == if old[i].id@ == id { BrainMap { updated_at: now, ..old[i] } } else { old[i] });
    }
}

/// Creating a node touches its map at the time of creation.
pub proof fn node_create_touches_map(
    old: Database,
    new: Database,
    data: BrainMapNodeCreate,
    id: Seq<char>,
    now: i64,
    n: BrainMapNode,
)
    requires
        node_created(old, new, data, id, now, Ok(n)),
        forall|i: int|
            0 <= i < old.brain_maps@.len() && (#[trigger] old.brain_maps@[i]).id@ == n.brain_map_id@
                ==> old.brain_maps@[i].updated_at <= now,
    ensures
        forall|i: int|
            0 <= i < new.brain_maps@.len() ==> (#[trigger] new.brain_maps@[i]).updated_at
                >= old.brain_maps@[i].updated_at,
        forall|i: int|
            0 <= i < new.brain_maps@.len() && (#[trigger] old.brain_maps@[i]).id@ == n.brain_map_id@
                ==> new.brain_maps@[i].updated_at == now,
{
    touch_never_goes_back(old.brain_maps@, new.brain_maps@, data.brain_map_id@, now);
}

/// Updating a node touches its map at the time of the update.
pub proof fn node_update_touches_map(
    old: Database,
    new: Database,
    id: Seq<char>,
    p: BrainMapNodeUpdate,
    now: i64,
    n: BrainMapNode,
)
    requires
        node_updated(old, new, id, p, now, Ok(n)),
        forall|i: int|
            0 <= i < old.brain_maps@.len() && (#[trigger] old.brain_maps@[i]).id@ == n.brain_map_id@
                ==> old.brain_maps@[i].updated_at <= now,
    ensures
        forall|i: int|
            0 <= i < new.brain_maps@.len() ==> (#[trigger] new.brain_maps@[i]).updated_at
                >= old.brain_maps@[i].updated_at,
        forall|i: int|
            0 <= i < new.brain_maps@.len() && (#[trigger] old.brain_maps@[i]).id@ == n.brain_map_id@
                ==> new.brain_maps@[i].updated_at == now,
{
    touch_never_goes_back(old.brain_maps@, new.brain_maps@, n.brain_map_id@, now);
}

/// Deleting a stored node touches its map at the time of the deletion.
pub proof fn node_delete_touches_map(old: Database, new: Database, id: Seq<char>, now: i64)
    requires
        node_deleted(old, new, id, now),
        has_key(old.nodes@, id),
        forall|i: int|
            0 <= i < old.brain_maps@.len() && (#[trigger] old.brain_maps@[i]).id@
                == row_of(old.nodes@, id).unwrap().brain_map_id@ ==> old.brain_maps@[i].updated_at <= now,
    ensures
        forall|i: int|
            0 <= i < new.brain_maps@.len() ==> (#[trigger] new.brain_maps@[i]).updated_at
                >= old.brain_maps@[i].updated_at,
        forall|i: int|
            0 <= i < new.brain_maps@.len() && (#[trigger] old.brain_maps@[i]).id@
                == row_of(old.nodes@, id).unwrap().brain_map_id@ ==> new.brain_maps@[i].updated_at == now,
{
    touch_never_goes_back(old.brain_maps@, new.brain_maps@, row_of(old.nodes@, id).unwrap().brain_map_id@, now);
}

/// Deleting a connection leaves every map as it was, its `updated_at`
/// included.
pub proof fn connection_delete_keeps_maps(old: Database, new: Database, id: Seq<char>)
    requires
        connection_deleted(old, new, id),
    ensures
        new.brain_maps@ == old.brain_maps@,
{
}

/// An empty map patch changes nothing but the update time.
pub proof fn empty_map_patch(m: BrainMap, p: BrainMapUpdate, now: i64)
    requires
        p == (BrainMapUpdate {
            title: None,
            description: None,
            center_node_id: None,
            center_node_text: None,
            viewport_x: None,
            viewport_y: None,
            viewport_zoom: None,
            theme: None,
        }),
    ensures
        patched_map(m, p, now) == (BrainMap { updated_at: now, ..m }),
{
}

/// An empty node patch changes nothing but the update time.
pub proof fn empty_node_patch(n: BrainMapNode, p: BrainMapNodeUpdate, now: i64)
    requires
        p == (BrainMapNodeUpdate {
            parent_node_id: None,
            label: None,
            description: None,
            x: None,
            y: None,
            color: None,
            shape: None,
            size: None,
            icon: None,
            linked_note_id: None,
            linked_folder_id: None,
            is_collapsed: None,
        }),
    ensures
        patched_node(n, p, now) == (BrainMapNode { updated_at: now, ..n }),
{
}

/// An empty note patch changes nothing but the update time.
pub proof fn empty_note_patch(n: Note, p: NoteUpdate, now: i64)
    requires
        p == (NoteUpdate { title: None, content: None, folder_id: None, tags: None, is_pinned: None }),
    ensures
        patched_note(n, p, now) == (Note { updated_at: now, ..n }),
{
}

/// An empty folder patch changes nothing but the update time.
pub proof fn empty_folder_patch(f: Folder, p: FolderUpdate, now: i64)
    requires
        p == (FolderUpdate { name: None, parent_id: None, color: None, icon: None }),
    ensures
        patched_folder(f, p, now) == (Folder { updated_at: now, ..f }),
{
}

/// An empty event patch changes nothing but the update time.
pub proof fn empty_event_patch(e: Event, p: EventUpdate, now: i64)
    requires
        p == (EventUpdate {
            title: None,
            description: None,
            start_time: None,
            end_time: None,
            time_mode: None,
            duration_minutes: None,
            location: None,
            category: None,
            color: None,
            priority: None,
            tags: None,
            show_on_calendar: None,
            is_all_day: None,
            is_recurring: None,
            recurring_pattern: None,
            status: None,
            reminders: None,
        }),
    ensures
        patched_event(e, p, now) == (Event { updated_at: now, ..e }),
{
}

/// The tags a note is created with are the tags it is read back with, in
/// the same order.
pub proof fn created_note_tags_read_back(
    old: Database,
    new: Database,
    data: NoteCreate,
    id: Seq<char>,
    now: i64,
    n: Note,
)
    requires
        note_created(old, new, data, id, now, Ok(n)),
        new.wf(),
    ensures
        has_key(new.notes@, id),
        row_of(new.notes@, id).unwrap().tags@ == tags_or_empty(data.tags),
{
    let last = new.notes@.len() - 1;
    lemma_row_of_index(new.notes@, last);
}

} // verus!
