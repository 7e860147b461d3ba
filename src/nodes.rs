use vstd::prelude::*;
use crate::models::{BrainMap, BrainMapConnection, BrainMapNode, BrainMapNodeCreate, BrainMapNodeUpdate, Coord};
use crate::record::{
    find_row, has_key, keys_unique, lemma_filter_keys, lemma_key_with_prefix, lemma_keys_kept,
    lemma_push_keys, lemma_row_of_index, row_of, some_key_starts_with, Record,
};
use crate::maps::text_or;
use crate::sources::{clock_now, new_id, starts_with};
use crate::store::{
    connections_anchored, flat_tables_kept, drawn_from, lemma_layers_drawn, lemma_layers_kept, lemma_layers_push,
    layers_sound, nodes_owned, touched, Database, StoreError,
};

verus! {

/// `s` is the text of one of `ids`.
pub open spec fn ids_hold(ids: Seq<String>, s: Seq<char>) -> bool {
    exists|i: int| 0 <= i < ids.len() && #[trigger] ids[i]@ == s
}

/// Whether `s` is one of `ids`.
pub fn holds_id(ids: &Vec<String>, s: &String) -> (r: bool)
    ensures
        r == ids_hold(ids@, s@),
{
    let mut i: usize = 0;
    while i < ids.len()
        invariant
            i <= ids@.len(),
            forall|j: int| 0 <= j < i ==> #[trigger] ids@[j]@ != s@,
        decreases ids@.len() - i,
    {
        if ids[i] == *s {
            return true;
        }
        i = i + 1;
    }
    false
}

/// The predicate "is the text `k`".
pub open spec fn is_text(k: Seq<char>) -> spec_fn(Seq<char>) -> bool {
    |s: Seq<char>| s == k
}

/// A node survives the removal of the nodes whose identifiers satisfy `gone`
/// when its own identifier does not.
pub open spec fn node_survives(gone: spec_fn(Seq<char>) -> bool) -> spec_fn(BrainMapNode) -> bool {
    |n: BrainMapNode| !gone(n.id@)
}

/// A connection survives the removal of the nodes whose identifiers satisfy
/// `gone` when neither of its ends is removed.
pub open spec fn connection_survives(gone: spec_fn(Seq<char>) -> bool) -> spec_fn(BrainMapConnection) -> bool {
    |c: BrainMapConnection| !gone(c.source_node_id@) && !gone(c.target_node_id@)
}

/// A surviving node loses its parent link when its parent is removed.
pub open spec fn unlinked(n: BrainMapNode, gone: spec_fn(Seq<char>) -> bool) -> BrainMapNode {
    match n.parent_node_id {
        Some(p) => if gone(p@) {
            BrainMapNode { parent_node_id: None, ..n }
        } else {
            n
        },
        None => n,
    }
}

/// `unlinked` as a function of the node.
pub open spec fn unlink_with(gone: spec_fn(Seq<char>) -> bool) -> spec_fn(BrainMapNode) -> BrainMapNode {
    |n: BrainMapNode| unlinked(n, gone)
}

/// The nodes that remain when those whose identifiers satisfy `gone` are
/// removed.
pub open spec fn nodes_after_removal(nodes: Seq<BrainMapNode>, gone: spec_fn(Seq<char>) -> bool) -> Seq<BrainMapNode> {
    nodes.filter(node_survives(gone)).map_values(unlink_with(gone))
}

/// The connections that remain when the nodes whose identifiers satisfy
/// `gone` are removed.
pub open spec fn connections_after_removal(
    conns: Seq<BrainMapConnection>,
    gone: spec_fn(Seq<char>) -> bool,
) -> Seq<BrainMapConnection> {
    conns.filter(connection_survives(gone))
}

proof fn lemma_nodes_after_removal(maps: Seq<BrainMap>, nodes: Seq<BrainMapNode>, gone: spec_fn(Seq<char>) -> bool)
    requires
        keys_unique(nodes),
        nodes_owned(maps, nodes),
        layers_sound(nodes),
    ensures
        layers_sound(nodes_after_removal(nodes, gone)),
        keys_unique(nodes_after_removal(nodes, gone)),
        forall|k: Seq<char>|
            #[trigger] has_key(nodes_after_removal(nodes, gone), k) <==> (has_key(nodes, k) && !gone(k)),
        nodes_owned(maps, nodes_after_removal(nodes, gone)),
{
    broadcast use vstd::seq_lib::group_filter_ensures;

    let f = nodes.filter(node_survives(gone));
    let m = nodes_after_removal(nodes, gone);
    lemma_filter_keys(nodes, node_survives(gone));
    assert forall|i: int| 0 <= i < f.len() implies #[trigger] m[i].key() == f[i].key() by {}
    lemma_keys_kept(f, m);
    assert forall|k: Seq<char>| #[trigger] has_key(m, k) <==> (has_key(nodes, k) && !gone(k)) by {
        assert(has_key(m, k) == has_key(f, k));
        if has_key(nodes, k) && !gone(k) {
            let i = choose|i: int| 0 <= i < nodes.len() && #[trigger] nodes[i].key() == k;
            assert(node_survives(gone)(nodes[i]));
        }
    }
    assert forall|i: int| 0 <= i < m.len() implies has_key(maps, #[trigger] m[i].brain_map_id@) by {
        assert(f.contains(f[i]));
        nodes.lemma_filter_contains_rev(node_survives(gone), f[i]);
        let j = choose|j: int| 0 <= j < nodes.len() && nodes[j] == f[i];
        assert(m[i].brain_map_id == nodes[j].brain_map_id);
    }
    assert forall|i: int| 0 <= i < m.len() implies drawn_from(nodes, #[trigger] m[i]) by {
        assert(f.contains(f[i]));
        nodes.lemma_filter_contains_rev(node_survives(gone), f[i]);
        let j = choose|j: int| 0 <= j < nodes.len() && nodes[j] == f[i];
        assert(m[i] == unlinked(f[i], gone));
        assert(nodes[j].id == m[i].id && nodes[j].layer == m[i].layer && nodes[j].brain_map_id == m[i].brain_map_id);
    }
    lemma_layers_drawn(nodes, m);
}

/// The layer of a node created under `parent`: one more than the parent's
/// layer, where a parent that is not stored counts as layer 0; 1 without a
/// parent.
pub open spec fn derived_layer(nodes: Seq<BrainMapNode>, parent: Option<String>) -> int {
    match parent {
        Some(p) => match row_of(nodes, p@) {
            Some(n) => n.layer + 1,
            None => 1,
        },
        None => 1,
    }
}

/// Why creating a node from `data` under identifier `id` fails, if it does.
pub open spec fn node_create_error(db: Database, data: BrainMapNodeCreate, id: Seq<char>) -> Option<StoreError> {
    if has_key(db.nodes@, id) {
        Some(StoreError::DuplicateKey)
    } else {
        node_reference_error(db, data)
    }
}

/// Why the references or the layer of `data` rule out a new node, if they do.
pub open spec fn node_reference_error(db: Database, data: BrainMapNodeCreate) -> Option<StoreError> {
    if !has_key(db.brain_maps@, data.brain_map_id@) {
        Some(StoreError::MissingReference)
    } else if derived_layer(db.nodes@, data.parent_node_id) > i32::MAX {
        Some(StoreError::LayerOverflow)
    } else {
        None
    }
}

/// `n` is the node that creation from `data` stores under `id` at time
/// `now`, at layer `layer`.
pub open spec fn is_new_node(n: BrainMapNode, data: BrainMapNodeCreate, id: Seq<char>, layer: int, now: i64) -> bool {
    &&& n.id@ == id
    &&& n.brain_map_id == data.brain_map_id
    &&& n.parent_node_id == data.parent_node_id
    &&& n.label == data.label
    &&& n.description == data.description
    &&& n.x == (match data.x { Some(c) => c, None => Coord { bits: 0 } })
    &&& n.y == (match data.y { Some(c) => c, None => Coord { bits: 0 } })
    &&& n.color == data.color
    &&& n.shape.is_some() && n.shape.unwrap()@ == text_or(data.shape, "circle"@)
    &&& n.size.is_some() && n.size.unwrap()@ == text_or(data.size, "medium"@)
    &&& n.icon == data.icon
    &&& n.linked_note_id == data.linked_note_id
    &&& n.linked_folder_id == data.linked_folder_id
    &&& !n.is_collapsed
    &&& n.layer == layer
    &&& n.created_at == now
    &&& n.updated_at == now
}

/// What `create_brain_map_node_at(data, id, now)` does to `old`, giving
/// `new` and `r`.
pub open spec fn node_created(
    old: Database,
    new: Database,
    data: BrainMapNodeCreate,
    id: Seq<char>,
    now: i64,
    r: Result<BrainMapNode, StoreError>,
) -> bool {
    match r {
        Ok(n) => {
            &&& node_create_error(old, data, id).is_none()
            &&& is_new_node(n, data, id, derived_layer(old.nodes@, data.parent_node_id), now)
            &&& new.nodes@ == old.nodes@.push(n)
            &&& touched(old.brain_maps@, new.brain_maps@, data.brain_map_id@, now)
            &&& new.connections == old.connections
            &&& flat_tables_kept(old, new)
        },
        Err(e) => {
            &&& node_create_error(old, data, id) == Some(e)
            &&& new == old
        },
    }
}

/// `n` with the fields present in `p` replaced, and updated at `now`. The
/// map and the layer stay.
pub open spec fn patched_node(n: BrainMapNode, p: BrainMapNodeUpdate, now: i64) -> BrainMapNode {
    BrainMapNode {
        id: n.id,
        brain_map_id: n.brain_map_id,
        parent_node_id: match p.parent_node_id { Some(t) => Some(t), None => n.parent_node_id },
        label: match p.label { Some(t) => t, None => n.label },
        description: match p.description { Some(t) => Some(t), None => n.description },
        x: match p.x { Some(c) => c, None => n.x },
        y: match p.y { Some(c) => c, None => n.y },
        color: match p.color { Some(t) => Some(t), None => n.color },
        shape: match p.shape { Some(t) => Some(t), None => n.shape },
        size: match p.size { Some(t) => Some(t), None => n.size },
        icon: match p.icon { Some(t) => Some(t), None => n.icon },
        linked_note_id: match p.linked_note_id { Some(t) => Some(t), None => n.linked_note_id },
        linked_folder_id: match p.linked_folder_id { Some(t) => Some(t), None => n.linked_folder_id },
        is_collapsed: match p.is_collapsed { Some(b) => b, None => n.is_collapsed },
        layer: n.layer,
        created_at: n.created_at,
        updated_at: now,
    }
}

/// What `update_brain_map_node_at(id, p, now)` does to `old`, giving `new`
/// and `r`.
pub open spec fn node_updated(
    old: Database,
    new: Database,
    id: Seq<char>,
    p: BrainMapNodeUpdate,
    now: i64,
    r: Result<BrainMapNode, StoreError>,
) -> bool {
    match r {
        Ok(n) => {
            &&& has_key(old.nodes@, id)
            &&& n == patched_node(row_of(old.nodes@, id).unwrap(), p, now)
            &&& new.nodes@ == old.nodes@.map_values(
                |m: BrainMapNode| if m.id@ == id { patched_node(m, p, now) } else { m },
            )
            &&& touched(old.brain_maps@, new.brain_maps@, n.brain_map_id@, now)
            &&& new.connections == old.connections
            &&& flat_tables_kept(old, new)
        },
        Err(e) => {
            &&& e == StoreError::NotFound
            &&& !has_key(old.nodes@, id)
            &&& new == old
        },
    }
}

/// What `delete_brain_map_node_at(id, now)` does to `old`, giving `new`.
pub open spec fn node_deleted(old: Database, new: Database, id: Seq<char>, now: i64) -> bool {
    if has_key(old.nodes@, id) {
        &&& new.nodes@ == nodes_after_removal(old.nodes@, is_text(id))
        &&& new.connections@ == connections_after_removal(old.connections@, is_text(id))
        &&& touched(old.brain_maps@, new.brain_maps@, row_of(old.nodes@, id).unwrap().brain_map_id@, now)
        &&& flat_tables_kept(old, new)
    } else {
        new == old
    }
}

/// `n` moved to (`x`, `y`) at time `now`.
pub open spec fn moved(n: BrainMapNode, x: Coord, y: Coord, now: i64) -> BrainMapNode {
    BrainMapNode { x: x, y: y, updated_at: now, ..n }
}

/// The nodes after applying the moves `ups` in order, and whether every
/// move found its node. Application stops at the first move whose node is
/// not stored; the moves before it stay applied.
pub open spec fn positions_applied(nodes: Seq<BrainMapNode>, ups: Seq<(String, Coord, Coord)>, now: i64) -> (Seq<BrainMapNode>, bool)
    decreases ups.len(),
{
    if ups.len() == 0 {
        (nodes, true)
    } else if has_key(nodes, ups[0].0@) {
        positions_applied(
            nodes.map_values(
                |n: BrainMapNode| if n.id@ == ups[0].0@ { moved(n, ups[0].1, ups[0].2, now) } else { n },
            ),
            ups.drop_first(),
            now,
        )
    } else {
        (nodes, false)
    }
}

/// Rewriting nodes without changing their identifiers or maps keeps the
/// store's invariants on nodes and connections.
pub proof fn lemma_nodes_rewritten(
    maps: Seq<BrainMap>,
    old_nodes: Seq<BrainMapNode>,
    new_nodes: Seq<BrainMapNode>,
    conns: Seq<BrainMapConnection>,
)
    requires
        keys_unique(old_nodes),
        nodes_owned(maps, old_nodes),
        connections_anchored(maps, old_nodes, conns),
        new_nodes.len() == old_nodes.len(),
        forall|i: int|
            0 <= i < old_nodes.len() ==> (#[trigger] new_nodes[i]).id == old_nodes[i].id
                && new_nodes[i].brain_map_id == old_nodes[i].brain_map_id,
    ensures
        keys_unique(new_nodes),
        nodes_owned(maps, new_nodes),
        connections_anchored(maps, new_nodes, conns),
{
    assert forall|i: int| 0 <= i < old_nodes.len() implies #[trigger] new_nodes[i].key() == old_nodes[i].key() by {
        assert(new_nodes[i].id == old_nodes[i].id);
    }
    lemma_keys_kept(old_nodes, new_nodes);
    assert forall|i: int| 0 <= i < new_nodes.len() implies has_key(maps, #[trigger] new_nodes[i].brain_map_id@) by {
        assert(has_key(maps, old_nodes[i].brain_map_id@));
    }
    assert forall|j: int| #![trigger conns[j]] 0 <= j < conns.len() implies {
        &&& has_key(maps, conns[j].brain_map_id@)
        &&& has_key(new_nodes, conns[j].source_node_id@)
        &&& has_key(new_nodes, conns[j].target_node_id@)
    } by {
        assert(has_key(old_nodes, conns[j].source_node_id@));
        assert(has_key(old_nodes, conns[j].target_node_id@));
    }
}

impl Database {
    /// Removes the nodes whose identifiers are in `gone`, with the
    /// connections that touch them, and clears the parent link of the nodes
    /// whose parent they were.
    pub(crate) fn remove_nodes(&mut self, gone: &Vec<String>, Ghost(pred): Ghost<spec_fn(Seq<char>) -> bool>)
        requires
            old(self).wf(),
            forall|s: Seq<char>| #[trigger] pred(s) == ids_hold(gone@, s),
        ensures
            final(self).wf(),
            final(self).nodes@ == nodes_after_removal(old(self).nodes@, pred),
            final(self).connections@ == connections_after_removal(old(self).connections@, pred),
            final(self).brain_maps == old(self).brain_maps,
            flat_tables_kept(*old(self), *final(self)),
    {
        broadcast use vstd::seq_lib::group_filter_ensures;

        let ghost keep = node_survives(pred);
        let ghost ul = unlink_with(pred);
        let mut old_nodes: Vec<BrainMapNode> = Vec::new();
        std::mem::swap(&mut self.nodes, &mut old_nodes);
        let mut i: usize = 0;
        while i < old_nodes.len()
            invariant
                i <= old_nodes@.len(),
                forall|s: Seq<char>| #[trigger] pred(s) == ids_hold(gone@, s),
                keep == node_survives(pred),
                ul == unlink_with(pred),
                self.nodes@ == old_nodes@.subrange(0, i as int).filter(keep).map_values(ul),
                self.brain_maps == old(self).brain_maps,
                self.connections == old(self).connections,
                flat_tables_kept(*old(self), *self),
            decreases old_nodes@.len() - i,
        {
            let ghost before = old_nodes@.subrange(0, i as int);
            let ghost x = old_nodes@[i as int];
            proof {
                assert(old_nodes@.subrange(0, i + 1) =~= before.push(x));
                before.lemma_filter_push(x, keep);
            }
            if !holds_id(gone, &old_nodes[i].id) {
                let mut n = old_nodes[i].duplicate();
                let clear = match &n.parent_node_id {
                    Some(p) => holds_id(gone, p),
                    None => false,
                };
                if clear {
                    n.parent_node_id = None;
                }
                assert(n == ul(x));
                self.nodes.push(n);
                assert(self.nodes@ =~= before.filter(keep).push(x).map_values(ul));
            }
            i = i + 1;
        }
        assert(old_nodes@.subrange(0, old_nodes@.len() as int) =~= old_nodes@);
        let ghost cs = connection_survives(pred);
        let mut old_conns: Vec<BrainMapConnection> = Vec::new();
        std::mem::swap(&mut self.connections, &mut old_conns);
        let mut j: usize = 0;
        while j < old_conns.len()
            invariant
                j <= old_conns@.len(),
                forall|s: Seq<char>| #[trigger] pred(s) == ids_hold(gone@, s),
                cs == connection_survives(pred),
                self.connections@ == old_conns@.subrange(0, j as int).filter(cs),
                self.nodes@ == nodes_after_removal(old_nodes@, pred),
                self.brain_maps == old(self).brain_maps,
                flat_tables_kept(*old(self), *self),
            decreases old_conns@.len() - j,
        {
            let ghost before = old_conns@.subrange(0, j as int);
            let ghost x = old_conns@[j as int];
            proof {
                assert(old_conns@.subrange(0, j + 1) =~= before.push(x));
                before.lemma_filter_push(x, cs);
            }
            let c = &old_conns[j];
            if !holds_id(gone, &c.source_node_id) && !holds_id(gone, &c.target_node_id) {
                self.connections.push(c.duplicate());
            }
            j = j + 1;
        }
        assert(old_conns@.subrange(0, old_conns@.len() as int) =~= old_conns@);
        proof {
            let maps = self.brain_maps@;
            let nodes = self.nodes@;
            let conns = self.connections@;
            lemma_nodes_after_removal(maps, old_nodes@, pred);
            lemma_filter_keys(old_conns@, cs);
            assert forall|i: int| #![trigger conns[i]] 0 <= i < conns.len() implies {
                &&& has_key(maps, conns[i].brain_map_id@)
                &&& has_key(nodes, conns[i].source_node_id@)
                &&& has_key(nodes, conns[i].target_node_id@)
            } by {
                assert(conns.contains(conns[i]));
                old_conns@.lemma_filter_contains_rev(cs, conns[i]);
                let j = choose|j: int| 0 <= j < old_conns@.len() && old_conns@[j] == conns[i];
                assert(cs(conns[i]));
                assert(has_key(old_nodes@, old_conns@[j].source_node_id@));
                assert(has_key(old_nodes@, old_conns@[j].target_node_id@));
            }
        }
    }
}

impl Database {
    /// Creates a node from `data` with identifier `id` at time `now`, deriving
    /// its layer from its parent, and touches the owning map.
    pub fn create_brain_map_node_at(&mut self, data: BrainMapNodeCreate, id: String, now: i64) -> (r: Result<BrainMapNode, StoreError>)
        requires
            old(self).wf(),
        ensures
            final(self).wf(),
            node_created(*old(self), *final(self), data, id@, now, r),
    {
        if find_row(&self.nodes, &id).is_some() {
            return Err(StoreError::DuplicateKey);
        }
        if find_row(&self.brain_maps, &data.brain_map_id).is_none() {
            return Err(StoreError::MissingReference);
        }
        let layer: i32 = match &data.parent_node_id {
            Some(p) => match find_row(&self.nodes, p) {
                Some(i) => {
                    proof {
                        lemma_row_of_index(self.nodes@, i as int);
                    }
                    let parent_layer = self.nodes[i].layer;
                    if parent_layer == i32::MAX {
                        return Err(StoreError::LayerOverflow);
                    }
                    parent_layer + 1
                },
                None => 1,
            },
            None => 1,
        };
        let node = BrainMapNode {
            id: id,
            brain_map_id: data.brain_map_id,
            parent_node_id: data.parent_node_id,
            label: data.label,
            description: data.description,
            x: match data.x {
                Some(c) => c,
                None => Coord::zero(),
            },
            y: match data.y {
                Some(c) => c,
                None => Coord::zero(),
            },
            color: data.color,
            shape: match data.shape {
                Some(t) => Some(t),
                None => Some("circle".to_owned()),
            },
            size: match data.size {
                Some(t) => Some(t),
                None => Some("medium".to_owned()),
            },
            icon: data.icon,
            linked_note_id: data.linked_note_id,
            linked_folder_id: data.linked_folder_id,
            is_collapsed: false,
            layer: layer,
            created_at: now,
            updated_at: now,
        };
        let out = node.duplicate();
        let map_id = node.brain_map_id.clone();
        let ghost old_nodes = self.nodes@;
        self.nodes.push(node);
        proof {
            lemma_push_keys(old_nodes, out);
            let maps = self.brain_maps@;
            let nodes = self.nodes@;
            assert forall|i: int| 0 <= i < nodes.len() implies has_key(maps, #[trigger] nodes[i].brain_map_id@) by {
                if i < old_nodes.len() {
                    assert(old_nodes[i] == nodes[i]);
                }
            }
            let conns = self.connections@;
            assert forall|i: int| #![trigger conns[i]] 0 <= i < conns.len() implies {
                &&& has_key(maps, conns[i].brain_map_id@)
                &&& has_key(nodes, conns[i].source_node_id@)
                &&& has_key(nodes, conns[i].target_node_id@)
            } by {
                assert(has_key(old_nodes, conns[i].source_node_id@));
                assert(has_key(old_nodes, conns[i].target_node_id@));
            }
        }
        self.touch_map(&map_id, now);
        Ok(out)
    }

    /// Creates a node from `data` with a fresh identifier at the current time.
    pub fn create_brain_map_node(&mut self, data: BrainMapNodeCreate) -> (r: Result<BrainMapNode, StoreError>)
        requires
            old(self).wf(),
        ensures
            final(self).wf(),
            match r {
                Ok(n) => starts_with(n.id@, "node_"@) && node_created(*old(self), *final(self), data, n.id@, n.created_at, r),
                Err(e) => {
                    &&& *final(self) == *old(self)
                    &&& (e == StoreError::DuplicateKey && some_key_starts_with(old(self).nodes@, "node_"@))
                        || Some(e) == node_reference_error(*old(self), data)
                },
            },
            node_reference_error(*old(self), data).is_some() ==> r.is_err(),
    {
        let now = clock_now();
        let id = new_id("node_");
        let ghost k = id@;
        let r = self.create_brain_map_node_at(data, id, now);
        proof {
            if r is Err && r->Err_0 == StoreError::DuplicateKey {
                lemma_key_with_prefix(old(self).nodes@, k, "node_"@);
            }
        }
        r
    }

    /// Applies the fields present in `data` to the node `id` at time `now`
    /// and touches its map.
    pub fn update_brain_map_node_at(&mut self, id: &String, data: BrainMapNodeUpdate, now: i64) -> (r: Result<BrainMapNode, StoreError>)
        requires
            old(self).wf(),
        ensures
            final(self).wf(),
            node_updated(*old(self), *final(self), id@, data, now, r),
    {
        let i = match find_row(&self.nodes, id) {
            Some(i) => i,
            None => return Err(StoreError::NotFound),
        };
        proof {
            lemma_row_of_index(self.nodes@, i as int);
        }
        let ghost data0 = data;
        let cur = self.nodes[i].duplicate();
        let updated = BrainMapNode {
            id: cur.id,
            brain_map_id: cur.brain_map_id,
            parent_node_id: match data.parent_node_id {
                Some(t) => Some(t),
                None => cur.parent_node_id,
            },
            label: match data.label {
                Some(t) => t,
                None => cur.label,
            },
            description: match data.description {
                Some(t) => Some(t),
                None => cur.description,
            },
            x: match data.x {
                Some(c) => c,
                None => cur.x,
            },
            y: match data.y {
                Some(c) => c,
                None => cur.y,
            },
            color: match data.color {
                Some(t) => Some(t),
                None => cur.color,
            },
            shape: match data.shape {
                Some(t) => Some(t),
                None => cur.shape,
            },
            size: match data.size {
                Some(t) => Some(t),
                None => cur.size,
            },
            icon: match data.icon {
                Some(t) => Some(t),
                None => cur.icon,
            },
            linked_note_id: match data.linked_note_id {
                Some(t) => Some(t),
                None => cur.linked_note_id,
            },
            linked_folder_id: match data.linked_folder_id {
                Some(t) => Some(t),
                None => cur.linked_folder_id,
            },
            is_collapsed: match data.is_collapsed {
                Some(b) => b,
                None => cur.is_collapsed,
            },
            layer: cur.layer,
            created_at: cur.created_at,
            updated_at: now,
        };
        let out = updated.duplicate();
        let map_id = updated.brain_map_id.clone();
        let ghost old_nodes = self.nodes@;
        self.nodes[i] = updated;
        proof {
            let nodes = self.nodes@;
            assert(nodes =~= old_nodes.map_values(
                |m: BrainMapNode| if m.id@ == id@ { patched_node(m, data0, now) } else { m },
            )) by {
                assert forall|j: int| 0 <= j < old_nodes.len() && j != i implies old_nodes[j].id@ != id@ by {
                    assert(old_nodes[j].key() != old_nodes[i as int].key());
                }
            }
            lemma_keys_kept(old_nodes, nodes);
            let maps = self.brain_maps@;
            assert forall|j: int| 0 <= j < nodes.len() implies has_key(maps, #[trigger] nodes[j].brain_map_id@) by {
                assert(old_nodes[j].brain_map_id == nodes[j].brain_map_id);
            }
            let conns = self.connections@;
            assert forall|j: int| #![trigger conns[j]] 0 <= j < conns.len() implies {
                &&& has_key(maps, conns[j].brain_map_id@)
                &&& has_key(nodes, conns[j].source_node_id@)
                &&& has_key(nodes, conns[j].target_node_id@)
            } by {
                assert(has_key(old_nodes, conns[j].source_node_id@));
                assert(has_key(old_nodes, conns[j].target_node_id@));
            }
        }
        self.touch_map(&map_id, now);
        Ok(out)
    }

    /// Applies the fields present in `data` to the node `id` at the current
    /// time.
    pub fn update_brain_map_node(&mut self, id: &String, data: BrainMapNodeUpdate) -> (r: Result<BrainMapNode, StoreError>)
        requires
            old(self).wf(),
        ensures
            final(self).wf(),
            match r {
                Ok(n) => node_updated(*old(self), *final(self), id@, data, n.updated_at, r),
                Err(_) => node_updated(*old(self), *final(self), id@, data, 0, r),
            },
    {
        let now = clock_now();
        self.update_brain_map_node_at(id, data, now)
    }

    /// Deletes the node `id` with the connections that touch it, clears the
    /// parent link of its children, and touches its map. Deleting a node that
    /// is not stored changes nothing.
    pub fn delete_brain_map_node_at(&mut self, id: &String, now: i64)
        requires
            old(self).wf(),
        ensures
            final(self).wf(),
            node_deleted(*old(self), *final(self), id@, now),
    {
        match find_row(&self.nodes, id) {
            Some(i) => {
                proof {
                    lemma_row_of_index(self.nodes@, i as int);
                }
                let map_id = self.nodes[i].brain_map_id.clone();
                let gone = vec![id.clone()];
                proof {
                    assert forall|s: Seq<char>| #[trigger] is_text(id@)(s) == ids_hold(gone@, s) by {
                        if s == id@ {
                            assert(gone@[0]@ == s);
                        }
                    }
                }
                self.remove_nodes(&gone, Ghost(is_text(id@)));
                self.touch_map(&map_id, now);
            },
            None => {},
        }
    }

    /// Deletes the node `id` as `delete_brain_map_node_at` does, at the
    /// current time.
    pub fn delete_brain_map_node(&mut self, id: &String)
        requires
            old(self).wf(),
        ensures
            final(self).wf(),
            has_key(old(self).nodes@, id@) ==> exists|now: i64| node_deleted(*old(self), *final(self), id@, now),
            !has_key(old(self).nodes@, id@) ==> *final(self) == *old(self),
    {
        let now = clock_now();
        self.delete_brain_map_node_at(id, now);
    }

    /// Moves the nodes as `updates` lists, in order, at time `now`. Stops with
    /// `NotFound` at the first update whose node is not stored; the updates
    /// before it stay applied.
    pub fn update_node_positions_at(&mut self, updates: &Vec<(String, Coord, Coord)>, now: i64) -> (r: Result<(), StoreError>)
        requires
            old(self).wf(),
        ensures
            final(self).wf(),
            final(self).nodes@ == positions_applied(old(self).nodes@, updates@, now).0,
            r.is_ok() == positions_applied(old(self).nodes@, updates@, now).1,
            r matches Err(e) ==> e == StoreError::NotFound,
            final(self).brain_maps == old(self).brain_maps,
            final(self).connections == old(self).connections,
            flat_tables_kept(*old(self), *final(self)),
    {
        let mut k: usize = 0;
        assert(updates@.subrange(0, updates@.len() as int) =~= updates@);
        while k < updates.len()
            invariant
                k <= updates@.len(),
                self.wf(),
                positions_applied(old(self).nodes@, updates@, now) == positions_applied(
                    self.nodes@,
                    updates@.subrange(k as int, updates@.len() as int),
                    now,
                ),
                self.brain_maps == old(self).brain_maps,
                self.connections == old(self).connections,
                flat_tables_kept(*old(self), *self),
            decreases updates@.len() - k,
        {
            let ghost rest = updates@.subrange(k as int, updates@.len() as int);
            assert(rest[0] == updates@[k as int]);
            assert(rest.drop_first() =~= updates@.subrange(k + 1, updates@.len() as int));
            let u = &updates[k];
            match find_row(&self.nodes, &u.0) {
                Some(i) => {
                    let ghost old_nodes = self.nodes@;
                    self.nodes[i].x = u.1;
                    self.nodes[i].y = u.2;
                    self.nodes[i].updated_at = now;
                    proof {
                        let nodes = self.nodes@;
                        assert(has_key(old_nodes, u.0@));
                        assert(nodes =~= old_nodes.map_values(
                            |n: BrainMapNode| if n.id@ == rest[0].0@ { moved(n, rest[0].1, rest[0].2, now) } else { n },
                        )) by {
                            assert forall|j: int| 0 <= j < old_nodes.len() && j != i implies old_nodes[j].id@ != u.0@ by {
                                assert(old_nodes[j].key() != old_nodes[i as int].key());
                            }
                        }
                        lemma_keys_kept(old_nodes, nodes);
                        let maps = self.brain_maps@;
                        assert forall|j: int| 0 <= j < nodes.len() implies has_key(maps, #[trigger] nodes[j].brain_map_id@) by {
                            assert(old_nodes[j].brain_map_id == nodes[j].brain_map_id);
                        }
                        let conns = self.connections@;
                        assert forall|j: int| #![trigger conns[j]] 0 <= j < conns.len() implies {
                            &&& has_key(maps, conns[j].brain_map_id@)
                            &&& has_key(nodes, conns[j].source_node_id@)
                            &&& has_key(nodes, conns[j].target_node_id@)
                        } by {
                            assert(has_key(old_nodes, conns[j].source_node_id@));
                            assert(has_key(old_nodes, conns[j].target_node_id@));
                        }
                    }
                },
                None => {
                    return Err(StoreError::NotFound);
                },
            }
            k = k + 1;
        }
        Ok(())
    }

    /// Moves the nodes as `update_node_positions_at` does, at the current time.
    pub fn update_node_positions(&mut self, updates: &Vec<(String, Coord, Coord)>) -> (r: Result<(), StoreError>)
        requires
            old(self).wf(),
        ensures
            final(self).wf(),
            exists|now: i64| {
                &&& final(self).nodes@ == positions_applied(old(self).nodes@, updates@, now).0
                &&& r.is_ok() == positions_applied(old(self).nodes@, updates@, now).1
            },
            r matches Err(e) ==> e == StoreError::NotFound,
            final(self).brain_maps == old(self).brain_maps,
            final(self).connections == old(self).connections,
            flat_tables_kept(*old(self), *final(self)),
    {
        let now = clock_now();
        self.update_node_positions_at(updates, now)
    }
}

} // verus!
