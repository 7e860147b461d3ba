use vstd::prelude::*;
use crate::models::{BrainMap, BrainMapConnection, BrainMapNode, Event, Folder, Note, Setting};
use crate::record::{find_row, has_key, keys_unique, keys_are_unique, lemma_keys_kept, Record};

verus! {

/// Why an operation on the store failed.
#[derive(Clone, Copy, Debug, PartialEq, Eq, Structural)]
pub enum StoreError {
    /// The row the operation targets does not exist.
    NotFound,
    /// A row with the new row's key already exists.
    DuplicateKey,
    /// A row that the new row refers to does not exist.
    MissingReference,
    /// The derived layer does not fit the layer's integer type.
    LayerOverflow,
}

impl StoreError {
    /// A human-readable message for the error.
    pub fn message(&self) -> (r: String) {
        match self {
            StoreError::NotFound => "Query returned no rows".to_owned(),
            StoreError::DuplicateKey => "UNIQUE constraint failed".to_owned(),
            StoreError::MissingReference => "FOREIGN KEY constraint failed".to_owned(),
            StoreError::LayerOverflow => "layer out of range".to_owned(),
        }
    }
}

/// The entity store: one table per record family.
pub struct Database {
    pub notes: Vec<Note>,
    pub folders: Vec<Folder>,
    pub events: Vec<Event>,
    pub brain_maps: Vec<BrainMap>,
    pub nodes: Vec<BrainMapNode>,
    pub connections: Vec<BrainMapConnection>,
    pub settings: Vec<Setting>,
}

/// Every node belongs to a stored map.
pub open spec fn nodes_owned(maps: Seq<BrainMap>, nodes: Seq<BrainMapNode>) -> bool {
    forall|i: int| 0 <= i < nodes.len() ==> has_key(maps, #[trigger] nodes[i].brain_map_id@)
}

/// Every connection belongs to a stored map and joins two stored nodes.
pub open spec fn connections_anchored(
    maps: Seq<BrainMap>,
    nodes: Seq<BrainMapNode>,
    conns: Seq<BrainMapConnection>,
) -> bool {
    forall|i: int|
        #![trigger conns[i]]
        0 <= i < conns.len() ==> {
            &&& has_key(maps, conns[i].brain_map_id@)
            &&& has_key(nodes, conns[i].source_node_id@)
            &&& has_key(nodes, conns[i].target_node_id@)
        }
}

/// No layer is negative, and no map has two nodes at layer 0.
pub open spec fn layers_sound(nodes: Seq<BrainMapNode>) -> bool {
    &&& forall|i: int| 0 <= i < nodes.len() ==> (#[trigger] nodes[i]).layer >= 0
    &&& forall|i: int, j: int|
        #![trigger nodes[i], nodes[j]]
        0 <= i < nodes.len() && 0 <= j < nodes.len() && i != j && nodes[i].layer == 0
            && nodes[j].layer == 0 ==> nodes[i].brain_map_id@ != nodes[j].brain_map_id@
}

/// Rewriting nodes without changing their layers or maps keeps the layers
/// sound.
pub proof fn lemma_layers_kept(old: Seq<BrainMapNode>, new: Seq<BrainMapNode>)
    requires
        layers_sound(old),
        new.len() == old.len(),
        forall|i: int|
            0 <= i < old.len() ==> (#[trigger] new[i]).layer == old[i].layer && new[i].brain_map_id
                == old[i].brain_map_id,
    ensures
        layers_sound(new),
{
    assert forall|i: int| 0 <= i < new.len() implies (#[trigger] new[i]).layer >= 0 by {
        assert(old[i].layer >= 0);
    }
    assert forall|i: int, j: int|
        #![trigger new[i], new[j]]
        0 <= i < new.len() && 0 <= j < new.len() && i != j && new[i].layer == 0 && new[j].layer == 0
            implies new[i].brain_map_id@ != new[j].brain_map_id@ by {
        assert(old[i].brain_map_id@ != old[j].brain_map_id@);
    }
}

/// Appending a node keeps the layers sound when its layer is not negative
/// and, at layer 0, no node of its map is at layer 0 already.
pub proof fn lemma_layers_push(old: Seq<BrainMapNode>, x: BrainMapNode)
    requires
        layers_sound(old),
        x.layer >= 0,
        x.layer == 0 ==> forall|i: int|
            0 <= i < old.len() ==> (#[trigger] old[i]).brain_map_id@ != x.brain_map_id@,
    ensures
        layers_sound(old.push(x)),
{
    let new = old.push(x);
    assert forall|i: int| 0 <= i < new.len() implies (#[trigger] new[i]).layer >= 0 by {
        if i < old.len() {
            assert(new[i] == old[i]);
        }
    }
    assert forall|i: int, j: int|
        #![trigger new[i], new[j]]
        0 <= i < new.len() && 0 <= j < new.len() && i != j && new[i].layer == 0 && new[j].layer == 0
            implies new[i].brain_map_id@ != new[j].brain_map_id@ by {
        if i < old.len() && j < old.len() {
            assert(new[i] == old[i] && new[j] == old[j]);
        } else if i < old.len() {
            assert(new[i] == old[i]);
        } else {
            assert(new[j] == old[j]);
        }
    }
}

/// Some node of `old` has the identifier, layer and map of `n`.
pub open spec fn drawn_from(old: Seq<BrainMapNode>, n: BrainMapNode) -> bool {
    exists|j: int|
        0 <= j < old.len() && #[trigger] old[j].id == n.id && old[j].layer == n.layer
            && old[j].brain_map_id == n.brain_map_id
}

/// Nodes each drawn from a distinct node of a sound table, with its key,
/// layer and map, are sound.
pub proof fn lemma_layers_drawn(old: Seq<BrainMapNode>, new: Seq<BrainMapNode>)
    requires
        layers_sound(old),
        keys_unique(new),
        forall|i: int| 0 <= i < new.len() ==> drawn_from(old, #[trigger] new[i]),
    ensures
        layers_sound(new),
{
    assert forall|i: int| 0 <= i < new.len() implies (#[trigger] new[i]).layer >= 0 by {
        assert(drawn_from(old, new[i]));
        let a = choose|a: int|
            0 <= a < old.len() && #[trigger] old[a].id == new[i].id && old[a].layer == new[i].layer
                && old[a].brain_map_id == new[i].brain_map_id;
        assert(old[a].layer >= 0);
    }
    assert forall|i: int, j: int|
        #![trigger new[i], new[j]]
        0 <= i < new.len() && 0 <= j < new.len() && i != j && new[i].layer == 0 && new[j].layer == 0
            implies new[i].brain_map_id@ != new[j].brain_map_id@ by {
        assert(drawn_from(old, new[i]));
        assert(drawn_from(old, new[j]));
        let a = choose|a: int|
            0 <= a < old.len() && #[trigger] old[a].id == new[i].id && old[a].layer == new[i].layer
                && old[a].brain_map_id == new[i].brain_map_id;
        let b = choose|b: int|
            0 <= b < old.len() && #[trigger] old[b].id == new[j].id && old[b].layer == new[j].layer
                && old[b].brain_map_id == new[j].brain_map_id;
        assert(new[i].key() != new[j].key());
        assert(a != b);
        assert(old[a].brain_map_id@ != old[b].brain_map_id@);
    }
}

/// `new` is `old` with the `updated_at` of the map `id` set to `now`.
pub open spec fn touched(old: Seq<BrainMap>, new: Seq<BrainMap>, id: Seq<char>, now: i64) -> bool {
    &&& new.len() == old.len()
    &&& forall|i: int|
        0 <= i < old.len() ==> #[trigger] new[i] == if old[i].id@ == id {
            BrainMap { updated_at: now, ..old[i] }
        } else {
            old[i]
        }
}

/// The notes, folders, events and settings tables are the same in `a` and `b`.
pub open spec fn flat_tables_kept(a: Database, b: Database) -> bool {
    &&& b.notes == a.notes
    &&& b.folders == a.folders
    &&& b.events == a.events
    &&& b.settings == a.settings
}

/// Whether `layers_sound` holds of `nodes`.
pub fn layers_are_sound(nodes: &Vec<BrainMapNode>) -> (r: bool)
    ensures
        r == layers_sound(nodes@),
{
    let mut i: usize = 0;
    while i < nodes.len()
        invariant
            i <= nodes@.len(),
            forall|a: int| 0 <= a < i ==> (#[trigger] nodes@[a]).layer >= 0,
            forall|a: int, b: int|
                #![trigger nodes@[a], nodes@[b]]
                0 <= a < i && 0 <= b < nodes@.len() && a != b && nodes@[a].layer == 0
                    && nodes@[b].layer == 0 ==> nodes@[a].brain_map_id@ != nodes@[b].brain_map_id@,
        decreases nodes@.len() - i,
    {
        if nodes[i].layer < 0 {
            return false;
        }
        if nodes[i].layer == 0 {
            let mut j: usize = 0;
            while j < nodes.len()
                invariant
                    i < nodes@.len(),
                    j <= nodes@.len(),
                    nodes@[i as int].layer == 0,
                    forall|b: int|
                        #![trigger nodes@[b]]
                        0 <= b < j && b != i && nodes@[b].layer == 0 ==> nodes@[i as int].brain_map_id@
                            != nodes@[b].brain_map_id@,
                decreases nodes@.len() - j,
            {
                if j != i && nodes[j].layer == 0 && nodes[j].brain_map_id == nodes[i].brain_map_id {
                    return false;
                }
                j = j + 1;
            }
        }
        i = i + 1;
    }
    proof {
        assert forall|a: int, b: int|
            #![trigger nodes@[a], nodes@[b]]
            0 <= a < nodes@.len() && 0 <= b < nodes@.len() && a != b && nodes@[a].layer == 0
                && nodes@[b].layer == 0 implies nodes@[a].brain_map_id@ != nodes@[b].brain_map_id@ by {
        }
    }
    true
}

impl Database {
    /// Keys are unique in every table, node layers are sound, and the
    /// references that the store enforces hold.
    pub open spec fn wf(&self) -> bool {
        &&& keys_unique(self.notes@)
        &&& keys_unique(self.folders@)
        &&& keys_unique(self.events@)
        &&& keys_unique(self.brain_maps@)
        &&& keys_unique(self.nodes@)
        &&& keys_unique(self.connections@)
        &&& keys_unique(self.settings@)
        &&& layers_sound(self.nodes@)
        &&& nodes_owned(self.brain_maps@, self.nodes@)
        &&& connections_anchored(self.brain_maps@, self.nodes@, self.connections@)
    }

    /// An empty store.
    pub fn new() -> (r: Database)
        ensures
            r.wf(),
            r.notes@.len() == 0,
            r.folders@.len() == 0,
            r.events@.len() == 0,
            r.brain_maps@.len() == 0,
            r.nodes@.len() == 0,
            r.connections@.len() == 0,
            r.settings@.len() == 0,
    {
        Database {
            notes: Vec::new(),
            folders: Vec::new(),
            events: Vec::new(),
            brain_maps: Vec::new(),
            nodes: Vec::new(),
            connections: Vec::new(),
            settings: Vec::new(),
        }
    }

    /// Whether the store's invariants hold, as `wf` states them.
    pub fn is_well_formed(&self) -> (r: bool)
        ensures
            r == self.wf(),
    {
        if !(keys_are_unique(&self.notes) && keys_are_unique(&self.folders) && keys_are_unique(&self.events)
            && keys_are_unique(&self.brain_maps) && keys_are_unique(&self.nodes)
            && keys_are_unique(&self.connections) && keys_are_unique(&self.settings)) {
            return false;
        }
        if !layers_are_sound(&self.nodes) {
            return false;
        }
        let mut i: usize = 0;
        while i < self.nodes.len()
            invariant
                i <= self.nodes@.len(),
                forall|j: int| 0 <= j < i ==> has_key(self.brain_maps@, #[trigger] self.nodes@[j].brain_map_id@),
            decreases self.nodes@.len() - i,
        {
            if find_row(&self.brain_maps, &self.nodes[i].brain_map_id).is_none() {
                return false;
            }
            i = i + 1;
        }
        let mut k: usize = 0;
        while k < self.connections.len()
            invariant
                k <= self.connections@.len(),
                nodes_owned(self.brain_maps@, self.nodes@),
                forall|j: int|
                    #![trigger self.connections@[j]]
                    0 <= j < k ==> {
                        &&& has_key(self.brain_maps@, self.connections@[j].brain_map_id@)
                        &&& has_key(self.nodes@, self.connections@[j].source_node_id@)
                        &&& has_key(self.nodes@, self.connections@[j].target_node_id@)
                    },
            decreases self.connections@.len() - k,
        {
            let c = &self.connections[k];
            if find_row(&self.brain_maps, &c.brain_map_id).is_none()
                || find_row(&self.nodes, &c.source_node_id).is_none()
                || find_row(&self.nodes, &c.target_node_id).is_none() {
                return false;
            }
            k = k + 1;
        }
        true
    }

    /// Sets the `updated_at` of the map `id` to `now`; no change when there
    /// is no such map.
    pub fn touch_map(&mut self, id: &String, now: i64)
        requires
            old(self).wf(),
        ensures
            final(self).wf(),
            touched(old(self).brain_maps@, final(self).brain_maps@, id@, now),
            final(self).notes == old(self).notes,
            final(self).folders == old(self).folders,
            final(self).events == old(self).events,
            final(self).nodes == old(self).nodes,
            final(self).connections == old(self).connections,
            final(self).settings == old(self).settings,
    {
        match find_row(&self.brain_maps, id) {
            Some(i) => {
                self.brain_maps[i].updated_at = now;
                proof {
                    let old_maps = old(self).brain_maps@;
                    let new_maps = self.brain_maps@;
                    assert forall|j: int| 0 <= j < old_maps.len() implies #[trigger] new_maps[j]
                        == if old_maps[j].id@ == id@ {
                        BrainMap { updated_at: now, ..old_maps[j] }
                    } else {
                        old_maps[j]
                    } by {
                        if j != i {
                            assert(old_maps[j].key() != old_maps[i as int].key());
                        }
                        assert(old_maps[j].key() == old_maps[j].id@);
                    }
                    lemma_keys_kept(old_maps, new_maps);
                }
            },
            None => {
                assert forall|j: int| 0 <= j < self.brain_maps@.len() implies #[trigger] self.brain_maps@[j].id@ != id@ by {
                    assert(self.brain_maps@[j].key() != id@);
                }
            },
        }
    }
}

} // verus!
