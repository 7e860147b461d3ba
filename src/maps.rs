use vstd::prelude::*;
use crate::models::{
    BrainMap, BrainMapConnection, BrainMapCreate, BrainMapNode, BrainMapUpdate, BrainMapWithData,
    Coord,
};
use crate::nodes::{
    connection_survives, connections_after_removal, ids_hold, node_survives, nodes_after_removal,
    unlink_with,
};
use crate::record::{
    find_row, has_key, is_listing, key_other_than, lemma_filter_all, lemma_filter_keys,
    lemma_keys_kept, lemma_push_keys, lemma_remove_is_filter, lemma_row_of_index, list_rows, row_of,
    lemma_key_with_prefix, some_key_starts_with, Record,
};
use crate::sources::{clock_now, new_id, starts_with};
use crate::store::{flat_tables_kept, Database, StoreError};

verus! {

/// `o`'s text, or `d` when `o` is absent.
pub open spec fn text_or(o: Option<String>, d: Seq<char>) -> Seq<char> {
    match o {
        Some(t) => t@,
        None => d,
    }
}

/// The label of a map's center node, as given or by default.
pub open spec fn center_text(data: BrainMapCreate) -> Seq<char> {
    text_or(data.center_node_text, "Central Idea"@)
}

/// `m` is the map that creation from `data` stores under `id`, with center
/// node `center` at time `now`.
pub open spec fn is_new_map(m: BrainMap, data: BrainMapCreate, id: Seq<char>, center: Seq<char>, now: i64) -> bool {
    &&& m.id@ == id
    &&& m.title@ == text_or(data.title, "Untitled Map"@)
    &&& m.description == data.description
    &&& m.center_node_id.is_some()
    &&& m.center_node_id.unwrap()@ == center
    &&& m.center_node_text@ == center_text(data)
    &&& m.viewport_x.bits == 0
    &&& m.viewport_y.bits == 0
    &&& m.viewport_zoom == Coord { bits: 0x3ff0_0000_0000_0000u64 }
    &&& m.theme == data.theme
    &&& m.created_at == now
    &&& m.updated_at == now
    &&& m.deleted_at.is_none()
}

/// `n` is the center node that creation from `data` stores under `id` in
/// map `map_id` at time `now`: layer 0, no parent, the accent style.
pub open spec fn is_center_node(n: BrainMapNode, data: BrainMapCreate, map_id: Seq<char>, id: Seq<char>, now: i64) -> bool {
    &&& n.id@ == id
    &&& n.brain_map_id@ == map_id
    &&& n.parent_node_id.is_none()
    &&& n.label@ == center_text(data)
    &&& n.description.is_none()
    &&& n.x.bits == 0
    &&& n.y.bits == 0
    &&& n.color.is_some() && n.color.unwrap()@ == "#6366f1"@
    &&& n.shape.is_some() && n.shape.unwrap()@ == "circle"@
    &&& n.size.is_some() && n.size.unwrap()@ == "large"@
    &&& n.icon.is_none()
    &&& n.linked_note_id.is_none()
    &&& n.linked_folder_id.is_none()
    &&& !n.is_collapsed
    &&& n.layer == 0
    &&& n.created_at == now
    &&& n.updated_at == now
}

/// What `create_brain_map_at(data, map_id, node_id, now)` does to `old`,
/// giving `new` and `r`.
pub open spec fn map_created(
    old: Database,
    new: Database,
    data: BrainMapCreate,
    map_id: Seq<char>,
    node_id: Seq<char>,
    now: i64,
    r: Result<BrainMapWithData, StoreError>,
) -> bool {
    match r {
        Ok(w) => {
            &&& !has_key(old.brain_maps@, map_id)
            &&& !has_key(old.nodes@, node_id)
            &&& is_new_map(w.brain_map, data, map_id, node_id, now)
            &&& w.nodes@.len() == 1
            &&& is_center_node(w.nodes@[0], data, map_id, node_id, now)
            &&& w.connections@.len() == 0
            &&& new.brain_maps@ == old.brain_maps@.push(w.brain_map)
            &&& new.nodes@ == old.nodes@.push(w.nodes@[0])
            &&& new.connections == old.connections
            &&& flat_tables_kept(old, new)
        },
        Err(e) => {
            &&& e == StoreError::DuplicateKey
            &&& has_key(old.brain_maps@, map_id) || has_key(old.nodes@, node_id)
            &&& new == old
        },
    }
}

/// `m` with the fields present in `p` replaced, and updated at `now`.
pub open spec fn patched_map(m: BrainMap, p: BrainMapUpdate, now: i64) -> BrainMap {
    BrainMap {
        id: m.id,
        title: match p.title { Some(t) => t, None => m.title },
        description: match p.description { Some(t) => Some(t), None => m.description },
        center_node_id: match p.center_node_id { Some(t) => Some(t), None => m.center_node_id },
        center_node_text: match p.center_node_text { Some(t) => t, None => m.center_node_text },
        viewport_x: match p.viewport_x { Some(c) => c, None => m.viewport_x },
        viewport_y: match p.viewport_y { Some(c) => c, None => m.viewport_y },
        viewport_zoom: match p.viewport_zoom { Some(c) => c, None => m.viewport_zoom },
        theme: match p.theme { Some(t) => Some(t), None => m.theme },
        created_at: m.created_at,
        updated_at: now,
        deleted_at: m.deleted_at,
    }
}

/// A map is listed while it is not soft-deleted.
pub open spec fn map_listed() -> spec_fn(BrainMap) -> bool {
    |m: BrainMap| m.deleted_at.is_none()
}

/// A node belongs to the map `id`.
pub open spec fn node_of_map(id: Seq<char>) -> spec_fn(BrainMapNode) -> bool {
    |n: BrainMapNode| n.brain_map_id@ == id
}

/// A connection belongs to a map other than `id`.
pub open spec fn connection_outside_map(id: Seq<char>) -> spec_fn(BrainMapConnection) -> bool {
    |c: BrainMapConnection| c.brain_map_id@ != id
}

/// A connection belongs to the map `id`.
pub open spec fn connection_of_map(id: Seq<char>) -> spec_fn(BrainMapConnection) -> bool {
    |c: BrainMapConnection| c.brain_map_id@ == id
}

/// The identifiers of the nodes of `nodes` that belong to the map `id`.
pub open spec fn node_ids_of_map(nodes: Seq<BrainMapNode>, id: Seq<char>) -> spec_fn(Seq<char>) -> bool {
    |s: Seq<char>| exists|i: int| 0 <= i < nodes.len() && #[trigger] nodes[i].id@ == s && nodes[i].brain_map_id@ == id
}

/// What `update_brain_map_at(id, p, now)` does to `old`, giving `new` and `r`.
pub open spec fn map_updated(
    old: Database,
    new: Database,
    id: Seq<char>,
    p: BrainMapUpdate,
    now: i64,
    r: Result<BrainMap, StoreError>,
) -> bool {
    match r {
        Ok(m) => {
            &&& has_key(old.brain_maps@, id)
            &&& m == patched_map(row_of(old.brain_maps@, id).unwrap(), p, now)
            &&& new.brain_maps@ == old.brain_maps@.map_values(
                |b: BrainMap| if b.id@ == id { patched_map(b, p, now) } else { b },
            )
            &&& new.nodes == old.nodes
            &&& new.connections == old.connections
            &&& flat_tables_kept(old, new)
        },
        Err(e) => {
            &&& e == StoreError::NotFound
            &&& !has_key(old.brain_maps@, id)
            &&& new == old
        },
    }
}

/// What `delete_brain_map_at(id, hard, now)` does to `old`, giving `new`.
/// A soft delete stamps the map; a hard delete removes it with its nodes and
/// connections, and with every connection that touches one of its nodes.
pub open spec fn map_deleted(old: Database, new: Database, id: Seq<char>, hard: Option<bool>, now: i64) -> bool {
    &&& flat_tables_kept(old, new)
    &&& if hard == Some(true) {
        let gone = node_ids_of_map(old.nodes@, id);
        &&& new.brain_maps@ == old.brain_maps@.filter(|m: BrainMap| m.id@ != id)
        &&& new.nodes@ == nodes_after_removal(old.nodes@, gone)
        &&& new.connections@ == connections_after_removal(
            old.connections@.filter(connection_outside_map(id)),
            gone,
        )
    } else {
        &&& new.brain_maps@ == old.brain_maps@.map_values(
            |m: BrainMap| if m.id@ == id { BrainMap { deleted_at: Some(now), ..m } } else { m },
        )
        &&& new.nodes == old.nodes
        &&& new.connections == old.connections
    }
}

impl Database {
    /// Creates a map with identifier `map_id` and its center node with
    /// identifier `node_id`, both at time `now`. Both rows are stored or
    /// neither is.
    pub fn create_brain_map_at(&mut self, data: BrainMapCreate, map_id: String, node_id: String, now: i64) -> (r: Result<BrainMapWithData, StoreError>)
        requires
            old(self).wf(),
        ensures
            final(self).wf(),
            map_created(*old(self), *final(self), data, map_id@, node_id@, now, r),
    {
        if find_row(&self.brain_maps, &map_id).is_some() || find_row(&self.nodes, &node_id).is_some() {
            return Err(StoreError::DuplicateKey);
        }
        let center_label = match data.center_node_text {
            Some(t) => t,
            None => "Central Idea".to_owned(),
        };
        let map = BrainMap {
            id: map_id.clone(),
            title: match data.title {
                Some(t) => t,
                None => "Untitled Map".to_owned(),
            },
            description: data.description,
            center_node_id: Some(node_id.clone()),
            center_node_text: center_label.clone(),
            viewport_x: Coord::zero(),
            viewport_y: Coord::zero(),
            viewport_zoom: Coord::one(),
            theme: data.theme,
            created_at: now,
            updated_at: now,
            deleted_at: None,
        };
        let center = BrainMapNode {
            id: node_id,
            brain_map_id: map_id,
            parent_node_id: None,
            label: center_label,
            description: None,
            x: Coord::zero(),
            y: Coord::zero(),
            color: Some("#6366f1".to_owned()),
            shape: Some("circle".to_owned()),
            size: Some("large".to_owned()),
            icon: None,
            linked_note_id: None,
            linked_folder_id: None,
            is_collapsed: false,
            layer: 0,
            created_at: now,
            updated_at: now,
        };
        let ghost old_maps = self.brain_maps@;
        let ghost old_nodes = self.nodes@;
        let out_map = map.duplicate();
        let out_node = center.duplicate();
        self.brain_maps.push(map);
        self.nodes.push(center);
        proof {
            lemma_push_keys(old_maps, self.brain_maps@.last());
            lemma_push_keys(old_nodes, self.nodes@.last());
            let maps = self.brain_maps@;
            let nodes = self.nodes@;
            assert forall|i: int| 0 <= i < nodes.len() implies has_key(maps, #[trigger] nodes[i].brain_map_id@) by {
                if i < old_nodes.len() {
                    assert(old_nodes[i] == nodes[i]);
                } else {
                    assert(maps.last().key() == nodes[i].brain_map_id@);
                }
            }
            let conns = self.connections@;
            assert forall|i: int| #![trigger conns[i]] 0 <= i < conns.len() implies {
                &&& has_key(maps, conns[i].brain_map_id@)
                &&& has_key(nodes, conns[i].source_node_id@)
                &&& has_key(nodes, conns[i].target_node_id@)
            } by {
                assert(has_key(old_maps, conns[i].brain_map_id@));
                assert(has_key(old_nodes, conns[i].source_node_id@));
                assert(has_key(old_nodes, conns[i].target_node_id@));
            }
        }
        let w = BrainMapWithData { brain_map: out_map, nodes: vec![out_node], connections: Vec::new() };
        proof {
            assert(w.nodes@[0] == out_node);
        }
        Ok(w)
    }

    /// Creates a map and its center node, with fresh identifiers and the
    /// current time.
    pub fn create_brain_map(&mut self, data: BrainMapCreate) -> (r: Result<BrainMapWithData, StoreError>)
        requires
            old(self).wf(),
        ensures
            final(self).wf(),
            match r {
                Ok(w) => {
                    &&& w.nodes@.len() == 1
                    &&& starts_with(w.brain_map.id@, "brainmap_"@)
                    &&& starts_with(w.nodes@[0].id@, "node_"@)
                    &&& map_created(
                        *old(self),
                        *final(self),
                        data,
                        w.brain_map.id@,
                        w.nodes@[0].id@,
                        w.brain_map.created_at,
                        r,
                    )
                },
                Err(e) => {
                    &&& e == StoreError::DuplicateKey
                    &&& *final(self) == *old(self)
                    &&& some_key_starts_with(old(self).brain_maps@, "brainmap_"@)
                        || some_key_starts_with(old(self).nodes@, "node_"@)
                },
            },
    {
        let now = clock_now();
        let map_id = new_id("brainmap_");
        let node_id = new_id("node_");
        let ghost mid = map_id@;
        let ghost nid = node_id@;
        let r = self.create_brain_map_at(data, map_id, node_id, now);
        proof {
            if r.is_err() {
                if has_key(old(self).brain_maps@, mid) {
                    lemma_key_with_prefix(old(self).brain_maps@, mid, "brainmap_"@);
                } else {
                    lemma_key_with_prefix(old(self).nodes@, nid, "node_"@);
                }
            }
        }
        r
    }

    /// The maps that are not soft-deleted, most recently updated first.
    pub fn get_brain_maps(&self) -> (r: Vec<BrainMap>)
        requires
            self.wf(),
        ensures
            is_listing(self.brain_maps@, r@, map_listed()),
    {
        let mut cand: Vec<usize> = Vec::new();
        let mut i: usize = 0;
        while i < self.brain_maps.len()
            invariant
                i <= self.brain_maps@.len(),
                forall|j: int| 0 <= j < cand@.len() ==> #[trigger] cand@[j] < i,
                forall|a: int, b: int| 0 <= a < b < cand@.len() ==> #[trigger] cand@[a] < #[trigger] cand@[b],
                forall|j: int| 0 <= j < cand@.len() ==> map_listed()(#[trigger] self.brain_maps@[cand@[j] as int]),
                forall|k: int| 0 <= k < i && map_listed()(#[trigger] self.brain_maps@[k]) ==> exists|j: int| 0 <= j < cand@.len() && cand@[j] as int == k,
            decreases self.brain_maps@.len() - i,
        {
            if self.brain_maps[i].deleted_at.is_none() {
                let ghost c0 = cand@;
                cand.push(i);
                proof {
                    assert forall|k: int| 0 <= k < i + 1 && map_listed()(#[trigger] self.brain_maps@[k]) implies exists|j: int| 0 <= j < cand@.len() && cand@[j] as int == k by {
                        if k < i {
                            let j = choose|j: int| 0 <= j < c0.len() && c0[j] as int == k;
                            assert(cand@[j] as int == k);
                        } else {
                            assert(cand@[c0.len() as int] as int == k);
                        }
                    }
                }
            }
            i = i + 1;
        }
        list_rows(&self.brain_maps, &cand, Ghost(map_listed()))
    }
}

impl Database {
    /// The map `id` with its nodes, by layer and then by creation time, and
    /// its connections in stored order. A soft-deleted map is returned too.
    pub fn get_brain_map(&self, id: &String) -> (r: Option<BrainMapWithData>)
        requires
            self.wf(),
        ensures
            r.is_some() == has_key(self.brain_maps@, id@),
            r matches Some(w) ==> {
                &&& w.brain_map == row_of(self.brain_maps@, id@).unwrap()
                &&& is_listing(self.nodes@, w.nodes@, node_of_map(id@))
                &&& w.connections@ == self.connections@.filter(connection_of_map(id@))
            },
    {
        let i = match find_row(&self.brain_maps, id) {
            Some(i) => i,
            None => return None,
        };
        proof {
            lemma_row_of_index(self.brain_maps@, i as int);
        }
        let brain_map = self.brain_maps[i].duplicate();
        let ghost pick = node_of_map(id@);
        let mut cand: Vec<usize> = Vec::new();
        let mut k: usize = 0;
        while k < self.nodes.len()
            invariant
                k <= self.nodes@.len(),
                pick == node_of_map(id@),
                forall|j: int| 0 <= j < cand@.len() ==> #[trigger] cand@[j] < k,
                forall|a: int, b: int| 0 <= a < b < cand@.len() ==> #[trigger] cand@[a] < #[trigger] cand@[b],
                forall|j: int| 0 <= j < cand@.len() ==> pick(#[trigger] self.nodes@[cand@[j] as int]),
                forall|q: int| 0 <= q < k && pick(#[trigger] self.nodes@[q]) ==> exists|j: int| 0 <= j < cand@.len() && cand@[j] as int == q,
            decreases self.nodes@.len() - k,
        {
            if self.nodes[k].brain_map_id == *id {
                let ghost c0 = cand@;
                cand.push(k);
                proof {
                    assert forall|q: int| 0 <= q < k + 1 && pick(#[trigger] self.nodes@[q]) implies exists|j: int| 0 <= j < cand@.len() && cand@[j] as int == q by {
                        if q < k {
                            let j = choose|j: int| 0 <= j < c0.len() && c0[j] as int == q;
                            assert(cand@[j] as int == q);
                        } else {
                            assert(cand@[c0.len() as int] as int == q);
                        }
                    }
                }
            }
            k = k + 1;
        }
        let nodes = list_rows(&self.nodes, &cand, Ghost(pick));
        let ghost cpick = connection_of_map(id@);
        let mut connections: Vec<BrainMapConnection> = Vec::new();
        let mut j: usize = 0;
        while j < self.connections.len()
            invariant
                j <= self.connections@.len(),
                cpick == connection_of_map(id@),
                connections@ == self.connections@.subrange(0, j as int).filter(cpick),
            decreases self.connections@.len() - j,
        {
            proof {
                let before = self.connections@.subrange(0, j as int);
                assert(self.connections@.subrange(0, j + 1) =~= before.push(self.connections@[j as int]));
                before.lemma_filter_push(self.connections@[j as int], cpick);
            }
            if self.connections[j].brain_map_id == *id {
                connections.push(self.connections[j].duplicate());
            }
            j = j + 1;
        }
        assert(self.connections@.subrange(0, self.connections@.len() as int) =~= self.connections@);
        Some(BrainMapWithData { brain_map, nodes, connections })
    }

    /// Applies the fields present in `data` to the map `id` at time `now`.
    pub fn update_brain_map_at(&mut self, id: &String, data: BrainMapUpdate, now: i64) -> (r: Result<BrainMap, StoreError>)
        requires
            old(self).wf(),
        ensures
            final(self).wf(),
            map_updated(*old(self), *final(self), id@, data, now, r),
    {
        let i = match find_row(&self.brain_maps, id) {
            Some(i) => i,
            None => return Err(StoreError::NotFound),
        };
        proof {
            lemma_row_of_index(self.brain_maps@, i as int);
        }
        let ghost data0 = data;
        let cur = self.brain_maps[i].duplicate();
        let updated = BrainMap {
            id: cur.id,
            title: match data.title {
                Some(t) => t,
                None => cur.title,
            },
            description: match data.description {
                Some(t) => Some(t),
                None => cur.description,
            },
            center_node_id: match data.center_node_id {
                Some(t) => Some(t),
                None => cur.center_node_id,
            },
            center_node_text: match data.center_node_text {
                Some(t) => t,
                None => cur.center_node_text,
            },
            viewport_x: match data.viewport_x {
                Some(c) => c,
                None => cur.viewport_x,
            },
            viewport_y: match data.viewport_y {
                Some(c) => c,
                None => cur.viewport_y,
            },
            viewport_zoom: match data.viewport_zoom {
                Some(c) => c,
                None => cur.viewport_zoom,
            },
            theme: match data.theme {
                Some(t) => Some(t),
                None => cur.theme,
            },
            created_at: cur.created_at,
            updated_at: now,
            deleted_at: cur.deleted_at,
        };
        let out = updated.duplicate();
        let ghost old_maps = self.brain_maps@;
        self.brain_maps[i] = updated;
        proof {
            let maps = self.brain_maps@;
            assert(maps =~= old_maps.map_values(
                |b: BrainMap| if b.id@ == id@ { patched_map(b, data0, now) } else { b },
            )) by {
                assert forall|j: int| 0 <= j < old_maps.len() && j != i implies old_maps[j].id@ != id@ by {
                    assert(old_maps[j].key() != old_maps[i as int].key());
                }
            }
            lemma_keys_kept(old_maps, maps);
        }
        Ok(out)
    }

    /// Applies the fields present in `data` to the map `id` at the current
    /// time.
    pub fn update_brain_map(&mut self, id: &String, data: BrainMapUpdate) -> (r: Result<BrainMap, StoreError>)
        requires
            old(self).wf(),
        ensures
            final(self).wf(),
            match r {
                Ok(m) => map_updated(*old(self), *final(self), id@, data, m.updated_at, r),
                Err(_) => map_updated(*old(self), *final(self), id@, data, 0, r),
            },
    {
        let now = clock_now();
        self.update_brain_map_at(id, data, now)
    }

    /// Deletes the map `id`: with `hard` set, removes it with everything it
    /// owns; otherwise stamps it deleted at `now`. A map that is not stored
    /// is no error.
    pub fn delete_brain_map_at(&mut self, id: &String, hard: Option<bool>, now: i64)
        requires
            old(self).wf(),
        ensures
            final(self).wf(),
            map_deleted(*old(self), *final(self), id@, hard, now),
    {
        let is_hard = match hard {
            Some(b) => b,
            None => false,
        };
        if !is_hard {
            let ghost old_maps = self.brain_maps@;
            match find_row(&self.brain_maps, id) {
                Some(i) => {
                    self.brain_maps[i].deleted_at = Some(now);
                    proof {
                        assert forall|j: int| 0 <= j < old_maps.len() && j != i implies old_maps[j].id@ != id@ by {
                            assert(old_maps[j].key() != old_maps[i as int].key());
                        }
                        lemma_keys_kept(old_maps, self.brain_maps@);
                    }
                },
                None => {
                    proof {
                        assert forall|j: int| 0 <= j < old_maps.len() implies old_maps[j].id@ != id@ by {
                            assert(old_maps[j].key() != id@);
                        }
                    }
                },
            }
            proof {
                assert(self.brain_maps@ =~= old_maps.map_values(
                    |m: BrainMap| if m.id@ == id@ { BrainMap { deleted_at: Some(now), ..m } } else { m },
                ));
            }
            return;
        }
        let ghost old_db = *self;
        let ghost gone_pred = node_ids_of_map(self.nodes@, id@);
        // the identifiers of the map's nodes
        let mut gone: Vec<String> = Vec::new();
        let mut k: usize = 0;
        while k < self.nodes.len()
            invariant
                k <= self.nodes@.len(),
                forall|s: Seq<char>| #[trigger] ids_hold(gone@, s) <==> exists|i: int| 0 <= i < k && #[trigger] self.nodes@[i].id@ == s && self.nodes@[i].brain_map_id@ == id@,
            decreases self.nodes@.len() - k,
        {
            if self.nodes[k].brain_map_id == *id {
                let ghost g0 = gone@;
                gone.push(self.nodes[k].id.clone());
                proof {
                    assert forall|s: Seq<char>| ids_hold(gone@, s) <==> exists|i: int| 0 <= i < k + 1 && #[trigger] self.nodes@[i].id@ == s && self.nodes@[i].brain_map_id@ == id@ by {
                        if ids_hold(gone@, s) {
                            let w = choose|w: int| 0 <= w < gone@.len() && #[trigger] gone@[w]@ == s;
                            if w < g0.len() {
                                assert(g0[w]@ == s);
                                assert(ids_hold(g0, s));
                            }
                        }
                        if exists|i: int| 0 <= i < k + 1 && #[trigger] self.nodes@[i].id@ == s && self.nodes@[i].brain_map_id@ == id@ {
                            let i = choose|i: int| 0 <= i < k + 1 && #[trigger] self.nodes@[i].id@ == s && self.nodes@[i].brain_map_id@ == id@;
                            if i < k {
                                assert(exists|i2: int| 0 <= i2 < k && #[trigger] self.nodes@[i2].id@ == s && self.nodes@[i2].brain_map_id@ == id@);
                                assert(ids_hold(g0, s));
                                let w = choose|w: int| 0 <= w < g0.len() && #[trigger] g0[w]@ == s;
                                assert(gone@[w]@ == s);
                            } else {
                                assert(gone@[g0.len() as int]@ == s);
                            }
                        }
                    }
                }
            }
            k = k + 1;
        }
        // the connections of the map
        let ghost cpick = connection_outside_map(id@);
        let mut old_conns: Vec<BrainMapConnection> = Vec::new();
        std::mem::swap(&mut self.connections, &mut old_conns);
        let mut j: usize = 0;
        while j < old_conns.len()
            invariant
                j <= old_conns@.len(),
                cpick == connection_outside_map(id@),
                self.connections@ == old_conns@.subrange(0, j as int).filter(cpick),
                self.brain_maps == old_db.brain_maps,
                self.nodes == old_db.nodes,
                old_conns == old_db.connections,
                flat_tables_kept(old_db, *self),
            decreases old_conns@.len() - j,
        {
            proof {
                let before = old_conns@.subrange(0, j as int);
                assert(old_conns@.subrange(0, j + 1) =~= before.push(old_conns@[j as int]));
                before.lemma_filter_push(old_conns@[j as int], cpick);
            }
            if !(old_conns[j].brain_map_id == *id) {
                self.connections.push(old_conns[j].duplicate());
            }
            j = j + 1;
        }
        proof {
            broadcast use vstd::seq_lib::group_filter_ensures;
            assert(old_conns@.subrange(0, old_conns@.len() as int) =~= old_conns@);
            lemma_filter_keys(old_conns@, cpick);
            let conns = self.connections@;
            assert forall|i: int| #![trigger conns[i]] 0 <= i < conns.len() implies {
                &&& has_key(self.brain_maps@, conns[i].brain_map_id@)
                &&& has_key(self.nodes@, conns[i].source_node_id@)
                &&& has_key(self.nodes@, conns[i].target_node_id@)
            } by {
                assert(conns.contains(conns[i]));
                old_conns@.lemma_filter_contains_rev(cpick, conns[i]);
            }
            assert forall|s: Seq<char>| #[trigger] gone_pred(s) == ids_hold(gone@, s) by {}
        }
        // the nodes of the map, with what touches them
        self.remove_nodes(&gone, Ghost(gone_pred));
        // the map itself
        let ghost mpick = |m: BrainMap| m.id@ != id@;
        let ghost old_maps = self.brain_maps@;
        match find_row(&self.brain_maps, id) {
            Some(i) => {
                self.brain_maps.remove(i);
                proof {
                    lemma_remove_is_filter(old_maps, i as int);
                    assert(key_other_than::<BrainMap>(id@) =~= mpick);
                }
            },
            None => {
                proof {
                    assert forall|j: int| 0 <= j < old_maps.len() implies mpick(#[trigger] old_maps[j]) by {
                        assert(old_maps[j].key() != id@);
                    }
                    lemma_filter_all(old_maps, mpick);
                }
            },
        }
        proof {
            broadcast use vstd::seq_lib::group_filter_ensures;
            lemma_filter_keys(old_maps, mpick);
            let maps = self.brain_maps@;
            let nodes = self.nodes@;
            let f = old_db.nodes@.filter(node_survives(gone_pred));
            assert forall|i: int| 0 <= i < nodes.len() implies has_key(maps, #[trigger] nodes[i].brain_map_id@) by {
                assert(nodes[i] == unlink_with(gone_pred)(f[i]));
                assert(f.contains(f[i]));
                old_db.nodes@.lemma_filter_contains_rev(node_survives(gone_pred), f[i]);
                let q = choose|q: int| 0 <= q < old_db.nodes@.len() && old_db.nodes@[q] == f[i];
                assert(has_key(old_maps, f[i].brain_map_id@));
                assert(!gone_pred(f[i].id@));
                assert(f[i].brain_map_id@ != id@);
                let w = choose|w: int| 0 <= w < old_maps.len() && #[trigger] old_maps[w].key() == f[i].brain_map_id@;
                assert(mpick(old_maps[w]));
            }
            let conns = self.connections@;
            let c1 = old_conns@.filter(cpick);
            assert forall|i: int| #![trigger conns[i]] 0 <= i < conns.len() implies has_key(maps, conns[i].brain_map_id@) by {
                assert(conns.contains(conns[i]));
                c1.lemma_filter_contains_rev(connection_survives(gone_pred), conns[i]);
                let q = choose|q: int| 0 <= q < c1.len() && c1[q] == conns[i];
                assert(c1.contains(c1[q]));
                old_conns@.lemma_filter_contains_rev(cpick, c1[q]);
                let w = choose|w: int| 0 <= w < old_maps.len() && #[trigger] old_maps[w].key() == conns[i].brain_map_id@;
                assert(mpick(old_maps[w]));
            }
        }
    }

    /// Deletes the map `id` as `delete_brain_map_at` does, at the current time.
    pub fn delete_brain_map(&mut self, id: &String, hard: Option<bool>)
        requires
            old(self).wf(),
        ensures
            final(self).wf(),
            exists|now: i64| #[trigger] map_deleted(*old(self), *final(self), id@, hard, now),
    {
        let now = clock_now();
        self.delete_brain_map_at(id, hard, now);
    }
}

} // verus!
