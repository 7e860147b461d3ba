use vstd::prelude::*;
use crate::models::{BrainMapConnection, BrainMapConnectionCreate};
use crate::maps::text_or;
use crate::record::{
    find_row, has_key, key_other_than, lemma_filter_all, lemma_filter_keys, lemma_push_keys,
    lemma_remove_is_filter, lemma_key_with_prefix, some_key_starts_with, Record,
};
use crate::sources::{clock_now, new_id, starts_with};
use crate::store::{flat_tables_kept, touched, Database, StoreError};

verus! {

/// Why creating a connection from `data` fails because of what it refers
/// to, if it does: its map and both its nodes must be stored.
pub open spec fn connection_reference_error(db: Database, data: BrainMapConnectionCreate) -> Option<StoreError> {
    if !has_key(db.brain_maps@, data.brain_map_id@) || !has_key(db.nodes@, data.source_node_id@)
        || !has_key(db.nodes@, data.target_node_id@) {
        Some(StoreError::MissingReference)
    } else {
        None
    }
}

/// Why creating a connection from `data` under identifier `id` fails, if it
/// does.
pub open spec fn connection_create_error(db: Database, data: BrainMapConnectionCreate, id: Seq<char>) -> Option<StoreError> {
    if has_key(db.connections@, id) {
        Some(StoreError::DuplicateKey)
    } else {
        connection_reference_error(db, data)
    }
}

/// `c` is the connection that creation from `data` stores under `id` at
/// time `now`: style "solid" and not animated unless given.
pub open spec fn is_new_connection(c: BrainMapConnection, data: BrainMapConnectionCreate, id: Seq<char>, now: i64) -> bool {
    &&& c.id@ == id
    &&& c.brain_map_id == data.brain_map_id
    &&& c.source_node_id == data.source_node_id
    &&& c.target_node_id == data.target_node_id
    &&& c.label == data.label
    &&& c.color == data.color
    &&& c.style.is_some() && c.style.unwrap()@ == text_or(data.style, "solid"@)
    &&& c.animated == (match data.animated { Some(b) => b, None => false })
    &&& c.created_at == now
}

/// What `create_brain_map_connection_at(data, id, now)` does to `old`,
/// giving `new` and `r`.
pub open spec fn connection_created(
    old: Database,
    new: Database,
    data: BrainMapConnectionCreate,
    id: Seq<char>,
    now: i64,
    r: Result<BrainMapConnection, StoreError>,
) -> bool {
    match r {
        Ok(c) => {
            &&& connection_create_error(old, data, id).is_none()
            &&& is_new_connection(c, data, id, now)
            &&& new.connections@ == old.connections@.push(c)
            &&& touched(old.brain_maps@, new.brain_maps@, data.brain_map_id@, now)
            &&& new.nodes == old.nodes
            &&& flat_tables_kept(old, new)
        },
        Err(e) => {
            &&& connection_create_error(old, data, id) == Some(e)
            &&& new == old
        },
    }
}

/// What `delete_brain_map_connection(id)` does to `old`, giving `new`: the
/// connection goes, and no map is touched.
pub open spec fn connection_deleted(old: Database, new: Database, id: Seq<char>) -> bool {
    &&& new.connections@ == old.connections@.filter(|c: BrainMapConnection| c.id@ != id)
    &&& new.brain_maps == old.brain_maps
    &&& new.nodes == old.nodes
    &&& flat_tables_kept(old, new)
}

impl Database {
    /// Creates a connection from `data` with identifier `id` at time `now`
    /// and touches its map.
    pub fn create_brain_map_connection_at(&mut self, data: BrainMapConnectionCreate, id: String, now: i64) -> (r: Result<BrainMapConnection, StoreError>)
        requires
            old(self).wf(),
        ensures
            final(self).wf(),
            connection_created(*old(self), *final(self), data, id@, now, r),
    {
        if find_row(&self.connections, &id).is_some() {
            return Err(StoreError::DuplicateKey);
        }
        if find_row(&self.brain_maps, &data.brain_map_id).is_none()
            || find_row(&self.nodes, &data.source_node_id).is_none()
            || find_row(&self.nodes, &data.target_node_id).is_none() {
            return Err(StoreError::MissingReference);
        }
        let conn = BrainMapConnection {
            id: id,
            brain_map_id: data.brain_map_id,
            source_node_id: data.source_node_id,
            target_node_id: data.target_node_id,
            label: data.label,
            color: data.color,
            style: match data.style {
                Some(t) => Some(t),
                None => Some("solid".to_owned()),
            },
            animated: match data.animated {
                Some(b) => b,
                None => false,
            },
            created_at: now,
        };
        let out = conn.duplicate();
        let map_id = conn.brain_map_id.clone();
        let ghost old_conns = self.connections@;
        self.connections.push(conn);
        proof {
            lemma_push_keys(old_conns, out);
        }
        self.touch_map(&map_id, now);
        Ok(out)
    }

    /// Creates a connection from `data` with a fresh identifier at the
    /// current time.
    pub fn create_brain_map_connection(&mut self, data: BrainMapConnectionCreate) -> (r: Result<BrainMapConnection, StoreError>)
        requires
            old(self).wf(),
        ensures
            final(self).wf(),
            match r {
                Ok(c) => starts_with(c.id@, "conn_"@) && connection_created(*old(self), *final(self), data, c.id@, c.created_at, r),
                Err(e) => {
                    &&& *final(self) == *old(self)
                    &&& (e == StoreError::DuplicateKey && some_key_starts_with(old(self).connections@, "conn_"@))
                        || Some(e) == connection_reference_error(*old(self), data)
                },
            },
            connection_reference_error(*old(self), data).is_some() ==> r.is_err(),
    {
        let now = clock_now();
        let id = new_id("conn_");
        let ghost k = id@;
        let r = self.create_brain_map_connection_at(data, id, now);
        proof {
            if r is Err && r->Err_0 == StoreError::DuplicateKey {
                lemma_key_with_prefix(old(self).connections@, k, "conn_"@);
            }
        }
        r
    }

    /// Deletes the connection `id`, if it is stored. The owning map is not
    /// touched.
    pub fn delete_brain_map_connection(&mut self, id: &String)
        requires
            old(self).wf(),
        ensures
            final(self).wf(),
            connection_deleted(*old(self), *final(self), id@),
    {
        let ghost pick = |c: BrainMapConnection| c.id@ != id@;
        let ghost old_conns = self.connections@;
        match find_row(&self.connections, id) {
            Some(i) => {
                self.connections.remove(i);
                proof {
                    lemma_remove_is_filter(old_conns, i as int);
                    assert(key_other_than::<BrainMapConnection>(id@) =~= pick);
                }
            },
            None => {
                proof {
                    assert forall|j: int| 0 <= j < old_conns.len() implies pick(#[trigger] old_conns[j]) by {
                        assert(old_conns[j].key() != id@);
                    }
                    lemma_filter_all(old_conns, pick);
                }
            },
        }
        proof {
            lemma_filter_keys(old_conns, pick);
            let conns = self.connections@;
            assert forall|j: int| #![trigger conns[j]] 0 <= j < conns.len() implies {
                &&& has_key(self.brain_maps@, conns[j].brain_map_id@)
                &&& has_key(self.nodes@, conns[j].source_node_id@)
                &&& has_key(self.nodes@, conns[j].target_node_id@)
            } by {
                broadcast use vstd::seq_lib::group_filter_ensures;
                assert(conns.contains(conns[j]));
                old_conns.lemma_filter_contains_rev(pick, conns[j]);
            }
        }
    }
}

} // verus!
