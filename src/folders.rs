use vstd::prelude::*;
use crate::models::{BrainMapNode, Folder, FolderCreate, FolderUpdate, Note, Setting};
use crate::nodes::lemma_nodes_rewritten;
use crate::record::{find_row, has_key, is_listing, key_other_than, lemma_filter_all, lemma_filter_keys,
    lemma_keys_kept, lemma_push_keys, lemma_remove_is_filter, lemma_row_of_index, list_rows, row_of,
    lemma_key_with_prefix, some_key_starts_with, Record,
};
use crate::sources::{clock_now, new_id, starts_with};
use crate::store::{Database, StoreError};

verus! {

/// Every folder is listed.
pub open spec fn folder_listed() -> spec_fn(Folder) -> bool {
    |f: Folder| true
}

/// `f` is the folder that creation from `data` stores under `id` at time
/// `now`.
pub open spec fn is_new_folder(f: Folder, data: FolderCreate, id: Seq<char>, now: i64) -> bool {
    &&& f.id@ == id
    &&& f.name == data.name
    &&& f.parent_id == data.parent_id
    &&& f.color == data.color
    &&& f.icon == data.icon
    &&& f.created_at == now
    &&& f.updated_at == now
}

/// `f` with the fields present in `p` replaced, and updated at `now`.
pub open spec fn patched_folder(f: Folder, p: FolderUpdate, now: i64) -> Folder {
    Folder {
        id: f.id,
        name: match p.name { Some(t) => t, None => f.name },
        parent_id: match p.parent_id { Some(t) => Some(t), None => f.parent_id },
        color: match p.color { Some(t) => Some(t), None => f.color },
        icon: match p.icon { Some(t) => Some(t), None => f.icon },
        created_at: f.created_at,
        updated_at: now,
    }
}

/// Only the folders table differs between `old` and `new`.
pub open spec fn only_folders_changed(old: Database, new: Database) -> bool {
    &&& new.notes == old.notes
    &&& new.events == old.events
    &&& new.brain_maps == old.brain_maps
    &&& new.nodes == old.nodes
    &&& new.connections == old.connections
    &&& new.settings == old.settings
}

/// What `update_folder_at(id, p, now)` does to `old`, giving `new` and `r`.
pub open spec fn folder_updated(old: Database, new: Database, id: Seq<char>, p: FolderUpdate, now: i64, r: Result<Folder, StoreError>) -> bool {
    &&& only_folders_changed(old, new)
    &&& match r {
        Ok(f) => {
            &&& has_key(old.folders@, id)
            &&& f == patched_folder(row_of(old.folders@, id).unwrap(), p, now)
            &&& new.folders@ == old.folders@.map_values(
                |g: Folder| if g.id@ == id { patched_folder(g, p, now) } else { g },
            )
        },
        Err(e) => e == StoreError::NotFound && !has_key(old.folders@, id) && new == old,
    }
}

/// `o` holds the text `id`.
pub open spec fn refers_to(o: Option<String>, id: Seq<char>) -> bool {
    o.is_some() && o.unwrap()@ == id
}

/// What `delete_folder(id)` does to `old`, giving `new`: its notes move to
/// no folder, its subfolders and the nodes linked to it lose the reference,
/// and the folder is removed.
pub open spec fn folder_deleted(old: Database, new: Database, id: Seq<char>) -> bool {
    &&& new.notes@ == old.notes@.map_values(
        |n: Note| if refers_to(n.folder_id, id) { Note { folder_id: None, ..n } } else { n },
    )
    &&& new.folders@ == old.folders@.filter(|f: Folder| f.id@ != id).map_values(
        |f: Folder| if refers_to(f.parent_id, id) { Folder { parent_id: None, ..f } } else { f },
    )
    &&& new.nodes@ == old.nodes@.map_values(
        |n: BrainMapNode| if refers_to(n.linked_folder_id, id) {
            BrainMapNode { linked_folder_id: None, ..n }
        } else {
            n
        },
    )
    &&& new.events == old.events
    &&& new.brain_maps == old.brain_maps
    &&& new.connections == old.connections
    &&& new.settings == old.settings
}

/// What `set_setting(key, value)` does to the settings `old`, giving `new`.
pub open spec fn setting_stored(old: Seq<Setting>, new: Seq<Setting>, key: String, value: String) -> bool {
    if has_key(old, key@) {
        new == old.map_values(|s: Setting| if s.key@ == key@ { Setting { value: value, ..s } } else { s })
    } else {
        new == old.push(Setting { key: key, value: value })
    }
}

impl Database {
    /// All folders, by name.
    pub fn get_folders(&self) -> (r: Vec<Folder>)
        requires
            self.wf(),
        ensures
            is_listing(self.folders@, r@, folder_listed()),
    {
        let ghost pick = folder_listed();
        let mut cand: Vec<usize> = Vec::new();
        let mut k: usize = 0;
        while k < self.folders.len()
            invariant
                k <= self.folders@.len(),
                pick == folder_listed(),
                cand@.len() == k,
                forall|j: int| 0 <= j < k ==> #[trigger] cand@[j] == j,
            decreases self.folders@.len() - k,
        {
            cand.push(k);
            k = k + 1;
        }
        proof {
            assert forall|q: int| 0 <= q < self.folders@.len() && pick(#[trigger] self.folders@[q]) implies exists|j: int| 0 <= j < cand@.len() && cand@[j] as int == q by {
                assert(cand@[q] as int == q);
            }
        }
        list_rows(&self.folders, &cand, Ghost(pick))
    }

    /// Creates a folder from `data` with identifier `id` at time `now`.
    pub fn create_folder_at(&mut self, data: FolderCreate, id: String, now: i64) -> (r: Result<Folder, StoreError>)
        requires
            old(self).wf(),
        ensures
            final(self).wf(),
            only_folders_changed(*old(self), *final(self)),
            match r {
                Ok(f) => {
                    &&& !has_key(old(self).folders@, id@)
                    &&& is_new_folder(f, data, id@, now)
                    &&& final(self).folders@ == old(self).folders@.push(f)
                },
                Err(e) => e == StoreError::DuplicateKey && has_key(old(self).folders@, id@) && *final(self) == *old(self),
            },
    {
        if find_row(&self.folders, &id).is_some() {
            return Err(StoreError::DuplicateKey);
        }
        let folder = Folder {
            id: id,
            name: data.name,
            parent_id: data.parent_id,
            color: data.color,
            icon: data.icon,
            created_at: now,
            updated_at: now,
        };
        let out = folder.duplicate();
        let ghost old_folders = self.folders@;
        self.folders.push(folder);
        proof {
            lemma_push_keys(old_folders, out);
        }
        Ok(out)
    }

    /// Creates a folder from `data` with a fresh identifier at the current
    /// time.
    pub fn create_folder(&mut self, data: FolderCreate) -> (r: Result<Folder, StoreError>)
        requires
            old(self).wf(),
        ensures
            final(self).wf(),
            only_folders_changed(*old(self), *final(self)),
            match r {
                Ok(f) => {
                    &&& starts_with(f.id@, "folder_"@)
                    &&& !has_key(old(self).folders@, f.id@)
                    &&& is_new_folder(f, data, f.id@, f.created_at)
                    &&& final(self).folders@ == old(self).folders@.push(f)
                },
                Err(e) => {
                    &&& e == StoreError::DuplicateKey
                    &&& *final(self) == *old(self)
                    &&& some_key_starts_with(old(self).folders@, "folder_"@)
                },
            },
    {
        let now = clock_now();
        let id = new_id("folder_");
        let ghost k = id@;
        let r = self.create_folder_at(data, id, now);
        proof {
            if r is Err && r->Err_0 == StoreError::DuplicateKey {
                lemma_key_with_prefix(old(self).folders@, k, "folder_"@);
            }
        }
        r
    }

    /// Applies the fields present in `data` to the folder `id` at time `now`.
    pub fn update_folder_at(&mut self, id: &String, data: FolderUpdate, now: i64) -> (r: Result<Folder, StoreError>)
        requires
            old(self).wf(),
        ensures
            final(self).wf(),
            folder_updated(*old(self), *final(self), id@, data, now, r),
    {
        let i = match find_row(&self.folders, id) {
            Some(i) => i,
            None => return Err(StoreError::NotFound),
        };
        proof {
            lemma_row_of_index(self.folders@, i as int);
        }
        let ghost data0 = data;
        let cur = self.folders[i].duplicate();
        let updated = Folder {
            id: cur.id,
            name: match data.name {
                Some(t) => t,
                None => cur.name,
            },
            parent_id: match data.parent_id {
                Some(t) => Some(t),
                None => cur.parent_id,
            },
            color: match data.color {
                Some(t) => Some(t),
                None => cur.color,
            },
            icon: match data.icon {
                Some(t) => Some(t),
                None => cur.icon,
            },
            created_at: cur.created_at,
            updated_at: now,
        };
        let out = updated.duplicate();
        let ghost old_folders = self.folders@;
        self.folders[i] = updated;
        proof {
            let folders = self.folders@;
            assert(folders =~= old_folders.map_values(
                |g: Folder| if g.id@ == id@ { patched_folder(g, data0, now) } else { g },
            )) by {
                assert forall|j: int| 0 <= j < old_folders.len() && j != i implies old_folders[j].id@ != id@ by {
                    assert(old_folders[j].key() != old_folders[i as int].key());
                }
            }
            lemma_keys_kept(old_folders, folders);
        }
        Ok(out)
    }

    /// Applies the fields present in `data` to the folder `id` at the current
    /// time.
    pub fn update_folder(&mut self, id: &String, data: FolderUpdate) -> (r: Result<Folder, StoreError>)
        requires
            old(self).wf(),
        ensures
            final(self).wf(),
            match r {
                Ok(f) => folder_updated(*old(self), *final(self), id@, data, f.updated_at, r),
                Err(_) => folder_updated(*old(self), *final(self), id@, data, 0, r),
            },
    {
        let now = clock_now();
        self.update_folder_at(id, data, now)
    }

    /// Deletes the folder `id`; its notes move to no folder. A folder that is
    /// not stored is no error.
    pub fn delete_folder(&mut self, id: &String)
        requires
            old(self).wf(),
        ensures
            final(self).wf(),
            folder_deleted(*old(self), *final(self), id@),
    {
        let ghost old_notes = self.notes@;
        let mut k: usize = 0;
        while k < self.notes.len()
            invariant
                k <= self.notes@.len(),
                self.notes@.len() == old_notes.len(),
                old_notes == old(self).notes@,
                self.folders == old(self).folders,
                self.nodes == old(self).nodes,
                self.events == old(self).events,
                self.brain_maps == old(self).brain_maps,
                self.connections == old(self).connections,
                self.settings == old(self).settings,
                forall|j: int| 0 <= j < k ==> #[trigger] self.notes@[j] == (if refers_to(old_notes[j].folder_id, id@) {
                    Note { folder_id: None, ..old_notes[j] }
                } else {
                    old_notes[j]
                }),
                forall|j: int| k <= j < old_notes.len() ==> #[trigger] self.notes@[j] == old_notes[j],
            decreases self.notes@.len() - k,
        {
            let hit = match &self.notes[k].folder_id {
                Some(f) => *f == *id,
                None => false,
            };
            if hit {
                self.notes[k].folder_id = None;
            }
            k = k + 1;
        }
        proof {
            assert(self.notes@ =~= old_notes.map_values(
                |n: Note| if refers_to(n.folder_id, id@) { Note { folder_id: None, ..n } } else { n },
            ));
            assert forall|j: int| 0 <= j < old_notes.len() implies #[trigger] self.notes@[j].key() == old_notes[j].key() by {}
            lemma_keys_kept(old_notes, self.notes@);
        }
        let ghost old_folders = self.folders@;
        let ghost pick = |f: Folder| f.id@ != id@;
        match find_row(&self.folders, id) {
            Some(i) => {
                self.folders.remove(i);
                proof {
                    lemma_remove_is_filter(old_folders, i as int);
                    assert(key_other_than::<Folder>(id@) =~= pick);
                }
            },
            None => {
                proof {
                    assert forall|j: int| 0 <= j < old_folders.len() implies pick(#[trigger] old_folders[j]) by {
                        assert(old_folders[j].key() != id@);
                    }
                    lemma_filter_all(old_folders, pick);
                }
            },
        }
        let ghost kept = self.folders@;
        proof {
            lemma_filter_keys(old_folders, pick);
        }
        let mut k: usize = 0;
        while k < self.folders.len()
            invariant
                k <= self.folders@.len(),
                self.folders@.len() == kept.len(),
                kept == old_folders.filter(pick),
                self.notes@ == old_notes.map_values(
                    |n: Note| if refers_to(n.folder_id, id@) { Note { folder_id: None, ..n } } else { n },
                ),
                self.nodes == old(self).nodes,
                self.events == old(self).events,
                self.brain_maps == old(self).brain_maps,
                self.connections == old(self).connections,
                self.settings == old(self).settings,
                forall|j: int| 0 <= j < k ==> #[trigger] self.folders@[j] == (if refers_to(kept[j].parent_id, id@) {
                    Folder { parent_id: None, ..kept[j] }
                } else {
                    kept[j]
                }),
                forall|j: int| k <= j < kept.len() ==> #[trigger] self.folders@[j] == kept[j],
            decreases self.folders@.len() - k,
        {
            let hit = match &self.folders[k].parent_id {
                Some(p) => *p == *id,
                None => false,
            };
            if hit {
                self.folders[k].parent_id = None;
            }
            k = k + 1;
        }
        proof {
            assert(self.folders@ =~= kept.map_values(
                |f: Folder| if refers_to(f.parent_id, id@) { Folder { parent_id: None, ..f } } else { f },
            ));
            assert forall|j: int| 0 <= j < kept.len() implies #[trigger] self.folders@[j].key() == kept[j].key() by {}
            lemma_keys_kept(kept, self.folders@);
        }
        let ghost old_nodes = self.nodes@;
        let ghost folders_now = self.folders@;
        let mut k: usize = 0;
        while k < self.nodes.len()
            invariant
                k <= self.nodes@.len(),
                self.nodes@.len() == old_nodes.len(),
                old_nodes == old(self).nodes@,
                self.folders@ == folders_now,
                self.notes@ == old_notes.map_values(
                    |n: Note| if refers_to(n.folder_id, id@) { Note { folder_id: None, ..n } } else { n },
                ),
                self.events == old(self).events,
                self.brain_maps == old(self).brain_maps,
                self.connections == old(self).connections,
                self.settings == old(self).settings,
                forall|j: int| 0 <= j < k ==> #[trigger] self.nodes@[j] == (if refers_to(old_nodes[j].linked_folder_id, id@) {
                    BrainMapNode { linked_folder_id: None, ..old_nodes[j] }
                } else {
                    old_nodes[j]
                }),
                forall|j: int| k <= j < old_nodes.len() ==> #[trigger] self.nodes@[j] == old_nodes[j],
            decreases self.nodes@.len() - k,
        {
            let hit = match &self.nodes[k].linked_folder_id {
                Some(f) => *f == *id,
                None => false,
            };
            if hit {
                self.nodes[k].linked_folder_id = None;
            }
            k = k + 1;
        }
        proof {
            assert(self.nodes@ =~= old_nodes.map_values(
                |n: BrainMapNode| if refers_to(n.linked_folder_id, id@) {
                    BrainMapNode { linked_folder_id: None, ..n }
                } else {
                    n
                },
            ));
            lemma_nodes_rewritten(self.brain_maps@, old_nodes, self.nodes@, self.connections@);
        }
    }

    /// The value stored under `key`.
    pub fn get_setting(&self, key: &String) -> (r: Option<String>)
        requires
            self.wf(),
        ensures
            r.is_some() == has_key(self.settings@, key@),
            r matches Some(v) ==> v == row_of(self.settings@, key@).unwrap().value,
    {
        match find_row(&self.settings, key) {
            Some(i) => {
                proof {
                    lemma_row_of_index(self.settings@, i as int);
                }
                Some(self.settings[i].value.clone())
            },
            None => None,
        }
    }

    /// Stores `value` under `key`, replacing any value stored there.
    pub fn set_setting(&mut self, key: String, value: String)
        requires
            old(self).wf(),
        ensures
            final(self).wf(),
            setting_stored(old(self).settings@, final(self).settings@, key, value),
            final(self).notes == old(self).notes,
            final(self).folders == old(self).folders,
            final(self).events == old(self).events,
            final(self).brain_maps == old(self).brain_maps,
            final(self).nodes == old(self).nodes,
            final(self).connections == old(self).connections,
    {
        let ghost old_settings = self.settings@;
        match find_row(&self.settings, &key) {
            Some(i) => {
                self.settings[i].value = value;
                proof {
                    assert forall|j: int| 0 <= j < old_settings.len() && j != i implies old_settings[j].key@ != key@ by {
                        assert(old_settings[j].key() != old_settings[i as int].key());
                    }
                    assert(self.settings@ =~= old_settings.map_values(
                        |s: Setting| if s.key@ == key@ { Setting { value: value, ..s } } else { s },
                    ));
                    lemma_keys_kept(old_settings, self.settings@);
                }
            },
            None => {
                let ghost s = Setting { key: key, value: value };
                self.settings.push(Setting { key, value });
                proof {
                    lemma_push_keys(old_settings, s);
                }
            },
        }
    }
}

} // verus!
