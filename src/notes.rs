use vstd::prelude::*;
use crate::maps::text_or;
use crate::models::{BrainMapNode, Note, NoteCreate, NoteUpdate};
use crate::nodes::{holds_id, ids_hold, lemma_nodes_rewritten};
use crate::record::{
    fetch_row, find_row, has_key, is_listing, key_other_than, lemma_filter_all, lemma_filter_keys,
    lemma_keys_kept, lemma_push_keys, lemma_remove_is_filter, lemma_row_of_index, list_rows, row_of,
    lemma_key_with_prefix, some_key_starts_with, Record,
};
use crate::sources::{clock_now, new_id, starts_with};
use crate::store::{Database, StoreError};

verus! {

/// A note is listed while it is not soft-deleted and, when `folder` is
/// given, while it is in that folder.
pub open spec fn note_listed(folder: Option<String>) -> spec_fn(Note) -> bool {
    |n: Note|
        n.deleted_at.is_none() && match folder {
            Some(f) => n.folder_id.is_some() && n.folder_id.unwrap()@ == f@,
            None => true,
        }
}

/// The tags as given, or none.
pub open spec fn tags_or_empty(tags: Option<Vec<String>>) -> Seq<String> {
    match tags {
        Some(t) => t@,
        None => Seq::empty(),
    }
}

/// `n` is the note that creation from `data` stores under `id` at time
/// `now`.
pub open spec fn is_new_note(n: Note, data: NoteCreate, id: Seq<char>, now: i64) -> bool {
    &&& n.id@ == id
    &&& n.title@ == text_or(data.title, Seq::empty())
    &&& n.content@ == text_or(data.content, Seq::empty())
    &&& n.folder_id == data.folder_id
    &&& n.tags@ == tags_or_empty(data.tags)
    &&& !n.is_pinned
    &&& n.created_at == now
    &&& n.updated_at == now
    &&& n.deleted_at.is_none()
}

/// What `create_note_at(data, id, now)` does to `old`, giving `new` and `r`.
pub open spec fn note_created(old: Database, new: Database, data: NoteCreate, id: Seq<char>, now: i64, r: Result<Note, StoreError>) -> bool {
    &&& only_notes_changed(old, new)
    &&& match r {
        Ok(n) => {
            &&& !has_key(old.notes@, id)
            &&& is_new_note(n, data, id, now)
            &&& new.notes@.len() == old.notes@.len() + 1
            &&& new.notes@.drop_last() == old.notes@
            &&& new.notes@.last().same(&n)
        },
        Err(e) => e == StoreError::DuplicateKey && has_key(old.notes@, id) && new == old,
    }
}

/// `n` with the fields present in `p` replaced, and updated at `now`.
pub open spec fn patched_note(n: Note, p: NoteUpdate, now: i64) -> Note {
    Note {
        id: n.id,
        title: match p.title { Some(t) => t, None => n.title },
        content: match p.content { Some(t) => t, None => n.content },
        folder_id: match p.folder_id { Some(t) => Some(t), None => n.folder_id },
        tags: match p.tags { Some(t) => t, None => n.tags },
        is_pinned: match p.is_pinned { Some(b) => b, None => n.is_pinned },
        created_at: n.created_at,
        updated_at: now,
        deleted_at: n.deleted_at,
    }
}

/// Only the notes table differs between `old` and `new`.
pub open spec fn only_notes_changed(old: Database, new: Database) -> bool {
    &&& new.folders == old.folders
    &&& new.events == old.events
    &&& new.brain_maps == old.brain_maps
    &&& new.nodes == old.nodes
    &&& new.connections == old.connections
    &&& new.settings == old.settings
}

/// What `update_note_at(id, p, now)` does to `old`, giving `new` and `r`.
pub open spec fn note_updated(old: Database, new: Database, id: Seq<char>, p: NoteUpdate, now: i64, r: Result<Note, StoreError>) -> bool {
    &&& only_notes_changed(old, new)
    &&& match r {
        Ok(n) => {
            &&& has_key(old.notes@, id)
            &&& n.same(&patched_note(row_of(old.notes@, id).unwrap(), p, now))
            &&& new.notes@.len() == old.notes@.len()
            &&& forall|i: int| 0 <= i < old.notes@.len() ==> (#[trigger] new.notes@[i]).same(
                &(if old.notes@[i].id@ == id { patched_note(old.notes@[i], p, now) } else { old.notes@[i] }),
            )
        },
        Err(e) => e == StoreError::NotFound && !has_key(old.notes@, id) && new == old,
    }
}

/// What `delete_note_at(id, hard, now)` does to `old`, giving `new`: a soft
/// delete stamps the note; a hard delete removes it and clears the links of
/// nodes to it.
pub open spec fn note_deleted(old: Database, new: Database, id: Seq<char>, hard: Option<bool>, now: i64) -> bool {
    &&& new.folders == old.folders
    &&& new.events == old.events
    &&& new.brain_maps == old.brain_maps
    &&& new.connections == old.connections
    &&& new.settings == old.settings
    &&& if hard == Some(true) {
        &&& new.notes@ == old.notes@.filter(|n: Note| n.id@ != id)
        &&& new.nodes@ == old.nodes@.map_values(
            |n: BrainMapNode| if n.linked_note_id.is_some() && n.linked_note_id.unwrap()@ == id {
                BrainMapNode { linked_note_id: None, ..n }
            } else {
                n
            },
        )
    } else {
        &&& new.notes@ == old.notes@.map_values(
            |n: Note| if n.id@ == id { Note { deleted_at: Some(now), ..n } } else { n },
        )
        &&& new.nodes == old.nodes
    }
}

/// The notes after moving those listed in `ids` to `folder` at time `now`.
pub open spec fn notes_moved(notes: Seq<Note>, ids: Seq<String>, folder: Option<String>, now: i64) -> Seq<Note> {
    notes.map_values(
        |n: Note| if ids_hold(ids, n.id@) { Note { folder_id: folder, updated_at: now, ..n } } else { n },
    )
}

impl Database {
    /// The notes that are not soft-deleted, of the folder `folder_id` when
    /// it is given; pinned first, then most recently updated first.
    pub fn get_notes(&self, folder_id: Option<String>) -> (r: Vec<Note>)
        requires
            self.wf(),
        ensures
            is_listing(self.notes@, r@, note_listed(folder_id)),
    {
        let ghost pick = note_listed(folder_id);
        let mut cand: Vec<usize> = Vec::new();
        let mut k: usize = 0;
        while k < self.notes.len()
            invariant
                k <= self.notes@.len(),
                pick == note_listed(folder_id),
                forall|j: int| 0 <= j < cand@.len() ==> #[trigger] cand@[j] < k,
                forall|a: int, b: int| 0 <= a < b < cand@.len() ==> #[trigger] cand@[a] < #[trigger] cand@[b],
                forall|j: int| 0 <= j < cand@.len() ==> pick(#[trigger] self.notes@[cand@[j] as int]),
                forall|q: int| 0 <= q < k && pick(#[trigger] self.notes@[q]) ==> exists|j: int| 0 <= j < cand@.len() && cand@[j] as int == q,
            decreases self.notes@.len() - k,
        {
            let n = &self.notes[k];
            let in_folder = match &folder_id {
                Some(f) => match &n.folder_id {
                    Some(g) => *g == *f,
                    None => false,
                },
                None => true,
            };
            if n.deleted_at.is_none() && in_folder {
                let ghost c0 = cand@;
                cand.push(k);
                proof {
                    assert forall|q: int| 0 <= q < k + 1 && pick(#[trigger] self.notes@[q]) implies exists|j: int| 0 <= j < cand@.len() && cand@[j] as int == q by {
                        if q < k {
                            let j = choose|j: int| 0 <= j < c0.len() && c0[j] as int == q;
                            assert(cand@[j] as int == q);
                        } else {
                            assert(cand@[c0.len() as int] as int == q);
                        }
                    }
                }
            }
            k = k + 1;
        }
        list_rows(&self.notes, &cand, Ghost(pick))
    }

    /// The note `id`, soft-deleted or not.
    pub fn get_note(&self, id: &String) -> (r: Option<Note>)
        requires
            self.wf(),
        ensures
            r.is_some() == has_key(self.notes@, id@),
            r matches Some(n) ==> n.same(&row_of(self.notes@, id@).unwrap()),
    {
        fetch_row(&self.notes, id)
    }

    /// Creates a note from `data` with identifier `id` at time `now`.
    pub fn create_note_at(&mut self, data: NoteCreate, id: String, now: i64) -> (r: Result<Note, StoreError>)
        requires
            old(self).wf(),
        ensures
            final(self).wf(),
            note_created(*old(self), *final(self), data, id@, now, r),
    {
        if find_row(&self.notes, &id).is_some() {
            return Err(StoreError::DuplicateKey);
        }
        let note = Note {
            id: id,
            title: match data.title {
                Some(t) => t,
                None => String::new(),
            },
            content: match data.content {
                Some(t) => t,
                None => String::new(),
            },
            folder_id: data.folder_id,
            tags: match data.tags {
                Some(t) => t,
                None => Vec::new(),
            },
            is_pinned: false,
            created_at: now,
            updated_at: now,
            deleted_at: None,
        };
        let out = note.duplicate();
        let ghost old_notes = self.notes@;
        self.notes.push(note);
        proof {
            lemma_push_keys(old_notes, self.notes@.last());
            assert(self.notes@.drop_last() =~= old_notes);
        }
        Ok(out)
    }

    /// Creates a note from `data` with a fresh identifier at the current time.
    pub fn create_note(&mut self, data: NoteCreate) -> (r: Result<Note, StoreError>)
        requires
            old(self).wf(),
        ensures
            final(self).wf(),
            match r {
                Ok(n) => starts_with(n.id@, "note_"@) && note_created(*old(self), *final(self), data, n.id@, n.created_at, r),
                Err(e) => {
                    &&& e == StoreError::DuplicateKey
                    &&& *final(self) == *old(self)
                    &&& some_key_starts_with(old(self).notes@, "note_"@)
                },
            },
    {
        let now = clock_now();
        let id = new_id("note_");
        let ghost k = id@;
        let r = self.create_note_at(data, id, now);
        proof {
            if r is Err && r->Err_0 == StoreError::DuplicateKey {
                lemma_key_with_prefix(old(self).notes@, k, "note_"@);
            }
        }
        r
    }

    /// Applies the fields present in `data` to the note `id` at time `now`.
    pub fn update_note_at(&mut self, id: &String, data: NoteUpdate, now: i64) -> (r: Result<Note, StoreError>)
        requires
            old(self).wf(),
        ensures
            final(self).wf(),
            note_updated(*old(self), *final(self), id@, data, now, r),
    {
        let i = match find_row(&self.notes, id) {
            Some(i) => i,
            None => return Err(StoreError::NotFound),
        };
        proof {
            lemma_row_of_index(self.notes@, i as int);
        }
        let ghost data0 = data;
        let cur = self.notes[i].duplicate();
        let updated = Note {
            id: cur.id,
            title: match data.title {
                Some(t) => t,
                None => cur.title,
            },
            content: match data.content {
                Some(t) => t,
                None => cur.content,
            },
            folder_id: match data.folder_id {
                Some(t) => Some(t),
                None => cur.folder_id,
            },
            tags: match data.tags {
                Some(t) => t,
                None => cur.tags,
            },
            is_pinned: match data.is_pinned {
                Some(b) => b,
                None => cur.is_pinned,
            },
            created_at: cur.created_at,
            updated_at: now,
            deleted_at: cur.deleted_at,
        };
        let out = updated.duplicate();
        let ghost old_notes = self.notes@;
        self.notes[i] = updated;
        proof {
            let notes = self.notes@;
            assert forall|j: int| 0 <= j < old_notes.len() implies (#[trigger] notes[j]).same(
                &(if old_notes[j].id@ == id@ { patched_note(old_notes[j], data0, now) } else { old_notes[j] }),
            ) by {
                if j != i {
                    assert(old_notes[j].key() != old_notes[i as int].key());
                }
            }
            assert forall|j: int| 0 <= j < old_notes.len() implies #[trigger] notes[j].key() == old_notes[j].key() by {}
            lemma_keys_kept(old_notes, notes);
        }
        Ok(out)
    }

    /// Applies the fields present in `data` to the note `id` at the current
    /// time.
    pub fn update_note(&mut self, id: &String, data: NoteUpdate) -> (r: Result<Note, StoreError>)
        requires
            old(self).wf(),
        ensures
            final(self).wf(),
            match r {
                Ok(n) => note_updated(*old(self), *final(self), id@, data, n.updated_at, r),
                Err(_) => note_updated(*old(self), *final(self), id@, data, 0, r),
            },
    {
        let now = clock_now();
        self.update_note_at(id, data, now)
    }

    /// Deletes the note `id`: with `hard` set, removes it; otherwise stamps
    /// it deleted at `now`. A note that is not stored is no error.
    pub fn delete_note_at(&mut self, id: &String, hard: Option<bool>, now: i64)
        requires
            old(self).wf(),
        ensures
            final(self).wf(),
            note_deleted(*old(self), *final(self), id@, hard, now),
    {
        let is_hard = match hard {
            Some(b) => b,
            None => false,
        };
        let ghost old_notes = self.notes@;
        if !is_hard {
            match find_row(&self.notes, id) {
                Some(i) => {
                    self.notes[i].deleted_at = Some(now);
                    proof {
                        assert forall|j: int| 0 <= j < old_notes.len() && j != i implies old_notes[j].id@ != id@ by {
                            assert(old_notes[j].key() != old_notes[i as int].key());
                        }
                        lemma_keys_kept(old_notes, self.notes@);
                    }
                },
                None => {
                    proof {
                        assert forall|j: int| 0 <= j < old_notes.len() implies old_notes[j].id@ != id@ by {
                            assert(old_notes[j].key() != id@);
                        }
                    }
                },
            }
            proof {
                assert(self.notes@ =~= old_notes.map_values(
                    |n: Note| if n.id@ == id@ { Note { deleted_at: Some(now), ..n } } else { n },
                ));
            }
            return;
        }
        let ghost pick = |n: Note| n.id@ != id@;
        match find_row(&self.notes, id) {
            Some(i) => {
                self.notes.remove(i);
                proof {
                    lemma_remove_is_filter(old_notes, i as int);
                    assert(key_other_than::<Note>(id@) =~= pick);
                }
            },
            None => {
                proof {
                    assert forall|j: int| 0 <= j < old_notes.len() implies pick(#[trigger] old_notes[j]) by {
                        assert(old_notes[j].key() != id@);
                    }
                    lemma_filter_all(old_notes, pick);
                }
            },
        }
        proof {
            lemma_filter_keys(old_notes, pick);
        }
        let ghost old_nodes = self.nodes@;
        let ghost mid_notes = self.notes@;
        let mut k: usize = 0;
        while k < self.nodes.len()
            invariant
                k <= self.nodes@.len(),
                self.nodes@.len() == old_nodes.len(),
                old_nodes == old(self).nodes@,
                self.notes@ == mid_notes,
                mid_notes == old_notes.filter(pick),
                self.brain_maps == old(self).brain_maps,
                self.connections == old(self).connections,
                self.folders == old(self).folders,
                self.events == old(self).events,
                self.settings == old(self).settings,
                forall|j: int| 0 <= j < k ==> #[trigger] self.nodes@[j] == (if old_nodes[j].linked_note_id.is_some() && old_nodes[j].linked_note_id.unwrap()@ == id@ {
                    BrainMapNode { linked_note_id: None, ..old_nodes[j] }
                } else {
                    old_nodes[j]
                }),
                forall|j: int| k <= j < old_nodes.len() ==> #[trigger] self.nodes@[j] == old_nodes[j],
            decreases self.nodes@.len() - k,
        {
            let hit = match &self.nodes[k].linked_note_id {
                Some(l) => *l == *id,
                None => false,
            };
            if hit {
                self.nodes[k].linked_note_id = None;
            }
            k = k + 1;
        }
        proof {
            assert(self.nodes@ =~= old_nodes.map_values(
                |n: BrainMapNode| if n.linked_note_id.is_some() && n.linked_note_id.unwrap()@ == id@ {
                    BrainMapNode { linked_note_id: None, ..n }
                } else {
                    n
                },
            ));
            lemma_nodes_rewritten(self.brain_maps@, old_nodes, self.nodes@, self.connections@);
        }
    }

    /// Deletes the note `id` as `delete_note_at` does, at the current time.
    pub fn delete_note(&mut self, id: &String, hard: Option<bool>)
        requires
            old(self).wf(),
        ensures
            final(self).wf(),
            exists|now: i64| #[trigger] note_deleted(*old(self), *final(self), id@, hard, now),
    {
        let now = clock_now();
        self.delete_note_at(id, hard, now);
    }

    /// Moves the notes listed in `note_ids` to `folder_id` at time `now`;
    /// identifiers of notes that are not stored are passed over.
    pub fn move_notes_to_folder_at(&mut self, note_ids: &Vec<String>, folder_id: Option<String>, now: i64)
        requires
            old(self).wf(),
        ensures
            final(self).wf(),
            only_notes_changed(*old(self), *final(self)),
            final(self).notes@ == notes_moved(old(self).notes@, note_ids@, folder_id, now),
    {
        let ghost old_notes = self.notes@;
        let mut k: usize = 0;
        while k < self.notes.len()
            invariant
                k <= self.notes@.len(),
                self.notes@.len() == old_notes.len(),
                only_notes_changed(*old(self), *self),
                forall|j: int| 0 <= j < k ==> #[trigger] self.notes@[j] == (if ids_hold(note_ids@, old_notes[j].id@) {
                    Note { folder_id: folder_id, updated_at: now, ..old_notes[j] }
                } else {
                    old_notes[j]
                }),
                forall|j: int| k <= j < old_notes.len() ==> #[trigger] self.notes@[j] == old_notes[j],
            decreases self.notes@.len() - k,
        {
            if holds_id(note_ids, &self.notes[k].id) {
                self.notes[k].folder_id = folder_id.clone();
                self.notes[k].updated_at = now;
            }
            k = k + 1;
        }
        proof {
            assert(self.notes@ =~= notes_moved(old_notes, note_ids@, folder_id, now));
            assert forall|j: int| 0 <= j < old_notes.len() implies #[trigger] self.notes@[j].key() == old_notes[j].key() by {}
            lemma_keys_kept(old_notes, self.notes@);
        }
    }

    /// Moves the notes listed in `note_ids` to `folder_id` at the current
    /// time.
    pub fn move_notes_to_folder(&mut self, note_ids: &Vec<String>, folder_id: Option<String>)
        requires
            old(self).wf(),
        ensures
            final(self).wf(),
            only_notes_changed(*old(self), *final(self)),
            exists|now: i64| final(self).notes@ == #[trigger] notes_moved(old(self).notes@, note_ids@, folder_id, now),
    {
        let now = clock_now();
        self.move_notes_to_folder_at(note_ids, folder_id, now);
    }
}

} // verus!
