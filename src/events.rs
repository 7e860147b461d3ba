use vstd::prelude::*;
use crate::maps::text_or;
use crate::models::{Event, EventCreate, EventReminder, EventUpdate};
use crate::record::{
    fetch_row, find_row, has_key, is_listing, key_other_than, lemma_filter_all, lemma_filter_keys,
    lemma_keys_kept, lemma_push_keys, lemma_remove_is_filter, lemma_row_of_index, list_rows, row_of,
    lemma_key_with_prefix, some_key_starts_with, Record,
};
use crate::sources::{clock_now, new_id, starts_with};
use crate::store::{Database, StoreError};

verus! {

/// An event is listed while it is not soft-deleted.
pub open spec fn event_listed() -> spec_fn(Event) -> bool {
    |e: Event| e.deleted_at.is_none()
}

/// `e` is the event that creation from `data` stores under `id` at time
/// `now`.
pub open spec fn is_new_event(e: Event, data: EventCreate, id: Seq<char>, now: i64) -> bool {
    &&& e.id@ == id
    &&& e.title == data.title
    &&& e.description == data.description
    &&& e.event_type.is_none()
    &&& e.start_time == data.start_time
    &&& e.end_time == data.end_time
    &&& e.has_scheduled_time == data.start_time.is_some()
    &&& e.time_mode@ == text_or(data.time_mode, "at_time"@)
    &&& e.duration_minutes == data.duration_minutes
    &&& e.location == data.location
    &&& e.category.is_some() && e.category.unwrap()@ == text_or(data.category, "personal"@)
    &&& e.color == data.color
    &&& e.priority.is_some() && e.priority.unwrap()@ == text_or(data.priority, "medium"@)
    &&& e.tags@ == (match data.tags { Some(t) => t@, None => Seq::empty() })
    &&& e.show_on_calendar == (match data.show_on_calendar { Some(b) => b, None => true })
    &&& e.is_all_day == (match data.is_all_day { Some(b) => b, None => false })
    &&& e.is_recurring == (match data.is_recurring { Some(b) => b, None => false })
    &&& e.recurring_pattern == data.recurring_pattern
    &&& e.status.is_some() && e.status.unwrap()@ == "pending"@
    &&& e.reminders@ == (match data.reminders { Some(r) => r@, None => Seq::<EventReminder>::empty() })
    &&& e.notes.is_none()
    &&& e.created_at == now
    &&& e.updated_at == now
    &&& e.deleted_at.is_none()
}

/// `e` with the fields present in `p` replaced, and updated at `now`. The
/// event type, the scheduled flag and the notes stay.
pub open spec fn patched_event(e: Event, p: EventUpdate, now: i64) -> Event {
    Event {
        id: e.id,
        title: match p.title { Some(t) => t, None => e.title },
        description: match p.description { Some(t) => Some(t), None => e.description },
        event_type: e.event_type,
        start_time: match p.start_time { Some(t) => Some(t), None => e.start_time },
        end_time: match p.end_time { Some(t) => Some(t), None => e.end_time },
        has_scheduled_time: e.has_scheduled_time,
        time_mode: match p.time_mode { Some(t) => t, None => e.time_mode },
        duration_minutes: match p.duration_minutes { Some(d) => Some(d), None => e.duration_minutes },
        location: match p.location { Some(t) => Some(t), None => e.location },
        category: match p.category { Some(t) => Some(t), None => e.category },
        color: match p.color { Some(t) => Some(t), None => e.color },
        priority: match p.priority { Some(t) => Some(t), None => e.priority },
        tags: match p.tags { Some(t) => t, None => e.tags },
        show_on_calendar: match p.show_on_calendar { Some(b) => b, None => e.show_on_calendar },
        is_all_day: match p.is_all_day { Some(b) => b, None => e.is_all_day },
        is_recurring: match p.is_recurring { Some(b) => b, None => e.is_recurring },
        recurring_pattern: match p.recurring_pattern { Some(t) => Some(t), None => e.recurring_pattern },
        status: match p.status { Some(t) => Some(t), None => e.status },
        reminders: match p.reminders { Some(r) => r, None => e.reminders },
        notes: e.notes,
        created_at: e.created_at,
        updated_at: now,
        deleted_at: e.deleted_at,
    }
}

/// Only the events table differs between `old` and `new`.
pub open spec fn only_events_changed(old: Database, new: Database) -> bool {
    &&& new.notes == old.notes
    &&& new.folders == old.folders
    &&& new.brain_maps == old.brain_maps
    &&& new.nodes == old.nodes
    &&& new.connections == old.connections
    &&& new.settings == old.settings
}

/// What `update_event_at(id, p, now)` does to `old`, giving `new` and `r`.
pub open spec fn event_updated(old: Database, new: Database, id: Seq<char>, p: EventUpdate, now: i64, r: Result<Event, StoreError>) -> bool {
    &&& only_events_changed(old, new)
    &&& match r {
        Ok(e) => {
            &&& has_key(old.events@, id)
            &&& e.same(&patched_event(row_of(old.events@, id).unwrap(), p, now))
            &&& new.events@.len() == old.events@.len()
            &&& forall|i: int| 0 <= i < old.events@.len() ==> (#[trigger] new.events@[i]).same(
                &(if old.events@[i].id@ == id { patched_event(old.events@[i], p, now) } else { old.events@[i] }),
            )
        },
        Err(e) => e == StoreError::NotFound && !has_key(old.events@, id) && new == old,
    }
}

/// What `delete_event_at(id, hard, now)` does to `old`, giving `new`.
pub open spec fn event_deleted(old: Database, new: Database, id: Seq<char>, hard: Option<bool>, now: i64) -> bool {
    &&& only_events_changed(old, new)
    &&& if hard == Some(true) {
        new.events@ == old.events@.filter(|e: Event| e.id@ != id)
    } else {
        new.events@ == old.events@.map_values(
            |e: Event| if e.id@ == id { Event { deleted_at: Some(now), ..e } } else { e },
        )
    }
}

/// `cur` with the fields present in `data` replaced, and updated at `now`.
fn apply_event_patch(cur: Event, data: EventUpdate, now: i64) -> (r: Event)
    ensures
        r == patched_event(cur, data, now),
{
    Event {
        id: cur.id,
        title: match data.title {
            Some(t) => t,
            None => cur.title,
        },
        description: match data.description {
            Some(t) => Some(t),
            None => cur.description,
        },
        event_type: cur.event_type,
        start_time: match data.start_time {
            Some(t) => Some(t),
            None => cur.start_time,
        },
        end_time: match data.end_time {
            Some(t) => Some(t),
            None => cur.end_time,
        },
        has_scheduled_time: cur.has_scheduled_time,
        time_mode: match data.time_mode {
            Some(t) => t,
            None => cur.time_mode,
        },
        duration_minutes: match data.duration_minutes {
            Some(d) => Some(d),
            None => cur.duration_minutes,
        },
        location: match data.location {
            Some(t) => Some(t),
            None => cur.location,
        },
        category: match data.category {
            Some(t) => Some(t),
            None => cur.category,
        },
        color: match data.color {
            Some(t) => Some(t),
            None => cur.color,
        },
        priority: match data.priority {
            Some(t) => Some(t),
            None => cur.priority,
        },
        tags: match data.tags {
            Some(t) => t,
            None => cur.tags,
        },
        show_on_calendar: match data.show_on_calendar {
            Some(b) => b,
            None => cur.show_on_calendar,
        },
        is_all_day: match data.is_all_day {
            Some(b) => b,
            None => cur.is_all_day,
        },
        is_recurring: match data.is_recurring {
            Some(b) => b,
            None => cur.is_recurring,
        },
        recurring_pattern: match data.recurring_pattern {
            Some(t) => Some(t),
            None => cur.recurring_pattern,
        },
        status: match data.status {
            Some(t) => Some(t),
            None => cur.status,
        },
        reminders: match data.reminders {
            Some(r) => r,
            None => cur.reminders,
        },
        notes: cur.notes,
        created_at: cur.created_at,
        updated_at: now,
        deleted_at: cur.deleted_at,
    }
}

impl Database {
    /// The events that are not soft-deleted, by start time.
    pub fn get_events(&self) -> (r: Vec<Event>)
        requires
            self.wf(),
        ensures
            is_listing(self.events@, r@, event_listed()),
    {
        let ghost pick = event_listed();
        let mut cand: Vec<usize> = Vec::new();
        let mut k: usize = 0;
        while k < self.events.len()
            invariant
                k <= self.events@.len(),
                pick == event_listed(),
                forall|j: int| 0 <= j < cand@.len() ==> #[trigger] cand@[j] < k,
                forall|a: int, b: int| 0 <= a < b < cand@.len() ==> #[trigger] cand@[a] < #[trigger] cand@[b],
                forall|j: int| 0 <= j < cand@.len() ==> pick(#[trigger] self.events@[cand@[j] as int]),
                forall|q: int| 0 <= q < k && pick(#[trigger] self.events@[q]) ==> exists|j: int| 0 <= j < cand@.len() && cand@[j] as int == q,
            decreases self.events@.len() - k,
        {
            if self.events[k].deleted_at.is_none() {
                let ghost c0 = cand@;
                cand.push(k);
                proof {
                    assert forall|q: int| 0 <= q < k + 1 && pick(#[trigger] self.events@[q]) implies exists|j: int| 0 <= j < cand@.len() && cand@[j] as int == q by {
                        if q < k {
                            let j = choose|j: int| 0 <= j < c0.len() && c0[j] as int == q;
                            assert(cand@[j] as int == q);
                        } else {
                            assert(cand@[c0.len() as int] as int == q);
                        }
                    }
                }
            }
            k = k + 1;
        }
        list_rows(&self.events, &cand, Ghost(pick))
    }

    /// The event `id`, soft-deleted or not.
    pub fn get_event(&self, id: &String) -> (r: Option<Event>)
        requires
            self.wf(),
        ensures
            r.is_some() == has_key(self.events@, id@),
            r matches Some(e) ==> e.same(&row_of(self.events@, id@).unwrap()),
    {
        fetch_row(&self.events, id)
    }

    /// Creates an event from `data` with identifier `id` at time `now`.
    pub fn create_event_at(&mut self, data: EventCreate, id: String, now: i64) -> (r: Result<Event, StoreError>)
        requires
            old(self).wf(),
        ensures
            final(self).wf(),
            only_events_changed(*old(self), *final(self)),
            match r {
                Ok(e) => {
                    &&& !has_key(old(self).events@, id@)
                    &&& is_new_event(e, data, id@, now)
                    &&& final(self).events@.len() == old(self).events@.len() + 1
                    &&& final(self).events@.drop_last() == old(self).events@
                    &&& final(self).events@.last().same(&e)
                },
                Err(e) => e == StoreError::DuplicateKey && has_key(old(self).events@, id@) && *final(self) == *old(self),
            },
    {
        if find_row(&self.events, &id).is_some() {
            return Err(StoreError::DuplicateKey);
        }
        let scheduled = data.start_time.is_some();
        let event = Event {
            id: id,
            title: data.title,
            description: data.description,
            event_type: None,
            start_time: data.start_time,
            end_time: data.end_time,
            has_scheduled_time: scheduled,
            time_mode: match data.time_mode {
                Some(t) => t,
                None => "at_time".to_owned(),
            },
            duration_minutes: data.duration_minutes,
            location: data.location,
            category: match data.category {
                Some(t) => Some(t),
                None => Some("personal".to_owned()),
            },
            color: data.color,
            priority: match data.priority {
                Some(t) => Some(t),
                None => Some("medium".to_owned()),
            },
            tags: match data.tags {
                Some(t) => t,
                None => Vec::new(),
            },
            show_on_calendar: match data.show_on_calendar {
                Some(b) => b,
                None => true,
            },
            is_all_day: match data.is_all_day {
                Some(b) => b,
                None => false,
            },
            is_recurring: match data.is_recurring {
                Some(b) => b,
                None => false,
            },
            recurring_pattern: data.recurring_pattern,
            status: Some("pending".to_owned()),
            reminders: match data.reminders {
                Some(r) => r,
                None => Vec::new(),
            },
            notes: None,
            created_at: now,
            updated_at: now,
            deleted_at: None,
        };
        let out = event.duplicate();
        let ghost old_events = self.events@;
        self.events.push(event);
        proof {
            lemma_push_keys(old_events, self.events@.last());
            assert(self.events@.drop_last() =~= old_events);
        }
        Ok(out)
    }

    /// Creates an event from `data` with a fresh identifier at the current
    /// time.
    pub fn create_event(&mut self, data: EventCreate) -> (r: Result<Event, StoreError>)
        requires
            old(self).wf(),
        ensures
            final(self).wf(),
            only_events_changed(*old(self), *final(self)),
            match r {
                Ok(e) => {
                    &&& starts_with(e.id@, "event_"@)
                    &&& !has_key(old(self).events@, e.id@)
                    &&& is_new_event(e, data, e.id@, e.created_at)
                    &&& final(self).events@.len() == old(self).events@.len() + 1
                    &&& final(self).events@.drop_last() == old(self).events@
                    &&& final(self).events@.last().same(&e)
                },
                Err(e) => {
                    &&& e == StoreError::DuplicateKey
                    &&& *final(self) == *old(self)
                    &&& some_key_starts_with(old(self).events@, "event_"@)
                },
            },
    {
        let now = clock_now();
        let id = new_id("event_");
        let ghost k = id@;
        let r = self.create_event_at(data, id, now);
        proof {
            if r is Err && r->Err_0 == StoreError::DuplicateKey {
                lemma_key_with_prefix(old(self).events@, k, "event_"@);
            }
        }
        r
    }

    /// Applies the fields present in `data` to the event `id` at time `now`.
    pub fn update_event_at(&mut self, id: &String, data: EventUpdate, now: i64) -> (r: Result<Event, StoreError>)
        requires
            old(self).wf(),
        ensures
            final(self).wf(),
            event_updated(*old(self), *final(self), id@, data, now, r),
    {
        let i = match find_row(&self.events, id) {
            Some(i) => i,
            None => return Err(StoreError::NotFound),
        };
        proof {
            lemma_row_of_index(self.events@, i as int);
        }
        let ghost data0 = data;
        let cur = self.events[i].duplicate();
        let updated = apply_event_patch(cur, data, now);
        let out = updated.duplicate();
        let ghost old_events = self.events@;
        self.events[i] = updated;
        proof {
            let events = self.events@;
            assert forall|j: int| 0 <= j < old_events.len() implies (#[trigger] events[j]).same(
                &(if old_events[j].id@ == id@ { patched_event(old_events[j], data0, now) } else { old_events[j] }),
            ) by {
                if j != i {
                    assert(old_events[j].key() != old_events[i as int].key());
                }
            }
            assert forall|j: int| 0 <= j < old_events.len() implies #[trigger] events[j].key() == old_events[j].key() by {}
            lemma_keys_kept(old_events, events);
        }
        Ok(out)
    }

    /// Applies the fields present in `data` to the event `id` at the current
    /// time.
    pub fn update_event(&mut self, id: &String, data: EventUpdate) -> (r: Result<Event, StoreError>)
        requires
            old(self).wf(),
        ensures
            final(self).wf(),
            match r {
                Ok(e) => event_updated(*old(self), *final(self), id@, data, e.updated_at, r),
                Err(_) => event_updated(*old(self), *final(self), id@, data, 0, r),
            },
    {
        let now = clock_now();
        self.update_event_at(id, data, now)
    }

    /// Deletes the event `id`: with `hard` set, removes it; otherwise stamps
    /// it deleted at `now`. An event that is not stored is no error.
    pub fn delete_event_at(&mut self, id: &String, hard: Option<bool>, now: i64)
        requires
            old(self).wf(),
        ensures
            final(self).wf(),
            event_deleted(*old(self), *final(self), id@, hard, now),
    {
        let is_hard = match hard {
            Some(b) => b,
            None => false,
        };
        let ghost old_events = self.events@;
        if !is_hard {
            match find_row(&self.events, id) {
                Some(i) => {
                    self.events[i].deleted_at = Some(now);
                    proof {
                        assert forall|j: int| 0 <= j < old_events.len() && j != i implies old_events[j].id@ != id@ by {
                            assert(old_events[j].key() != old_events[i as int].key());
                        }
                        lemma_keys_kept(old_events, self.events@);
                    }
                },
                None => {
                    proof {
                        assert forall|j: int| 0 <= j < old_events.len() implies old_events[j].id@ != id@ by {
                            assert(old_events[j].key() != id@);
                        }
                    }
                },
            }
            proof {
                assert(self.events@ =~= old_events.map_values(
                    |e: Event| if e.id@ == id@ { Event { deleted_at: Some(now), ..e } } else { e },
                ));
            }
            return;
        }
        let ghost pick = |e: Event| e.id@ != id@;
        match find_row(&self.events, id) {
            Some(i) => {
                self.events.remove(i);
                proof {
                    lemma_remove_is_filter(old_events, i as int);
                    assert(key_other_than::<Event>(id@) =~= pick);
                }
            },
            None => {
                proof {
                    assert forall|j: int| 0 <= j < old_events.len() implies pick(#[trigger] old_events[j]) by {
                        assert(old_events[j].key() != id@);
                    }
                    lemma_filter_all(old_events, pick);
                }
            },
        }
        proof {
            lemma_filter_keys(old_events, pick);
        }
    }

    /// Deletes the event `id` as `delete_event_at` does, at the current time.
    pub fn delete_event(&mut self, id: &String, hard: Option<bool>)
        requires
            old(self).wf(),
        ensures
            final(self).wf(),
            exists|now: i64| #[trigger] event_deleted(*old(self), *final(self), id@, hard, now),
    {
        let now = clock_now();
        self.delete_event_at(id, hard, now);
    }
}

} // verus!
