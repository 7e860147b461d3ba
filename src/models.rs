use vstd::prelude::*;
use crate::record::Record;

verus! {

/// A coordinate on the canvas, carried as the bit pattern of an IEEE-754
/// double. The library stores and returns coordinates without computing with
/// them.
#[derive(Clone, Copy, Debug, PartialEq, Eq, Structural)]
pub struct Coord {
    pub bits: u64,
}

impl Coord {
    /// The coordinate 0.0.
    pub fn zero() -> (r: Coord)
        ensures
            r.bits == 0,
    {
        Coord { bits: 0 }
    }

    /// The coordinate 1.0.
    pub fn one() -> (r: Coord)
        ensures
            r.bits == 0x3ff0_0000_0000_0000u64,
    {
        Coord { bits: 0x3ff0_0000_0000_0000u64 }
    }
}

/// A note. Timestamps are microseconds since the Unix epoch.
#[derive(Clone, Debug, PartialEq)]
pub struct Note {
    pub id: String,
    pub title: String,
    pub content: String,
    pub folder_id: Option<String>,
    pub tags: Vec<String>,
    pub is_pinned: bool,
    pub created_at: i64,
    pub updated_at: i64,
    pub deleted_at: Option<i64>,
}

/// The fields a new note may be given.
#[derive(Clone, Debug, PartialEq)]
pub struct NoteCreate {
    pub title: Option<String>,
    pub content: Option<String>,
    pub folder_id: Option<String>,
    pub tags: Option<Vec<String>>,
}

/// A partial change to a note: present fields replace stored ones.
#[derive(Clone, Debug, PartialEq)]
pub struct NoteUpdate {
    pub title: Option<String>,
    pub content: Option<String>,
    pub folder_id: Option<String>,
    pub tags: Option<Vec<String>>,
    pub is_pinned: Option<bool>,
}

/// A folder of notes; `parent_id` forms folder trees.
#[derive(Clone, Debug, PartialEq)]
pub struct Folder {
    pub id: String,
    pub name: String,
    pub parent_id: Option<String>,
    pub color: Option<String>,
    pub icon: Option<String>,
    pub created_at: i64,
    pub updated_at: i64,
}

/// The fields a new folder may be given.
#[derive(Clone, Debug, PartialEq)]
pub struct FolderCreate {
    pub name: String,
    pub parent_id: Option<String>,
    pub color: Option<String>,
    pub icon: Option<String>,
}

/// A partial change to a folder: present fields replace stored ones.
#[derive(Clone, Debug, PartialEq)]
pub struct FolderUpdate {
    pub name: Option<String>,
    pub parent_id: Option<String>,
    pub color: Option<String>,
    pub icon: Option<String>,
}

/// A reminder of an event, some minutes before it.
#[derive(Clone, Debug, PartialEq)]
pub struct EventReminder {
    pub id: String,
    pub minutes_before: i32,
    pub reminder_type: String,
}

/// A calendar event.
#[derive(Clone, Debug, PartialEq)]
pub struct Event {
    pub id: String,
    pub title: String,
    pub description: Option<String>,
    pub event_type: Option<String>,
    pub start_time: Option<String>,
    pub end_time: Option<String>,
    pub has_scheduled_time: bool,
    pub time_mode: String,
    pub duration_minutes: Option<i32>,
    pub location: Option<String>,
    pub category: Option<String>,
    pub color: Option<String>,
    pub priority: Option<String>,
    pub tags: Vec<String>,
    pub show_on_calendar: bool,
    pub is_all_day: bool,
    pub is_recurring: bool,
    pub recurring_pattern: Option<String>,
    pub status: Option<String>,
    pub reminders: Vec<EventReminder>,
    pub notes: Option<String>,
    pub created_at: i64,
    pub updated_at: i64,
    pub deleted_at: Option<i64>,
}

/// The fields a new event may be given.
#[derive(Clone, Debug, PartialEq)]
pub struct EventCreate {
    pub title: String,
    pub description: Option<String>,
    pub start_time: Option<String>,
    pub end_time: Option<String>,
    pub time_mode: Option<String>,
    pub duration_minutes: Option<i32>,
    pub location: Option<String>,
    pub category: Option<String>,
    pub color: Option<String>,
    pub priority: Option<String>,
    pub tags: Option<Vec<String>>,
    pub show_on_calendar: Option<bool>,
    pub is_all_day: Option<bool>,
    pub is_recurring: Option<bool>,
    pub recurring_pattern: Option<String>,
    pub reminders: Option<Vec<EventReminder>>,
}

/// A partial change to an event: present fields replace stored ones.
#[derive(Clone, Debug, PartialEq)]
pub struct EventUpdate {
    pub title: Option<String>,
    pub description: Option<String>,
    pub start_time: Option<String>,
    pub end_time: Option<String>,
    pub time_mode: Option<String>,
    pub duration_minutes: Option<i32>,
    pub location: Option<String>,
    pub category: Option<String>,
    pub color: Option<String>,
    pub priority: Option<String>,
    pub tags: Option<Vec<String>>,
    pub show_on_calendar: Option<bool>,
    pub is_all_day: Option<bool>,
    pub is_recurring: Option<bool>,
    pub recurring_pattern: Option<String>,
    pub status: Option<String>,
    pub reminders: Option<Vec<EventReminder>>,
}

/// A brain map; `center_node_id` names its layer-0 node.
#[derive(Clone, Debug, PartialEq)]
pub struct BrainMap {
    pub id: String,
    pub title: String,
    pub description: Option<String>,
    pub center_node_id: Option<String>,
    pub center_node_text: String,
    pub viewport_x: Coord,
    pub viewport_y: Coord,
    pub viewport_zoom: Coord,
    pub theme: Option<String>,
    pub created_at: i64,
    pub updated_at: i64,
    pub deleted_at: Option<i64>,
}

/// The fields a new map may be given.
#[derive(Clone, Debug, PartialEq)]
pub struct BrainMapCreate {
    pub title: Option<String>,
    pub description: Option<String>,
    pub center_node_text: Option<String>,
    pub theme: Option<String>,
}

/// A partial change to a map: present fields replace stored ones.
#[derive(Clone, Debug, PartialEq)]
pub struct BrainMapUpdate {
    pub title: Option<String>,
    pub description: Option<String>,
    pub center_node_id: Option<String>,
    pub center_node_text: Option<String>,
    pub viewport_x: Option<Coord>,
    pub viewport_y: Option<Coord>,
    pub viewport_zoom: Option<Coord>,
    pub theme: Option<String>,
}

/// A node of a map. `layer` is derived from the parent when the node is
/// created and is not recomputed afterwards.
#[derive(Clone, Debug, PartialEq)]
pub struct BrainMapNode {
    pub id: String,
    pub brain_map_id: String,
    pub parent_node_id: Option<String>,
    pub label: String,
    pub description: Option<String>,
    pub x: Coord,
    pub y: Coord,
    pub color: Option<String>,
    pub shape: Option<String>,
    pub size: Option<String>,
    pub icon: Option<String>,
    pub linked_note_id: Option<String>,
    pub linked_folder_id: Option<String>,
    pub is_collapsed: bool,
    pub layer: i32,
    pub created_at: i64,
    pub updated_at: i64,
}

/// The fields a new node may be given.
#[derive(Clone, Debug, PartialEq)]
pub struct BrainMapNodeCreate {
    pub brain_map_id: String,
    pub parent_node_id: Option<String>,
    pub label: String,
    pub description: Option<String>,
    pub x: Option<Coord>,
    pub y: Option<Coord>,
    pub color: Option<String>,
    pub shape: Option<String>,
    pub size: Option<String>,
    pub icon: Option<String>,
    pub linked_note_id: Option<String>,
    pub linked_folder_id: Option<String>,
}

/// A partial change to a node: present fields replace stored ones.
#[derive(Clone, Debug, PartialEq)]
pub struct BrainMapNodeUpdate {
    pub parent_node_id: Option<String>,
    pub label: Option<String>,
    pub description: Option<String>,
    pub x: Option<Coord>,
    pub y: Option<Coord>,
    pub color: Option<String>,
    pub shape: Option<String>,
    pub size: Option<String>,
    pub icon: Option<String>,
    pub linked_note_id: Option<String>,
    pub linked_folder_id: Option<String>,
    pub is_collapsed: Option<bool>,
}

/// A free connection between two nodes of a map.
#[derive(Clone, Debug, PartialEq)]
pub struct BrainMapConnection {
    pub id: String,
    pub brain_map_id: String,
    pub source_node_id: String,
    pub target_node_id: String,
    pub label: Option<String>,
    pub color: Option<String>,
    pub style: Option<String>,
    pub animated: bool,
    pub created_at: i64,
}

/// The fields a new connection may be given.
#[derive(Clone, Debug, PartialEq)]
pub struct BrainMapConnectionCreate {
    pub brain_map_id: String,
    pub source_node_id: String,
    pub target_node_id: String,
    pub label: Option<String>,
    pub color: Option<String>,
    pub style: Option<String>,
    pub animated: Option<bool>,
}

/// A map together with its nodes and connections.
#[derive(Clone, Debug, PartialEq)]
pub struct BrainMapWithData {
    pub brain_map: BrainMap,
    pub nodes: Vec<BrainMapNode>,
    pub connections: Vec<BrainMapConnection>,
}

/// One key/value pair of the settings table.
#[derive(Clone, Debug, PartialEq)]
pub struct Setting {
    pub key: String,
    pub value: String,
}

/// Copies a list of strings element by element.
pub fn copy_strings(v: &Vec<String>) -> (r: Vec<String>)
    ensures
        r@ == v@,
{
    let mut out: Vec<String> = Vec::new();
    let mut i: usize = 0;
    while i < v.len()
        invariant
            i <= v@.len(),
            out@ == v@.subrange(0, i as int),
        decreases v@.len() - i,
    {
        out.push(v[i].clone());
        i = i + 1;
    }
    assert(out@ =~= v@);
    out
}

/// Copies a list of reminders element by element.
pub fn copy_reminders(v: &Vec<EventReminder>) -> (r: Vec<EventReminder>)
    ensures
        r@ == v@,
{
    let mut out: Vec<EventReminder> = Vec::new();
    let mut i: usize = 0;
    while i < v.len()
        invariant
            i <= v@.len(),
            out@ == v@.subrange(0, i as int),
        decreases v@.len() - i,
    {
        let r = &v[i];
        out.push(EventReminder {
            id: r.id.clone(),
            minutes_before: r.minutes_before,
            reminder_type: r.reminder_type.clone(),
        });
        i = i + 1;
    }
    assert(out@ =~= v@);
    out
}

impl Record for Note {
    open spec fn key(&self) -> Seq<char> {
        self.id@
    }

    open spec fn same(&self, o: &Self) -> bool {
        &&& self.id == o.id
        &&& self.title == o.title
        &&& self.content == o.content
        &&& self.folder_id == o.folder_id
        &&& self.tags@ == o.tags@
        &&& self.is_pinned == o.is_pinned
        &&& self.created_at == o.created_at
        &&& self.updated_at == o.updated_at
        &&& self.deleted_at == o.deleted_at
    }

    fn id_ref(&self) -> (r: &String) {
        &self.id
    }

    fn duplicate(&self) -> (r: Self) {
        Note {
            id: self.id.clone(),
            title: self.title.clone(),
            content: self.content.clone(),
            folder_id: self.folder_id.clone(),
            tags: copy_strings(&self.tags),
            is_pinned: self.is_pinned,
            created_at: self.created_at,
            updated_at: self.updated_at,
            deleted_at: self.deleted_at,
        }
    }
}

impl Record for Folder {
    open spec fn key(&self) -> Seq<char> {
        self.id@
    }

    open spec fn same(&self, o: &Self) -> bool {
        *self == *o
    }

    fn id_ref(&self) -> (r: &String) {
        &self.id
    }

    fn duplicate(&self) -> (r: Self) {
        Folder {
            id: self.id.clone(),
            name: self.name.clone(),
            parent_id: self.parent_id.clone(),
            color: self.color.clone(),
            icon: self.icon.clone(),
            created_at: self.created_at,
            updated_at: self.updated_at,
        }
    }
}

impl Record for Event {
    open spec fn key(&self) -> Seq<char> {
        self.id@
    }

    open spec fn same(&self, o: &Self) -> bool {
        &&& self.id == o.id
        &&& self.title == o.title
        &&& self.description == o.description
        &&& self.event_type == o.event_type
        &&& self.start_time == o.start_time
        &&& self.end_time == o.end_time
        &&& self.has_scheduled_time == o.has_scheduled_time
        &&& self.time_mode == o.time_mode
        &&& self.duration_minutes == o.duration_minutes
        &&& self.location == o.location
        &&& self.category == o.category
        &&& self.color == o.color
        &&& self.priority == o.priority
        &&& self.tags@ == o.tags@
        &&& self.show_on_calendar == o.show_on_calendar
        &&& self.is_all_day == o.is_all_day
        &&& self.is_recurring == o.is_recurring
        &&& self.recurring_pattern == o.recurring_pattern
        &&& self.status == o.status
        &&& self.reminders@ == o.reminders@
        &&& self.notes == o.notes
        &&& self.created_at == o.created_at
        &&& self.updated_at == o.updated_at
        &&& self.deleted_at == o.deleted_at
    }

    fn id_ref(&self) -> (r: &String) {
        &self.id
    }

    fn duplicate(&self) -> (r: Self) {
        Event {
            id: self.id.clone(),
            title: self.title.clone(),
            description: self.description.clone(),
            event_type: self.event_type.clone(),
            start_time: self.start_time.clone(),
            end_time: self.end_time.clone(),
            has_scheduled_time: self.has_scheduled_time,
            time_mode: self.time_mode.clone(),
            duration_minutes: self.duration_minutes,
            location: self.location.clone(),
            category: self.category.clone(),
            color: self.color.clone(),
            priority: self.priority.clone(),
            tags: copy_strings(&self.tags),
            show_on_calendar: self.show_on_calendar,
            is_all_day: self.is_all_day,
            is_recurring: self.is_recurring,
            recurring_pattern: self.recurring_pattern.clone(),
            status: self.status.clone(),
            reminders: copy_reminders(&self.reminders),
            notes: self.notes.clone(),
            created_at: self.created_at,
            updated_at: self.updated_at,
            deleted_at: self.deleted_at,
        }
    }
}

impl Record for BrainMap {
    open spec fn key(&self) -> Seq<char> {
        self.id@
    }

    open spec fn same(&self, o: &Self) -> bool {
        *self == *o
    }

    fn id_ref(&self) -> (r: &String) {
        &self.id
    }

    fn duplicate(&self) -> (r: Self) {
        BrainMap {
            id: self.id.clone(),
            title: self.title.clone(),
            description: self.description.clone(),
            center_node_id: self.center_node_id.clone(),
            center_node_text: self.center_node_text.clone(),
            viewport_x: self.viewport_x,
            viewport_y: self.viewport_y,
            viewport_zoom: self.viewport_zoom,
            theme: self.theme.clone(),
            created_at: self.created_at,
            updated_at: self.updated_at,
            deleted_at: self.deleted_at,
        }
    }
}

impl Record for BrainMapNode {
    open spec fn key(&self) -> Seq<char> {
        self.id@
    }

    open spec fn same(&self, o: &Self) -> bool {
        *self == *o
    }

    fn id_ref(&self) -> (r: &String) {
        &self.id
    }

    fn duplicate(&self) -> (r: Self) {
        BrainMapNode {
            id: self.id.clone(),
            brain_map_id: self.brain_map_id.clone(),
            parent_node_id: self.parent_node_id.clone(),
            label: self.label.clone(),
            description: self.description.clone(),
            x: self.x,
            y: self.y,
            color: self.color.clone(),
            shape: self.shape.clone(),
            size: self.size.clone(),
            icon: self.icon.clone(),
            linked_note_id: self.linked_note_id.clone(),
            linked_folder_id: self.linked_folder_id.clone(),
            is_collapsed: self.is_collapsed,
            layer: self.layer,
            created_at: self.created_at,
            updated_at: self.updated_at,
        }
    }
}

impl Record for BrainMapConnection {
    open spec fn key(&self) -> Seq<char> {
        self.id@
    }

    open spec fn same(&self, o: &Self) -> bool {
        *self == *o
    }

    fn id_ref(&self) -> (r: &String) {
        &self.id
    }

    fn duplicate(&self) -> (r: Self) {
        BrainMapConnection {
            id: self.id.clone(),
            brain_map_id: self.brain_map_id.clone(),
            source_node_id: self.source_node_id.clone(),
            target_node_id: self.target_node_id.clone(),
            label: self.label.clone(),
            color: self.color.clone(),
            style: self.style.clone(),
            animated: self.animated,
            created_at: self.created_at,
        }
    }
}

impl Record for Setting {
    open spec fn key(&self) -> Seq<char> {
        self.key@
    }

    open spec fn same(&self, o: &Self) -> bool {
        *self == *o
    }

    fn id_ref(&self) -> (r: &String) {
        &self.key
    }

    fn duplicate(&self) -> (r: Self) {
        Setting { key: self.key.clone(), value: self.value.clone() }
    }
}

} // verus!
