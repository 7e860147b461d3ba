use vstd::prelude::*;
use crate::models::{
    BrainMapConnection, BrainMapNode, Coord, Event, EventReminder, Note,
};

verus! {

/// The JSON text that `serde_json` writes for a list of strings.
pub uninterp spec fn json_of_strings(items: Seq<Seq<char>>) -> Seq<char>;

/// The list of strings that `serde_json` reads from a JSON text, if the text
/// is one.
pub uninterp spec fn strings_of_json(text: Seq<char>) -> Option<Seq<Seq<char>>>;

/// The texts of a list of strings.
pub open spec fn texts(v: Seq<String>) -> Seq<Seq<char>> {
    v.map_values(|s: String| s@)
}

/// Relies on `serde_json::to_string` on a `Vec<String>`: the JSON array of
/// the strings. It fails only where a `Serialize` impl fails or a map has
/// keys that are not strings, neither of which a list of strings can meet.
#[verifier::external_body]
fn encode_strings(items: &Vec<String>) -> (r: Option<String>)
    ensures
        r is Some,
        r matches Some(t) ==> t@ == json_of_strings(texts(items@)),
{
    serde_json::to_string(items).ok()
}

/// Relies on `serde_json::from_str::<Vec<String>>`: the strings of a JSON
/// array of strings, or an error for any other text.
#[verifier::external_body]
fn decode_strings(text: &str) -> (r: Option<Vec<String>>)
    ensures
        match r {
            Some(v) => strings_of_json(text@) == Some(texts(v@)),
            None => strings_of_json(text@).is_none(),
        },
{
    serde_json::from_str::<Vec<String>>(text).ok()
}

/// The stored text of a tag list: its JSON text.
pub fn tags_to_text(tags: &Vec<String>) -> (r: String)
    ensures
        r@ == json_of_strings(texts(tags@)),
{
    match encode_strings(tags) {
        Some(t) => t,
        None => String::new(),
    }
}

/// The tag list of a stored text: the strings it holds, or none when it is
/// not a JSON array of strings.
pub fn tags_from_text(text: &str) -> (r: Vec<String>)
    ensures
        texts(r@) == match strings_of_json(text@) {
            Some(v) => v,
            None => Seq::empty(),
        },
{
    match decode_strings(text) {
        Some(v) => v,
        None => {
            let v: Vec<String> = Vec::new();
            assert(texts(v@) =~= Seq::empty());
            v
        },
    }
}

/// A flag as the store holds it.
pub open spec fn flag_int(b: bool) -> i32 {
    if b { 1 } else { 0 }
}

/// A note as the store holds it: tags as JSON text, the pin flag as 0 or 1.
#[derive(Clone, Debug, PartialEq)]
pub struct NoteRow {
    pub id: String,
    pub title: String,
    pub content: String,
    pub folder_id: Option<String>,
    pub tags: String,
    pub is_pinned: i32,
    pub created_at: i64,
    pub updated_at: i64,
    pub deleted_at: Option<i64>,
}

/// An event as the store holds it: tags as JSON text and flags as 0 or 1.
#[derive(Clone, Debug, PartialEq)]
pub struct EventRow {
    pub id: String,
    pub title: String,
    pub description: Option<String>,
    pub event_type: Option<String>,
    pub start_time: Option<String>,
    pub end_time: Option<String>,
    pub has_scheduled_time: i32,
    pub time_mode: String,
    pub duration_minutes: Option<i32>,
    pub location: Option<String>,
    pub category: Option<String>,
    pub color: Option<String>,
    pub priority: Option<String>,
    pub tags: String,
    pub show_on_calendar: i32,
    pub is_all_day: i32,
    pub is_recurring: i32,
    pub recurring_pattern: Option<String>,
    pub status: Option<String>,
    pub reminders: Vec<EventReminder>,
    pub notes: Option<String>,
    pub created_at: i64,
    pub updated_at: i64,
    pub deleted_at: Option<i64>,
}

/// A node as the store holds it: the collapse flag as 0 or 1.
#[derive(Clone, Debug, PartialEq)]
pub struct BrainMapNodeRow {
    pub id: String,
    pub brain_map_id: String,
    pub parent_node_id: Option<String>,
    pub label: String,
    pub description: Option<String>,
    pub x: Coord,
    pub y: Coord,
    pub color: Option<String>,
    pub shape: Option<String>,
    pub size: Option<String>,
    pub icon: Option<String>,
    pub linked_note_id: Option<String>,
    pub linked_folder_id: Option<String>,
    pub is_collapsed: i32,
    pub layer: i32,
    pub created_at: i64,
    pub updated_at: i64,
}

/// A connection as the store holds it: the animation flag as 0 or 1.
#[derive(Clone, Debug, PartialEq)]
pub struct BrainMapConnectionRow {
    pub id: String,
    pub brain_map_id: String,
    pub source_node_id: String,
    pub target_node_id: String,
    pub label: Option<String>,
    pub color: Option<String>,
    pub style: Option<String>,
    pub animated: i32,
    pub created_at: i64,
}

/// The note a stored row holds. Tags that cannot be read count as none.
pub fn row_to_note(row: NoteRow) -> (r: Note)
    ensures
        r.id == row.id,
        r.title == row.title,
        r.content == row.content,
        r.folder_id == row.folder_id,
        texts(r.tags@) == match strings_of_json(row.tags@) {
            Some(v) => v,
            None => Seq::empty(),
        },
        r.is_pinned == (row.is_pinned != 0),
        r.created_at == row.created_at,
        r.updated_at == row.updated_at,
        r.deleted_at == row.deleted_at,
{
    let tags = tags_from_text(row.tags.as_str());
    Note {
        id: row.id,
        title: row.title,
        content: row.content,
        folder_id: row.folder_id,
        tags: tags,
        is_pinned: row.is_pinned != 0,
        created_at: row.created_at,
        updated_at: row.updated_at,
        deleted_at: row.deleted_at,
    }
}

/// The stored row of a note.
pub fn note_to_row(n: &Note) -> (r: NoteRow)
    ensures
        r.id == n.id,
        r.title == n.title,
        r.content == n.content,
        r.folder_id == n.folder_id,
        r.tags@ == json_of_strings(texts(n.tags@)),
        r.is_pinned == flag_int(n.is_pinned),
        r.created_at == n.created_at,
        r.updated_at == n.updated_at,
        r.deleted_at == n.deleted_at,
{
    NoteRow {
        id: n.id.clone(),
        title: n.title.clone(),
        content: n.content.clone(),
        folder_id: n.folder_id.clone(),
        tags: tags_to_text(&n.tags),
        is_pinned: if n.is_pinned { 1 } else { 0 },
        created_at: n.created_at,
        updated_at: n.updated_at,
        deleted_at: n.deleted_at,
    }
}

/// The event a stored row holds. Tags that cannot be read count as none.
pub fn row_to_event(row: EventRow) -> (r: Event)
    ensures
        r.id == row.id,
        r.title == row.title,
        r.description == row.description,
        r.event_type == row.event_type,
        r.start_time == row.start_time,
        r.end_time == row.end_time,
        r.has_scheduled_time == (row.has_scheduled_time != 0),
        r.time_mode == row.time_mode,
        r.duration_minutes == row.duration_minutes,
        r.location == row.location,
        r.category == row.category,
        r.color == row.color,
        r.priority == row.priority,
        texts(r.tags@) == match strings_of_json(row.tags@) {
            Some(v) => v,
            None => Seq::empty(),
        },
        r.show_on_calendar == (row.show_on_calendar != 0),
        r.is_all_day == (row.is_all_day != 0),
        r.is_recurring == (row.is_recurring != 0),
        r.recurring_pattern == row.recurring_pattern,
        r.status == row.status,
        r.reminders == row.reminders,
        r.notes == row.notes,
        r.created_at == row.created_at,
        r.updated_at == row.updated_at,
        r.deleted_at == row.deleted_at,
{
    let tags = tags_from_text(row.tags.as_str());
    Event {
        id: row.id,
        title: row.title,
        description: row.description,
        event_type: row.event_type,
        start_time: row.start_time,
        end_time: row.end_time,
        has_scheduled_time: row.has_scheduled_time != 0,
        time_mode: row.time_mode,
        duration_minutes: row.duration_minutes,
        location: row.location,
        category: row.category,
        color: row.color,
        priority: row.priority,
        tags: tags,
        show_on_calendar: row.show_on_calendar != 0,
        is_all_day: row.is_all_day != 0,
        is_recurring: row.is_recurring != 0,
        recurring_pattern: row.recurring_pattern,
        status: row.status,
        reminders: row.reminders,
        notes: row.notes,
        created_at: row.created_at,
        updated_at: row.updated_at,
        deleted_at: row.deleted_at,
    }
}

/// The stored row of an event.
pub fn event_to_row(e: &Event) -> (r: EventRow)
    ensures
        r.id == e.id,
        r.title == e.title,
        r.description == e.description,
        r.event_type == e.event_type,
        r.start_time == e.start_time,
        r.end_time == e.end_time,
        r.has_scheduled_time == flag_int(e.has_scheduled_time),
        r.time_mode == e.time_mode,
        r.duration_minutes == e.duration_minutes,
        r.location == e.location,
        r.category == e.category,
        r.color == e.color,
        r.priority == e.priority,
        r.tags@ == json_of_strings(texts(e.tags@)),
        r.show_on_calendar == flag_int(e.show_on_calendar),
        r.is_all_day == flag_int(e.is_all_day),
        r.is_recurring == flag_int(e.is_recurring),
        r.recurring_pattern == e.recurring_pattern,
        r.status == e.status,
        r.reminders@ == e.reminders@,
        r.notes == e.notes,
        r.created_at == e.created_at,
        r.updated_at == e.updated_at,
        r.deleted_at == e.deleted_at,
{
    EventRow {
        id: e.id.clone(),
        title: e.title.clone(),
        description: e.description.clone(),
        event_type: e.event_type.clone(),
        start_time: e.start_time.clone(),
        end_time: e.end_time.clone(),
        has_scheduled_time: if e.has_scheduled_time { 1 } else { 0 },
        time_mode: e.time_mode.clone(),
        duration_minutes: e.duration_minutes,
        location: e.location.clone(),
        category: e.category.clone(),
        color: e.color.clone(),
        priority: e.priority.clone(),
        tags: tags_to_text(&e.tags),
        show_on_calendar: if e.show_on_calendar { 1 } else { 0 },
        is_all_day: if e.is_all_day { 1 } else { 0 },
        is_recurring: if e.is_recurring { 1 } else { 0 },
        recurring_pattern: e.recurring_pattern.clone(),
        status: e.status.clone(),
        reminders: crate::models::copy_reminders(&e.reminders),
        notes: e.notes.clone(),
        created_at: e.created_at,
        updated_at: e.updated_at,
        deleted_at: e.deleted_at,
    }
}

/// The node a stored row holds.
pub fn row_to_brain_map_node(row: BrainMapNodeRow) -> (r: BrainMapNode)
    ensures
        r == (BrainMapNode {
            id: row.id,
            brain_map_id: row.brain_map_id,
            parent_node_id: row.parent_node_id,
            label: row.label,
            description: row.description,
            x: row.x,
            y: row.y,
            color: row.color,
            shape: row.shape,
            size: row.size,
            icon: row.icon,
            linked_note_id: row.linked_note_id,
            linked_folder_id: row.linked_folder_id,
            is_collapsed: row.is_collapsed != 0,
            layer: row.layer,
            created_at: row.created_at,
            updated_at: row.updated_at,
        }),
{
    BrainMapNode {
        id: row.id,
        brain_map_id: row.brain_map_id,
        parent_node_id: row.parent_node_id,
        label: row.label,
        description: row.description,
        x: row.x,
        y: row.y,
        color: row.color,
        shape: row.shape,
        size: row.size,
        icon: row.icon,
        linked_note_id: row.linked_note_id,
        linked_folder_id: row.linked_folder_id,
        is_collapsed: row.is_collapsed != 0,
        layer: row.layer,
        created_at: row.created_at,
        updated_at: row.updated_at,
    }
}

/// The stored row of a node.
pub fn brain_map_node_to_row(n: &BrainMapNode) -> (r: BrainMapNodeRow)
    ensures
        r == (BrainMapNodeRow {
            id: n.id,
            brain_map_id: n.brain_map_id,
            parent_node_id: n.parent_node_id,
            label: n.label,
            description: n.description,
            x: n.x,
            y: n.y,
            color: n.color,
            shape: n.shape,
            size: n.size,
            icon: n.icon,
            linked_note_id: n.linked_note_id,
            linked_folder_id: n.linked_folder_id,
            is_collapsed: flag_int(n.is_collapsed),
            layer: n.layer,
            created_at: n.created_at,
            updated_at: n.updated_at,
        }),
{
    BrainMapNodeRow {
        id: n.id.clone(),
        brain_map_id: n.brain_map_id.clone(),
        parent_node_id: n.parent_node_id.clone(),
        label: n.label.clone(),
        description: n.description.clone(),
        x: n.x,
        y: n.y,
        color: n.color.clone(),
        shape: n.shape.clone(),
        size: n.size.clone(),
        icon: n.icon.clone(),
        linked_note_id: n.linked_note_id.clone(),
        linked_folder_id: n.linked_folder_id.clone(),
        is_collapsed: if n.is_collapsed { 1 } else { 0 },
        layer: n.layer,
        created_at: n.created_at,
        updated_at: n.updated_at,
    }
}

/// The connection a stored row holds.
pub fn row_to_brain_map_connection(row: BrainMapConnectionRow) -> (r: BrainMapConnection)
    ensures
        r == (BrainMapConnection {
            id: row.id,
            brain_map_id: row.brain_map_id,
            source_node_id: row.source_node_id,
            target_node_id: row.target_node_id,
            label: row.label,
            color: row.color,
            style: row.style,
            animated: row.animated != 0,
            created_at: row.created_at,
        }),
{
    BrainMapConnection {
        id: row.id,
        brain_map_id: row.brain_map_id,
        source_node_id: row.source_node_id,
        target_node_id: row.target_node_id,
        label: row.label,
        color: row.color,
        style: row.style,
        animated: row.animated != 0,
        created_at: row.created_at,
    }
}

/// The stored row of a connection.
pub fn brain_map_connection_to_row(c: &BrainMapConnection) -> (r: BrainMapConnectionRow)
    ensures
        r == (BrainMapConnectionRow {
            id: c.id,
            brain_map_id: c.brain_map_id,
            source_node_id: c.source_node_id,
            target_node_id: c.target_node_id,
            label: c.label,
            color: c.color,
            style: c.style,
            animated: flag_int(c.animated),
            created_at: c.created_at,
        }),
{
    BrainMapConnectionRow {
        id: c.id.clone(),
        brain_map_id: c.brain_map_id.clone(),
        source_node_id: c.source_node_id.clone(),
        target_node_id: c.target_node_id.clone(),
        label: c.label.clone(),
        color: c.color.clone(),
        style: c.style.clone(),
        animated: if c.animated { 1 } else { 0 },
        created_at: c.created_at,
    }
}

/// Whether a table's column list lacks `name`.
pub fn missing_column(columns: &Vec<String>, name: &String) -> (r: bool)
    ensures
        r == forall|i: int| 0 <= i < columns@.len() ==> #[trigger] columns@[i]@ != name@,
{
    let mut i: usize = 0;
    while i < columns.len()
        invariant
            i <= columns@.len(),
            forall|j: int| 0 <= j < i ==> #[trigger] columns@[j]@ != name@,
        decreases columns@.len() - i,
    {
        if columns[i] == *name {
            return false;
        }
        i = i + 1;
    }
    true
}

} // verus!
