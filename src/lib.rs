//! The persistence and domain layer of a note-taking, calendar and
//! mind-mapping application: an in-memory store of notes, folders, events,
//! settings and brain maps (maps, their layered nodes and free connections),
//! with the rules that keep them consistent, and the conversions to and from
//! the rows a relational file holds.

pub mod codec;
pub mod connections;
pub mod events;
pub mod folders;
pub mod laws;
pub mod maps;
pub mod models;
pub mod nodes;
pub mod notes;
pub mod ordering;
pub mod record;
pub mod sources;
pub mod store;
pub mod text;
