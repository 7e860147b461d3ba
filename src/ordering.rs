use vstd::prelude::*;
use crate::models::{BrainMap, BrainMapNode, Event, Folder, Note};
use crate::record::Ordered;
use crate::text::{lemma_text_lt_irreflexive, lemma_text_lt_transitive, text_less, text_lt};

verus! {

/// Notes: pinned first, then most recently updated first.
impl Ordered for Note {
    open spec fn before(&self, o: &Self) -> bool {
        (self.is_pinned && !o.is_pinned) || (self.is_pinned == o.is_pinned && self.updated_at
            > o.updated_at)
    }

    fn comes_before(&self, o: &Self) -> (r: bool) {
        (self.is_pinned && !o.is_pinned) || (self.is_pinned == o.is_pinned && self.updated_at
            > o.updated_at)
    }

    proof fn lemma_before_irreflexive(a: &Self) {
    }

    proof fn lemma_before_transitive(a: &Self, b: &Self, c: &Self) {
    }
}

/// Folders: by name.
impl Ordered for Folder {
    open spec fn before(&self, o: &Self) -> bool {
        text_lt(self.name@, o.name@)
    }

    fn comes_before(&self, o: &Self) -> (r: bool) {
        text_less(self.name.as_str(), o.name.as_str())
    }

    proof fn lemma_before_irreflexive(a: &Self) {
        lemma_text_lt_irreflexive(a.name@);
    }

    proof fn lemma_before_transitive(a: &Self, b: &Self, c: &Self) {
        lemma_text_lt_transitive(a.name@, b.name@, c.name@);
    }
}

/// Events: by start time, events without one first.
impl Ordered for Event {
    open spec fn before(&self, o: &Self) -> bool {
        match (self.start_time, o.start_time) {
            (None, Some(_)) => true,
            (Some(a), Some(b)) => text_lt(a@, b@),
            _ => false,
        }
    }

    fn comes_before(&self, o: &Self) -> (r: bool) {
        match (&self.start_time, &o.start_time) {
            (None, Some(_)) => true,
            (Some(a), Some(b)) => text_less(a.as_str(), b.as_str()),
            _ => false,
        }
    }

    proof fn lemma_before_irreflexive(a: &Self) {
        if let Some(s) = a.start_time {
            lemma_text_lt_irreflexive(s@);
        }
    }

    proof fn lemma_before_transitive(a: &Self, b: &Self, c: &Self) {
        if a.start_time.is_some() {
            lemma_text_lt_transitive(
                a.start_time.unwrap()@,
                b.start_time.unwrap()@,
                c.start_time.unwrap()@,
            );
        }
    }
}

/// Maps: most recently updated first.
impl Ordered for BrainMap {
    open spec fn before(&self, o: &Self) -> bool {
        self.updated_at > o.updated_at
    }

    fn comes_before(&self, o: &Self) -> (r: bool) {
        self.updated_at > o.updated_at
    }

    proof fn lemma_before_irreflexive(a: &Self) {
    }

    proof fn lemma_before_transitive(a: &Self, b: &Self, c: &Self) {
    }
}

/// Nodes: by layer, then by creation time.
impl Ordered for BrainMapNode {
    open spec fn before(&self, o: &Self) -> bool {
        self.layer < o.layer || (self.layer == o.layer && self.created_at < o.created_at)
    }

    fn comes_before(&self, o: &Self) -> (r: bool) {
        self.layer < o.layer || (self.layer == o.layer && self.created_at < o.created_at)
    }

    proof fn lemma_before_irreflexive(a: &Self) {
    }

    proof fn lemma_before_transitive(a: &Self, b: &Self, c: &Self) {
    }
}

} // verus!
