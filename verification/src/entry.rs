//! Journal entries, their drafts, and the instants they are dated with.

use vstd::prelude::*;

verus! {

/// An instant on the UTC time line: whole seconds since the Unix epoch and the
/// nanoseconds into that second.
///
/// Two instants are ordered by their seconds first and their nanoseconds
/// second, so a leap second, written with a nanosecond part of a billion or
/// more, sorts after every ordinary instant of the second it extends.
#[derive(Clone, Copy, Debug, PartialEq, Eq, Structural, Hash)]
pub struct Timestamp {
    pub secs: i64,
    pub nanos: u32,
}

impl Timestamp {
    /// Whether `self` lies strictly earlier than `other`.
    pub open spec fn before(self, other: Timestamp) -> bool {
        self.secs < other.secs || (self.secs == other.secs && self.nanos < other.nanos)
    }

    pub fn new(secs: i64, nanos: u32) -> (t: Timestamp)
        ensures
            t == (Timestamp { secs, nanos }),
    {
        Timestamp { secs, nanos }
    }

    /// Decides `before` on two instants.
    pub fn is_before(&self, other: &Timestamp) -> (b: bool)
        ensures
            b == self.before(*other),
    {
        self.secs < other.secs || (self.secs == other.secs && self.nanos < other.nanos)
    }
}

/// A persisted journal entry.
#[derive(Debug, PartialEq, Eq)]
pub struct Entry {
    /// Assigned by the storage backend when the entry is created.
    pub id: u32,
    /// The instant the entry is filed under; the collection is ordered by it.
    pub date: Timestamp,
    pub title: String,
    pub content: String,
}

/// An entry that has not been persisted yet: it has neither identifier nor
/// content.
#[derive(Debug, PartialEq, Eq)]
pub struct EntryDraft {
    pub date: Timestamp,
    pub title: String,
}

impl EntryDraft {
    pub fn new(date: Timestamp, title: String) -> (draft: EntryDraft)
        ensures
            draft == (EntryDraft { date, title }),
    {
        EntryDraft { date, title }
    }
}

impl Entry {
    /// Whether `self` is what a backend creates from `draft`: the draft's date
    /// and title under some identifier, with no content yet.
    pub open spec fn created_from(self, draft: EntryDraft) -> bool {
        &&& self.date == draft.date
        &&& self.title == draft.title
        &&& self.content@ == Seq::<char>::empty()
    }

    /// The entry a backend creates when it files `draft` under `id`.
    pub fn from_draft(id: u32, draft: EntryDraft) -> (entry: Entry)
        ensures
            entry.id == id,
            entry.created_from(draft),
    {
        Entry { id, date: draft.date, title: draft.title, content: String::new() }
    }

    /// The entry under a new title and date.
    pub open spec fn retitled(self, title: String, date: Timestamp) -> Entry {
        Entry { id: self.id, date, title, content: self.content }
    }

    /// The entry with its content replaced.
    pub open spec fn with_content(self, content: String) -> Entry {
        Entry { id: self.id, date: self.date, title: self.title, content }
    }
}

impl Clone for Entry {
    /// An independent copy, equal to the entry field by field.
    fn clone(&self) -> (copy: Entry)
        ensures
            copy == *self,
    {
        Entry {
            id: self.id,
            date: self.date,
            title: self.title.clone(),
            content: self.content.clone(),
        }
    }
}

impl Clone for EntryDraft {
    /// An independent copy, equal to the draft field by field.
    fn clone(&self) -> (copy: EntryDraft)
        ensures
            copy == *self,
    {
        EntryDraft { date: self.date, title: self.title.clone() }
    }
}

} // verus!
