//! The journal as its contracts see it: a sequence of entries, a selection,
//! and what each operation of the store makes of the two.

use crate::entry::{Entry, Timestamp};
use crate::lookup::{contains_id, distinct_ids, entry_with_id, index_of_id};
use crate::order::{newest_first, sorted_newest_first};
use vstd::prelude::*;

verus! {

/// The state of a journal: its entries in the order they are shown, and the
/// identifier of the selected entry, if one is selected.
pub struct JournalState {
    pub entries: Seq<Entry>,
    pub current: Option<u32>,
}

impl JournalState {
    /// No entries, nothing selected.
    pub open spec fn empty() -> JournalState {
        JournalState { entries: Seq::empty(), current: None }
    }

    /// Some entry carries `id`.
    pub open spec fn holds(self, id: u32) -> bool {
        contains_id(self.entries, id)
    }

    /// The first entry that carries `id`.
    pub open spec fn lookup(self, id: u32) -> Option<Entry> {
        entry_with_id(self.entries, id)
    }

    /// The place of the selected entry, if an entry is selected and present.
    pub open spec fn current_index(self) -> Option<int> {
        match self.current {
            Some(id) => index_of_id(self.entries, id),
            None => None,
        }
    }

    /// The selected entry, if an entry is selected and present.
    pub open spec fn current_entry(self) -> Option<Entry> {
        match self.current {
            Some(id) => entry_with_id(self.entries, id),
            None => None,
        }
    }

    /// The selection, if there is one, names an entry of the collection.
    pub open spec fn selection_valid(self) -> bool {
        match self.current {
            Some(id) => contains_id(self.entries, id),
            None => true,
        }
    }

    /// What holds of a journal between operations when the backend hands out
    /// each identifier once: the entries are newest first, no identifier
    /// occurs twice, and the selection names an entry.
    pub open spec fn well_formed(self) -> bool {
        &&& newest_first(self.entries)
        &&& distinct_ids(self.entries)
        &&& self.selection_valid()
    }

    /// The journal after the backend's full set of entries has replaced the
    /// collection: the set put in order, under the selection there was.
    pub open spec fn loaded(self, entries: Seq<Entry>) -> JournalState {
        JournalState { entries: sorted_newest_first(entries), current: self.current }
    }

    /// The journal after `created` has joined it as its latest arrival.
    pub open spec fn added(self, created: Entry) -> JournalState {
        JournalState {
            entries: sorted_newest_first(self.entries.push(created)),
            current: self.current,
        }
    }

    /// The journal after each entry of `arrivals` has been added in turn.
    pub open spec fn added_all(self, arrivals: Seq<Entry>) -> JournalState
        decreases arrivals.len(),
    {
        if arrivals.len() == 0 {
            self
        } else {
            self.added_all(arrivals.drop_last()).added(arrivals.last())
        }
    }

    /// The journal with `id` as its selection.
    pub open spec fn selected(self, id: Option<u32>) -> JournalState {
        JournalState { entries: self.entries, current: id }
    }

    /// The journal after the selected entry has got a new title and date and
    /// the collection is in order again. Without a present selected entry it
    /// is the journal itself.
    pub open spec fn retitled(self, title: String, date: Timestamp) -> JournalState {
        match self.current_index() {
            Some(i) => JournalState {
                entries: sorted_newest_first(
                    self.entries.update(i, self.entries[i].retitled(title, date)),
                ),
                current: self.current,
            },
            None => self,
        }
    }

    /// The journal after the content of the selected entry has been replaced.
    /// Without a present selected entry it is the journal itself.
    pub open spec fn rewritten(self, content: String) -> JournalState {
        match self.current_index() {
            Some(i) => JournalState {
                entries: self.entries.update(i, self.entries[i].with_content(content)),
                current: self.current,
            },
            None => self,
        }
    }

    /// The journal after the first entry that carries `id` has left it. If it
    /// was the selected entry, the selection moves to the entry that is then
    /// first, or to nothing when none is left. Without such an entry it is the
    /// journal itself.
    pub open spec fn deleted(self, id: u32) -> JournalState {
        match index_of_id(self.entries, id) {
            Some(i) => {
                let rest = self.entries.remove(i);
                JournalState {
                    entries: rest,
                    current: if self.current != Some(id) {
                        self.current
                    } else if rest.len() > 0 {
                        Some(rest[0].id)
                    } else {
                        None
                    },
                }
            },
            None => self,
        }
    }
}

} // verus!
