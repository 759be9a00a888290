//! The entry store: the collection of entries as the journal shows it, and the
//! selection that points into it.
//!
//! The store never talks to the storage backend itself. Whoever drives it asks
//! the backend first and hands the store what the backend answered, failure
//! included: the store changes on an answer that says the backend has done its
//! part, and hands a failure back untouched, having changed nothing.

use crate::entry::{Entry, Timestamp};
use crate::lookup::{
    contains_id, distinct_ids, lemma_index_of_id, lemma_insert_ids, lemma_remove_ids,
    lemma_sorted_ids, lemma_update_ids, position_of_id,
};
use crate::model::JournalState;
use crate::order::{
    dated, lemma_remove_keeps_newest_first, lemma_sorted_len, lemma_update_keeps_newest_first,
    newest_first, sort_newest_first,
};
use vstd::prelude::*;

verus! {

/// The entries of a journal, newest first, with the identifier of the entry
/// that is currently selected, if one is, and the settings the journal was
/// started with.
pub struct App<S> {
    pub entries: Vec<Entry>,
    pub current_entry_id: Option<u32>,
    pub settings: S,
}

impl<S> View for App<S> {
    type V = JournalState;

    open spec fn view(&self) -> JournalState {
        JournalState { entries: self.entries@, current: self.current_entry_id }
    }
}

impl<S> App<S> {
    /// An empty store with nothing selected.
    pub fn new(settings: S) -> (app: Self)
        ensures
            app@ == JournalState::empty(),
            app.settings == settings,
            app@.well_formed(),
    {
        App { entries: Vec::new(), current_entry_id: None, settings }
    }

    /// Takes in what the backend answered when asked for all its entries. The
    /// entries replace the collection, put newest first; the selection is left
    /// as it is. A failure is handed back and changes nothing.
    pub fn load_entries<E>(&mut self, loaded: Result<Vec<Entry>, E>) -> (done: Result<(), E>)
        ensures
            match loaded {
                Ok(entries) => {
                    &&& done is Ok
                    &&& final(self)@ == old(self)@.loaded(entries@)
                    &&& final(self).settings == old(self).settings
                    &&& newest_first(final(self)@.entries)
                    &&& forall|d: Timestamp| #[trigger]
                        dated(final(self)@.entries, d) == dated(entries@, d)
                    &&& distinct_ids(final(self)@.entries) == distinct_ids(entries@)
                    &&& forall|id: u32| #[trigger]
                        final(self)@.holds(id) == contains_id(entries@, id)
                    &&& distinct_ids(entries@) && (old(self)@.current matches Some(id)
                        ==> contains_id(entries@, id)) ==> final(self)@.well_formed()
                },
                Err(error) => done == Err::<(), E>(error) && *final(self) == *old(self),
            },
    {
        match loaded {
            Ok(entries) => {
                proof {
                    lemma_sorted_ids(entries@);
                }
                self.entries = entries;
                sort_newest_first(&mut self.entries);
                Ok(())
            },
            Err(error) => Err(error),
        }
    }

    /// The first entry that carries `entry_id`.
    pub fn get_entry(&self, entry_id: u32) -> (found: Option<&Entry>)
        ensures
            match found {
                Some(entry) => self@.lookup(entry_id) == Some(*entry),
                None => self@.lookup(entry_id) is None,
            },
    {
        match position_of_id(&self.entries, entry_id) {
            Some(i) => Some(&self.entries[i]),
            None => None,
        }
    }

    /// Takes in what the backend answered when asked to create an entry of a
    /// draft. The created entry joins the collection at its place in the
    /// order, and its identifier is returned. A failure is handed back and
    /// changes nothing.
    pub fn add_entry<E>(&mut self, created: Result<Entry, E>) -> (added: Result<u32, E>)
        ensures
            match created {
                Ok(entry) => {
                    &&& added == Ok::<u32, E>(entry.id)
                    &&& final(self)@ == old(self)@.added(entry)
                    &&& final(self).settings == old(self).settings
                    &&& newest_first(final(self)@.entries)
                    &&& forall|d: Timestamp| #[trigger]
                        dated(final(self)@.entries, d) == dated(
                            old(self)@.entries.push(entry),
                            d,
                        )
                    &&& final(self)@.holds(entry.id)
                    &&& distinct_ids(final(self)@.entries) == (distinct_ids(old(self)@.entries)
                        && !old(self)@.holds(entry.id))
                    &&& old(self)@.selection_valid() ==> final(self)@.selection_valid()
                    &&& old(self)@.well_formed() && !old(self)@.holds(entry.id) ==> final(
                        self)@.well_formed()
                },
                Err(error) => added == Err::<u32, E>(error) && *final(self) == *old(self),
            },
    {
        match created {
            Ok(entry) => {
                let entry_id = entry.id;
                proof {
                    let pushed = self.entries@.push(entry);
                    assert(pushed =~= self.entries@.insert(self.entries@.len() as int, entry));
                    lemma_insert_ids(self.entries@, self.entries@.len() as int, entry);
                    lemma_sorted_ids(pushed);
                }
                self.entries.push(entry);
                sort_newest_first(&mut self.entries);
                Ok(entry_id)
            },
            Err(error) => Err(error),
        }
    }

    /// The selected entry, if an entry is selected and present.
    pub fn get_current_entry(&self) -> (found: Option<&Entry>)
        ensures
            match found {
                Some(entry) => self@.current_entry() == Some(*entry),
                None => self@.current_entry() is None,
            },
    {
        match self.current_entry_id {
            Some(id) => match position_of_id(&self.entries, id) {
                Some(i) => Some(&self.entries[i]),
                None => None,
            },
            None => None,
        }
    }

    /// The selected entry, for changing it in place.
    ///
    /// Whoever changes the date or the identifier through the reference is
    /// answerable for the order and the distinctness of the collection.
    pub fn get_current_entry_mut(&mut self) -> (found: Option<&mut Entry>)
        ensures
            match found {
                Some(entry) => {
                    &&& old(self)@.current_index() matches Some(i)
                    &&& *entry == old(self)@.entries[i]
                    &&& final(self)@.entries == old(self)@.entries.update(i, *final(entry))
                    &&& final(self)@.current == old(self)@.current
                    &&& final(self).settings == old(self).settings
                },
                None => old(self)@.current_index() is None && *final(self) == *old(self),
            },
    {
        match self.current_entry_id {
            Some(id) => match position_of_id(&self.entries, id) {
                Some(i) => Some(&mut self.entries[i]),
                None => None,
            },
            None => None,
        }
    }

    /// Selects the entry named by `entry_id`, or nothing. Whether such an entry
    /// exists is not looked at.
    pub fn set_current_entry(&mut self, entry_id: Option<u32>)
        ensures
            final(self)@ == old(self)@.selected(entry_id),
            final(self).settings == old(self).settings,
            old(self)@.well_formed() && (entry_id matches Some(id) ==> old(self)@.holds(id))
                ==> final(self)@.well_formed(),
    {
        self.current_entry_id = entry_id;
    }

    /// What `update_current_entry` would make of the selected entry: the value
    /// to have the backend persist before the store is changed. Nothing, if no
    /// present entry is selected.
    pub fn staged_update(&self, title: String, date: Timestamp) -> (staged: Option<Entry>)
        ensures
            match staged {
                Some(entry) => self@.current_entry() matches Some(current) && entry
                    == current.retitled(title, date),
                None => self@.current_entry() is None,
            },
    {
        match self.get_current_entry() {
            Some(current) => Some(
                Entry { id: current.id, date, title, content: current.content.clone() },
            ),
            None => None,
        }
    }

    /// Takes in what the backend answered when asked to persist the value that
    /// `staged_update` gave for `title` and `date`. On its confirmation the
    /// selected entry gets that title and date and the collection is put back
    /// in order. A failure is handed back and changes nothing.
    pub fn update_current_entry<E>(
        &mut self,
        persisted: Result<(), E>,
        title: String,
        date: Timestamp,
    ) -> (done: Result<(), E>)
        requires
            old(self)@.current_entry() is Some,
        ensures
            match persisted {
                Ok(_) => {
                    &&& done is Ok
                    &&& final(self)@ == old(self)@.retitled(title, date)
                    &&& final(self).settings == old(self).settings
                    &&& newest_first(final(self)@.entries)
                    &&& final(self)@.entries.len() == old(self)@.entries.len()
                    &&& distinct_ids(final(self)@.entries) == distinct_ids(old(self)@.entries)
                    &&& final(self)@.selection_valid()
                    &&& old(self)@.well_formed() ==> final(self)@.well_formed()
                },
                Err(error) => done == Err::<(), E>(error) && *final(self) == *old(self),
            },
    {
        match persisted {
            Ok(_) => {
                let ghost i = self@.current_index().unwrap();
                let ghost changed = self.entries@[i].retitled(title, date);
                proof {
                    lemma_index_of_id(self.entries@, self.current_entry_id.unwrap());
                    lemma_update_ids(self.entries@, i, changed);
                    lemma_sorted_ids(self.entries@.update(i, changed));
                    lemma_sorted_len(self.entries@.update(i, changed));
                }
                let entry = self.get_current_entry_mut().unwrap();
                entry.title = title;
                entry.date = date;
                sort_newest_first(&mut self.entries);
                Ok(())
            },
            Err(error) => Err(error),
        }
    }

    /// Replaces the content of the selected entry and returns a copy of the
    /// entry for the backend to persist. Without a present selected entry the
    /// store is left as it is and there is nothing to persist.
    pub fn update_current_entry_content(&mut self, entry_content: String) -> (persist: Option<
        Entry,
    >)
        ensures
            final(self)@ == old(self)@.rewritten(entry_content),
            final(self).settings == old(self).settings,
            persist == match old(self)@.current_entry() {
                Some(current) => Some(current.with_content(entry_content)),
                None => None,
            },
            old(self)@.current_entry() is None ==> *final(self) == *old(self),
            old(self)@.well_formed() ==> final(self)@.well_formed(),
    {
        proof {
            if let Some(i) = self@.current_index() {
                let changed = self.entries@[i].with_content(entry_content);
                lemma_index_of_id(self.entries@, self.current_entry_id.unwrap());
                lemma_update_ids(self.entries@, i, changed);
                if newest_first(self.entries@) {
                    lemma_update_keeps_newest_first(self.entries@, i, changed);
                }
            }
        }
        match self.get_current_entry_mut() {
            Some(entry) => {
                entry.content = entry_content;
                Some(entry.clone())
            },
            None => None,
        }
    }

    /// Takes in what the backend answered when asked to remove the entry
    /// `entry_id`. On its confirmation the first entry that carries the
    /// identifier leaves the collection; if it was the selected one, the
    /// selection moves to the entry that is now first, or to nothing if none
    /// is left, and the result says whether it moved. A failure is handed back
    /// and changes nothing.
    ///
    /// An entry that the backend has removed must have been in the collection.
    pub fn delete_entry<E>(&mut self, removed: Result<(), E>, entry_id: u32) -> (reselected:
        Result<bool, E>)
        requires
            removed is Ok ==> old(self)@.holds(entry_id),
        ensures
            match removed {
                Ok(_) => {
                    &&& reselected == Ok::<bool, E>(old(self)@.current == Some(entry_id))
                    &&& final(self)@ == old(self)@.deleted(entry_id)
                    &&& final(self).settings == old(self).settings
                    &&& final(self)@.entries.len() == old(self)@.entries.len() - 1
                    &&& newest_first(old(self)@.entries) ==> newest_first(final(self)@.entries)
                    &&& distinct_ids(old(self)@.entries) ==> distinct_ids(final(self)@.entries)
                        && !final(self)@.holds(entry_id)
                    &&& old(self)@.selection_valid() ==> final(self)@.selection_valid()
                    &&& old(self)@.well_formed() ==> final(self)@.well_formed()
                },
                Err(error) => reselected == Err::<bool, E>(error) && *final(self) == *old(self),
            },
    {
        match removed {
            Ok(_) => {
                let found = position_of_id(&self.entries, entry_id);
                let index = found.unwrap();
                proof {
                    lemma_remove_ids(self.entries@, index as int);
                    if newest_first(self.entries@) {
                        lemma_remove_keeps_newest_first(self.entries@, index as int);
                    }
                }
                let removed_entry = self.entries.remove(index);
                let reselected = match self.current_entry_id {
                    Some(id) => id == removed_entry.id,
                    None => false,
                };
                if reselected {
                    let first_id = if self.entries.len() > 0 {
                        Some(self.entries[0].id)
                    } else {
                        None
                    };
                    self.set_current_entry(first_id);
                }
                Ok(reselected)
            },
            Err(error) => Err(error),
        }
    }

    /// The content of the first entry that carries `entry_id`, as an export
    /// writes it to a file.
    pub fn journal_content(&self, entry_id: u32) -> (content: &String)
        requires
            self@.holds(entry_id),
        ensures
            self@.lookup(entry_id) matches Some(entry) && entry.content == *content,
    {
        let found = position_of_id(&self.entries, entry_id);
        &self.entries[found.unwrap()].content
    }
}

} // verus!
