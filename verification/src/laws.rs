//! What holds across operations of the store, stated over the journal states
//! that the operations' contracts speak of.

use crate::entry::{Entry, EntryDraft, Timestamp};
use crate::lookup::{
    carried_once, contains_id, distinct_ids, index_of_id, lemma_index_of_id, lemma_insert_ids,
    lemma_remove_ids, lemma_sorted_entries, lemma_sorted_ids, lemma_update_ids,
};
use crate::model::JournalState;
use crate::order::{
    dated, lemma_remove_keeps_newest_first, lemma_slot_for, lemma_update_keeps_newest_first, law_sorted_fixes_ordered,
    law_sorted_is_newest_first, law_sorted_is_stable, newest_first, slot_for,
    sorted_newest_first,
};
use vstd::prelude::*;

verus! {

/// Whatever was loaded, the collection is newest first afterwards, and entries
/// of one date stand in the order the backend gave them.
pub proof fn law_loaded_is_ordered(journal: JournalState, entries: Seq<Entry>)
    ensures
        newest_first(journal.loaded(entries).entries),
        forall|d: Timestamp| #[trigger] dated(journal.loaded(entries).entries, d) == dated(entries, d),
{
    law_sorted_is_newest_first(entries);
    assert forall|d: Timestamp| #[trigger]
        dated(journal.loaded(entries).entries, d) == dated(entries, d) by {
        law_sorted_is_stable(entries, d);
    }
}

/// After any run of additions the collection is newest first, and it is what
/// loading the old entries followed by the arrivals would have given: entries
/// of one date stand in the order they arrived in.
pub proof fn law_additions_are_ordered(journal: JournalState, arrivals: Seq<Entry>)
    requires
        arrivals.len() > 0 || newest_first(journal.entries),
    ensures
        newest_first(journal.added_all(arrivals).entries),
        journal.added_all(arrivals).entries == sorted_newest_first(journal.entries + arrivals),
        journal.added_all(arrivals).current == journal.current,
        forall|d: Timestamp| #[trigger]
            dated(journal.added_all(arrivals).entries, d) == dated(journal.entries, d) + dated(
                arrivals,
                d,
            ),
    decreases arrivals.len(),
{
    let all = journal.entries + arrivals;
    if arrivals.len() == 0 {
        assert(all =~= journal.entries);
        law_sorted_fixes_ordered(journal.entries);
    } else {
        let rest = arrivals.drop_last();
        let x = arrivals.last();
        let before = journal.added_all(rest);
        assert(all.drop_last() =~= journal.entries + rest);
        assert(all.last() == x);
        if rest.len() == 0 {
            // the first addition puts right whatever order there was
            assert(all =~= journal.entries.push(x));
        } else {
            law_additions_are_ordered(journal, rest);
            assert(before.entries.push(x).drop_last() =~= before.entries);
            law_sorted_fixes_ordered(before.entries);
        }
    }
    law_sorted_is_newest_first(all);
    assert forall|d: Timestamp| #[trigger]
        dated(journal.added_all(arrivals).entries, d) == dated(journal.entries, d) + dated(
            arrivals,
            d,
        ) by {
        law_sorted_is_stable(all, d);
        Seq::filter_distributes_over_add(journal.entries, arrivals, |e: Entry| e.date == d);
    }
}

/// An entry that joins a collection already in order goes behind every entry
/// that is not older than it and in front of every older one; nothing else
/// moves.
pub proof fn law_add_keeps_places(journal: JournalState, created: Entry)
    requires
        newest_first(journal.entries),
    ensures
        journal.added(created).entries == journal.entries.insert(
            slot_for(journal.entries, created.date),
            created,
        ),
        0 <= slot_for(journal.entries, created.date) <= journal.entries.len(),
        forall|j: int|
            0 <= j < slot_for(journal.entries, created.date) ==> !(
            #[trigger] journal.entries[j]).date.before(created.date),
        forall|j: int|
            slot_for(journal.entries, created.date) <= j < journal.entries.len() ==> (
            #[trigger] journal.entries[j]).date.before(created.date),
{
    let entries = journal.entries;
    let pushed = entries.push(created);
    assert(pushed.drop_last() =~= entries);
    law_sorted_fixes_ordered(entries);
    lemma_slot_for(entries, created.date);
    let k = slot_for(entries, created.date);
    assert forall|j: int| 0 <= j < k implies !(#[trigger] entries[j]).date.before(
        created.date,
    ) by {
        if j < k - 1 {
            assert(!entries[j].date.before(entries[k - 1].date));
        }
    }
}

/// After an entry has been added, looking its identifier up finds exactly the
/// added entry, provided that every entry which carried that identifier
/// before is older than it, as is the case whenever the identifier is fresh.
/// If the backend made the entry of a draft, what is found has the draft's
/// title and date and no content.
pub proof fn law_added_entry_is_found(journal: JournalState, created: Entry, draft: EntryDraft)
    requires
        forall|j: int|
            0 <= j < journal.entries.len() && (#[trigger] journal.entries[j]).id == created.id
                ==> journal.entries[j].date.before(created.date),
        created.created_from(draft),
    ensures
        journal.added(created).lookup(created.id) == Some(created),
        journal.added(created).lookup(created.id) matches Some(found) && found.title
            == draft.title && found.date == draft.date && found.content@.len() == 0,
{
    lemma_added_is_found(journal.entries, created);
}

/// The added entry is the first that is found under its identifier when every
/// entry that carried the identifier before is older.
proof fn lemma_added_is_found(entries: Seq<Entry>, created: Entry)
    requires
        forall|j: int|
            0 <= j < entries.len() && (#[trigger] entries[j]).id == created.id
                ==> entries[j].date.before(created.date),
    ensures
        index_of_id(sorted_newest_first(entries.push(created)), created.id) matches Some(i)
            && sorted_newest_first(entries.push(created))[i] == created,
{
    let pushed = entries.push(created);
    let after = sorted_newest_first(pushed);
    assert(pushed[entries.len() as int] == created);
    assert(pushed.contains(created));
    lemma_sorted_entries(pushed, created);
    law_sorted_is_newest_first(pushed);
    let at = choose|i: int| 0 <= i < after.len() && after[i] == created;
    assert(contains_id(after, created.id)) by {
        assert(after[at].id == created.id);
    }
    lemma_index_of_id(after, created.id);
    let first = index_of_id(after, created.id).unwrap();
    if after[first] != created {
        // an entry that carried the identifier before: older than the added
        // one, yet in front of it
        assert(after.contains(after[first]));
        lemma_sorted_entries(pushed, after[first]);
        let k = choose|k: int| 0 <= k < pushed.len() && pushed[k] == after[first];
        assert(k < entries.len());
        assert(entries[k].date.before(created.date));
        if first < at {
            assert(!after[first].date.before(after[at].date));
        } else if at < first {
            assert(after[at].id != created.id);
        }
    }
}

/// Once an entry has been deleted, looking its identifier up finds nothing,
/// provided that no second entry carried the identifier, as is the case among
/// distinct identifiers.
pub proof fn law_deleted_entry_is_gone(journal: JournalState, entry_id: u32)
    requires
        carried_once(journal.entries, entry_id),
    ensures
        journal.deleted(entry_id).lookup(entry_id) is None,
        !journal.deleted(entry_id).holds(entry_id),
{
    let entries = journal.entries;
    lemma_index_of_id(entries, entry_id);
    if let Some(i) = index_of_id(entries, entry_id) {
        let rest = entries.remove(i);
        if contains_id(rest, entry_id) {
            let j = choose|j: int| 0 <= j < rest.len() && (#[trigger] rest[j]).id == entry_id;
            let j0 = if j < i { j } else { j + 1 };
            assert(rest[j] == entries[j0]);
            if j0 < i {
                assert(entries[j0].id == entry_id && entries[i].id == entry_id);
            } else {
                assert(entries[i].id == entry_id && entries[j0].id == entry_id);
            }
        }
        lemma_index_of_id(rest, entry_id);
    }
}

/// Deleting the selected entry moves the selection to the first entry that
/// remains, which in an ordered journal is one that none is newer than, and
/// to nothing when no entry remains. Either way the selection is valid.
pub proof fn law_deleting_current_selects_first(journal: JournalState, entry_id: u32)
    requires
        journal.current == Some(entry_id),
        journal.holds(entry_id),
    ensures
        journal.deleted(entry_id).entries.len() == journal.entries.len() - 1,
        journal.deleted(entry_id).current == if journal.entries.len() == 1 {
            None
        } else {
            Some(journal.deleted(entry_id).entries[0].id)
        },
        journal.deleted(entry_id).selection_valid(),
        newest_first(journal.entries) ==> forall|j: int|
            0 <= j < journal.deleted(entry_id).entries.len() ==> !journal.deleted(
                entry_id,
            ).entries[0].date.before(#[trigger] journal.deleted(entry_id).entries[j].date),
{
    lemma_index_of_id(journal.entries, entry_id);
    let i = index_of_id(journal.entries, entry_id).unwrap();
    let rest = journal.entries.remove(i);
    if rest.len() > 0 {
        assert(rest[0].id == rest[0].id);
        assert(contains_id(rest, rest[0].id));
    }
    if newest_first(journal.entries) {
        lemma_remove_keeps_newest_first(journal.entries, i);
        assert forall|j: int| 0 <= j < rest.len() implies !rest[0].date.before(
            #[trigger] rest[j].date,
        ) by {
            if j > 0 {
                assert(!rest[0].date.before(rest[j].date));
            }
        }
    }
}

/// Deleting an entry other than the selected one leaves the selection alone,
/// and valid if it was.
pub proof fn law_deleting_another_keeps_selection(journal: JournalState, entry_id: u32)
    requires
        journal.current != Some(entry_id),
        journal.holds(entry_id),
    ensures
        journal.deleted(entry_id).current == journal.current,
        journal.selection_valid() ==> journal.deleted(entry_id).selection_valid(),
{
    lemma_index_of_id(journal.entries, entry_id);
    let i = index_of_id(journal.entries, entry_id).unwrap();
    lemma_remove_ids(journal.entries, i);
}

/// Replacing the content of the selected entry changes nothing when no present
/// entry is selected.
pub proof fn law_rewriting_nothing_changes_nothing(journal: JournalState, content: String)
    requires
        journal.current_entry() is None,
    ensures
        journal.rewritten(content) == journal,
{
    if let Some(id) = journal.current {
        lemma_index_of_id(journal.entries, id);
    }
}

/// After the selected entry has been given a new title and date, the
/// selection finds it with that title and date, wherever the new date has
/// moved it, provided that every other entry which carries its identifier is
/// older than the new date, as is the case among distinct identifiers.
pub proof fn law_updated_entry_is_current(journal: JournalState, title: String, date: Timestamp)
    requires
        journal.current_index() matches Some(i) && forall|j: int|
            0 <= j < journal.entries.len() && j != i && (#[trigger] journal.entries[j]).id
                == journal.entries[i].id ==> journal.entries[j].date.before(date),
    ensures
        journal.retitled(title, date).current_entry() == Some(
            journal.current_entry().unwrap().retitled(title, date),
        ),
        journal.retitled(title, date).current_entry() matches Some(found) && found.title == title
            && found.date == date,
{
    let current = journal.current.unwrap();
    let entries = journal.entries;
    lemma_index_of_id(entries, current);
    let i = index_of_id(entries, current).unwrap();
    let changed = entries[i].retitled(title, date);
    let updated = entries.update(i, changed);
    let after = sorted_newest_first(updated);
    assert(updated[i] == changed);
    assert(updated.contains(changed));
    lemma_sorted_entries(updated, changed);
    law_sorted_is_newest_first(updated);
    let at = choose|k: int| 0 <= k < after.len() && after[k] == changed;
    assert(contains_id(after, current)) by {
        assert(after[at].id == current);
    }
    lemma_index_of_id(after, current);
    let first = index_of_id(after, current).unwrap();
    if after[first] != changed {
        // another entry of that identifier: older than the new date, yet in
        // front of the entry that carries it
        assert(after.contains(after[first]));
        lemma_sorted_entries(updated, after[first]);
        let k = choose|k: int| 0 <= k < updated.len() && updated[k] == after[first];
        assert(k != i);
        assert(entries[k].date.before(date));
        if first < at {
            assert(!after[first].date.before(after[at].date));
        } else if at < first {
            assert(after[at].id != current);
        }
    }
}

/// The round trip: an entry added under a fresh identifier, then selected and
/// given a new title and date, is what the selection finds afterwards.
pub proof fn law_add_then_update_round_trip(
    journal: JournalState,
    created: Entry,
    title: String,
    date: Timestamp,
)
    requires
        distinct_ids(journal.entries),
        !journal.holds(created.id),
    ensures
        journal.added(created).selected(Some(created.id)).retitled(title, date).current_entry()
            == Some(created.retitled(title, date)),
{
    let entries = journal.entries;
    let pushed = entries.push(created);
    assert forall|j: int| 0 <= j < entries.len() && (#[trigger] entries[j]).id
        == created.id implies entries[j].date.before(created.date) by {
        assert(contains_id(entries, created.id));
    }
    lemma_added_is_found(entries, created);
    assert(pushed =~= entries.insert(entries.len() as int, created));
    lemma_insert_ids(entries, entries.len() as int, created);
    lemma_sorted_ids(pushed);
    let selected = journal.added(created).selected(Some(created.id));
    lemma_index_of_id(selected.entries, created.id);
    let i = index_of_id(selected.entries, created.id).unwrap();
    assert forall|j: int|
        0 <= j < selected.entries.len() && j != i && (#[trigger] selected.entries[j]).id
            == selected.entries[i].id implies selected.entries[j].date.before(date) by {
        if j < i {
            assert(selected.entries[j].id != selected.entries[i].id);
        } else {
            assert(selected.entries[i].id != selected.entries[j].id);
        }
    }
    law_updated_entry_is_current(selected, title, date);
}

/// A well-formed journal stays well formed through every change: when an
/// entry is added under a fresh identifier, when the selected entry gets a new
/// title and date or new content, when an entry is deleted, when an entry
/// that is there or nothing is selected, and when entries of distinct
/// identifiers that include the selected one are loaded.
pub proof fn law_changes_keep_well_formed(
    journal: JournalState,
    created: Entry,
    title: String,
    date: Timestamp,
    content: String,
    entry_id: u32,
    selection: Option<u32>,
    entries: Seq<Entry>,
)
    requires
        journal.well_formed(),
    ensures
        !journal.holds(created.id) ==> journal.added(created).well_formed(),
        journal.retitled(title, date).well_formed(),
        journal.rewritten(content).well_formed(),
        journal.deleted(entry_id).well_formed(),
        (selection matches Some(id) ==> journal.holds(id)) ==> journal.selected(
            selection,
        ).well_formed(),
        distinct_ids(entries) && (journal.current matches Some(id) ==> contains_id(entries, id))
            ==> journal.loaded(entries).well_formed(),
{
    let old_entries = journal.entries;
    // added
    let pushed = old_entries.push(created);
    assert(pushed =~= old_entries.insert(old_entries.len() as int, created));
    lemma_insert_ids(old_entries, old_entries.len() as int, created);
    lemma_sorted_ids(pushed);
    law_sorted_is_newest_first(pushed);
    // retitled and rewritten
    if let Some(i) = journal.current_index() {
        lemma_index_of_id(old_entries, journal.current.unwrap());
        let renamed = old_entries[i].retitled(title, date);
        lemma_update_ids(old_entries, i, renamed);
        lemma_sorted_ids(old_entries.update(i, renamed));
        law_sorted_is_newest_first(old_entries.update(i, renamed));
        let changed = old_entries[i].with_content(content);
        lemma_update_ids(old_entries, i, changed);
        lemma_update_keeps_newest_first(old_entries, i, changed);
    }
    // deleted
    lemma_index_of_id(old_entries, entry_id);
    if let Some(i) = index_of_id(old_entries, entry_id) {
        let rest = old_entries.remove(i);
        lemma_remove_ids(old_entries, i);
        lemma_remove_keeps_newest_first(old_entries, i);
        if rest.len() > 0 {
            assert(contains_id(rest, rest[0].id));
        }
    }
    // loaded
    lemma_sorted_ids(entries);
    law_sorted_is_newest_first(entries);
}

} // verus!
