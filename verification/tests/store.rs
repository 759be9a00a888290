use tui_journal::{App, Entry, EntryDraft, Timestamp};

fn at(secs: i64) -> Timestamp {
    Timestamp::new(secs, 0)
}

fn entry(id: u32, secs: i64, title: &str) -> Entry {
    Entry::from_draft(id, EntryDraft::new(at(secs), title.to_string()))
}

fn ids(app: &App<()>) -> Vec<u32> {
    app.entries.iter().map(|e| e.id).collect()
}

fn load(app: &mut App<()>, entries: Vec<Entry>) {
    app.load_entries::<String>(Ok(entries)).unwrap()
}

fn add(app: &mut App<()>, created: Entry) -> u32 {
    app.add_entry::<String>(Ok(created)).unwrap()
}

fn delete(app: &mut App<()>, entry_id: u32) -> bool {
    app.delete_entry::<String>(Ok(()), entry_id).unwrap()
}

fn retitle(app: &mut App<()>, title: &str, date: Timestamp) {
    app.update_current_entry::<String>(Ok(()), title.to_string(), date).unwrap()
}

/// A backend that keeps what it is given and numbers new entries upwards.
struct MemoryBackend {
    next_id: u32,
    stored: Vec<Entry>,
}

impl MemoryBackend {
    fn new() -> Self {
        MemoryBackend { next_id: 0, stored: Vec::new() }
    }

    fn add_entry(&mut self, draft: EntryDraft) -> Entry {
        let created = Entry::from_draft(self.next_id, draft);
        self.next_id += 1;
        self.stored.push(created.clone());
        created
    }

    fn update_entry(&mut self, entry: Entry) {
        let at = self.stored.iter().position(|e| e.id == entry.id).unwrap();
        self.stored[at] = entry;
    }
}

#[test]
fn new_store_is_empty_and_unselected() {
    let app = App::new(7u8);
    assert!(app.entries.is_empty());
    assert_eq!(app.current_entry_id, None);
    assert_eq!(app.settings, 7);
    assert!(app.get_current_entry().is_none());
    assert!(app.get_entry(0).is_none());
}

#[test]
fn load_entries_sorts_newest_first() {
    let mut app = App::new(());
    load(&mut app, vec![entry(1, 10, "a"), entry(2, 30, "b"), entry(3, 20, "c")]);
    assert_eq!(ids(&app), vec![2, 3, 1]);
}

#[test]
fn load_entries_replaces_the_collection_and_keeps_the_selection() {
    let mut app = App::new(());
    load(&mut app, vec![entry(1, 10, "a"), entry(2, 30, "b")]);
    app.set_current_entry(Some(2));
    load(&mut app, vec![entry(5, 1, "e"), entry(6, 2, "f")]);
    assert_eq!(ids(&app), vec![6, 5]);
    assert_eq!(app.current_entry_id, Some(2));
    assert!(app.get_current_entry().is_none());
}

#[test]
fn load_entries_keeps_the_given_order_among_equal_dates() {
    let mut app = App::new(());
    load(&mut app, vec![
        entry(1, 5, "a"),
        entry(2, 9, "b"),
        entry(3, 5, "c"),
        entry(4, 9, "d"),
        entry(5, 5, "e"),
    ]);
    assert_eq!(ids(&app), vec![2, 4, 1, 3, 5]);
}

#[test]
fn load_entries_of_nothing_empties_the_store() {
    let mut app = App::new(());
    load(&mut app, vec![entry(1, 10, "a")]);
    load(&mut app, Vec::new());
    assert!(app.entries.is_empty());
}

#[test]
fn add_entry_keeps_the_collection_sorted_after_every_call() {
    let mut app = App::new(());
    let dates = [50, 10, 40, 40, 90, 0, 40, 10];
    for (id, secs) in dates.iter().enumerate() {
        let returned = add(&mut app, entry(id as u32, *secs, "t"));
        assert_eq!(returned, id as u32);
        for pair in app.entries.windows(2) {
            assert!(!pair[0].date.is_before(&pair[1].date));
        }
        assert_eq!(app.entries.len(), id + 1);
    }
    assert_eq!(ids(&app), vec![4, 0, 2, 3, 6, 1, 7, 5]);
}

#[test]
fn add_entry_puts_an_equal_date_behind_the_earlier_arrivals() {
    let mut app = App::new(());
    add(&mut app, entry(1, 20, "first"));
    add(&mut app, entry(2, 20, "second"));
    add(&mut app, entry(3, 20, "third"));
    assert_eq!(ids(&app), vec![1, 2, 3]);
}

#[test]
fn add_entry_returns_an_identifier_that_get_entry_finds() {
    let mut backend = MemoryBackend::new();
    let mut app = App::new(());
    add(&mut app, backend.add_entry(EntryDraft::new(at(100), "earlier".to_string())));
    let created = backend.add_entry(EntryDraft::new(at(200), "T".to_string()));
    let id = add(&mut app, created);
    assert_eq!(id, 1);
    let found = app.get_entry(id).unwrap();
    assert_eq!(found.id, 1);
    assert_eq!(found.title, "T");
    assert_eq!(found.date, at(200));
    assert_eq!(found.content, "");
}

#[test]
fn add_entry_does_not_select_the_new_entry() {
    let mut app = App::new(());
    add(&mut app, entry(4, 1, "a"));
    assert_eq!(app.current_entry_id, None);
    app.set_current_entry(Some(4));
    add(&mut app, entry(5, 2, "b"));
    assert_eq!(app.current_entry_id, Some(4));
}

#[test]
fn get_entry_returns_the_first_of_two_entries_with_one_identifier() {
    let mut app = App::new(());
    load(&mut app, vec![entry(1, 10, "older"), entry(1, 20, "newer")]);
    assert_eq!(app.get_entry(1).unwrap().title, "newer");
}

#[test]
fn get_entry_of_an_unknown_identifier_is_none() {
    let mut app = App::new(());
    add(&mut app, entry(1, 10, "a"));
    assert!(app.get_entry(2).is_none());
}

#[test]
fn get_current_entry_resolves_the_selection() {
    let mut app = App::new(());
    load(&mut app, vec![entry(1, 10, "a"), entry(2, 30, "b")]);
    assert!(app.get_current_entry().is_none());
    app.set_current_entry(Some(1));
    assert_eq!(app.get_current_entry().unwrap().title, "a");
}

#[test]
fn a_stale_selection_resolves_to_nothing() {
    let mut app = App::new(());
    load(&mut app, vec![entry(1, 10, "a")]);
    app.set_current_entry(Some(9));
    assert_eq!(app.current_entry_id, Some(9));
    assert!(app.get_current_entry().is_none());
    assert!(app.get_current_entry_mut().is_none());
    assert!(app.staged_update("x".to_string(), at(1)).is_none());
    assert!(app.update_current_entry_content("x".to_string()).is_none());
    assert_eq!(app.entries, vec![entry(1, 10, "a")]);
}

#[test]
fn get_current_entry_mut_changes_the_entry_in_place() {
    let mut app = App::new(());
    load(&mut app, vec![entry(1, 10, "a"), entry(2, 30, "b")]);
    app.set_current_entry(Some(1));
    app.get_current_entry_mut().unwrap().content = "written".to_string();
    assert_eq!(app.get_entry(1).unwrap().content, "written");
    assert_eq!(app.get_entry(2).unwrap().content, "");
    assert_eq!(ids(&app), vec![2, 1]);
}

#[test]
fn set_current_entry_does_not_look_at_the_collection() {
    let mut app = App::new(());
    app.set_current_entry(Some(3));
    assert_eq!(app.current_entry_id, Some(3));
    app.set_current_entry(None);
    assert_eq!(app.current_entry_id, None);
    assert!(app.entries.is_empty());
}

#[test]
fn delete_entry_then_get_entry_finds_nothing() {
    let mut app = App::new(());
    load(&mut app, vec![entry(1, 10, "a"), entry(2, 30, "b"), entry(3, 20, "c")]);
    let reselected = delete(&mut app, 3);
    assert!(!reselected);
    assert!(app.get_entry(3).is_none());
    assert_eq!(ids(&app), vec![2, 1]);
}

#[test]
fn deleting_the_current_entry_selects_the_first_remaining() {
    // identifiers 3, 1, 2 arrive in that order; by date 1 is newest and 3 oldest
    let mut app = App::new(());
    load(&mut app, vec![entry(3, 100, "three"), entry(1, 300, "one"), entry(2, 200, "two")]);
    assert_eq!(ids(&app), vec![1, 2, 3]);
    app.set_current_entry(Some(1));
    let reselected = delete(&mut app, 1);
    assert!(reselected);
    assert_eq!(app.current_entry_id, Some(2));
    assert_eq!(ids(&app), vec![2, 3]);
}

#[test]
fn deleting_the_current_entry_from_the_middle_selects_the_newest() {
    let mut app = App::new(());
    load(&mut app, vec![entry(3, 100, "three"), entry(1, 300, "one"), entry(2, 200, "two")]);
    app.set_current_entry(Some(2));
    assert!(delete(&mut app, 2));
    assert_eq!(app.current_entry_id, Some(1));
}

#[test]
fn deleting_the_last_entry_clears_the_selection() {
    let mut app = App::new(());
    add(&mut app, entry(8, 1, "only"));
    app.set_current_entry(Some(8));
    assert!(delete(&mut app, 8));
    assert_eq!(app.current_entry_id, None);
    assert!(app.entries.is_empty());
}

#[test]
fn deleting_another_entry_keeps_the_selection() {
    let mut app = App::new(());
    load(&mut app, vec![entry(1, 10, "a"), entry(2, 30, "b")]);
    app.set_current_entry(Some(1));
    assert!(!delete(&mut app, 2));
    assert_eq!(app.current_entry_id, Some(1));
    assert_eq!(app.get_current_entry().unwrap().id, 1);
}

#[test]
fn deleting_without_a_selection_leaves_nothing_selected() {
    let mut app = App::new(());
    load(&mut app, vec![entry(0, 10, "zero"), entry(1, 30, "one")]);
    assert!(!delete(&mut app, 0));
    assert_eq!(app.current_entry_id, None);
    assert_eq!(ids(&app), vec![1]);
}

#[test]
fn delete_entry_takes_the_first_of_two_entries_with_one_identifier() {
    let mut app = App::new(());
    load(&mut app, vec![entry(1, 10, "older"), entry(1, 20, "newer")]);
    delete(&mut app, 1);
    assert_eq!(app.entries, vec![entry(1, 10, "older")]);
}

#[test]
fn update_current_entry_content_without_a_selection_does_nothing() {
    let mut app = App::new(());
    load(&mut app, vec![entry(1, 10, "a"), entry(2, 30, "b")]);
    let persist = app.update_current_entry_content("lost".to_string());
    assert!(persist.is_none());
    assert_eq!(app.entries, vec![entry(2, 30, "b"), entry(1, 10, "a")]);
    assert_eq!(app.current_entry_id, None);
}

#[test]
fn update_current_entry_content_replaces_the_content_and_hands_out_a_copy() {
    let mut app = App::new(());
    load(&mut app, vec![entry(1, 10, "a"), entry(2, 30, "b")]);
    app.set_current_entry(Some(1));
    let persist = app.update_current_entry_content("line one\nline two".to_string()).unwrap();
    assert_eq!(persist.id, 1);
    assert_eq!(persist.title, "a");
    assert_eq!(persist.date, at(10));
    assert_eq!(persist.content, "line one\nline two");
    assert_eq!(app.get_entry(1).unwrap(), &persist);
    assert_eq!(app.get_entry(2).unwrap().content, "");
    assert_eq!(ids(&app), vec![2, 1]);
}

#[test]
fn staged_update_leaves_the_store_untouched() {
    let mut app = App::new(());
    load(&mut app, vec![entry(1, 10, "a"), entry(2, 30, "b")]);
    app.set_current_entry(Some(1));
    app.get_current_entry_mut().unwrap().content = "kept".to_string();
    let staged = app.staged_update("renamed".to_string(), at(40)).unwrap();
    assert_eq!(staged.id, 1);
    assert_eq!(staged.title, "renamed");
    assert_eq!(staged.date, at(40));
    assert_eq!(staged.content, "kept");
    assert_eq!(app.get_entry(1).unwrap().title, "a");
    assert_eq!(ids(&app), vec![2, 1]);
}

#[test]
fn staged_update_without_a_selection_is_nothing() {
    let mut app = App::new(());
    load(&mut app, vec![entry(1, 10, "a")]);
    assert!(app.current_entry_id.is_none());
    assert!(app.staged_update("renamed".to_string(), at(40)).is_none());
}

#[test]
fn update_current_entry_moves_the_entry_to_its_new_place() {
    let mut app = App::new(());
    load(&mut app, vec![entry(1, 10, "a"), entry(2, 30, "b"), entry(3, 20, "c")]);
    app.set_current_entry(Some(1));
    retitle(&mut app, "a2", at(25));
    assert_eq!(ids(&app), vec![2, 1, 3]);
    assert_eq!(app.current_entry_id, Some(1));
    let current = app.get_current_entry().unwrap();
    assert_eq!(current.title, "a2");
    assert_eq!(current.date, at(25));
}

#[test]
fn update_current_entry_to_a_taken_date_keeps_the_relative_order() {
    let mut app = App::new(());
    load(&mut app, vec![entry(1, 30, "a"), entry(2, 20, "b"), entry(3, 10, "c")]);
    // the entry in front moves down to the date of the one behind it and stays in front of it
    app.set_current_entry(Some(1));
    retitle(&mut app, "a", at(20));
    assert_eq!(ids(&app), vec![1, 2, 3]);
    // the entry at the back moves up to the same date and stays behind both
    app.set_current_entry(Some(3));
    retitle(&mut app, "c", at(20));
    assert_eq!(ids(&app), vec![1, 2, 3]);
}

#[test]
fn add_then_update_round_trip() {
    let mut backend = MemoryBackend::new();
    let mut app = App::new(());
    add(&mut app, backend.add_entry(EntryDraft::new(at(150), "other".to_string())));
    let d = Timestamp::new(100, 5);
    let d2 = Timestamp::new(200, 6);
    let id = add(&mut app, backend.add_entry(EntryDraft::new(d, "T".to_string())));
    app.set_current_entry(Some(id));
    let staged = app.staged_update("T2".to_string(), d2).unwrap();
    backend.update_entry(staged.clone());
    app.update_current_entry::<String>(Ok(()), staged.title, staged.date).unwrap();
    let current = app.get_current_entry().unwrap();
    assert_eq!(current.id, id);
    assert_eq!(current.title, "T2");
    assert_eq!(current.date, d2);
    assert_eq!(ids(&app), vec![id, 0]);
    assert_eq!(backend.stored[1], *current);
}

#[test]
fn journal_content_is_the_content_of_the_entry() {
    let mut app = App::new(());
    load(&mut app, vec![entry(1, 10, "a"), entry(2, 30, "b")]);
    app.set_current_entry(Some(2));
    app.update_current_entry_content("Dear diary,\n\u{e9}t\u{e9}".to_string());
    assert_eq!(app.journal_content(2).as_bytes(), "Dear diary,\n\u{e9}t\u{e9}".as_bytes());
    assert_eq!(app.journal_content(1), "");
}

#[test]
fn a_failed_load_is_handed_back_and_changes_nothing() {
    let mut app = App::new(());
    load(&mut app, vec![entry(1, 10, "a"), entry(2, 30, "b")]);
    app.set_current_entry(Some(1));
    let done = app.load_entries(Err("no storage".to_string()));
    assert_eq!(done, Err("no storage".to_string()));
    assert_eq!(ids(&app), vec![2, 1]);
    assert_eq!(app.current_entry_id, Some(1));
}

#[test]
fn a_failed_creation_is_handed_back_and_changes_nothing() {
    let mut app = App::new(());
    add(&mut app, entry(1, 10, "a"));
    let added = app.add_entry(Err(17u8));
    assert_eq!(added, Err(17u8));
    assert_eq!(app.entries, vec![entry(1, 10, "a")]);
    assert_eq!(app.current_entry_id, None);
}

#[test]
fn a_failed_update_is_handed_back_and_changes_nothing() {
    let mut app = App::new(());
    load(&mut app, vec![entry(1, 10, "a"), entry(2, 30, "b")]);
    app.set_current_entry(Some(1));
    let done = app.update_current_entry(Err("read only"), "renamed".to_string(), at(99));
    assert_eq!(done, Err("read only"));
    assert_eq!(app.entries, vec![entry(2, 30, "b"), entry(1, 10, "a")]);
    assert_eq!(app.current_entry_id, Some(1));
}

#[test]
fn a_failed_removal_is_handed_back_and_changes_nothing() {
    let mut app = App::new(());
    load(&mut app, vec![entry(1, 10, "a"), entry(2, 30, "b")]);
    app.set_current_entry(Some(2));
    let reselected = app.delete_entry(Err("not found"), 2);
    assert_eq!(reselected, Err("not found"));
    assert_eq!(ids(&app), vec![2, 1]);
    assert_eq!(app.current_entry_id, Some(2));
    // a removal that failed may name an entry the store does not hold
    assert_eq!(app.delete_entry(Err("not found"), 9), Err("not found"));
    assert_eq!(ids(&app), vec![2, 1]);
}
