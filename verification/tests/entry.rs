use tui_journal::order::sort_newest_first;
use tui_journal::lookup::position_of_id;
use tui_journal::{Entry, EntryDraft, Timestamp};

fn entry(id: u32, secs: i64, nanos: u32) -> Entry {
    Entry::from_draft(id, EntryDraft::new(Timestamp::new(secs, nanos), String::new()))
}

#[test]
fn timestamps_are_ordered_by_seconds_then_nanoseconds() {
    let a = Timestamp::new(10, 999_999_999);
    let b = Timestamp::new(11, 0);
    let c = Timestamp::new(11, 1);
    assert!(a.is_before(&b));
    assert!(b.is_before(&c));
    assert!(a.is_before(&c));
    assert!(!b.is_before(&a));
    assert!(!c.is_before(&b));
    assert!(!a.is_before(&a));
}

#[test]
fn negative_seconds_come_before_the_epoch() {
    let before = Timestamp::new(-1, 500);
    let epoch = Timestamp::new(0, 0);
    assert!(before.is_before(&epoch));
    assert!(!epoch.is_before(&before));
    assert!(Timestamp::new(i64::MIN, 0).is_before(&Timestamp::new(i64::MAX, u32::MAX)));
}

#[test]
fn a_leap_second_sorts_within_the_second_it_extends() {
    let leap = Timestamp::new(59, 1_500_000_000);
    let next = Timestamp::new(60, 100_000_000);
    assert!(leap.is_before(&next));
    assert!(Timestamp::new(59, 999_999_999).is_before(&leap));
}

#[test]
fn timestamp_new_keeps_both_parts() {
    let t = Timestamp::new(-7, 42);
    assert_eq!(t.secs, -7);
    assert_eq!(t.nanos, 42);
    assert_eq!(t, Timestamp { secs: -7, nanos: 42 });
}

#[test]
fn a_draft_keeps_date_and_title() {
    let draft = EntryDraft::new(Timestamp::new(3, 4), "title".to_string());
    assert_eq!(draft.date, Timestamp::new(3, 4));
    assert_eq!(draft.title, "title");
}

#[test]
fn an_entry_made_of_a_draft_has_no_content() {
    let made = Entry::from_draft(12, EntryDraft::new(Timestamp::new(3, 4), "title".to_string()));
    assert_eq!(made.id, 12);
    assert_eq!(made.date, Timestamp::new(3, 4));
    assert_eq!(made.title, "title");
    assert_eq!(made.content, "");
}

#[test]
fn a_clone_equals_the_entry() {
    let mut first = entry(5, 6, 7);
    first.title = "t".to_string();
    first.content = "c".to_string();
    let copy = first.clone();
    assert_eq!(copy, first);
    let draft = EntryDraft::new(Timestamp::new(1, 2), "d".to_string());
    assert_eq!(draft.clone(), draft);
}

#[test]
fn sorting_orders_by_nanoseconds_within_a_second() {
    let mut v = vec![entry(1, 5, 10), entry(2, 5, 30), entry(3, 5, 20), entry(4, 6, 0)];
    sort_newest_first(&mut v);
    let ids: Vec<u32> = v.iter().map(|e| e.id).collect();
    assert_eq!(ids, vec![4, 2, 3, 1]);
}

#[test]
fn sorting_reverses_an_ascending_collection() {
    let mut v: Vec<Entry> = (0..50).map(|i| entry(i, i as i64, 0)).collect();
    sort_newest_first(&mut v);
    let ids: Vec<u32> = v.iter().map(|e| e.id).collect();
    let expected: Vec<u32> = (0..50).rev().collect();
    assert_eq!(ids, expected);
}

#[test]
fn sorting_leaves_an_ordered_collection_alone() {
    let mut v = vec![entry(1, 9, 0), entry(2, 9, 0), entry(3, 4, 0), entry(4, 4, 0)];
    let before = v.clone();
    sort_newest_first(&mut v);
    assert_eq!(v, before);
}

#[test]
fn sorting_nothing_and_one_entry() {
    let mut none: Vec<Entry> = Vec::new();
    sort_newest_first(&mut none);
    assert!(none.is_empty());
    let mut one = vec![entry(1, 1, 1)];
    sort_newest_first(&mut one);
    assert_eq!(one, vec![entry(1, 1, 1)]);
}

#[test]
fn sorting_agrees_with_a_stable_sort_of_the_standard_library() {
    let mut seed: u64 = 0x2545_f491_4f6c_dd1d;
    for len in 0..40usize {
        let mut v = Vec::new();
        for id in 0..len {
            seed ^= seed << 13;
            seed ^= seed >> 7;
            seed ^= seed << 17;
            v.push(entry(id as u32, (seed % 5) as i64 - 2, ((seed >> 8) % 3) as u32));
        }
        let mut expected = v.clone();
        expected.sort_by(|a, b| (b.date.secs, b.date.nanos).cmp(&(a.date.secs, a.date.nanos)));
        sort_newest_first(&mut v);
        assert_eq!(v, expected);
    }
}

#[test]
fn position_of_id_is_the_first_match() {
    let v = vec![entry(4, 3, 0), entry(7, 2, 0), entry(4, 1, 0)];
    assert_eq!(position_of_id(&v, 4), Some(0));
    assert_eq!(position_of_id(&v, 7), Some(1));
    assert_eq!(position_of_id(&v, 5), None);
    assert_eq!(position_of_id(&Vec::new(), 0), None);
}
