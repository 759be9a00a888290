//! Finding entries by identifier.

use crate::entry::Entry;
use crate::order::{lemma_slot_for, slot_for, sorted_newest_first};
use vstd::prelude::*;

verus! {

/// Some entry of `s` carries the identifier `id`.
pub open spec fn contains_id(s: Seq<Entry>, id: u32) -> bool {
    exists|i: int| 0 <= i < s.len() && (#[trigger] s[i]).id == id
}

/// No two entries of `s` carry the same identifier.
pub open spec fn distinct_ids(s: Seq<Entry>) -> bool {
    forall|i: int, j: int|
        0 <= i < j < s.len() ==> (#[trigger] s[i]).id != (#[trigger] s[j]).id
}

/// At most one entry of `s` carries `id`.
pub open spec fn carried_once(s: Seq<Entry>, id: u32) -> bool {
    forall|i: int, j: int|
        #![trigger s[i], s[j]]
        0 <= i < j < s.len() && s[i].id == id ==> s[j].id != id
}

/// `i` is the place of the first entry of `s` that carries `id`.
pub open spec fn first_with_id(s: Seq<Entry>, id: u32, i: int) -> bool {
    &&& 0 <= i < s.len()
    &&& s[i].id == id
    &&& forall|j: int| 0 <= j < i ==> (#[trigger] s[j]).id != id
}

/// The place of the first entry of `s` that carries `id`, if any does.
pub open spec fn index_of_id(s: Seq<Entry>, id: u32) -> Option<int> {
    if contains_id(s, id) {
        Some(choose|i: int| first_with_id(s, id, i))
    } else {
        None
    }
}

/// The first entry of `s` that carries `id`, if any does.
pub open spec fn entry_with_id(s: Seq<Entry>, id: u32) -> Option<Entry> {
    match index_of_id(s, id) {
        Some(i) => Some(s[i]),
        None => None,
    }
}

proof fn lemma_first_exists(s: Seq<Entry>, id: u32, n: int)
    requires
        0 <= n < s.len(),
        s[n].id == id,
    ensures
        exists|i: int| first_with_id(s, id, i),
    decreases n,
{
    if exists|j: int| 0 <= j < n && (#[trigger] s[j]).id == id {
        let j = choose|j: int| 0 <= j < n && (#[trigger] s[j]).id == id;
        lemma_first_exists(s, id, j);
    } else {
        assert(first_with_id(s, id, n));
    }
}

/// `index_of_id` answers with the first place that carries the identifier, and
/// with nothing exactly when no place does.
pub proof fn lemma_index_of_id(s: Seq<Entry>, id: u32)
    ensures
        match index_of_id(s, id) {
            Some(i) => first_with_id(s, id, i),
            None => !contains_id(s, id),
        },
{
    if contains_id(s, id) {
        let n = choose|n: int| 0 <= n < s.len() && (#[trigger] s[n]).id == id;
        lemma_first_exists(s, id, n);
    }
}

/// The first place that carries an identifier is the one `index_of_id` gives.
pub proof fn lemma_index_of_id_is(s: Seq<Entry>, id: u32, i: int)
    requires
        first_with_id(s, id, i),
    ensures
        index_of_id(s, id) == Some(i),
        entry_with_id(s, id) == Some(s[i]),
{
    lemma_index_of_id(s, id);
    let k = index_of_id(s, id).unwrap();
    if k < i {
        assert(s[k].id != id);
    } else if i < k {
        assert(s[i].id != id);
    }
}

/// The identifiers of a collection that an entry has joined at place `k`.
pub proof fn lemma_insert_ids(s: Seq<Entry>, k: int, x: Entry)
    requires
        0 <= k <= s.len(),
    ensures
        forall|id: u32|
            #[trigger] contains_id(s.insert(k, x), id) == (contains_id(s, id) || x.id == id),
        distinct_ids(s.insert(k, x)) == (distinct_ids(s) && !contains_id(s, x.id)),
{
    let r = s.insert(k, x);
    assert forall|id: u32| #[trigger]
        contains_id(r, id) == (contains_id(s, id) || x.id == id) by {
        if contains_id(r, id) {
            let i = choose|i: int| 0 <= i < r.len() && (#[trigger] r[i]).id == id;
            if i < k {
                assert(s[i].id == id);
            } else if i > k {
                assert(s[i - 1].id == id);
            }
        }
        if contains_id(s, id) {
            let i = choose|i: int| 0 <= i < s.len() && (#[trigger] s[i]).id == id;
            if i < k {
                assert(r[i].id == id);
            } else {
                assert(r[i + 1].id == id);
            }
        }
        if x.id == id {
            assert(r[k].id == id);
        }
    }
    if distinct_ids(s) && !contains_id(s, x.id) {
        assert forall|i: int, j: int| 0 <= i < j < r.len() implies (#[trigger] r[i]).id != (
        #[trigger] r[j]).id by {
            let a = if i < k { i } else { i - 1 };
            let b = if j < k { j } else { j - 1 };
            if i != k && j != k {
                assert(r[i] == s[a] && r[j] == s[b]);
            } else if i == k {
                assert(r[j] == s[b]);
            } else {
                assert(r[i] == s[a]);
            }
        }
    }
    if distinct_ids(r) {
        assert forall|i: int, j: int| 0 <= i < j < s.len() implies (#[trigger] s[i]).id != (
        #[trigger] s[j]).id by {
            let a = if i < k { i } else { i + 1 };
            let b = if j < k { j } else { j + 1 };
            assert(r[a] == s[i] && r[b] == s[j]);
        }
        if contains_id(s, x.id) {
            let i = choose|i: int| 0 <= i < s.len() && (#[trigger] s[i]).id == x.id;
            let a = if i < k { i } else { i + 1 };
            assert(r[a] == s[i]);
            assert(r[k] == x);
        }
    }
}

/// Replacing an entry by one of the same identifier changes neither which
/// identifiers the collection holds nor where each is first found.
pub proof fn lemma_update_ids(s: Seq<Entry>, i: int, e: Entry)
    requires
        0 <= i < s.len(),
        e.id == s[i].id,
    ensures
        forall|id: u32| #[trigger] contains_id(s.update(i, e), id) == contains_id(s, id),
        forall|id: u32| #[trigger] index_of_id(s.update(i, e), id) == index_of_id(s, id),
        distinct_ids(s.update(i, e)) == distinct_ids(s),
{
    let r = s.update(i, e);
    assert forall|j: int| 0 <= j < s.len() implies (#[trigger] r[j]).id == s[j].id by {}
    assert forall|id: u32| #[trigger] contains_id(r, id) == contains_id(s, id) by {
        if contains_id(r, id) {
            let j = choose|j: int| 0 <= j < r.len() && (#[trigger] r[j]).id == id;
            assert(s[j].id == id);
        }
        if contains_id(s, id) {
            let j = choose|j: int| 0 <= j < s.len() && (#[trigger] s[j]).id == id;
            assert(r[j].id == id);
        }
    }
    assert forall|id: u32| #[trigger] index_of_id(r, id) == index_of_id(s, id) by {
        lemma_index_of_id(s, id);
        if let Some(k) = index_of_id(s, id) {
            assert(first_with_id(r, id, k)) by {
                assert(r[k].id == s[k].id);
                assert forall|j: int| 0 <= j < k implies (#[trigger] r[j]).id != id by {
                    assert(s[j].id != id);
                }
            }
            lemma_index_of_id_is(r, id, k);
        }
    }
    if distinct_ids(s) {
        assert forall|a: int, b: int| 0 <= a < b < r.len() implies (#[trigger] r[a]).id != (
        #[trigger] r[b]).id by {
            assert(s[a].id != s[b].id);
        }
    }
    if distinct_ids(r) {
        assert forall|a: int, b: int| 0 <= a < b < s.len() implies (#[trigger] s[a]).id != (
        #[trigger] s[b]).id by {
            assert(r[a].id != r[b].id);
        }
    }
}

/// Taking an entry out leaves the other identifiers where they were found,
/// and, among distinct identifiers, leaves none that carries its own.
pub proof fn lemma_remove_ids(s: Seq<Entry>, i: int)
    requires
        0 <= i < s.len(),
    ensures
        forall|id: u32|
            id != s[i].id ==> #[trigger] contains_id(s.remove(i), id) == contains_id(s, id),
        distinct_ids(s) ==> distinct_ids(s.remove(i)) && !contains_id(s.remove(i), s[i].id),
{
    let r = s.remove(i);
    assert forall|id: u32| id != s[i].id implies #[trigger] contains_id(r, id) == contains_id(
        s,
        id,
    ) by {
        if contains_id(r, id) {
            let j = choose|j: int| 0 <= j < r.len() && (#[trigger] r[j]).id == id;
            if j < i {
                assert(s[j].id == id);
            } else {
                assert(s[j + 1].id == id);
            }
        }
        if contains_id(s, id) {
            let j = choose|j: int| 0 <= j < s.len() && (#[trigger] s[j]).id == id;
            if j < i {
                assert(r[j].id == id);
            } else {
                assert(r[j - 1].id == id);
            }
        }
    }
    if distinct_ids(s) {
        assert forall|a: int, b: int| 0 <= a < b < r.len() implies (#[trigger] r[a]).id != (
        #[trigger] r[b]).id by {
            let a0 = if a < i { a } else { a + 1 };
            let b0 = if b < i { b } else { b + 1 };
            assert(r[a] == s[a0] && r[b] == s[b0]);
        }
        if contains_id(r, s[i].id) {
            let j = choose|j: int| 0 <= j < r.len() && (#[trigger] r[j]).id == s[i].id;
            let j0 = if j < i { j } else { j + 1 };
            assert(r[j] == s[j0]);
            assert(s[j0].id != s[i].id);
        }
    }
}

/// Putting a collection in order changes neither which identifiers it holds
/// nor whether they are distinct.
pub proof fn lemma_sorted_ids(s: Seq<Entry>)
    ensures
        forall|id: u32| #[trigger] contains_id(sorted_newest_first(s), id) == contains_id(s, id),
        distinct_ids(sorted_newest_first(s)) == distinct_ids(s),
    decreases s.len(),
{
    if s.len() > 0 {
        let rest = s.drop_last();
        let x = s.last();
        let earlier = sorted_newest_first(rest);
        lemma_sorted_ids(rest);
        lemma_slot_for(earlier, x.date);
        lemma_insert_ids(earlier, slot_for(earlier, x.date), x);
        lemma_insert_ids(rest, rest.len() as int, x);
        assert(rest.insert(rest.len() as int, x) =~= s);
    }
}

/// Putting a collection in order keeps every entry and brings no other.
pub proof fn lemma_sorted_entries(s: Seq<Entry>, e: Entry)
    ensures
        sorted_newest_first(s).contains(e) == s.contains(e),
    decreases s.len(),
{
    if s.len() > 0 {
        let rest = s.drop_last();
        let x = s.last();
        let earlier = sorted_newest_first(rest);
        lemma_sorted_entries(rest, e);
        lemma_slot_for(earlier, x.date);
        let k = slot_for(earlier, x.date);
        let r = earlier.insert(k, x);
        if r.contains(e) {
            let i = choose|i: int| 0 <= i < r.len() && r[i] == e;
            if i < k {
                assert(earlier[i] == e);
            } else if i > k {
                assert(earlier[i - 1] == e);
            } else {
                assert(s[s.len() - 1] == e);
            }
            if earlier.contains(e) {
                let j = choose|j: int| 0 <= j < rest.len() && rest[j] == e;
                assert(s[j] == e);
            }
        }
        if s.contains(e) {
            let i = choose|i: int| 0 <= i < s.len() && s[i] == e;
            if i < rest.len() {
                assert(rest[i] == e);
                let j = choose|j: int| 0 <= j < earlier.len() && earlier[j] == e;
                if j < k {
                    assert(r[j] == e);
                } else {
                    assert(r[j + 1] == e);
                }
            } else {
                assert(r[k] == e);
            }
        }
    }
}

/// The place of the first entry of `entries` that carries `id`.
pub fn position_of_id(entries: &Vec<Entry>, id: u32) -> (found: Option<usize>)
    ensures
        match found {
            Some(i) => first_with_id(entries@, id, i as int) && index_of_id(entries@, id) == Some(
                i as int,
            ),
            None => index_of_id(entries@, id) is None && !contains_id(entries@, id),
        },
{
    let mut i: usize = 0;
    while i < entries.len()
        invariant
            i <= entries.len(),
            forall|j: int| 0 <= j < i ==> (#[trigger] entries@[j]).id != id,
        decreases entries.len() - i,
    {
        if entries[i].id == id {
            proof {
                lemma_index_of_id_is(entries@, id, i as int);
            }
            return Some(i);
        }
        i += 1;
    }
    None
}

} // verus!
