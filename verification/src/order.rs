//! The order of the entry collection: newest first, and among entries of one
//! date the order in which they were filed.
//!
//! `sorted_newest_first` says what a collection looks like once it is in
//! order, and `sort_newest_first` brings a vector there. The proof functions
//! named `law_..` say what that order is: newest first, a rearrangement that
//! keeps entries of one date as they stood, and the only one that does both.

use crate::entry::{Entry, Timestamp};
use vstd::prelude::*;
use vstd::seq_lib::*;

verus! {

/// No entry is followed, anywhere later in `s`, by a newer one.
pub open spec fn newest_first(s: Seq<Entry>) -> bool {
    forall|i: int, j: int|
        0 <= i < j < s.len() ==> !(#[trigger] s[i]).date.before((#[trigger] s[j]).date)
}

/// The entries of `s` that are dated `d`, in the order they have in `s`.
pub open spec fn dated(s: Seq<Entry>, d: Timestamp) -> Seq<Entry> {
    s.filter(|e: Entry| e.date == d)
}

/// Where an entry dated `d` goes when it joins `s` as its latest arrival:
/// in front of the run of strictly older entries that ends `s`, and so behind
/// every entry of its own date.
pub open spec fn slot_for(s: Seq<Entry>, d: Timestamp) -> int
    decreases s.len(),
{
    if s.len() > 0 && s.last().date.before(d) {
        slot_for(s.drop_last(), d)
    } else {
        s.len() as int
    }
}

/// `s` put in order: each entry in turn takes its slot among those that came
/// before it.
pub open spec fn sorted_newest_first(s: Seq<Entry>) -> Seq<Entry>
    decreases s.len(),
{
    if s.len() == 0 {
        s
    } else {
        let earlier = sorted_newest_first(s.drop_last());
        earlier.insert(slot_for(earlier, s.last().date), s.last())
    }
}

/// What `slot_for` picks: everything from the slot on is strictly older than
/// `d`, and the entry just in front of the slot, if there is one, is not.
pub proof fn lemma_slot_for(s: Seq<Entry>, d: Timestamp)
    ensures
        0 <= slot_for(s, d) <= s.len(),
        forall|j: int| slot_for(s, d) <= j < s.len() ==> (#[trigger] s[j]).date.before(d),
        slot_for(s, d) > 0 ==> !s[slot_for(s, d) - 1].date.before(d),
    decreases s.len(),
{
    if s.len() > 0 && s.last().date.before(d) {
        let rest = s.drop_last();
        lemma_slot_for(rest, d);
        assert forall|j: int| slot_for(s, d) <= j < s.len() implies (#[trigger] s[j]).date.before(
            d,
        ) by {
            if j < rest.len() {
                assert(s[j] == rest[j]);
            }
        }
    }
}

/// The slot is the only place with the two properties of `lemma_slot_for`.
pub proof fn lemma_slot_for_is(s: Seq<Entry>, d: Timestamp, k: int)
    requires
        0 <= k <= s.len(),
        forall|j: int| k <= j < s.len() ==> (#[trigger] s[j]).date.before(d),
        k > 0 ==> !s[k - 1].date.before(d),
    ensures
        slot_for(s, d) == k,
{
    lemma_slot_for(s, d);
    let slot = slot_for(s, d);
    if slot < k {
        assert(s[k - 1].date.before(d));
    } else if k < slot {
        assert(s[slot - 1].date.before(d));
    }
}

/// Putting a collection in order keeps its length.
pub proof fn lemma_sorted_len(s: Seq<Entry>)
    ensures
        sorted_newest_first(s).len() == s.len(),
    decreases s.len(),
{
    if s.len() > 0 {
        lemma_sorted_len(s.drop_last());
        lemma_slot_for(sorted_newest_first(s.drop_last()), s.last().date);
    }
}

/// Putting a collection in order leaves it newest first.
pub proof fn law_sorted_is_newest_first(s: Seq<Entry>)
    ensures
        newest_first(sorted_newest_first(s)),
    decreases s.len(),
{
    if s.len() > 0 {
        let earlier = sorted_newest_first(s.drop_last());
        let x = s.last();
        law_sorted_is_newest_first(s.drop_last());
        lemma_insert_keeps_newest_first(earlier, x);
    }
}

/// An entry that takes its slot in an ordered collection leaves it ordered.
pub proof fn lemma_insert_keeps_newest_first(s: Seq<Entry>, x: Entry)
    requires
        newest_first(s),
    ensures
        newest_first(s.insert(slot_for(s, x.date), x)),
{
    lemma_slot_for(s, x.date);
    let k = slot_for(s, x.date);
    let r = s.insert(k, x);
    assert forall|i: int, j: int| 0 <= i < j < r.len() implies !(#[trigger] r[i]).date.before(
        (#[trigger] r[j]).date,
    ) by {
        if j < k {
            assert(r[i] == s[i] && r[j] == s[j]);
        } else if j == k {
            assert(r[i] == s[i]);
            if k > 0 {
                // s[i] is not older than s[k - 1], which is not older than x
                if i < k - 1 {
                    assert(!s[i].date.before(s[k - 1].date));
                }
            }
        } else if i < k {
            assert(r[i] == s[i] && r[j] == s[j - 1]);
        } else if i == k {
            assert(r[j] == s[j - 1]);
            assert(s[j - 1].date.before(x.date));
        } else {
            assert(r[i] == s[i - 1] && r[j] == s[j - 1]);
        }
    }
}

/// The entries dated `d` after `x` has taken its slot in `s`: those that `s`
/// had, with `x` behind them if `d` is its date.
pub proof fn lemma_insert_dated(s: Seq<Entry>, x: Entry, d: Timestamp)
    ensures
        dated(s.insert(slot_for(s, x.date), x), d) == if x.date == d {
            dated(s, d).push(x)
        } else {
            dated(s, d)
        },
{
    lemma_slot_for(s, x.date);
    let k = slot_for(s, x.date);
    let pred = |e: Entry| e.date == d;
    let front = s.subrange(0, k);
    let back = s.subrange(k, s.len() as int);
    assert(s =~= front + back);
    assert(s.insert(k, x) =~= front.push(x) + back);
    Seq::filter_distributes_over_add(front, back, pred);
    Seq::filter_distributes_over_add(front.push(x), back, pred);
    front.lemma_filter_push(x, pred);
    if x.date == d {
        assert(back.all(|e: Entry| !pred(e))) by {
            assert forall|j: int| 0 <= j < back.len() implies !pred(#[trigger] back[j]) by {
                assert(back[j] == s[k + j]);
                assert(s[k + j].date.before(d));
            }
        }
        back.lemma_all_neg_filter_empty(pred);
        assert(back.filter(pred) =~= Seq::<Entry>::empty());
        assert(front.filter(pred) + back.filter(pred) =~= front.filter(pred));
        assert(front.filter(pred).push(x) + back.filter(pred) =~= front.filter(pred).push(x));
    }
}

/// Putting a collection in order keeps, among the entries of any one date,
/// the order they had.
pub proof fn law_sorted_is_stable(s: Seq<Entry>, d: Timestamp)
    ensures
        dated(sorted_newest_first(s), d) == dated(s, d),
    decreases s.len(),
{
    if s.len() > 0 {
        let rest = s.drop_last();
        let x = s.last();
        law_sorted_is_stable(rest, d);
        lemma_insert_dated(sorted_newest_first(rest), x, d);
        assert(s =~= rest.push(x));
        rest.lemma_filter_push(x, |e: Entry| e.date == d);
    }
}

/// Putting a collection in order neither adds, drops nor repeats an entry.
pub proof fn law_sorted_is_permutation(s: Seq<Entry>)
    ensures
        sorted_newest_first(s).to_multiset() == s.to_multiset(),
        sorted_newest_first(s).len() == s.len(),
    decreases s.len(),
{
    lemma_sorted_len(s);
    if s.len() > 0 {
        let rest = s.drop_last();
        let x = s.last();
        let earlier = sorted_newest_first(rest);
        law_sorted_is_permutation(rest);
        lemma_slot_for(earlier, x.date);
        to_multiset_insert(earlier, slot_for(earlier, x.date), x);
        to_multiset_build(rest, x);
        assert(s =~= rest.push(x));
    }
}

/// Two collections that are both newest first and agree, date by date, on
/// which entries they hold and in what order, are the same collection.
pub proof fn lemma_order_is_determined(a: Seq<Entry>, b: Seq<Entry>)
    requires
        newest_first(a),
        newest_first(b),
        forall|d: Timestamp| dated(a, d) == dated(b, d),
    ensures
        a == b,
    decreases a.len(),
{
    if a.len() == 0 {
        if b.len() > 0 {
            let y = b.last();
            b.drop_last().lemma_filter_push(y, |e: Entry| e.date == y.date);
            assert(b =~= b.drop_last().push(y));
            assert(dated(b, y.date).len() > 0);
            assert(dated(a, y.date).len() == 0);
        }
        assert(a =~= b);
    } else {
        let x = a.last();
        let front = a.drop_last();
        assert(a =~= front.push(x));
        lemma_dated_push(front, x);
        assert(dated(b, x.date) == dated(a, x.date));
        assert(dated(b, x.date).last() == x);
        if b.len() == 0 {
            assert(dated(b, x.date).len() == 0);
        }
        let y = b.last();
        let back = b.drop_last();
        assert(b =~= back.push(y));
        lemma_dated_push(back, y);
        assert(dated(a, y.date).last() == y);
        // each of the two last entries occurs in the other collection, whose
        // last entry is not newer than any of its entries
        lemma_dated_member(b, x.date, dated(b, x.date).len() - 1);
        lemma_dated_member(a, y.date, dated(a, y.date).len() - 1);
        let i = choose|i: int| 0 <= i < b.len() && b[i] == x;
        let j = choose|j: int| 0 <= j < a.len() && a[j] == y;
        assert(!x.date.before(y.date)) by {
            if i < b.len() - 1 {
                assert(!b[i].date.before(b[b.len() - 1].date));
            }
        }
        assert(!y.date.before(x.date)) by {
            if j < a.len() - 1 {
                assert(!a[j].date.before(a[a.len() - 1].date));
            }
        }
        assert(x.date == y.date);
        assert(x == y);
        assert forall|d: Timestamp| dated(front, d) == dated(back, d) by {
            front.lemma_filter_push(x, |e: Entry| e.date == d);
            back.lemma_filter_push(y, |e: Entry| e.date == d);
            assert(dated(a, d) == dated(b, d));
            if x.date == d {
                assert(dated(front, d) =~= dated(a, d).drop_last());
                assert(dated(back, d) =~= dated(b, d).drop_last());
            }
        }
        assert(newest_first(front)) by {
            assert forall|i: int, j: int| 0 <= i < j < front.len() implies !(
            #[trigger] front[i]).date.before((#[trigger] front[j]).date) by {
                assert(front[i] == a[i] && front[j] == a[j]);
            }
        }
        assert(newest_first(back)) by {
            assert forall|i: int, j: int| 0 <= i < j < back.len() implies !(
            #[trigger] back[i]).date.before((#[trigger] back[j]).date) by {
                assert(back[i] == b[i] && back[j] == b[j]);
            }
        }
        lemma_order_is_determined(front, back);
    }
}

/// The entries that share the date of a newly pushed entry end with it.
proof fn lemma_dated_push(s: Seq<Entry>, x: Entry)
    ensures
        dated(s.push(x), x.date) == dated(s, x.date).push(x),
        dated(s.push(x), x.date).len() > 0,
        dated(s.push(x), x.date).last() == x,
{
    s.lemma_filter_push(x, |e: Entry| e.date == x.date);
}

/// Every entry among those dated `d` is an entry of the collection.
proof fn lemma_dated_member(s: Seq<Entry>, d: Timestamp, i: int)
    requires
        0 <= i < dated(s, d).len(),
    ensures
        dated(s, d)[i].date == d,
        exists|j: int| 0 <= j < s.len() && s[j] == dated(s, d)[i],
{
    let pred = |e: Entry| e.date == d;
    s.lemma_filter_pred(pred, i);
    assert(s.filter(pred).contains(s.filter(pred)[i]));
    s.lemma_filter_contains_rev(pred, s.filter(pred)[i]);
}

/// `sorted_newest_first(s)` is the one arrangement of `s` that is newest first
/// and keeps entries of one date in the order they had.
pub proof fn law_sorted_is_unique(r: Seq<Entry>, s: Seq<Entry>)
    requires
        newest_first(r),
        forall|d: Timestamp| dated(r, d) == dated(s, d),
    ensures
        r == sorted_newest_first(s),
{
    law_sorted_is_newest_first(s);
    assert forall|d: Timestamp| dated(r, d) == dated(sorted_newest_first(s), d) by {
        law_sorted_is_stable(s, d);
    }
    lemma_order_is_determined(r, sorted_newest_first(s));
}

/// A collection that is already newest first is left as it is.
pub proof fn law_sorted_fixes_ordered(s: Seq<Entry>)
    requires
        newest_first(s),
    ensures
        sorted_newest_first(s) == s,
{
    law_sorted_is_unique(s, s);
}

/// Taking an entry out of an ordered collection leaves it ordered.
pub proof fn lemma_remove_keeps_newest_first(s: Seq<Entry>, i: int)
    requires
        newest_first(s),
        0 <= i < s.len(),
    ensures
        newest_first(s.remove(i)),
{
    let r = s.remove(i);
    assert forall|a: int, b: int| 0 <= a < b < r.len() implies !(#[trigger] r[a]).date.before(
        (#[trigger] r[b]).date,
    ) by {
        let a0 = if a < i { a } else { a + 1 };
        let b0 = if b < i { b } else { b + 1 };
        assert(r[a] == s[a0] && r[b] == s[b0]);
    }
}

/// Replacing an entry by one of the same date leaves an ordered collection
/// ordered.
pub proof fn lemma_update_keeps_newest_first(s: Seq<Entry>, i: int, e: Entry)
    requires
        newest_first(s),
        0 <= i < s.len(),
        e.date == s[i].date,
    ensures
        newest_first(s.update(i, e)),
{
    let r = s.update(i, e);
    assert forall|a: int, b: int| 0 <= a < b < r.len() implies !(#[trigger] r[a]).date.before(
        (#[trigger] r[b]).date,
    ) by {
        assert(r[a].date == s[a].date && r[b].date == s[b].date);
        assert(!s[a].date.before(s[b].date));
    }
}

/// Puts `v` in order: newest first, entries of one date in the order they had.
///
/// Each entry in turn is moved forward past the strictly older entries in
/// front of it, so a collection that is already in order is walked once and
/// left untouched.
pub fn sort_newest_first(v: &mut Vec<Entry>)
    ensures
        final(v)@ == sorted_newest_first(old(v)@),
        newest_first(final(v)@),
        forall|d: Timestamp| #[trigger] dated(final(v)@, d) == dated(old(v)@, d),
{
    let ghost before = v@;
    let mut i: usize = 0;
    while i < v.len()
        invariant
            i <= v.len(),
            v@.len() == before.len(),
            v@.subrange(0, i as int) == sorted_newest_first(before.subrange(0, i as int)),
            v@.subrange(i as int, v@.len() as int) == before.subrange(i as int, v@.len() as int),
        decreases v.len() - i,
    {
        let ghost placed = v@.subrange(0, i as int);
        let ghost x = v@[i as int];
        let mut k: usize = i;
        while k > 0 && v[k - 1].date.is_before(&v[i].date)
            invariant
                k <= i < v.len(),
                forall|j: int| k <= j < i ==> (#[trigger] v@[j]).date.before(v@[i as int].date),
            decreases k,
        {
            k -= 1;
        }
        proof {
            assert forall|j: int| k <= j < placed.len() implies (#[trigger] placed[j]).date.before(
                x.date,
            ) by {
                assert(placed[j] == v@[j]);
            }
            if k > 0 {
                assert(placed[k - 1] == v@[k - 1]);
            }
            lemma_slot_for_is(placed, x.date, k as int);
            let upto = before.subrange(0, i + 1);
            assert(before.subrange(i as int, v@.len() as int)[0] == x);
            assert(upto.last() == x);
            assert(upto.drop_last() =~= before.subrange(0, i as int));
        }
        if k < i {
            let entry = v.remove(i);
            v.insert(k, entry);
        }
        proof {
            assert(v@.subrange(0, i + 1) =~= placed.insert(k as int, x));
            let rest = v@.subrange(i + 1, v@.len() as int);
            let rest_before = before.subrange(i + 1, v@.len() as int);
            assert forall|j: int| 0 <= j < rest.len() implies #[trigger] rest[j] == rest_before[j] by {
                assert(before.subrange(i as int, before.len() as int)[j + 1] == before[i + 1 + j]);
            }
            assert(rest =~= rest_before);
        }
        i += 1;
    }
    proof {
        assert(v@.subrange(0, i as int) =~= v@);
        assert(before.subrange(0, i as int) =~= before);
        law_sorted_is_newest_first(before);
        assert forall|d: Timestamp| #[trigger] dated(v@, d) == dated(before, d) by {
            law_sorted_is_stable(before, d);
        }
    }
}

} // verus!
