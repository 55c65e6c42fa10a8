//! What holds of the order that a scan keeps its entries in, whatever arrives.

use vstd::prelude::*;

use crate::archive::ArchiveEntry;
use crate::scan::{
    comes_before, entries_after, finished_in, found_in, insert_sorted, name_key, progress_after, sorted_by_name, ArchiveScan,
    ArchiveScanEvent,
};
use crate::text::{lemma_chars_lt_asymmetric, lemma_chars_not_lt_transitive};

verus! {

broadcast use vstd::seq_lib::group_to_multiset_ensures;

/// No entry of `s` goes strictly before an entry ahead of it.
pub open spec fn in_name_order(s: Seq<ArchiveEntry>) -> bool {
    forall|i: int, j: int| 0 <= i < j < s.len() ==> !comes_before(#[trigger] s[j], #[trigger] s[i])
}

/// Placing an entry puts it at some position, the others keeping their order.
proof fn lemma_insert_sorted_is_insert(s: Seq<ArchiveEntry>, e: ArchiveEntry) -> (j: int)
    ensures
        0 <= j <= s.len(),
        insert_sorted(s, e) == s.insert(j, e),
        forall|m: int| j <= m < s.len() ==> comes_before(e, #[trigger] s[m]),
    decreases s.len(),
{
    if s.len() == 0 {
        assert(s.insert(0, e) =~= seq![e]);
        0
    } else if comes_before(e, s.last()) {
        let d = s.drop_last();
        let j = lemma_insert_sorted_is_insert(d, e);
        assert(d.insert(j, e).push(s.last()) =~= s.insert(j, e));
        assert forall|m: int| j <= m < s.len() implies comes_before(e, #[trigger] s[m]) by {
            if m < s.len() - 1 {
                assert(s[m] == d[m]);
            }
        }
        j
    } else {
        assert(s.insert(s.len() as int, e) =~= s.push(e));
        s.len() as int
    }
}

proof fn lemma_insert_sorted_in_order(s: Seq<ArchiveEntry>, e: ArchiveEntry)
    requires
        in_name_order(s),
    ensures
        in_name_order(insert_sorted(s, e)),
    decreases s.len(),
{
    if s.len() == 0 {
    } else if comes_before(e, s.last()) {
        let d = s.drop_last();
        let last = s.last();
        assert(in_name_order(d)) by {
            assert forall|i: int, j: int| 0 <= i < j < d.len() implies !comes_before(#[trigger] d[j], #[trigger] d[i]) by {
                assert(d[i] == s[i] && d[j] == s[j]);
            }
        }
        lemma_insert_sorted_in_order(d, e);
        let t = insert_sorted(d, e);
        let k = lemma_insert_sorted_is_insert(d, e);
        let r = t.push(last);
        assert forall|i: int, j: int| 0 <= i < j < r.len() implies !comes_before(#[trigger] r[j], #[trigger] r[i]) by {
            if j == r.len() - 1 {
                assert(r[j] == last);
                assert(r[i] == t[i]);
                if i == k {
                    assert(t[i] == e);
                    lemma_chars_lt_asymmetric(name_key(e), name_key(last));
                } else if i < k {
                    assert(t[i] == d[i]);
                    assert(d[i] == s[i]);
                    assert(!comes_before(s[s.len() - 1], s[i]));
                } else {
                    assert(t[i] == d[i - 1]);
                    assert(d[i - 1] == s[i - 1]);
                    assert(!comes_before(s[s.len() - 1], s[i - 1]));
                }
            } else {
                assert(r[i] == t[i] && r[j] == t[j]);
            }
        }
    } else {
        let r = s.push(e);
        assert forall|i: int, j: int| 0 <= i < j < r.len() implies !comes_before(#[trigger] r[j], #[trigger] r[i]) by {
            if j == s.len() {
                assert(r[j] == e);
                assert(r[i] == s[i]);
                if i < s.len() - 1 {
                    assert(!comes_before(s[s.len() - 1], s[i]));
                    lemma_chars_not_lt_transitive(name_key(e), name_key(s.last()), name_key(s[i]));
                }
            } else {
                assert(r[i] == s[i] && r[j] == s[j]);
            }
        }
    }
}

/// Sorting by name puts every entry after those whose names it does not come before.
pub proof fn law_sorted_by_name_in_order(s: Seq<ArchiveEntry>)
    ensures
        in_name_order(sorted_by_name(s)),
    decreases s.len(),
{
    if s.len() > 0 {
        law_sorted_by_name_in_order(s.drop_last());
        lemma_insert_sorted_in_order(sorted_by_name(s.drop_last()), s.last());
    }
}

/// Sorting by name neither loses nor adds an entry.
pub proof fn law_sorted_by_name_permutes(s: Seq<ArchiveEntry>)
    ensures
        sorted_by_name(s).to_multiset() == s.to_multiset(),
    decreases s.len(),
{
    if s.len() > 0 {
        let d = s.drop_last();
        law_sorted_by_name_permutes(d);
        let j = lemma_insert_sorted_is_insert(sorted_by_name(d), s.last());
        vstd::seq_lib::to_multiset_insert(sorted_by_name(d), j, s.last());
        assert(d.push(s.last()) =~= s);
    }
}

/// After a poll, the entries are those known before together with those that arrived,
/// none lost and none added; and where any arrived, they are in order of their names.
pub proof fn law_poll_keeps_entries_in_order(entries: Seq<ArchiveEntry>, events: Seq<ArchiveScanEvent>)
    ensures
        entries_after(entries, events).to_multiset() == (entries + found_in(events)).to_multiset(),
        found_in(events).len() > 0 ==> in_name_order(entries_after(entries, events)),
{
    if found_in(events).len() > 0 {
        law_sorted_by_name_permutes(entries + found_in(events));
        law_sorted_by_name_in_order(entries + found_in(events));
    } else {
        assert(entries + found_in(events) =~= entries);
    }
}


/// The entries of `s` whose key is `k`, in order.
pub open spec fn with_key(s: Seq<ArchiveEntry>, k: Seq<char>) -> Seq<ArchiveEntry> {
    s.filter(|e: ArchiveEntry| name_key(e) == k)
}

/// Sorting by name keeps entries with equal names in the order they came in: for
/// every name, the entries with that name appear in the same order before and after.
pub proof fn law_sorted_by_name_is_stable(s: Seq<ArchiveEntry>, k: Seq<char>)
    ensures
        with_key(sorted_by_name(s), k) == with_key(s, k),
    decreases s.len(),
{
    let pred = |e: ArchiveEntry| name_key(e) == k;
    if s.len() == 0 {
        reveal(Seq::filter);
    } else {
        let d = s.drop_last();
        let e = s.last();
        law_sorted_by_name_is_stable(d, k);
        let t = sorted_by_name(d);
        let j = lemma_insert_sorted_is_insert(t, e);
        let front = t.take(j);
        let back = t.skip(j);
        assert(t =~= front + back);
        assert(t.insert(j, e) =~= front.push(e) + back);
        Seq::filter_distributes_over_add(front, back, pred);
        Seq::filter_distributes_over_add(front.push(e), back, pred);
        Seq::filter_distributes_over_add(front, seq![e], pred);
        assert(front.push(e) =~= front + seq![e]);
        reveal(Seq::filter);
        assert(seq![e].drop_last() =~= Seq::<ArchiveEntry>::empty());
        assert(d.push(e) =~= s);
        assert(s.drop_last() == d);
        if name_key(e) == k {
            assert forall|m: int| 0 <= m < back.len() implies !pred(#[trigger] back[m]) by {
                assert(back[m] == t[j + m]);
                assert(comes_before(e, t[j + m]));
                crate::text::lemma_chars_lt_irreflexive(name_key(e));
            }
            back.lemma_all_neg_filter_empty(pred);
            assert(back.filter(pred) =~= Seq::<ArchiveEntry>::empty());
            assert(with_key(sorted_by_name(s), k) =~= front.filter(pred) + seq![e]);
            assert(with_key(s, k) =~= with_key(d, k).push(e));
            assert(t.filter(pred) =~= front.filter(pred));
        } else {
            assert(seq![e].last() == e);
            assert(!pred(e));
            assert(seq![e].drop_last().filter(pred) =~= Seq::<ArchiveEntry>::empty());
            assert(seq![e].filter(pred) =~= Seq::<ArchiveEntry>::empty());
            assert(with_key(sorted_by_name(s), k) =~= front.filter(pred) + back.filter(pred));
            assert(with_key(s, k) =~= with_key(d, k));
        }
    }
}

/// `b` is what `poll` with some events, or `request_cancel`, may leave of the scan `a`,
/// as their contracts state it.
pub open spec fn scan_step(a: ArchiveScan, b: ArchiveScan) -> bool {
    ||| exists|events: Seq<ArchiveScanEvent>| {
        &&& b.entries@ == entries_after(a.entries@, events)
        &&& (b.scanned, b.total) == progress_after(events, (a.scanned, a.total))
        &&& b.done == (a.done || finished_in(events))
        &&& b.cancelled == a.cancelled
        &&& b.root == a.root
    }
    ||| {
        &&& b.cancelled
        &&& b.root == a.root
        &&& b.entries@ == a.entries@
        &&& b.scanned == a.scanned
        &&& b.total == a.total
        &&& b.done == a.done
    }
}

/// Over any run of polls and cancel requests, a scan keeps the folder it was started
/// on, and once finished or asked to stop it stays so.
pub proof fn law_scan_keeps_its_root(states: Seq<ArchiveScan>)
    requires
        states.len() > 0,
        forall|i: int| 0 <= i < states.len() - 1 ==> scan_step(#[trigger] states[i], states[i + 1]),
    ensures
        forall|i: int| 0 <= i < states.len() ==> (#[trigger] states[i]).root == states[0].root,
        forall|i: int, j: int| 0 <= i <= j < states.len() ==> (#[trigger] states[i]).done ==> (#[trigger] states[j]).done,
        forall|i: int, j: int| 0 <= i <= j < states.len() ==> (#[trigger] states[i]).cancelled
            ==> (#[trigger] states[j]).cancelled,
    decreases states.len(),
{
    if states.len() > 1 {
        let d = states.drop_last();
        assert forall|i: int| 0 <= i < d.len() - 1 implies scan_step(#[trigger] d[i], d[i + 1]) by {
            assert(d[i] == states[i] && d[i + 1] == states[i + 1]);
            assert(scan_step(states[i], states[i + 1]));
        }
        law_scan_keeps_its_root(d);
        let k = states.len() - 1;
        assert(scan_step(states[k - 1], states[k]));
        assert(d[k - 1] == states[k - 1]);
        assert forall|i: int| 0 <= i < states.len() implies (#[trigger] states[i]).root == states[0].root by {
            if i < k {
                assert(d[i] == states[i]);
            }
        }
        assert forall|i: int, j: int| 0 <= i <= j < states.len() && (#[trigger] states[i]).done implies (#[trigger] states[j]).done by {
            if j < k {
                assert(d[i] == states[i] && d[j] == states[j]);
            } else if i < k {
                assert(d[i] == states[i]);
                assert(d[i].done ==> d[k - 1].done);
            }
        }
        assert forall|i: int, j: int| 0 <= i <= j < states.len() && (#[trigger] states[i]).cancelled implies (#[trigger] states[j]).cancelled by {
            if j < k {
                assert(d[i] == states[i] && d[j] == states[j]);
            } else if i < k {
                assert(d[i] == states[i]);
                assert(d[i].cancelled ==> d[k - 1].cancelled);
            }
        }
    }
}

} // verus!
