//! The state of a background scan of a folder for layout packages: the packages found
//! so far, kept in order of their lower-cased names, and the scan's progress.
//!
//! The scan itself runs elsewhere and reports what it finds as events; `poll` takes
//! the events that have arrived and folds them into the state.

use vstd::prelude::*;

use std::path::PathBuf;

use crate::archive::ArchiveEntry;
use crate::text::{chars_lt, lowercase, str_lt, to_lowercase};

verus! {

/// What a running scan reports.
pub enum ArchiveScanEvent {
    Found(ArchiveEntry),
    Progress { scanned: usize, total: usize },
    Finished,
}

/// The key entries are ordered by: the lower-cased display name.
pub open spec fn name_key(e: ArchiveEntry) -> Seq<char> {
    lowercase(e.display_name@)
}

/// `a` goes strictly before `b` in the list of entries.
pub open spec fn comes_before(a: ArchiveEntry, b: ArchiveEntry) -> bool {
    chars_lt(name_key(a), name_key(b))
}

/// `e` placed into `s` after every entry that `e` does not go strictly before,
/// counting from the end.
pub open spec fn insert_sorted(s: Seq<ArchiveEntry>, e: ArchiveEntry) -> Seq<ArchiveEntry>
    decreases s.len(),
{
    if s.len() == 0 {
        seq![e]
    } else if comes_before(e, s.last()) {
        insert_sorted(s.drop_last(), e).push(s.last())
    } else {
        s.push(e)
    }
}

/// `s` in order of the entries' keys, entries with equal keys in their original order.
pub open spec fn sorted_by_name(s: Seq<ArchiveEntry>) -> Seq<ArchiveEntry>
    decreases s.len(),
{
    if s.len() == 0 {
        Seq::empty()
    } else {
        insert_sorted(sorted_by_name(s.drop_last()), s.last())
    }
}

/// The entries that `events` report found, in the order reported.
pub open spec fn found_in(events: Seq<ArchiveScanEvent>) -> Seq<ArchiveEntry>
    decreases events.len(),
{
    if events.len() == 0 {
        Seq::empty()
    } else {
        let prev = found_in(events.drop_last());
        match events.last() {
            ArchiveScanEvent::Found(e) => prev.push(e),
            _ => prev,
        }
    }
}

/// The counts of files scanned and to scan after `events`: those of the last progress
/// report, or `start` where there is none.
pub open spec fn progress_after(events: Seq<ArchiveScanEvent>, start: (usize, usize)) -> (usize, usize)
    decreases events.len(),
{
    if events.len() == 0 {
        start
    } else {
        match events.last() {
            ArchiveScanEvent::Progress { scanned, total } => (scanned, total),
            _ => progress_after(events.drop_last(), start),
        }
    }
}

/// The entries after `events` arrive where `entries` were known: unchanged where
/// nothing was found, otherwise the old and the new ones in order of their names.
pub open spec fn entries_after(entries: Seq<ArchiveEntry>, events: Seq<ArchiveScanEvent>) -> Seq<ArchiveEntry> {
    if found_in(events).len() > 0 {
        sorted_by_name(entries + found_in(events))
    } else {
        entries
    }
}

/// Whether one of `events` reports the scan finished.
pub open spec fn finished_in(events: Seq<ArchiveScanEvent>) -> bool {
    exists|i: int| 0 <= i < events.len() && events[i] is Finished
}

/// A scan of the folder `root` and what it has reported so far.
pub struct ArchiveScan {
    pub root: PathBuf,
    pub entries: Vec<ArchiveEntry>,
    pub scanned: usize,
    pub total: usize,
    pub done: bool,
    pub cancelled: bool,
}

impl ArchiveScan {
    /// The state of a scan of `root` that is just starting: nothing found, nothing
    /// counted, neither finished nor cancelled.
    pub fn start(root: PathBuf) -> (s: Self)
        ensures
            s.root == root,
            s.entries@.len() == 0,
            s.scanned == 0,
            s.total == 0,
            !s.done,
            !s.cancelled,
    {
        ArchiveScan { root, entries: Vec::new(), scanned: 0, total: 0, done: false, cancelled: false }
    }

    /// The folder being scanned.
    pub fn root(&self) -> (r: &PathBuf)
        ensures
            *r == self.root,
    {
        &self.root
    }

    /// Records that the scan was asked to stop; nothing else changes.
    pub fn request_cancel(&mut self)
        ensures
            final(self).cancelled,
            final(self).root == old(self).root,
            final(self).entries@ == old(self).entries@,
            final(self).scanned == old(self).scanned,
            final(self).total == old(self).total,
            final(self).done == old(self).done,
    {
        self.cancelled = true;
    }

    /// Folds the events that arrived since the last call into the state, in order:
    /// found entries are added, the last progress report sets the counts, and a
    /// finished report marks the scan done. Where anything was found, the entries are
    /// put in order of their lower-cased names, entries with equal names keeping their
    /// order. Returns whether any event arrived.
    pub fn poll(&mut self, events: Vec<ArchiveScanEvent>) -> (changed: bool)
        ensures
            changed == (events@.len() > 0),
            final(self).entries@ == entries_after(old(self).entries@, events@),
            (final(self).scanned, final(self).total) == progress_after(
                events@,
                (old(self).scanned, old(self).total),
            ),
            final(self).done == (old(self).done || finished_in(events@)),
            final(self).cancelled == old(self).cancelled,
            final(self).root == old(self).root,
    {
        let ghost orig = events@;
        let ghost start_entries = self.entries@;
        let ghost start_counts = (self.scanned, self.total);
        let ghost start_done = self.done;
        let n_events = events.len();
        let changed = n_events > 0;
        let mut found_new = false;
        let mut events = events;
        let mut k: usize = 0;
        while events.len() > 0
            invariant
                k <= orig.len(),
                events@ == orig.skip(k as int),
                events@.len() + k == orig.len(),
                orig.len() == n_events,
                self.entries@ == start_entries + found_in(orig.take(k as int)),
                found_new == (found_in(orig.take(k as int)).len() > 0),
                (self.scanned, self.total) == progress_after(orig.take(k as int), start_counts),
                self.done == (start_done || finished_in(orig.take(k as int))),
                self.cancelled == old(self).cancelled,
                self.root == old(self).root,
            decreases events.len(),
        {
            let ev = events.remove(0);
            proof {
                assert(orig.skip(k as int)[0] == orig[k as int]);
                assert(orig.skip(k as int).remove(0) =~= orig.skip(k + 1));
                assert(orig.take(k + 1).drop_last() =~= orig.take(k as int));
                assert(orig.take(k + 1).last() == orig[k as int]);
            }
            let ghost prefix = orig.take(k as int);
            let ghost next = orig.take(k + 1);
            match ev {
                ArchiveScanEvent::Found(entry) => {
                    self.entries.push(entry);
                    found_new = true;
                    assert(self.entries@ =~= start_entries + found_in(next));
                },
                ArchiveScanEvent::Progress { scanned, total } => {
                    self.scanned = scanned;
                    self.total = total;
                },
                ArchiveScanEvent::Finished => {
                    self.done = true;
                    assert(next[k as int] is Finished);
                },
            }
            proof {
                if finished_in(prefix) {
                    let w = choose|i: int| 0 <= i < prefix.len() && prefix[i] is Finished;
                    assert(next[w] == prefix[w]);
                }
                if finished_in(next) && !(next[k as int] is Finished) {
                    let w = choose|i: int| 0 <= i < next.len() && next[i] is Finished;
                    assert(w < k);
                    assert(prefix[w] == next[w]);
                }
            }
            k = k + 1;
        }
        proof {
            assert(orig.take(k as int) =~= orig);
        }
        if found_new {
            let mut entries: Vec<ArchiveEntry> = Vec::new();
            std::mem::swap(&mut entries, &mut self.entries);
            self.entries = sort_entries(entries);
        }
        changed
    }
}

/// Where `e` belongs in `s`: after every entry it does not go strictly before,
/// counting from the end, is `s` split at `j`.
proof fn lemma_insert_sorted_at(s: Seq<ArchiveEntry>, e: ArchiveEntry, j: int)
    requires
        0 <= j <= s.len(),
        forall|m: int| j <= m < s.len() ==> comes_before(e, #[trigger] s[m]),
        j == 0 || !comes_before(e, s[j - 1]),
    ensures
        insert_sorted(s, e) == s.take(j).push(e) + s.skip(j),
    decreases s.len(),
{
    if s.len() == 0 {
        assert(s.take(j).push(e) + s.skip(j) =~= seq![e]);
    } else if j == s.len() {
        assert(!comes_before(e, s.last()));
        assert(s.take(j).push(e) + s.skip(j) =~= s.push(e));
    } else {
        assert(comes_before(e, s[s.len() - 1]));
        let d = s.drop_last();
        assert forall|m: int| j <= m < d.len() implies comes_before(e, #[trigger] d[m]) by {
            assert(d[m] == s[m]);
        }
        if j > 0 {
            assert(d[j - 1] == s[j - 1]);
        }
        lemma_insert_sorted_at(d, e, j);
        assert(d.take(j) =~= s.take(j));
        assert((d.take(j).push(e) + d.skip(j)).push(s.last()) =~= s.take(j).push(e) + s.skip(j));
    }
}

/// The entries in order of their lower-cased display names, entries with equal names
/// keeping their order.
fn sort_entries(entries: Vec<ArchiveEntry>) -> (r: Vec<ArchiveEntry>)
    ensures
        r@ == sorted_by_name(entries@),
{
    let ghost orig = entries@;
    let mut src = entries;
    let mut out: Vec<ArchiveEntry> = Vec::new();
    let mut keys: Vec<String> = Vec::new();
    let n = src.len();
    let mut k: usize = 0;
    while src.len() > 0
        invariant
            k <= orig.len(),
            src@ == orig.skip(k as int),
            src@.len() + k == orig.len(),
            orig.len() == n,
            out@ == sorted_by_name(orig.take(k as int)),
            keys@.len() == out@.len(),
            forall|m: int| 0 <= m < keys@.len() ==> #[trigger] keys@[m]@ == name_key(out@[m]),
        decreases src.len(),
    {
        let e = src.remove(0);
        proof {
            assert(orig.skip(k as int)[0] == orig[k as int]);
            assert(orig.skip(k as int).remove(0) =~= orig.skip(k + 1));
            assert(orig.take(k + 1).drop_last() =~= orig.take(k as int));
            assert(orig.take(k + 1).last() == orig[k as int]);
        }
        let key = to_lowercase(e.display_name.as_str());
        let mut j = out.len();
        while j > 0 && str_lt(key.as_str(), keys[j - 1].as_str())
            invariant
                j <= out@.len(),
                keys@.len() == out@.len(),
                key@ == name_key(e),
                forall|m: int| 0 <= m < keys@.len() ==> #[trigger] keys@[m]@ == name_key(out@[m]),
                forall|m: int| j <= m < out@.len() ==> comes_before(e, #[trigger] out@[m]),
            decreases j,
        {
            j = j - 1;
        }
        proof {
            if j > 0 {
                assert(keys@[j - 1]@ == name_key(out@[j - 1]));
            }
            lemma_insert_sorted_at(out@, e, j as int);
        }
        let ghost before_out = out@;
        let ghost before_keys = keys@;
        out.insert(j, e);
        keys.insert(j, key);
        proof {
            assert(out@ =~= before_out.take(j as int).push(e) + before_out.skip(j as int));
            assert forall|m: int| 0 <= m < keys@.len() implies #[trigger] keys@[m]@ == name_key(out@[m]) by {
                if m < j {
                    assert(keys@[m] == before_keys[m]);
                    assert(out@[m] == before_out[m]);
                } else if m > j {
                    assert(keys@[m] == before_keys[m - 1]);
                    assert(out@[m] == before_out[m - 1]);
                }
            }
        }
        k = k + 1;
    }
    proof {
        assert(orig.take(k as int) =~= orig);
    }
    out
}

} // verus!
