//! The decisions of the folder watcher: the debounce queue of files that
//! changed, the window during which a restored file is not touched again,
//! and the notification that sums up a batch.

use vstd::prelude::*;
use vstd::string::*;
use crate::model::WatchedFolder;
use crate::text::{chars_eq, decimal, u64_to_decimal};

verus! {

/// How long a file must stay quiet before it is handled, in seconds.
pub const SETTLE_SECS: u64 = 2;

/// How long a file restored by an undo is left alone, in seconds.
pub const IGNORE_DURATION_SECS: u64 = 5;

/// `SETTLE_SECS` in nanoseconds.
pub const SETTLE_NANOS: u64 = SETTLE_SECS * 1_000_000_000;

/// `IGNORE_DURATION_SECS` in nanoseconds.
pub const IGNORE_DURATION_NANOS: u64 = IGNORE_DURATION_SECS * 1_000_000_000;

/// A path and an instant (nanoseconds on the watcher's monotonic clock).
pub type Entry = (Seq<char>, u64);

/// Time from `then` to `now`, zero when `then` is later (as
/// `Instant::duration_since` saturates).
pub open spec fn elapsed(now: u64, then: u64) -> int {
    if now >= then { now - then } else { 0 }
}

/// No two entries have the same path.
pub open spec fn paths_distinct(s: Seq<Entry>) -> bool {
    forall|i: int, j: int| 0 <= i < j < s.len() ==> #[trigger] s[i].0 != #[trigger] s[j].0
}

/// The entries of `s` that satisfy `keep`, in their order.
pub open spec fn keep_where(s: Seq<Entry>, keep: spec_fn(Entry) -> bool) -> Seq<Entry>
    decreases s.len(),
{
    if s.len() == 0 {
        s
    } else {
        let rest = keep_where(s.drop_last(), keep);
        if keep(s.last()) {
            rest.push(s.last())
        } else {
            rest
        }
    }
}

/// Entries for another path than `p`.
pub open spec fn other_path(p: Seq<char>) -> spec_fn(Entry) -> bool {
    |e: Entry| e.0 != p
}

/// Entries that have been quiet for the settle time at `now`.
pub open spec fn settled(now: u64) -> spec_fn(Entry) -> bool {
    |e: Entry| elapsed(now, e.1) >= SETTLE_NANOS
}

/// Entries that have not yet been quiet for the settle time at `now`.
pub open spec fn unsettled(now: u64) -> spec_fn(Entry) -> bool {
    |e: Entry| elapsed(now, e.1) < SETTLE_NANOS
}

/// The paths of a sequence of entries.
pub open spec fn entry_paths(s: Seq<Entry>) -> Seq<Seq<char>> {
    s.map_values(|e: Entry| e.0)
}

/// Every entry kept is an entry of `s` that satisfies `keep`.
pub proof fn lemma_keep_where_sub(s: Seq<Entry>, keep: spec_fn(Entry) -> bool)
    ensures
        forall|k: int|
            0 <= k < keep_where(s, keep).len() ==> keep(#[trigger] keep_where(s, keep)[k])
                && s.contains(keep_where(s, keep)[k]),
        keep_where(s, keep).len() <= s.len(),
    decreases s.len(),
{
    if s.len() > 0 {
        lemma_keep_where_sub(s.drop_last(), keep);
        let rest = keep_where(s.drop_last(), keep);
        assert forall|k: int| 0 <= k < keep_where(s, keep).len() implies keep(
            #[trigger] keep_where(s, keep)[k],
        ) && s.contains(keep_where(s, keep)[k]) by {
            if k < rest.len() {
                let m = choose|m: int| 0 <= m < s.drop_last().len() && s.drop_last()[m] == rest[k];
                assert(s[m] == rest[k]);
            } else {
                assert(s[s.len() - 1] == s.last());
            }
        }
    }
}

/// Keeping entries keeps paths distinct.
pub proof fn lemma_keep_where_distinct(s: Seq<Entry>, keep: spec_fn(Entry) -> bool)
    requires
        paths_distinct(s),
    ensures
        paths_distinct(keep_where(s, keep)),
    decreases s.len(),
{
    if s.len() > 0 {
        let d = s.drop_last();
        assert(paths_distinct(d));
        lemma_keep_where_distinct(d, keep);
        lemma_keep_where_sub(d, keep);
        let rest = keep_where(d, keep);
        if keep(s.last()) {
            let r = rest.push(s.last());
            assert forall|i: int, j: int| 0 <= i < j < r.len() implies #[trigger] r[i].0 != #[trigger] r[j].0 by {
                if j == r.len() - 1 {
                    let m = choose|m: int| 0 <= m < d.len() && d[m] == rest[i];
                    assert(s[m] == d[m]);
                    assert(s[s.len() - 1] == s.last());
                } else {
                    assert(rest[i].0 != rest[j].0);
                }
            }
        }
    }
}

/// An entry is kept by one of two complementary tests and not by the other.
pub proof fn lemma_keep_where_partition(
    s: Seq<Entry>,
    keep: spec_fn(Entry) -> bool,
    drop: spec_fn(Entry) -> bool,
)
    requires
        forall|e: Entry| #[trigger] keep(e) <==> !drop(e),
    ensures
        keep_where(s, keep).len() + keep_where(s, drop).len() == s.len(),
    decreases s.len(),
{
    if s.len() > 0 {
        lemma_keep_where_partition(s.drop_last(), keep, drop);
    }
}

/// No entry that `other_path(p)` keeps has the path `p`.
pub proof fn lemma_other_path_excludes(s: Seq<Entry>, p: Seq<char>)
    ensures
        forall|k: int|
            0 <= k < keep_where(s, other_path(p)).len() ==> (#[trigger] keep_where(s, other_path(p))[k]).0
                != p,
{
    lemma_keep_where_sub(s, other_path(p));
}

/// A file waiting for its settle time.
#[derive(Debug)]
pub struct PendingFile {
    pub path: String,
    pub scheduled: u64,
}

/// The files that changed recently, each at most once, with the instant of
/// its latest change, in the order they were (re)scheduled.
#[derive(Debug)]
pub struct PendingQueue {
    entries: Vec<PendingFile>,
}

/// The entries of a vector of pending files as plain values.
pub open spec fn pending_view(v: Seq<PendingFile>) -> Seq<Entry> {
    Seq::new(v.len(), |i: int| (v[i].path@, v[i].scheduled))
}

impl View for PendingQueue {
    type V = Seq<Entry>;

    closed spec fn view(&self) -> Seq<Entry> {
        pending_view(self.entries@)
    }
}

impl PendingQueue {
    /// The queue is well formed: no path is pending twice.
    pub open spec fn wf(&self) -> bool {
        paths_distinct(self@)
    }

    /// An empty queue.
    pub fn new() -> (res: Self)
        ensures
            res.wf(),
            res@ == Seq::<Entry>::empty(),
    {
        let res = PendingQueue { entries: Vec::new() };
        assert(res@ =~= Seq::<Entry>::empty());
        res
    }

    /// The number of files waiting.
    pub fn len(&self) -> (res: usize)
        ensures
            res == self@.len(),
    {
        self.entries.len()
    }

    fn filtered_by_path(&self, path: &str) -> (res: Vec<PendingFile>)
        ensures
            pending_view(res@) == keep_where(self@, other_path(path@)),
    {
        let n = self.entries.len();
        let mut out: Vec<PendingFile> = Vec::new();
        let mut i: usize = 0;
        assert(self@.take(0) =~= Seq::<Entry>::empty());
        assert(pending_view(out@) =~= Seq::<Entry>::empty());
        while i < n
            invariant
                n == self.entries.len(),
                n == self@.len(),
                i <= n,
                pending_view(out@) == keep_where(self@.take(i as int), other_path(path@)),
            decreases n - i,
        {
            let ghost prefix = self@.take(i + 1);
            proof {
                assert(prefix.drop_last() =~= self@.take(i as int));
                assert(prefix.last() == self@[i as int]);
            }
            let e = &self.entries[i];
            if !chars_eq(e.path.as_str(), path) {
                let ghost before = pending_view(out@);
                out.push(PendingFile { path: e.path.clone(), scheduled: e.scheduled });
                assert(pending_view(out@) =~= before.push(self@[i as int]));
            }
            i = i + 1;
        }
        assert(self@.take(n as int) =~= self@);
        out
    }

    /// Schedules a file: any earlier entry for its path is dropped and the
    /// path is queued again with the instant `now`.
    pub fn schedule(&mut self, path: String, now: u64)
        requires
            old(self).wf(),
        ensures
            final(self).wf(),
            final(self)@ == keep_where(old(self)@, other_path(path@)).push((path@, now)),
    {
        let ghost before = self@;
        let mut kept = self.filtered_by_path(path.as_str());
        let ghost kept_view = pending_view(kept@);
        let ghost p = path@;
        kept.push(PendingFile { path, scheduled: now });
        proof {
            assert(pending_view(kept@) =~= kept_view.push((p, now)));
            lemma_keep_where_distinct(before, other_path(p));
            lemma_other_path_excludes(before, p);
            let r = kept_view.push((p, now));
            assert forall|i: int, j: int| 0 <= i < j < r.len() implies #[trigger] r[i].0
                != #[trigger] r[j].0 by {
                if j == r.len() - 1 {
                    assert(kept_view[i].0 != p);
                } else {
                    assert(kept_view[i].0 != kept_view[j].0);
                }
            }
        }
        self.entries = kept;
    }

    /// Takes out the files that have been quiet for the settle time at
    /// `now`, in queue order; the others stay queued, in their order.
    pub fn take_ready(&mut self, now: u64) -> (res: Vec<String>)
        requires
            old(self).wf(),
        ensures
            final(self).wf(),
            res.deep_view() == entry_paths(keep_where(old(self)@, settled(now))),
            final(self)@ == keep_where(old(self)@, unsettled(now)),
    {
        let ghost before = self@;
        let n = self.entries.len();
        let mut ready: Vec<String> = Vec::new();
        let mut waiting: Vec<PendingFile> = Vec::new();
        let mut i: usize = 0;
        assert(before.take(0) =~= Seq::<Entry>::empty());
        assert(pending_view(waiting@) =~= Seq::<Entry>::empty());
        assert(ready.deep_view() =~= Seq::<Seq<char>>::empty());
        while i < n
            invariant
                before == self@,
                n == self.entries.len(),
                n == before.len(),
                i <= n,
                pending_view(waiting@) == keep_where(before.take(i as int), unsettled(now)),
                ready.deep_view() == entry_paths(keep_where(before.take(i as int), settled(now))),
            decreases n - i,
        {
            let ghost prefix = before.take(i + 1);
            proof {
                assert(prefix.drop_last() =~= before.take(i as int));
                assert(prefix.last() == before[i as int]);
            }
            let e = &self.entries[i];
            let age: u64 = if now >= e.scheduled { now - e.scheduled } else { 0 };
            if age >= SETTLE_NANOS {
                let ghost old_ready = ready.deep_view();
                ready.push(e.path.clone());
                proof {
                    assert(ready.deep_view() =~= old_ready.push(before[i as int].0));
                    let k = keep_where(before.take(i as int), settled(now));
                    assert(entry_paths(k.push(before[i as int])) =~= entry_paths(k).push(before[i as int].0));
                }
            } else {
                let ghost old_waiting = pending_view(waiting@);
                waiting.push(PendingFile { path: e.path.clone(), scheduled: e.scheduled });
                assert(pending_view(waiting@) =~= old_waiting.push(before[i as int]));
            }
            i = i + 1;
        }
        assert(before.take(n as int) =~= before);
        proof {
            lemma_keep_where_distinct(before, unsettled(now));
        }
        self.entries = waiting;
        ready
    }
}

/// The map an entry list stands for: each path to its instant.
pub open spec fn entries_map(s: Seq<Entry>) -> Map<Seq<char>, u64>
    decreases s.len(),
{
    if s.len() == 0 {
        Map::empty()
    } else {
        entries_map(s.drop_last()).insert(s.last().0, s.last().1)
    }
}

/// A path is in the map exactly when some entry has it, and with distinct
/// paths it maps to that entry's instant.
pub proof fn lemma_entries_map_lookup(s: Seq<Entry>)
    ensures
        forall|k: Seq<char>|
            #[trigger] entries_map(s).contains_key(k) <==> exists|i: int| 0 <= i < s.len() && s[i].0 == k,
        paths_distinct(s) ==> forall|i: int| 0 <= i < s.len() ==> #[trigger] entries_map(s)[s[i].0] == s[i].1,
    decreases s.len(),
{
    if s.len() > 0 {
        let d = s.drop_last();
        lemma_entries_map_lookup(d);
        assert forall|k: Seq<char>| #[trigger] entries_map(s).contains_key(k) <==> exists|i: int|
            0 <= i < s.len() && s[i].0 == k by {
            if entries_map(s).contains_key(k) {
                if k == s.last().0 {
                    assert(s[s.len() - 1].0 == k);
                } else {
                    assert(entries_map(d).contains_key(k));
                    let i = choose|i: int| 0 <= i < d.len() && d[i].0 == k;
                    assert(s[i] == d[i]);
                    assert(s[i].0 == k);
                }
            }
            if exists|i: int| 0 <= i < s.len() && s[i].0 == k {
                let i = choose|i: int| 0 <= i < s.len() && s[i].0 == k;
                if i < d.len() {
                    assert(d[i] == s[i]);
                    assert(d[i].0 == k);
                    assert(entries_map(d).contains_key(k));
                } else {
                    assert(s[i] == s.last());
                }
            }
        }
        if paths_distinct(s) {
            assert(paths_distinct(d));
            assert forall|i: int| 0 <= i < s.len() implies #[trigger] entries_map(s)[s[i].0] == s[i].1 by {
                if i < d.len() {
                    assert(d[i] == s[i]);
                    assert(s[i].0 != s[s.len() - 1].0);
                    assert(entries_map(d)[d[i].0] == d[i].1);
                } else {
                    assert(s[i] == s.last());
                }
            }
        }
    }
}

/// Removing the entry at `i` removes its path from the map.
pub proof fn lemma_entries_map_remove(s: Seq<Entry>, i: int)
    requires
        paths_distinct(s),
        0 <= i < s.len(),
    ensures
        paths_distinct(s.remove(i)),
        entries_map(s.remove(i)) == entries_map(s).remove(s[i].0),
    decreases s.len(),
{
    let d = s.drop_last();
    let r = s.remove(i);
    assert(paths_distinct(d));
    assert forall|a: int, b: int| 0 <= a < b < r.len() implies #[trigger] r[a].0 != #[trigger] r[b].0 by {
        let sa = if a < i { a } else { a + 1 };
        let sb = if b < i { b } else { b + 1 };
        assert(r[a] == s[sa]);
        assert(r[b] == s[sb]);
    }
    lemma_entries_map_lookup(d);
    if i == s.len() - 1 {
        assert(r =~= d);
        assert(!entries_map(d).contains_key(s.last().0)) by {
            if entries_map(d).contains_key(s.last().0) {
                let k = choose|k: int| 0 <= k < d.len() && d[k].0 == s.last().0;
                assert(s[k] == d[k]);
            }
        }
        assert(entries_map(d) =~= entries_map(d).insert(s.last().0, s.last().1).remove(s.last().0));
    } else {
        lemma_entries_map_remove(d, i);
        assert(r =~= d.remove(i).push(s.last()));
        assert(r.drop_last() =~= d.remove(i));
        assert(d[i] == s[i]);
        assert(s[i].0 != s[s.len() - 1].0);
        assert(entries_map(r) =~= entries_map(s).remove(s[i].0));
    }
}

/// The ignore map after recording that `path` was restored at `now`.
pub open spec fn after_restore(m: Map<Seq<char>, u64>, path: Seq<char>, now: u64) -> Map<Seq<char>, u64> {
    m.insert(path, now)
}

/// Whether an event for `path` at `now` falls in the path's ignore window.
pub open spec fn event_ignored(m: Map<Seq<char>, u64>, path: Seq<char>, now: u64) -> bool {
    m.contains_key(path) && elapsed(now, m[path]) < IGNORE_DURATION_NANOS
}

/// The files restored by an undo, each with the instant it was restored;
/// the watcher leaves them alone for a while.
#[derive(Debug)]
pub struct IgnoreList {
    entries: Vec<(String, u64)>,
}

/// The entries of a vector of (path, instant) pairs as plain values.
pub open spec fn ignore_entries_view(v: Seq<(String, u64)>) -> Seq<Entry> {
    Seq::new(v.len(), |i: int| (v[i].0@, v[i].1))
}

impl IgnoreList {
    /// The entries as plain values.
    pub closed spec fn entries_seq(&self) -> Seq<Entry> {
        ignore_entries_view(self.entries@)
    }

    /// Each ignored path with the instant it was restored.
    pub open spec fn view(&self) -> Map<Seq<char>, u64> {
        entries_map(self.entries_seq())
    }

    /// The list is well formed: no path is listed twice.
    pub open spec fn wf(&self) -> bool {
        paths_distinct(self.entries_seq())
    }

    /// An empty list.
    pub fn new() -> (res: Self)
        ensures
            res.wf(),
            res@ == Map::<Seq<char>, u64>::empty(),
    {
        let res = IgnoreList { entries: Vec::new() };
        assert(res.entries_seq() =~= Seq::<Entry>::empty());
        res
    }

    fn position(&self, path: &str) -> (res: Option<usize>)
        requires
            self.wf(),
        ensures
            res is None ==> !self@.contains_key(path@),
            res matches Some(i) ==> i < self.entries_seq().len() && self.entries_seq()[i as int].0 == path@,
    {
        let n = self.entries.len();
        let mut i: usize = 0;
        while i < n
            invariant
                n == self.entries.len(),
                n == self.entries_seq().len(),
                i <= n,
                forall|j: int| 0 <= j < i ==> self.entries_seq()[j].0 != path@,
            decreases n - i,
        {
            if chars_eq(self.entries[i].0.as_str(), path) {
                return Some(i);
            }
            i = i + 1;
        }
        proof {
            lemma_entries_map_lookup(self.entries_seq());
        }
        None
    }

    /// Records that `path` was restored at `now` (replacing any earlier
    /// record of it).
    pub fn insert(&mut self, path: String, now: u64)
        requires
            old(self).wf(),
        ensures
            final(self).wf(),
            final(self)@ == after_restore(old(self)@, path@, now),
    {
        let ghost before = self.entries_seq();
        let ghost p = path@;
        match self.position(path.as_str()) {
            Some(i) => {
                proof {
                    lemma_entries_map_remove(before, i as int);
                }
                self.entries.remove(i);
                assert(self.entries_seq() =~= before.remove(i as int));
            },
            None => {
                proof {
                    lemma_entries_map_lookup(before);
                    assert(entries_map(before).remove(p) =~= entries_map(before));
                }
            },
        }
        let ghost mid = self.entries_seq();
        assert(entries_map(mid) == entries_map(before).remove(p));
        assert(paths_distinct(mid));
        proof {
            lemma_entries_map_lookup(mid);
            assert(!entries_map(mid).contains_key(p));
        }
        self.entries.push((path, now));
        proof {
            assert(self.entries_seq() =~= mid.push((p, now)));
            let r = mid.push((p, now));
            assert forall|a: int, b: int| 0 <= a < b < r.len() implies #[trigger] r[a].0
                != #[trigger] r[b].0 by {
                if b == r.len() - 1 {
                    assert(r[a] == mid[a]);
                } else {
                    assert(mid[a].0 != mid[b].0);
                }
            }
            assert(r.drop_last() =~= mid);
            assert(entries_map(r) == entries_map(mid).insert(p, now));
            assert(entries_map(r) =~= entries_map(before).insert(p, now));
        }
    }

    /// Whether an event for `path` at `now` is to be dropped: it is while
    /// the path was restored less than `IGNORE_DURATION_SECS` ago. A record
    /// that has run out is removed.
    pub fn check_event(&mut self, path: &str, now: u64) -> (skip: bool)
        requires
            old(self).wf(),
        ensures
            final(self).wf(),
            skip == event_ignored(old(self)@, path@, now),
            skip ==> final(self)@ == old(self)@,
            !skip ==> final(self)@ == old(self)@.remove(path@),
    {
        let ghost before = self.entries_seq();
        proof {
            lemma_entries_map_lookup(before);
        }
        match self.position(path) {
            None => {
                assert(entries_map(before).remove(path@) =~= entries_map(before));
                false
            },
            Some(i) => {
                let t = self.entries[i].1;
                assert(entries_map(before)[path@] == t);
                let age: u64 = if now >= t { now - t } else { 0 };
                if age < IGNORE_DURATION_NANOS {
                    true
                } else {
                    proof {
                        lemma_entries_map_remove(before, i as int);
                    }
                    self.entries.remove(i);
                    assert(self.entries_seq() =~= before.remove(i as int));
                    false
                }
            },
        }
    }
}

/// Handles a change event for a file: dropped while the file is in its
/// ignore window, otherwise the file is (re)scheduled at `now`. Returns
/// whether it was scheduled.
pub fn on_file_event(ignored: &mut IgnoreList, pending: &mut PendingQueue, path: String, now: u64) -> (scheduled: bool)
    requires
        old(ignored).wf(),
        old(pending).wf(),
    ensures
        final(ignored).wf(),
        final(pending).wf(),
        scheduled == !event_ignored(old(ignored)@, path@, now),
        !scheduled ==> final(ignored)@ == old(ignored)@ && final(pending)@ == old(pending)@,
        scheduled ==> final(ignored)@ == old(ignored)@.remove(path@) && final(pending)@ == keep_where(
            old(pending)@,
            other_path(path@),
        ).push((path@, now)),
{
    if ignored.check_event(path.as_str(), now) {
        false
    } else {
        pending.schedule(path, now);
        true
    }
}

/// The paths of the enabled folders, in order: the folders to watch.
pub fn folders_to_watch(folders: &Vec<WatchedFolder>) -> (res: Vec<String>)
    ensures
        res.deep_view() == enabled_folder_paths(folders@),
{
    let n = folders.len();
    let mut out: Vec<String> = Vec::new();
    let mut i: usize = 0;
    assert(folders@.take(0) =~= Seq::<WatchedFolder>::empty());
    assert(out.deep_view() =~= Seq::<Seq<char>>::empty());
    while i < n
        invariant
            n == folders.len(),
            i <= n,
            out.deep_view() == enabled_folder_paths(folders@.take(i as int)),
        decreases n - i,
    {
        let ghost prefix = folders@.take(i + 1);
        assert(prefix.drop_last() =~= folders@.take(i as int));
        if folders[i].enabled {
            let ghost before = out.deep_view();
            out.push(folders[i].path.clone());
            assert(out.deep_view() =~= before.push(folders@[i as int].path@));
        }
        i = i + 1;
    }
    assert(folders@.take(n as int) =~= folders@);
    out
}

/// The paths of the enabled folders, in order.
pub open spec fn enabled_folder_paths(folders: Seq<WatchedFolder>) -> Seq<Seq<char>>
    decreases folders.len(),
{
    if folders.len() == 0 {
        Seq::empty()
    } else {
        let rest = enabled_folder_paths(folders.drop_last());
        if folders.last().enabled {
            rest.push(folders.last().path@)
        } else {
            rest
        }
    }
}

/// What one pass over the settled files organized: how many, and the last
/// file and rule.
#[derive(Debug)]
pub struct BatchReport {
    pub organized: u64,
    pub last_file_name: String,
    pub last_rule_name: String,
}

/// The notification text for a batch: none when nothing was organized,
/// "<file> → <rule>" for one file, "Organized <n> files" for more.
pub open spec fn notification_text(organized: nat, file: Seq<char>, rule: Seq<char>) -> Option<Seq<char>> {
    if organized == 0 {
        None
    } else if organized == 1 {
        Some(file + " → "@ + rule)
    } else {
        Some("Organized "@ + decimal(organized) + " files"@)
    }
}

impl BatchReport {
    /// A report of nothing organized.
    pub fn new() -> (res: Self)
        ensures
            res.organized == 0,
            res.last_file_name@ == Seq::<char>::empty(),
            res.last_rule_name@ == Seq::<char>::empty(),
    {
        BatchReport { organized: 0, last_file_name: String::new(), last_rule_name: String::new() }
    }

    /// Counts one organized file and remembers it as the last.
    pub fn record(&mut self, file_name: String, rule_name: String)
        requires
            old(self).organized < u64::MAX,
        ensures
            final(self).organized == old(self).organized + 1,
            final(self).last_file_name@ == file_name@,
            final(self).last_rule_name@ == rule_name@,
    {
        self.organized = self.organized + 1;
        self.last_file_name = file_name;
        self.last_rule_name = rule_name;
    }

    /// The notification to show for the batch, if any.
    pub fn notification_body(&self) -> (res: Option<String>)
        ensures
            res.deep_view() == notification_text(
                self.organized as nat,
                self.last_file_name@,
                self.last_rule_name@,
            ),
    {
        if self.organized == 0 {
            None
        } else if self.organized == 1 {
            let mut body = self.last_file_name.clone();
            body.append(" → ");
            body.append(self.last_rule_name.as_str());
            Some(body)
        } else {
            let mut body = String::from_str("Organized ");
            let digits = u64_to_decimal(self.organized);
            body.append(digits.as_str());
            body.append(" files");
            Some(body)
        }
    }
}

} // verus!
