//! The directory-watch session and the debouncer that turns raw filesystem
//! events into single stabilised observations.  The shell owns the worker
//! thread and the raw event source; every decision — whether a watch may
//! start, which events count, when a file has been quiet long enough, when
//! the worker must stop — is made here.

use vstd::prelude::*;

use crate::fsys::file_name_spec;
use crate::fsys::file_name_of;

verus! {

/// How long a file must stay quiet before it is announced, in milliseconds.
pub const DEBOUNCE_WINDOW_MS: u64 = 2000;

/// How often the worker polls the stop flag, in milliseconds: the bound on
/// shutdown latency.
pub const STOP_POLL_INTERVAL_MS: u64 = 500;

/// A stabilised observation of a file.
pub struct FileInfo {
    /// Full path to the file.
    pub path: String,
    /// Just the file name, without its folders.
    pub name: String,
    /// File size in bytes.
    pub size: u64,
}

impl Clone for FileInfo {
    /// A clone carries every field unchanged.
    fn clone(&self) -> (r: Self)
        ensures
            r == *self,
    {
        FileInfo { path: self.path.clone(), name: self.name.clone(), size: self.size }
    }
}

/// Build the observation for a detected file: the name falls back to
/// `unknown` when the path ends in a separator.
pub fn file_info_for(path: &str, size: u64) -> (r: FileInfo)
    ensures
        r.path@ == path@,
        r.size == size,
        r.name@ == if file_name_spec(path@).len() == 0 {
            "unknown"@
        } else {
            file_name_spec(path@)
        },
{
    let name = file_name_of(path);
    let name = if name.as_str().is_empty() {
        let mut u = String::new();
        u.append("unknown");
        u
    } else {
        name
    };
    FileInfo { path: path.to_owned(), name, size }
}

/// One watch target and its worker's state: at most one session runs at a
/// time, and stopping is a cooperative flag the worker polls.
pub struct WatchSession {
    /// A watch is active.
    pub running: bool,
    /// The worker has been asked to stop.
    pub stop_signal: bool,
    /// The directory being watched while running.
    pub watch_path: String,
}

impl WatchSession {
    /// An idle session.
    pub fn new() -> (r: WatchSession)
        ensures
            !r.running,
            !r.stop_signal,
    {
        WatchSession { running: false, stop_signal: false, watch_path: String::new() }
    }

    /// Has the worker been asked to stop?
    pub fn should_stop(&self) -> (r: bool)
        ensures
            r == self.stop_signal,
    {
        self.stop_signal
    }

    /// Ask the worker to stop; it notices within the poll interval.
    pub fn signal_stop(&mut self)
        ensures
            final(self).stop_signal,
            final(self).running == old(self).running,
            final(self).watch_path == old(self).watch_path,
    {
        self.stop_signal = true;
    }

    /// Clear the stop flag before a new watch begins.
    pub fn reset_stop_signal(&mut self)
        ensures
            !final(self).stop_signal,
            final(self).running == old(self).running,
            final(self).watch_path == old(self).watch_path,
    {
        self.stop_signal = false;
    }

    /// Is a watch active?
    pub fn is_watcher_running(&self) -> (r: bool)
        ensures
            r == self.running,
    {
        self.running
    }

    /// Start watching `path`.  Fails while another watch runs, and when the
    /// path (as the shell examined it) is missing or not a directory; on
    /// success the session runs with a cleared stop flag.
    pub fn start_watching(&mut self, path: String, path_exists: bool, path_is_dir: bool) -> (r:
        Result<(), String>)
        ensures
            old(self).running ==> (r matches Err(m) && m@ == "File watcher is already running"@
                && *final(self) == *old(self)),
            !old(self).running && !path_exists ==> (r matches Err(m) && m@ == "Path does not exist: "@
                + path@ && *final(self) == *old(self)),
            !old(self).running && path_exists && !path_is_dir ==> (r matches Err(m) && m@
                == "Path is not a directory: "@ + path@ && *final(self) == *old(self)),
            !old(self).running && path_exists && path_is_dir ==> (r is Ok && final(self).running
                && !final(self).stop_signal && final(self).watch_path == path),
    {
        if self.running {
            let mut m = String::new();
            m.append("File watcher is already running");
            return Err(m);
        }
        if !path_exists {
            let mut m = String::new();
            m.append("Path does not exist: ");
            m.append(path.as_str());
            return Err(m);
        }
        if !path_is_dir {
            let mut m = String::new();
            m.append("Path is not a directory: ");
            m.append(path.as_str());
            return Err(m);
        }
        self.running = true;
        self.stop_signal = false;
        self.watch_path = path;
        Ok(())
    }

    /// Stop the running watch: signal the worker and mark the session idle.
    /// Fails when nothing is running.
    pub fn stop_watching(&mut self) -> (r: Result<(), String>)
        ensures
            !old(self).running ==> (r matches Err(m) && m@ == "File watcher is not running"@
                && *final(self) == *old(self)),
            old(self).running ==> (r is Ok && !final(self).running && final(self).stop_signal
                && final(self).watch_path == old(self).watch_path),
    {
        if !self.running {
            let mut m = String::new();
            m.append("File watcher is not running");
            return Err(m);
        }
        self.stop_signal = true;
        self.running = false;
        Ok(())
    }
}

/// A raw filesystem event's kind, as the shell reports it.
pub enum FsEventKind {
    /// Something was created.
    Create,
    /// Something was modified.
    Modify,
    /// Something was removed.
    Remove,
    /// Anything else.
    Other,
}

/// Index of the first pending entry for this path, if any.
pub open spec fn pend_idx(s: Seq<(Seq<char>, int)>, p: Seq<char>) -> Option<int>
    decreases s.len(),
{
    if s.len() == 0 {
        None
    } else if s[0].0 == p {
        Some(0)
    } else {
        match pend_idx(s.drop_first(), p) {
            Some(j) => Some(j + 1),
            None => None,
        }
    }
}

/// The pending list after an accepted event: the path's entry is stamped
/// with the event time, joining the list if it was not yet pending.
pub open spec fn stamped(s: Seq<(Seq<char>, int)>, p: Seq<char>, t: int) -> Seq<(Seq<char>, int)> {
    match pend_idx(s, p) {
        Some(i) => s.update(i, (p, t)),
        None => s.push((p, t)),
    }
}

/// The entry has been quiet for the window by time `now`.
pub open spec fn quiet(e: (Seq<char>, int), now: int, w: int) -> bool {
    e.1 + w <= now
}

/// The paths announced at `now`: every pending entry quiet for the window,
/// in pending order, from position `i` on.
pub open spec fn emitted_from(s: Seq<(Seq<char>, int)>, now: int, w: int, i: int) -> Seq<Seq<char>>
    decreases s.len() + 1 - i,
{
    if i < 0 || i >= s.len() {
        Seq::empty()
    } else if quiet(s[i], now, w) {
        seq![s[i].0] + emitted_from(s, now, w, i + 1)
    } else {
        emitted_from(s, now, w, i + 1)
    }
}

/// The entries still pending at `now`: those not yet quiet, in order, from
/// position `i` on.
pub open spec fn kept_from(s: Seq<(Seq<char>, int)>, now: int, w: int, i: int) -> Seq<
    (Seq<char>, int),
>
    decreases s.len() + 1 - i,
{
    if i < 0 || i >= s.len() {
        Seq::empty()
    } else if quiet(s[i], now, w) {
        kept_from(s, now, w, i + 1)
    } else {
        seq![s[i]] + kept_from(s, now, w, i + 1)
    }
}

/// The debouncer: raw events stamp a pending entry per path, and a path is
/// announced once, when it has been quiet for the whole window.
pub struct Debouncer {
    window_ms: u64,
    pending: Vec<(String, i64)>,
}

/// The views of the pending entries.
pub open spec fn pend_views(s: Seq<(String, i64)>) -> Seq<(Seq<char>, int)> {
    s.map_values(|e: (String, i64)| (e.0@, e.1 as int))
}

impl Debouncer {
    /// The pending entries: each tracked path with its last event time.
    pub closed spec fn pending_view(&self) -> Seq<(Seq<char>, int)> {
        pend_views(self.pending@)
    }

    /// The quiet window in milliseconds.
    pub closed spec fn window(&self) -> int {
        self.window_ms as int
    }

    /// Every tracked path is tracked once.
    pub closed spec fn wf(&self) -> bool {
        forall|i: int, j: int|
            0 <= i < j < self.pending@.len() ==> (#[trigger] self.pending@[i]).0@ != (
            #[trigger] self.pending@[j]).0@
    }

    /// A debouncer with this quiet window and nothing pending.
    pub fn new(window_ms: u64) -> (r: Debouncer)
        ensures
            r.wf(),
            r.window() == window_ms as int,
            r.pending_view() == Seq::<(Seq<char>, int)>::empty(),
    {
        let r = Debouncer { window_ms, pending: Vec::new() };
        proof {
            assert(r.pending_view() =~= Seq::<(Seq<char>, int)>::empty());
        }
        r
    }

    /// Take in a raw event.  Only the creation of a file is tracked:
    /// directories and other event kinds never produce observations.  A
    /// tracked path's entry is restamped, so repeated events within the
    /// window collapse into one pending entry.
    pub fn record_event(&mut self, kind: FsEventKind, path: &str, is_file: bool, now_ms: i64)
        requires
            old(self).wf(),
        ensures
            final(self).wf(),
            final(self).window() == old(self).window(),
            (kind is Create && is_file) ==> final(self).pending_view() == stamped(
                old(self).pending_view(),
                path@,
                now_ms as int,
            ),
            !(kind is Create && is_file) ==> final(self).pending_view() == old(
                self,
            ).pending_view(),
    {
        let tracked_event = match kind {
            FsEventKind::Create => is_file,
            _ => false,
        };
        if !tracked_event {
            return ;
        }
        let ghost v0 = old(self).pending_view();
        let mut i: usize = 0;
        while i < self.pending.len()
            invariant
                kind is Create && is_file,
                old(self).wf(),
                v0 == old(self).pending_view(),
                *self == *old(self),
                i <= self.pending@.len(),
                forall|j: int| 0 <= j < i ==> (#[trigger] v0[j]).0 != path@,
            decreases self.pending@.len() - i,
        {
            if crate::text::str_eq(self.pending[i].0.as_str(), path) {
                proof {
                    lemma_pend_idx_at(v0, path@, i as int);
                }
                let ghost e0 = self.pending@;
                self.pending.set(i, (path.to_owned(), now_ms));
                proof {
                    assert(self.pending_view() =~= v0.update(i as int, (path@, now_ms as int)));
                    assert forall|a: int, b: int|
                        0 <= a < b < self.pending@.len() implies (
                        #[trigger] self.pending@[a]).0@ != (#[trigger] self.pending@[b]).0@ by {
                        if a != i {
                            assert(self.pending@[a] == old(self).pending@[a]);
                        }
                        if b != i {
                            assert(self.pending@[b] == old(self).pending@[b]);
                        }
                        assert(v0[a].0 == old(self).pending@[a].0@);
                        assert(v0[b].0 == old(self).pending@[b].0@);
                        assert(v0[i as int].0 == path@);
                    }
                }
                return ;
            }
            i += 1;
        }
        proof {
            lemma_pend_idx_none(v0, path@, v0.len() as int);
        }
        self.pending.push((path.to_owned(), now_ms));
        proof {
            assert(self.pending_view() =~= v0.push((path@, now_ms as int)));
            assert forall|a: int, b: int|
                0 <= a < b < self.pending@.len() implies (#[trigger] self.pending@[a]).0@ != (
                #[trigger] self.pending@[b]).0@ by {
                if b < self.pending@.len() - 1 {
                    assert(self.pending@[a] == old(self).pending@[a]);
                    assert(self.pending@[b] == old(self).pending@[b]);
                    assert(v0[a].0 == old(self).pending@[a].0@);
                    assert(v0[b].0 == old(self).pending@[b].0@);
                } else {
                    assert(self.pending@[a] == old(self).pending@[a]);
                    assert(v0[a].0 == old(self).pending@[a].0@);
                    assert(v0[a].0 != path@);
                }
            }
        }
    }

    /// Hand out every path that has been quiet for the whole window, each
    /// exactly once, and keep the rest pending.
    pub fn take_stable(&mut self, now_ms: i64) -> (r: Vec<String>)
        requires
            old(self).wf(),
        ensures
            final(self).wf(),
            final(self).window() == old(self).window(),
            r.deep_view() == emitted_from(
                old(self).pending_view(),
                now_ms as int,
                old(self).window(),
                0,
            ),
            final(self).pending_view() == kept_from(
                old(self).pending_view(),
                now_ms as int,
                old(self).window(),
                0,
            ),
    {
        let ghost v0 = old(self).pending_view();
        let ghost w = old(self).window();
        let ghost now = now_ms as int;
        let mut out: Vec<String> = Vec::new();
        let mut keep: Vec<(String, i64)> = Vec::new();
        let mut i: usize = 0;
        proof {
            assert(out.deep_view() =~= Seq::<Seq<char>>::empty());
            assert(pend_views(keep@) =~= Seq::<(Seq<char>, int)>::empty());
        }
        while i < self.pending.len()
            invariant
                old(self).wf(),
                v0 == old(self).pending_view(),
                w == old(self).window(),
                now == now_ms as int,
                *self == *old(self),
                i <= self.pending@.len(),
                out.deep_view() + emitted_from(v0, now, w, i as int) == emitted_from(v0, now, w, 0),
                pend_views(keep@) + kept_from(v0, now, w, i as int) == kept_from(v0, now, w, 0),
            decreases self.pending@.len() - i,
        {
            let path_c = self.pending[i].0.clone();
            let time = self.pending[i].1;
            proof {
                assert(v0[i as int] == (old(self).pending@[i as int].0@, old(
                    self,
                ).pending@[i as int].1 as int));
                assert(path_c@ == v0[i as int].0);
            }
            let is_quiet = (time as i128) + (self.window_ms as i128) <= (now_ms as i128);
            proof {
                assert(is_quiet == quiet(v0[i as int], now, w));
            }
            if is_quiet {
                let ghost prev = out.deep_view();
                out.push(path_c);
                proof {
                    assert(out.deep_view() =~= prev + seq![v0[i as int].0]);
                    assert(out.deep_view() + emitted_from(v0, now, w, i + 1) =~= prev
                        + emitted_from(v0, now, w, i as int));
                }
            } else {
                let ghost prevk = pend_views(keep@);
                keep.push((path_c, time));
                proof {
                    assert(pend_views(keep@) =~= prevk + seq![v0[i as int]]);
                    assert(pend_views(keep@) + kept_from(v0, now, w, i + 1) =~= prevk + kept_from(
                        v0,
                        now,
                        w,
                        i as int,
                    ));
                }
            }
            i += 1;
        }
        proof {
            assert(emitted_from(v0, now, w, v0.len() as int) =~= Seq::<Seq<char>>::empty());
            assert(kept_from(v0, now, w, v0.len() as int) =~= Seq::<(Seq<char>, int)>::empty());
            assert(out.deep_view() =~= emitted_from(v0, now, w, 0));
            assert(pend_views(keep@) =~= kept_from(v0, now, w, 0));
            lemma_kept_unique(v0, now, w, 0);
            assert forall|a: int, b: int|
                0 <= a < b < keep@.len() implies (#[trigger] keep@[a]).0@ != (
                #[trigger] keep@[b]).0@ by {
                let kv = kept_from(v0, now, w, 0);
                assert(pend_views(keep@)[a] == (keep@[a].0@, keep@[a].1 as int));
                assert(pend_views(keep@)[b] == (keep@[b].0@, keep@[b].1 as int));
                assert(kv[a].0 != kv[b].0);
            }
        }
        self.pending = keep;
        out
    }
}

proof fn lemma_kept_unique(s: Seq<(Seq<char>, int)>, now: int, w: int, i: int)
    requires
        forall|a: int, b: int| 0 <= a < b < s.len() ==> (#[trigger] s[a]).0 != (#[trigger] s[b]).0,
        0 <= i,
    ensures
        forall|a: int, b: int|
            0 <= a < b < kept_from(s, now, w, i).len() ==> (#[trigger] kept_from(s, now, w, i)[a]).0
                != (#[trigger] kept_from(s, now, w, i)[b]).0,
        forall|a: int|
            0 <= a < kept_from(s, now, w, i).len() ==> exists|j: int|
                i <= j < s.len() && #[trigger] kept_from(s, now, w, i)[a] == s[j],
    decreases s.len() + 1 - i,
{
    if i < s.len() {
        lemma_kept_unique(s, now, w, i + 1);
        let k1 = kept_from(s, now, w, i + 1);
        if !quiet(s[i], now, w) {
            let k0 = kept_from(s, now, w, i);
            assert(k0 == seq![s[i]] + k1);
            assert(forall|a: int| 1 <= a < k0.len() ==> k0[a] == k1[a - 1]);
            assert forall|a: int, b: int|
                0 <= a < b < k0.len() implies (#[trigger] k0[a]).0 != (#[trigger] k0[b]).0 by {
                if a == 0 {
                    let j = choose|j: int| i + 1 <= j < s.len() && k1[b - 1] == s[j];
                    assert(s[i].0 != s[j].0);
                }
            }
            assert forall|a: int|
                0 <= a < k0.len() implies exists|j: int|
                i <= j < s.len() && #[trigger] k0[a] == s[j] by {
                if a == 0 {
                    assert(k0[0] == s[i]);
                } else {
                    let j = choose|j: int| i + 1 <= j < s.len() && k1[a - 1] == s[j];
                    assert(k0[a] == s[j]);
                }
            }
        }
    }
}

proof fn lemma_pend_idx_at(s: Seq<(Seq<char>, int)>, p: Seq<char>, i: int)
    requires
        0 <= i < s.len(),
        s[i].0 == p,
        forall|k: int| 0 <= k < i ==> (#[trigger] s[k]).0 != p,
    ensures
        pend_idx(s, p) == Some(i),
    decreases i,
{
    if i > 0 {
        assert(forall|k: int| 0 <= k < i - 1 ==> s.drop_first()[k] == s[k + 1]);
        assert(s.drop_first()[i - 1] == s[i]);
        lemma_pend_idx_at(s.drop_first(), p, i - 1);
    }
}

proof fn lemma_pend_idx_none(s: Seq<(Seq<char>, int)>, p: Seq<char>, n: int)
    requires
        n == s.len(),
        forall|k: int| 0 <= k < n ==> (#[trigger] s[k]).0 != p,
    ensures
        pend_idx(s, p) is None,
    decreases n,
{
    if n > 0 {
        assert(forall|k: int| 0 <= k < n - 1 ==> s.drop_first()[k] == s[k + 1]);
        lemma_pend_idx_none(s.drop_first(), p, n - 1);
    }
}

/// How many times this path appears in an announcement list.
pub open spec fn count_path(l: Seq<Seq<char>>, p: Seq<char>) -> int
    decreases l.len(),
{
    if l.len() == 0 {
        0
    } else {
        (if l[0] == p {
            1int
        } else {
            0int
        }) + count_path(l.drop_first(), p)
    }
}

proof fn lemma_emitted_push_count(
    s: Seq<(Seq<char>, int)>,
    p: Seq<char>,
    t: int,
    now: int,
    w: int,
)
    requires
        forall|k: int| 0 <= k < s.len() ==> (#[trigger] s[k]).0 != p,
    ensures
        count_path(emitted_from(s.push((p, t)), now, w, 0), p) == if t + w <= now {
            1int
        } else {
            0int
        },
    decreases s.len(),
{
    let s2 = s.push((p, t));
    if s.len() == 0 {
        assert(s2[0] == (p, t));
        assert(emitted_from(s2, now, w, 1) =~= Seq::<Seq<char>>::empty());
        if t + w <= now {
            assert(emitted_from(s2, now, w, 0) == seq![s2[0].0] + emitted_from(s2, now, w, 1));
            assert(emitted_from(s2, now, w, 0) =~= seq![p]);
            assert(seq![p].drop_first() =~= Seq::<Seq<char>>::empty());
            assert(count_path(Seq::<Seq<char>>::empty(), p) == 0);
            assert(count_path(seq![p], p) == 1);
        } else {
            assert(emitted_from(s2, now, w, 0) =~= Seq::<Seq<char>>::empty());
        }
    } else {
        assert(s2.drop_first() =~= s.drop_first().push((p, t)));
        assert(forall|k: int| 0 <= k < s.len() - 1 ==> s.drop_first()[k] == s[k + 1]);
        lemma_emitted_push_count(s.drop_first(), p, t, now, w);
        lemma_emitted_shift(s2, now, w);
        assert(s2[0] == s[0]);
        if quiet(s2[0], now, w) {
            let rest = emitted_from(s2.drop_first(), now, w, 0);
            assert(emitted_from(s2, now, w, 0) == seq![s2[0].0] + emitted_from(s2, now, w, 1));
            assert(emitted_from(s2, now, w, 0) == seq![s2[0].0] + rest);
            assert((seq![s2[0].0] + rest).drop_first() =~= rest);
            assert((seq![s2[0].0] + rest)[0] == s2[0].0);
            assert(s2[0].0 != p);
            assert(count_path(seq![s2[0].0] + rest, p) == count_path(rest, p));
        } else {
            assert(emitted_from(s2, now, w, 0) == emitted_from(s2, now, w, 1));
            assert(emitted_from(s2, now, w, 0) == emitted_from(s2.drop_first(), now, w, 0));
        }
    }
}

proof fn lemma_emitted_shift(s: Seq<(Seq<char>, int)>, now: int, w: int)
    requires
        s.len() > 0,
    ensures
        emitted_from(s, now, w, 1) == emitted_from(s.drop_first(), now, w, 0),
    decreases s.len(),
{
    lemma_emitted_shift_from(s, now, w, 1);
}

proof fn lemma_emitted_shift_from(s: Seq<(Seq<char>, int)>, now: int, w: int, i: int)
    requires
        s.len() > 0,
        1 <= i,
    ensures
        emitted_from(s, now, w, i) == emitted_from(s.drop_first(), now, w, i - 1),
    decreases s.len() + 1 - i,
{
    if i < s.len() {
        assert(s.drop_first()[i - 1] == s[i]);
        lemma_emitted_shift_from(s, now, w, i + 1);
    }
}

/// Three rapid writes to one new file inside the debounce window leave one
/// pending entry for it, and once the window has passed quietly the path is
/// announced exactly once; before the window passes it is not announced at
/// all.
pub proof fn lemma_debounce_collapses(
    s: Seq<(Seq<char>, int)>,
    p: Seq<char>,
    t1: int,
    t2: int,
    t3: int,
    now: int,
    w: int,
)
    requires
        pend_idx(s, p) is None,
        forall|i: int, j: int| 0 <= i < j < s.len() ==> (#[trigger] s[i]).0 != (#[trigger] s[j]).0,
    ensures
        ({
            let after = stamped(stamped(stamped(s, p, t1), p, t2), p, t3);
            count_path(emitted_from(after, now, w, 0), p) == if t3 + w <= now {
                1int
            } else {
                0int
            }
        }),
{
    lemma_pend_idx_none_elems(s, p);
    let s1 = stamped(s, p, t1);
    assert(s1 == s.push((p, t1)));
    assert(forall|k: int| 0 <= k < s.len() ==> #[trigger] s1[k] == s[k]);
    lemma_pend_idx_at(s1, p, s.len() as int);
    let s2 = stamped(s1, p, t2);
    assert(s2 == s1.update(s.len() as int, (p, t2)));
    assert(forall|k: int| 0 <= k < s.len() ==> #[trigger] s2[k] == s[k]);
    assert(s2 =~= s.push((p, t2)));
    lemma_pend_idx_at(s2, p, s.len() as int);
    let s3 = stamped(s2, p, t3);
    assert(s3 == s2.update(s.len() as int, (p, t3)));
    assert(s3 =~= s.push((p, t3)));
    lemma_emitted_push_count(s, p, t3, now, w);
    assert(count_path(emitted_from(s3, now, w, 0), p) == count_path(
        emitted_from(s.push((p, t3)), now, w, 0),
        p,
    ));
}

proof fn lemma_pend_idx_none_elems(s: Seq<(Seq<char>, int)>, p: Seq<char>)
    requires
        pend_idx(s, p) is None,
    ensures
        forall|k: int| 0 <= k < s.len() ==> (#[trigger] s[k]).0 != p,
    decreases s.len(),
{
    if s.len() > 0 {
        lemma_pend_idx_none_elems(s.drop_first(), p);
        assert forall|k: int| 0 <= k < s.len() implies (#[trigger] s[k]).0 != p by {
            if k > 0 {
                assert(s.drop_first()[k - 1] == s[k]);
            }
        }
    }
}

} // verus!
