//! The decisions of the daemon's watch loop: when a change of the configuration file
//! reloads it, and which changed files are handed to a conversion worker. Times are
//! nanoseconds on a monotonic clock.

use vstd::prelude::*;
use crate::paths::{path_equal, same_path};
use crate::config::placeholder_input_folder;
use crate::text::{same_text, texts};

verus! {

/// A change of the configuration file reloads it only when more than this much time has
/// passed since the last reload.
pub const RELOAD_DEBOUNCE_NANOS: u64 = 1_000_000_000;

/// A file handed to a worker is not handed over again until this much time has passed.
pub const RECENT_NANOS: u64 = 10_000_000_000;

/// Time from `since` to `now`; zero when `now` is earlier.
pub open spec fn elapsed(since: u64, now: u64) -> int {
    if now >= since {
        now - since
    } else {
        0
    }
}

/// `elapsed(since, now)`.
fn elapsed_nanos(since: u64, now: u64) -> (res: u64)
    ensures
        res == elapsed(since, now),
{
    if now >= since {
        now - since
    } else {
        0
    }
}

/// Whether no path in `ks` equals, as a path, one that comes before it.
pub open spec fn distinct_paths(ks: Seq<Seq<char>>) -> bool {
    forall|i: int, j: int| 0 <= i < j < ks.len() ==> !path_equal(ks[j], ks[i])
}

/// Whether `p` equals, as a path, one of `ks`.
pub open spec fn holds_path(ks: Seq<Seq<char>>, p: Seq<char>) -> bool {
    exists|i: int| 0 <= i < ks.len() && path_equal(p, #[trigger] ks[i])
}

/// The paths of a list of time-stamped paths.
pub open spec fn stamped_paths(s: Seq<(Seq<char>, u64)>) -> Seq<Seq<char>> {
    s.map_values(|e: (Seq<char>, u64)| e.0)
}

/// Whether `p` was handed to a worker less than `RECENT_NANOS` before `now`, by `log`.
pub open spec fn handed_recently(log: Seq<(Seq<char>, u64)>, p: Seq<char>, now: u64) -> bool {
    exists|i: int|
        0 <= i < log.len() && path_equal(p, #[trigger] log[i].0) && elapsed(log[i].1, now)
            < RECENT_NANOS
}

/// The entries of `log` handed over less than `RECENT_NANOS` before `now`, in order.
pub open spec fn recent_entries(log: Seq<(Seq<char>, u64)>, now: u64) -> Seq<(Seq<char>, u64)>
    decreases log.len(),
{
    if log.len() == 0 {
        log
    } else {
        let r = recent_entries(log.drop_last(), now);
        if elapsed(log.last().1, now) < RECENT_NANOS {
            r.push(log.last())
        } else {
            r
        }
    }
}

/// Handing the changed `paths` over in order: a path that is being converted, or was
/// handed over recently, is skipped; any other is marked as being converted, logged
/// with the time `now`, and handed over. Gives the new set of files being converted,
/// the new log, and the paths handed over.
pub open spec fn hand_over(
    busy: Seq<Seq<char>>,
    log: Seq<(Seq<char>, u64)>,
    paths: Seq<Seq<char>>,
    now: u64,
) -> (Seq<Seq<char>>, Seq<(Seq<char>, u64)>, Seq<Seq<char>>)
    decreases paths.len(),
{
    if paths.len() == 0 {
        (busy, log, Seq::empty())
    } else {
        let prev = hand_over(busy, log, paths.drop_last(), now);
        let p = paths.last();
        if holds_path(prev.0, p) || handed_recently(prev.1, p, now) {
            prev
        } else {
            (prev.0.push(p), prev.1.push((p, now)), prev.2.push(p))
        }
    }
}

/// Which side of a rename a change reports.
#[derive(Clone, Copy, Debug, PartialEq, Eq, Structural)]
pub enum RenameSide {
    /// Not known.
    Any,
    /// The new name.
    To,
    /// The old name.
    From,
    /// Both names.
    Both,
    /// Something else.
    Other,
}

/// What kind of change the file watcher reports.
#[derive(Clone, Copy, Debug, PartialEq, Eq, Structural)]
pub enum ChangeKind {
    /// Not known.
    Any,
    /// A file was read or opened.
    Access,
    /// A file was created.
    Create,
    /// A file's content changed.
    ModifyData,
    /// A file's metadata changed.
    ModifyMetadata,
    /// A file was renamed.
    ModifyName(RenameSide),
    /// A file changed in some unknown way.
    ModifyAny,
    /// A file changed in some other way.
    ModifyOther,
    /// A file was removed.
    Remove,
    /// Something else happened.
    Other,
}

/// Whether the loop looks at a change: a creation, a change of content, or a file
/// arriving under a new name.
pub open spec fn watched_change(kind: ChangeKind) -> bool {
    ||| kind == ChangeKind::Create
    ||| kind == ChangeKind::ModifyData
    ||| kind == ChangeKind::ModifyName(RenameSide::To)
}

/// `watched_change(kind)`.
pub fn is_watched_change(kind: ChangeKind) -> (res: bool)
    ensures
        res == watched_change(kind),
{
    match kind {
        ChangeKind::Create | ChangeKind::ModifyData | ChangeKind::ModifyName(RenameSide::To) => true,
        _ => false,
    }
}

/// What to do about one configured input folder when (re)arming the watcher.
#[derive(Clone, Copy, Debug, PartialEq, Eq, Structural)]
pub enum WatchDecision {
    /// The folder exists: watch it, recursively.
    Watch,
    /// The folder is missing and is not the placeholder of a fresh configuration: report it.
    ReportMissing,
    /// The folder is the untouched placeholder of a fresh configuration: say nothing.
    StaySilent,
}

/// Whether to watch the input folder `input_folder`, given whether it is an existing
/// directory.
pub fn watch_decision(input_folder: &str, is_existing_dir: bool) -> (res: WatchDecision)
    ensures
        is_existing_dir ==> res == WatchDecision::Watch,
        !is_existing_dir && input_folder@ == placeholder_input_folder() ==> res
            == WatchDecision::StaySilent,
        !is_existing_dir && input_folder@ != placeholder_input_folder() ==> res
            == WatchDecision::ReportMissing,
{
    if is_existing_dir {
        WatchDecision::Watch
    } else if same_text(input_folder, "/path/to/the/input/folder") {
        WatchDecision::StaySilent
    } else {
        WatchDecision::ReportMissing
    }
}

/// Whether one of `paths` equals, as a path, the configuration file `config_file`.
pub open spec fn touches_config(paths: Seq<Seq<char>>, config_file: Seq<char>) -> bool {
    exists|i: int| 0 <= i < paths.len() && path_equal(#[trigger] paths[i], config_file)
}

/// Whether a change of the configuration file at `now` reloads it, given the last reload.
pub open spec fn reload_due(last_reload: Option<u64>, now: u64) -> bool {
    match last_reload {
        Some(t) => elapsed(t, now) > RELOAD_DEBOUNCE_NANOS,
        None => true,
    }
}

/// What the loop does about one batch of changed files.
pub enum FileEventResponse {
    /// The configuration file changed: reload it.
    ReloadConfig,
    /// The configuration file changed too soon after the last reload: do nothing.
    ConfigChangeTooSoon,
    /// Hand these files, in order, to conversion workers.
    Dispatch(Vec<String>),
}

/// The memory of the watch loop.
pub struct WatchState {
    /// When the configuration was last reloaded, if it was.
    pub last_config_reload: Option<u64>,
    /// The files handed to a worker, with the time they were handed over.
    pub processed: Vec<(String, u64)>,
    /// The files whose worker has not finished.
    pub processing: Vec<String>,
}

impl WatchState {
    /// The log of handed-over files, as paths and times.
    pub open spec fn log(&self) -> Seq<(Seq<char>, u64)> {
        stamped_texts(self.processed@)
    }

    /// The files being converted.
    pub open spec fn busy(&self) -> Seq<Seq<char>> {
        texts(self.processing@)
    }

    /// No file is logged twice, and none is marked as being converted twice.
    pub open spec fn well_formed(&self) -> bool {
        &&& distinct_paths(stamped_paths(self.log()))
        &&& distinct_paths(self.busy())
    }

    /// A loop that has never reloaded, handed over, or converted anything.
    pub fn new() -> (res: Self)
        ensures
            res.well_formed(),
            res.last_config_reload is None,
            res.log().len() == 0,
            res.busy().len() == 0,
    {
        WatchState { last_config_reload: None, processed: Vec::new(), processing: Vec::new() }
    }

    /// Records that the configuration was reloaded at `now`.
    pub fn config_reloaded(&mut self, now: u64)
        requires
            old(self).well_formed(),
        ensures
            final(self).well_formed(),
            final(self).last_config_reload == Some(now),
            final(self).log() == old(self).log(),
            final(self).busy() == old(self).busy(),
    {
        self.last_config_reload = Some(now);
    }

    /// Drops from the log the files handed over `RECENT_NANOS` or more before `now`.
    fn forget_old(&mut self, now: u64)
        requires
            old(self).well_formed(),
        ensures
            final(self).well_formed(),
            final(self).log() == recent_entries(old(self).log(), now),
            final(self).busy() == old(self).busy(),
            final(self).last_config_reload == old(self).last_config_reload,
    {
        let ghost log0 = self.log();
        let mut kept: Vec<(String, u64)> = Vec::new();
        let mut i: usize = 0;
        while i < self.processed.len()
            invariant
                i <= self.processed@.len(),
                log0 == stamped_texts(self.processed@),
                stamped_texts(kept@) == recent_entries(log0.take(i as int), now),
            decreases self.processed@.len() - i,
        {
            let ghost before = kept@;
            assert(log0.take(i + 1).drop_last() =~= log0.take(i as int));
            let e = &self.processed[i];
            if elapsed_nanos(e.1, now) < RECENT_NANOS {
                let c = (e.0.clone(), e.1);
                kept.push(c);
                assert(stamped_texts(kept@) =~= stamped_texts(before).push((c.0@, c.1)));
            }
            i = i + 1;
        }
        assert(log0.take(log0.len() as int) =~= log0);
        proof {
            lemma_recent_entries(log0, now);
        }
        self.processed = kept;
    }

    /// Decides about one batch of changed files seen at `now`. A batch that touches the
    /// configuration file only asks for a reload, when the last reload is more than
    /// `RELOAD_DEBOUNCE_NANOS` old. Any other batch first forgets the files handed over
    /// `RECENT_NANOS` or more ago, then hands over, in order, each changed file that is
    /// neither being converted nor handed over recently.
    pub fn on_file_event(&mut self, paths: &Vec<String>, config_file: &str, now: u64) -> (res:
        FileEventResponse)
        requires
            old(self).well_formed(),
        ensures
            final(self).well_formed(),
            final(self).last_config_reload == old(self).last_config_reload,
            touches_config(texts(paths@), config_file@) ==> {
                &&& final(self).log() == old(self).log()
                &&& final(self).busy() == old(self).busy()
                &&& match res {
                    FileEventResponse::ReloadConfig => reload_due(old(self).last_config_reload, now),
                    FileEventResponse::ConfigChangeTooSoon => !reload_due(
                        old(self).last_config_reload,
                        now,
                    ),
                    FileEventResponse::Dispatch(_) => false,
                }
            },
            !touches_config(texts(paths@), config_file@) ==> match res {
                FileEventResponse::Dispatch(d) => hand_over(
                    old(self).busy(),
                    recent_entries(old(self).log(), now),
                    texts(paths@),
                    now,
                ) == (final(self).busy(), final(self).log(), texts(d@)),
                _ => false,
            },
    {
        let ghost ps = texts(paths@);
        let mut k: usize = 0;
        while k < paths.len()
            invariant
                k <= paths@.len(),
                ps == texts(paths@),
                *self == *old(self),
                self.well_formed(),
                forall|j: int| 0 <= j < k ==> !path_equal(#[trigger] ps[j], config_file@),
            decreases paths@.len() - k,
        {
            if same_path(paths[k].as_str(), config_file) {
                assert(path_equal(ps[k as int], config_file@));
                let due = match self.last_config_reload {
                    Some(t) => elapsed_nanos(t, now) > RELOAD_DEBOUNCE_NANOS,
                    None => true,
                };
                if due {
                    return FileEventResponse::ReloadConfig;
                } else {
                    return FileEventResponse::ConfigChangeTooSoon;
                }
            }
            k = k + 1;
        }
        self.forget_old(now);
        let ghost busy0 = self.busy();
        let ghost log0 = self.log();
        proof {
            lemma_recent_entries(old(self).log(), now);
        }
        let mut out: Vec<String> = Vec::new();
        let mut i: usize = 0;
        assert(ps.take(0) =~= Seq::<Seq<char>>::empty());
        while i < paths.len()
            invariant
                i <= paths@.len(),
                ps == texts(paths@),
                log0 == recent_entries(old(self).log(), now),
                self.last_config_reload == old(self).last_config_reload,
                (self.busy(), self.log(), texts(out@)) == hand_over(
                    busy0,
                    log0,
                    ps.take(i as int),
                    now,
                ),
            decreases paths@.len() - i,
        {
            let ghost b = self.busy();
            let ghost l = self.log();
            let ghost o = texts(out@);
            assert(ps.take(i + 1).drop_last() =~= ps.take(i as int));
            assert(ps.take(i + 1).last() == paths@[i as int]@);
            let p = paths[i].as_str();
            if !(holds(&self.processing, p) || recently(&self.processed, p, now)) {
                let c1 = paths[i].clone();
                let c2 = paths[i].clone();
                let c3 = paths[i].clone();
                self.processing.push(c1);
                self.processed.push((c2, now));
                out.push(c3);
                assert(self.busy() =~= b.push(p@));
                assert(self.log() =~= l.push((p@, now)));
                assert(texts(out@) =~= o.push(p@));
            }
            i = i + 1;
        }
        assert(ps.take(ps.len() as int) =~= ps);
        proof {
            lemma_hand_over(busy0, log0, ps, now);
        }
        FileEventResponse::Dispatch(out)
    }

    /// Records that the worker converting `path` has finished: every file equal to it as a
    /// path stops being marked as being converted.
    pub fn finish(&mut self, path: &str)
        requires
            old(self).well_formed(),
        ensures
            final(self).well_formed(),
            final(self).busy() == old(self).busy().filter(|q: Seq<char>| !path_equal(path@, q)),
            forall|i: int|
                0 <= i < final(self).busy().len() ==> !#[trigger] path_equal(
                    path@,
                    final(self).busy()[i],
                ),
            final(self).log() == old(self).log(),
            final(self).last_config_reload == old(self).last_config_reload,
    {
        let ghost busy0 = self.busy();
        let mut kept: Vec<String> = Vec::new();
        let mut i: usize = 0;
        while i < self.processing.len()
            invariant
                i <= self.processing@.len(),
                busy0 == texts(self.processing@),
                distinct_paths(busy0),
                texts(kept@) == busy0.take(i as int).filter(|q: Seq<char>| !path_equal(path@, q)),
            decreases self.processing@.len() - i,
        {
            let ghost before = kept@;
            let q = &self.processing[i];
            assert(busy0.take(i + 1).drop_last() =~= busy0.take(i as int));
            reveal(Seq::filter);
            if !same_path(path, q.as_str()) {
                let c = q.clone();
                kept.push(c);
                assert(texts(kept@) =~= texts(before).push(c@));
            }
            i = i + 1;
        }
        assert(busy0.take(busy0.len() as int) =~= busy0);
        proof {
            lemma_filter_keeps_distinct(busy0, path@);
            let f = |q: Seq<char>| !path_equal(path@, q);
            assert forall|i: int| 0 <= i < busy0.filter(f).len() implies !#[trigger] path_equal(
                path@,
                busy0.filter(f)[i],
            ) by {
                busy0.lemma_filter_pred(f, i);
            }
        }
        self.processing = kept;
    }
}

/// The paths and times of a list of time-stamped `String` paths.
pub open spec fn stamped_texts(v: Seq<(String, u64)>) -> Seq<(Seq<char>, u64)> {
    v.map_values(|e: (String, u64)| (e.0@, e.1))
}

/// Whether every entry of `log` was handed over less than `RECENT_NANOS` before `now`.
pub open spec fn all_recent(log: Seq<(Seq<char>, u64)>, now: u64) -> bool {
    forall|i: int| 0 <= i < log.len() ==> elapsed(#[trigger] log[i].1, now) < RECENT_NANOS
}

/// Whether `p` equals, as a path, one of the `String`s of `v`.
fn holds(v: &Vec<String>, p: &str) -> (res: bool)
    ensures
        res == holds_path(texts(v@), p@),
{
    let mut i: usize = 0;
    while i < v.len()
        invariant
            i <= v@.len(),
            forall|j: int| 0 <= j < i ==> !path_equal(p@, #[trigger] texts(v@)[j]),
        decreases v@.len() - i,
    {
        if same_path(p, v[i].as_str()) {
            assert(path_equal(p@, texts(v@)[i as int]));
            return true;
        }
        i = i + 1;
    }
    false
}

/// Whether `log` shows `p` handed over less than `RECENT_NANOS` before `now`.
fn recently(log: &Vec<(String, u64)>, p: &str, now: u64) -> (res: bool)
    ensures
        res == handed_recently(stamped_texts(log@), p@, now),
{
    let ghost l = stamped_texts(log@);
    let mut i: usize = 0;
    while i < log.len()
        invariant
            i <= log@.len(),
            l == stamped_texts(log@),
            forall|j: int|
                0 <= j < i ==> !(path_equal(p@, #[trigger] l[j].0) && elapsed(l[j].1, now)
                    < RECENT_NANOS),
        decreases log@.len() - i,
    {
        let e = &log[i];
        if same_path(p, e.0.as_str()) && elapsed_nanos(e.1, now) < RECENT_NANOS {
            assert(path_equal(p@, l[i as int].0) && elapsed(l[i as int].1, now) < RECENT_NANOS);
            return true;
        }
        i = i + 1;
    }
    false
}

/// Every entry of `recent_entries(log, now)` is an entry of `log` and recent; it keeps
/// the paths of `log` distinct.
proof fn lemma_recent_entries(log: Seq<(Seq<char>, u64)>, now: u64)
    ensures
        all_recent(recent_entries(log, now), now),
        forall|k: int|
            0 <= k < recent_entries(log, now).len() ==> exists|j: int|
                0 <= j < log.len() && #[trigger] recent_entries(log, now)[k] == log[j],
        distinct_paths(stamped_paths(log)) ==> distinct_paths(
            stamped_paths(recent_entries(log, now)),
        ),
    decreases log.len(),
{
    if log.len() > 0 {
        let rest = log.drop_last();
        lemma_recent_entries(rest, now);
        let r = recent_entries(rest, now);
        if elapsed(log.last().1, now) < RECENT_NANOS {
            let r2 = r.push(log.last());
            assert forall|k: int| 0 <= k < r2.len() implies exists|j: int|
                0 <= j < log.len() && #[trigger] r2[k] == log[j] by {
                if k < r.len() {
                    let j = choose|j: int| 0 <= j < rest.len() && r[k] == rest[j];
                    assert(r2[k] == log[j]);
                } else {
                    assert(r2[k] == log[log.len() - 1]);
                }
            }
            if distinct_paths(stamped_paths(log)) {
                assert(distinct_paths(stamped_paths(rest))) by {
                    assert forall|i: int, j: int|
                        0 <= i < j < stamped_paths(rest).len() implies !path_equal(
                        stamped_paths(rest)[j],
                        stamped_paths(rest)[i],
                    ) by {
                        assert(stamped_paths(rest)[j] == stamped_paths(log)[j]);
                        assert(stamped_paths(rest)[i] == stamped_paths(log)[i]);
                    }
                }
                assert forall|i: int, j: int|
                    0 <= i < j < stamped_paths(r2).len() implies !path_equal(
                    stamped_paths(r2)[j],
                    stamped_paths(r2)[i],
                ) by {
                    if j == r.len() {
                        let m = choose|m: int| 0 <= m < rest.len() && r[i] == rest[m];
                        assert(stamped_paths(log)[m] == r2[i].0);
                        assert(stamped_paths(log)[log.len() - 1] == r2[j].0);
                    } else {
                        assert(stamped_paths(r2)[j] == stamped_paths(r)[j]);
                        assert(stamped_paths(r2)[i] == stamped_paths(r)[i]);
                    }
                }
            }
        } else {
            assert forall|k: int| 0 <= k < r.len() implies exists|j: int|
                0 <= j < log.len() && #[trigger] r[k] == log[j] by {
                let j = choose|j: int| 0 <= j < rest.len() && r[k] == rest[j];
                assert(r[k] == log[j]);
            }
            if distinct_paths(stamped_paths(log)) {
                assert forall|i: int, j: int|
                    0 <= i < j < stamped_paths(rest).len() implies !path_equal(
                    stamped_paths(rest)[j],
                    stamped_paths(rest)[i],
                ) by {
                    assert(stamped_paths(rest)[j] == stamped_paths(log)[j]);
                    assert(stamped_paths(rest)[i] == stamped_paths(log)[i]);
                }
            }
        }
    }
}

/// Handing files over keeps the busy set and the log free of repeated paths, and the
/// log recent.
proof fn lemma_hand_over(
    busy: Seq<Seq<char>>,
    log: Seq<(Seq<char>, u64)>,
    paths: Seq<Seq<char>>,
    now: u64,
)
    requires
        distinct_paths(busy),
        distinct_paths(stamped_paths(log)),
        all_recent(log, now),
    ensures
        distinct_paths(hand_over(busy, log, paths, now).0),
        distinct_paths(stamped_paths(hand_over(busy, log, paths, now).1)),
        all_recent(hand_over(busy, log, paths, now).1, now),
    decreases paths.len(),
{
    if paths.len() > 0 {
        lemma_hand_over(busy, log, paths.drop_last(), now);
        let prev = hand_over(busy, log, paths.drop_last(), now);
        let p = paths.last();
        if !(holds_path(prev.0, p) || handed_recently(prev.1, p, now)) {
            let b2 = prev.0.push(p);
            assert forall|i: int, j: int| 0 <= i < j < b2.len() implies !path_equal(
                b2[j],
                b2[i],
            ) by {
                if j == prev.0.len() {
                    assert(b2[i] == prev.0[i]);
                } else {
                    assert(b2[i] == prev.0[i] && b2[j] == prev.0[j]);
                }
            }
            let l2 = prev.1.push((p, now));
            let s1 = stamped_paths(prev.1);
            let s2 = stamped_paths(l2);
            assert forall|i: int, j: int| 0 <= i < j < s2.len() implies !path_equal(
                s2[j],
                s2[i],
            ) by {
                if j == s1.len() {
                    assert(s2[i] == prev.1[i].0);
                    assert(elapsed(prev.1[i].1, now) < RECENT_NANOS);
                } else {
                    assert(s2[i] == s1[i] && s2[j] == s1[j]);
                }
            }
            assert forall|i: int| 0 <= i < l2.len() implies elapsed(
                #[trigger] l2[i].1,
                now,
            ) < RECENT_NANOS by {
                if i < prev.1.len() {
                    assert(l2[i] == prev.1[i]);
                }
            }
        }
    }
}

/// The log entries of `paths`, all stamped `now`.
pub open spec fn stamp_all(paths: Seq<Seq<char>>, now: u64) -> Seq<(Seq<char>, u64)> {
    paths.map_values(|p: Seq<char>| (p, now))
}

/// A hand-over appends the handed-over paths to the busy set and, stamped `now`, to the
/// log; each of them differs, as a path, from every path before it in the busy set, from
/// every recent log entry, and from every other path handed over.
proof fn lemma_hand_over_shape(
    busy: Seq<Seq<char>>,
    log: Seq<(Seq<char>, u64)>,
    paths: Seq<Seq<char>>,
    now: u64,
)
    ensures
        hand_over(busy, log, paths, now).0 == busy + hand_over(busy, log, paths, now).2,
        hand_over(busy, log, paths, now).1 == log + stamp_all(
            hand_over(busy, log, paths, now).2,
            now,
        ),
        forall|k: int, i: int|
            0 <= k < hand_over(busy, log, paths, now).2.len() && 0 <= i < busy.len()
                ==> !#[trigger] path_equal(hand_over(busy, log, paths, now).2[k], busy[i]),
        forall|k: int, i: int|
            0 <= k < hand_over(busy, log, paths, now).2.len() && 0 <= i < log.len() && elapsed(
                log[i].1,
                now,
            ) < RECENT_NANOS ==> !#[trigger] path_equal(hand_over(busy, log, paths, now).2[k],
                log[i].0,
            ),
        distinct_paths(hand_over(busy, log, paths, now).2),
    decreases paths.len(),
{
    let r = hand_over(busy, log, paths, now);
    if paths.len() == 0 {
        assert(busy + r.2 =~= busy);
        assert(log + stamp_all(r.2, now) =~= log);
    } else {
        lemma_hand_over_shape(busy, log, paths.drop_last(), now);
        let prev = hand_over(busy, log, paths.drop_last(), now);
        let p = paths.last();
        if !(holds_path(prev.0, p) || handed_recently(prev.1, p, now)) {
            let d = prev.2;
            assert(r.2 == d.push(p));
            assert(r.0 =~= busy + d.push(p));
            assert(stamp_all(d.push(p), now) =~= stamp_all(d, now).push((p, now)));
            assert(r.1 =~= log + stamp_all(d.push(p), now));
            assert forall|i: int| 0 <= i < busy.len() implies !path_equal(p, busy[i]) by {
                assert(prev.0[i] == busy[i]);
            }
            assert forall|i: int|
                0 <= i < log.len() && elapsed(log[i].1, now) < RECENT_NANOS implies !path_equal(
                p,
                log[i].0,
            ) by {
                assert(prev.1[i] == log[i]);
            }
            assert forall|j: int| 0 <= j < d.len() implies !path_equal(p, d[j]) by {
                assert(prev.0[busy.len() + j] == d[j]);
            }
            assert forall|k: int, i: int|
                0 <= k < r.2.len() && 0 <= i < busy.len() implies !#[trigger] path_equal(r.2[k],
                busy[i],
            ) by {
                if k < d.len() {
                    assert(r.2[k] == d[k]);
                }
            }
            assert forall|k: int, i: int|
                0 <= k < r.2.len() && 0 <= i < log.len() && elapsed(log[i].1, now)
                    < RECENT_NANOS implies !#[trigger] path_equal(r.2[k], log[i].0) by {
                if k < d.len() {
                    assert(r.2[k] == d[k]);
                }
            }
            assert forall|i: int, j: int| 0 <= i < j < r.2.len() implies !path_equal(
                r.2[j],
                r.2[i],
            ) by {
                assert(r.2[i] == d[i]);
                if j < d.len() {
                    assert(r.2[j] == d[j]);
                }
            }
        }
    }
}

/// Handing over more paths only adds to what is handed over.
proof fn lemma_hand_over_prefix(
    busy: Seq<Seq<char>>,
    log: Seq<(Seq<char>, u64)>,
    paths: Seq<Seq<char>>,
    now: u64,
    m: int,
    x: Seq<char>,
)
    requires
        0 <= m <= paths.len(),
        hand_over(busy, log, paths.take(m), now).2.contains(x),
    ensures
        hand_over(busy, log, paths, now).2.contains(x),
    decreases paths.len(),
{
    if m == paths.len() {
        assert(paths.take(m) =~= paths);
    } else {
        let rest = paths.drop_last();
        assert(rest.take(m) =~= paths.take(m));
        lemma_hand_over_prefix(busy, log, rest, now, m, x);
        let prev = hand_over(busy, log, rest, now);
        let k = choose|k: int| 0 <= k < prev.2.len() && prev.2[k] == x;
        let r = hand_over(busy, log, paths, now);
        if r.2 != prev.2 {
            assert(r.2 == prev.2.push(paths.last()));
            assert(r.2[k] == x);
        }
    }
}

/// Every path of a batch is handed over unless, as a path, it equals a file being
/// converted, a file handed over less than `RECENT_NANOS` before `now`, or a path of the
/// batch handed over before it.
pub proof fn hand_over_is_complete(
    busy: Seq<Seq<char>>,
    log: Seq<(Seq<char>, u64)>,
    paths: Seq<Seq<char>>,
    now: u64,
    k: int,
)
    requires
        0 <= k < paths.len(),
        forall|i: int| 0 <= i < busy.len() ==> !#[trigger] path_equal(paths[k], busy[i]),
        forall|i: int|
            0 <= i < log.len() ==> !(#[trigger] path_equal(paths[k], log[i].0) && elapsed(
                log[i].1,
                now,
            ) < RECENT_NANOS),
        forall|m: int|
            0 <= m < hand_over(busy, log, paths.take(k), now).2.len() ==> !#[trigger] path_equal(
                paths[k],
                hand_over(busy, log, paths.take(k), now).2[m],
            ),
    ensures
        hand_over(busy, log, paths, now).2.contains(paths[k]),
{
    let pre = paths.take(k);
    let upto = paths.take(k + 1);
    assert(upto.drop_last() =~= pre);
    assert(upto.last() == paths[k]);
    lemma_hand_over_shape(busy, log, pre, now);
    let prev = hand_over(busy, log, pre, now);
    let p = paths[k];
    assert(!holds_path(prev.0, p)) by {
        if holds_path(prev.0, p) {
            let i = choose|i: int| 0 <= i < prev.0.len() && path_equal(p, #[trigger] prev.0[i]);
            if i < busy.len() {
                assert(prev.0[i] == busy[i]);
            } else {
                assert(prev.0[i] == prev.2[i - busy.len()]);
            }
        }
    }
    assert(!handed_recently(prev.1, p, now)) by {
        if handed_recently(prev.1, p, now) {
            let i = choose|i: int|
                0 <= i < prev.1.len() && path_equal(p, #[trigger] prev.1[i].0) && elapsed(
                    prev.1[i].1,
                    now,
                ) < RECENT_NANOS;
            if i < log.len() {
                assert(prev.1[i] == log[i]);
            } else {
                assert(prev.1[i] == stamp_all(prev.2, now)[i - log.len()]);
                assert(prev.1[i].0 == prev.2[i - log.len()]);
            }
        }
    }
    let r = hand_over(busy, log, upto, now);
    assert(r.2 == prev.2.push(p));
    assert(r.2[prev.2.len() as int] == p);
    lemma_hand_over_prefix(busy, log, paths, now, k + 1, p);
}

/// Every recent entry of `log` survives the forgetting of old entries.
proof fn lemma_recent_entry_kept(log: Seq<(Seq<char>, u64)>, now: u64, i: int)
    requires
        0 <= i < log.len(),
        elapsed(log[i].1, now) < RECENT_NANOS,
    ensures
        exists|j: int|
            0 <= j < recent_entries(log, now).len() && #[trigger] recent_entries(log, now)[j]
                == log[i],
    decreases log.len(),
{
    let rest = log.drop_last();
    let r = recent_entries(rest, now);
    if i == log.len() - 1 {
        assert(recent_entries(log, now)[r.len() as int] == log[i]);
    } else {
        lemma_recent_entry_kept(rest, now, i);
        let j = choose|j: int| 0 <= j < r.len() && #[trigger] r[j] == rest[i];
        assert(rest[i] == log[i]);
        if elapsed(log.last().1, now) < RECENT_NANOS {
            assert(recent_entries(log, now)[j] == r[j]);
        }
        assert(recent_entries(log, now)[j] == log[i]);
    }
}

/// What a batch of changed files does to the loop's memory, at any time `now`: the files
/// handed over are appended to the files being converted and, stamped `now`, to the
/// log; none of them equals, as a path, a file being converted, a file handed over less
/// than `RECENT_NANOS` before, or another file of the batch handed over.
pub proof fn hand_over_respects_work_in_progress(
    busy: Seq<Seq<char>>,
    log: Seq<(Seq<char>, u64)>,
    paths: Seq<Seq<char>>,
    now: u64,
)
    ensures
        ({
            let r = hand_over(busy, recent_entries(log, now), paths, now);
            &&& r.0 == busy + r.2
            &&& r.1 == recent_entries(log, now) + stamp_all(r.2, now)
            &&& forall|k: int, i: int|
                0 <= k < r.2.len() && 0 <= i < busy.len() ==> !#[trigger] path_equal(r.2[k],
                    busy[i],
                )
            &&& forall|k: int, i: int|
                0 <= k < r.2.len() && 0 <= i < log.len() && elapsed(log[i].1, now)
                    < RECENT_NANOS ==> !#[trigger] path_equal(r.2[k], log[i].0)
            &&& distinct_paths(r.2)
        }),
{
    let recent = recent_entries(log, now);
    lemma_hand_over_shape(busy, recent, paths, now);
    let r = hand_over(busy, recent, paths, now);
    assert forall|k: int, i: int|
        0 <= k < r.2.len() && 0 <= i < log.len() && elapsed(log[i].1, now)
            < RECENT_NANOS implies !#[trigger] path_equal(r.2[k], log[i].0) by {
        lemma_recent_entry_kept(log, now, i);
        let j = choose|j: int| 0 <= j < recent.len() && #[trigger] recent[j] == log[i];
        assert(elapsed(recent[j].1, now) < RECENT_NANOS);
    }
}

/// Dropping paths from a list keeps its paths distinct.
proof fn lemma_filter_keeps_distinct(ks: Seq<Seq<char>>, p: Seq<char>)
    requires
        distinct_paths(ks),
    ensures
        distinct_paths(ks.filter(|q: Seq<char>| !path_equal(p, q))),
    decreases ks.len(),
{
    reveal(Seq::filter);
    let f = |q: Seq<char>| !path_equal(p, q);
    if ks.len() > 0 {
        let rest = ks.drop_last();
        assert(distinct_paths(rest));
        lemma_filter_keeps_distinct(rest, p);
        let r = rest.filter(f);
        if f(ks.last()) {
            assert forall|i: int| 0 <= i < r.len() implies !path_equal(ks.last(), #[trigger] r[i]) by {
                assert(r.contains(r[i]));
                rest.lemma_filter_contains_rev(f, r[i]);
                let j = choose|j: int| 0 <= j < rest.len() && rest[j] == r[i];
                assert(ks[j] == rest[j]);
            }
            assert(ks.filter(f) == r.push(ks.last()));
        }
    }
}

} // verus!
