//! The burst heuristic: many distinct files rewritten with encrypted-looking
//! content by one process within a short time, in a place that held plain content.

use std::collections::HashMap;

use vstd::prelude::*;

use crate::clock::{age, age_of, Clock, NANOS_PER_SEC};
use crate::config::Config;
use crate::directories::DirectorySet;
use crate::path::{
    components, is_ancestor, only_the_first_component_is_the_root, parent_parts, root_part,
    views, FilePath, PathParts,
};
use crate::table::{
    distinct_keys, kept_entries, kept_map, keys_of, table, table_keep, table_keys, table_push,
    table_update, table_values,
};

verus! {

broadcast use vstd::std_specs::hash::group_hash_axioms;

/// What a write means.
#[derive(Clone, Copy, PartialEq, Eq, Structural, Debug)]
pub enum Verdict {
    Clean,
    /// Too many distinct files rewritten by the same process within the window.
    Burst { count: usize },
}

/// A file that a process has rewritten: its path as it was first seen, and when
/// it was last rewritten.
pub struct Rewrite {
    pub path: Seq<u8>,
    pub seen: u128,
}

/// What is remembered of one process: when it was started, where that is known,
/// and the files it has rewritten, by their components.
#[verifier::ext_equal]
pub struct Activity {
    pub starttime: Option<u64>,
    pub files: Map<Seq<Seq<u8>>, Rewrite>,
}

/// What a detector knows.
#[verifier::ext_equal]
pub struct DetectorModel {
    pub burst_file_count: usize,
    pub window_secs: u64,
    pub require_baseline: bool,
    /// What is remembered of each process.
    pub recent: Map<i32, Activity>,
    /// The directories that have held plain content.
    pub plain_dirs: Set<Seq<Seq<u8>>>,
}

/// Whether what was seen at `seen` still counts at `now`.
pub open spec fn is_fresh(seen: u128, now: u128, window_secs: u64) -> bool {
    age(now, seen) <= window_secs * NANOS_PER_SEC
}

/// The files of `files` that still count at `now`.
pub open spec fn fresh_files(
    files: Map<Seq<Seq<u8>>, Rewrite>,
    now: u128,
    window_secs: u64,
) -> Map<Seq<Seq<u8>>, Rewrite> {
    Map::new(
        |k: Seq<Seq<u8>>| files.contains_key(k) && is_fresh(files[k].seen, now, window_secs),
        |k: Seq<Seq<u8>>| files[k],
    )
}

/// Whether the process `pid` has rewritten a file that still counts at `now`.
pub open spec fn is_active(
    recent: Map<i32, Activity>,
    pid: i32,
    now: u128,
    window_secs: u64,
) -> bool {
    recent.contains_key(pid) && exists|k: Seq<Seq<u8>>|
        #[trigger] fresh_files(recent[pid].files, now, window_secs).contains_key(k)
}

/// `recent` without what no longer counts at `now`.
pub open spec fn swept(recent: Map<i32, Activity>, now: u128, window_secs: u64) -> Map<
    i32,
    Activity,
> {
    Map::new(
        |pid: i32| is_active(recent, pid, now, window_secs),
        |pid: i32|
            Activity {
                starttime: recent[pid].starttime,
                files: fresh_files(recent[pid].files, now, window_secs),
            },
    )
}

/// What is remembered of `pid`.
pub open spec fn activity_of(recent: Map<i32, Activity>, pid: i32) -> Activity {
    if recent.contains_key(pid) {
        recent[pid]
    } else {
        Activity { starttime: None, files: Map::empty() }
    }
}

/// `activity` and a rewrite of `path` at `now`.
pub open spec fn with_rewrite(activity: Activity, path: Seq<u8>, now: u128) -> Activity {
    let key = components(path);
    let first = if activity.files.contains_key(key) {
        activity.files[key].path
    } else {
        path
    };
    Activity {
        starttime: activity.starttime,
        files: activity.files.insert(key, Rewrite { path: first, seen: now }),
    }
}

/// Whether `paths` lists each of `files` once, by the path under which it was first
/// seen, in any order.
pub open spec fn lists_files(paths: Seq<Seq<u8>>, files: Map<Seq<Seq<u8>>, Rewrite>) -> bool {
    &&& paths.len() == files.len()
    &&& forall|i: int|
        0 <= i < paths.len() ==> files.contains_key(components(#[trigger] paths[i]))
            && files[components(paths[i])].path == paths[i]
    &&& forall|i: int, j: int|
        0 <= i < j < paths.len() ==> components(#[trigger] paths[i]) != components(
            #[trigger] paths[j],
        )
    &&& forall|k: Seq<Seq<u8>>| #[trigger]
        files.contains_key(k) ==> exists|i: int|
            0 <= i < paths.len() && components(#[trigger] paths[i]) == k
}

impl DetectorModel {
    /// Whether the directory of `path`, or one above it, has held plain content.
    pub open spec fn has_baseline(self, path: Seq<u8>) -> bool {
        exists|dir: Seq<Seq<u8>>| #[trigger]
            self.plain_dirs.contains(dir) && is_ancestor(dir, components(path))
    }

    /// Whether a write to `path` counts toward a burst.
    pub open spec fn counts(self, path: Seq<u8>) -> bool {
        !self.require_baseline || self.has_baseline(path)
    }

    /// What is known once a plain write to `path` has been noted.
    pub open spec fn after_plain_write(self, path: Seq<u8>) -> DetectorModel {
        match parent_parts(components(path)) {
            Some(dir) => DetectorModel { plain_dirs: self.plain_dirs.insert(dir), ..self },
            None => self,
        }
    }

    /// What is remembered of each process once `pid` has rewritten `path` at `now`.
    pub open spec fn recent_after(self, pid: i32, path: Seq<u8>, now: u128) -> Map<i32, Activity> {
        let recent = swept(self.recent, now, self.window_secs);
        recent.insert(pid, with_rewrite(activity_of(recent, pid), path, now))
    }

    /// What is known once `pid` has rewritten `path` with encrypted-looking content
    /// at `now`.
    pub open spec fn after_rewrite(self, pid: i32, path: Seq<u8>, now: u128) -> DetectorModel {
        if self.counts(path) {
            DetectorModel { recent: self.recent_after(pid, path, now), ..self }
        } else {
            self
        }
    }

    /// What that rewrite means.
    pub open spec fn verdict(self, pid: i32, path: Seq<u8>, now: u128) -> Verdict {
        if self.counts(path) && self.count(pid, path, now) >= self.burst_file_count {
            Verdict::Burst { count: self.count(pid, path, now) as usize }
        } else {
            Verdict::Clean
        }
    }

    /// How many distinct files of `pid` count once it has rewritten `path` at `now`.
    pub open spec fn count(self, pid: i32, path: Seq<u8>, now: u128) -> nat {
        self.recent_after(pid, path, now)[pid].files.len()
    }

    /// Whether finitely much is remembered, and each file under its own components.
    pub open spec fn is_valid(self) -> bool {
        &&& self.recent.dom().finite()
        &&& forall|pid: i32| #[trigger]
            self.recent.contains_key(pid) ==> self.recent[pid].files.dom().finite()
        &&& forall|pid: i32, k: Seq<Seq<u8>>|
            self.recent.contains_key(pid) && #[trigger] self.recent[pid].files.contains_key(k)
                ==> components(self.recent[pid].files[k].path) == k
    }

    /// What is known once `pid` has been dealt with.
    pub open spec fn after_forgetting(self, pid: i32) -> DetectorModel {
        DetectorModel { recent: self.recent.remove(pid), ..self }
    }

    /// What is known once the start time of `pid` was looked up. The first one
    /// found stays, and none is kept of a process that is not remembered.
    pub open spec fn after_start_time(self, pid: i32, starttime: Option<u64>) -> DetectorModel {
        if self.recent.contains_key(pid) && self.recent[pid].starttime is None {
            DetectorModel {
                recent: self.recent.insert(
                    pid,
                    Activity { starttime, files: self.recent[pid].files },
                ),
                ..self
            }
        } else {
            self
        }
    }
}

struct SeenFile {
    path: FilePath,
    parts: PathParts,
    seen: u128,
}

struct PidActivity {
    starttime: Option<u64>,
    files: Vec<SeenFile>,
}

spec fn file_entries(files: Seq<SeenFile>) -> Seq<(Seq<Seq<u8>>, Rewrite)> {
    files.map_values(|f: SeenFile| (f.parts@, Rewrite { path: f.path@, seen: f.seen }))
}

spec fn files_ok(files: Seq<SeenFile>) -> bool {
    &&& distinct_keys(file_entries(files))
    &&& forall|i: int|
        0 <= i < files.len() ==> (#[trigger] files[i]).parts@ == components(files[i].path@)
}

impl PidActivity {
    spec fn model(self) -> Activity {
        Activity { starttime: self.starttime, files: table(file_entries(self.files@)) }
    }
}

/// What is remembered of each process.
spec fn remembered(recent: Map<i32, PidActivity>) -> Map<i32, Activity> {
    recent.map_values(|a: PidActivity| a.model())
}

spec fn recent_ok(recent: Map<i32, PidActivity>) -> bool {
    forall|pid: i32| #[trigger] recent.contains_key(pid) ==> files_ok(recent[pid].files@)
}

/// Tracks, for each process, the distinct files it has recently rewritten with
/// encrypted-looking content, and which directories have held plain content.
pub struct Detector {
    burst_file_count: usize,
    burst_window_secs: u64,
    require_directory_baseline: bool,
    recent_writes: HashMap<i32, PidActivity>,
    directories_with_plaintext_history: DirectorySet,
    clock: Clock,
}

impl View for Detector {
    type V = DetectorModel;

    closed spec fn view(&self) -> DetectorModel {
        DetectorModel {
            burst_file_count: self.burst_file_count,
            window_secs: self.burst_window_secs,
            require_baseline: self.require_directory_baseline,
            recent: remembered(self.recent_writes@),
            plain_dirs: self.directories_with_plaintext_history@,
        }
    }
}

fn still_fresh(seen: u128, now: u128, window_secs: u64) -> (fresh: bool)
    ensures
        fresh == is_fresh(seen, now, window_secs),
{
    age_of(now, seen) <= window_secs as u128 * NANOS_PER_SEC
}

/// What is left of a rewrite at `now`.
spec fn keep_if_fresh(now: u128, window_secs: u64) -> spec_fn(Rewrite) -> Option<Rewrite> {
    |r: Rewrite|
        if is_fresh(r.seen, now, window_secs) {
            Some(r)
        } else {
            None
        }
}

fn keep_fresh(files: Vec<SeenFile>, now: u128, window_secs: u64) -> (kept: Vec<SeenFile>)
    requires
        files_ok(files@),
    ensures
        files_ok(kept@),
        table(file_entries(kept@)) == fresh_files(table(file_entries(files@)), now, window_secs),
{
    let mut rest = files;
    let ghost all = files@;
    let ghost entries = file_entries(all);
    let ghost keep = keep_if_fresh(now, window_secs);
    let mut kept: Vec<SeenFile> = Vec::new();
    assert(entries.skip(all.len() as int) =~= Seq::<(Seq<Seq<u8>>, Rewrite)>::empty());
    while rest.len() > 0
        invariant
            entries == file_entries(all),
            keep == keep_if_fresh(now, window_secs),
            forall|i: int|
                0 <= i < all.len() ==> (#[trigger] all[i]).parts@ == components(all[i].path@),
            forall|i: int|
                0 <= i < kept@.len() ==> (#[trigger] kept@[i]).parts@ == components(
                    kept@[i].path@,
                ),
            rest@.len() <= all.len(),
            rest@ == all.take(rest@.len() as int),
            file_entries(kept@) =~= kept_entries(entries.skip(rest@.len() as int), keep),
        decreases rest@.len(),
    {
        let ghost n = rest@.len() - 1;
        let ghost before = kept@;
        let file = rest.pop().unwrap();
        assert(file == all[n]);
        let ghost entry = (file.parts@, Rewrite { path: file.path@, seen: file.seen });
        assert(entries.skip(n)[0] == entry);
        assert(entries.skip(n).drop_first() =~= entries.skip(n + 1));
        if still_fresh(file.seen, now, window_secs) {
            kept.push(file);
            assert(file_entries(kept@) =~= file_entries(before).push(entry));
        }
    }
    assert(entries.skip(0) =~= entries);
    proof {
        table_keep(entries, keep);
        assert(kept_map(table(entries), keep) =~= fresh_files(table(entries), now, window_secs));
    }
    kept
}

/// What no longer counts is dropped for the process `pid`.
fn sweep_one(recent: &mut HashMap<i32, PidActivity>, pid: i32, now: u128, window_secs: u64)
    requires
        recent_ok(old(recent)@),
        old(recent)@.contains_key(pid),
    ensures
        recent_ok(final(recent)@),
        forall|p: i32|
            p != pid ==> (#[trigger] final(recent)@.contains_key(p) <==> old(
                recent,
            )@.contains_key(p)),
        forall|p: i32|
            p != pid && #[trigger] final(recent)@.contains_key(p) ==> final(recent)@[p] == old(
                recent,
            )@[p],
        final(recent)@.contains_key(pid) <==> is_active(
            remembered(old(recent)@),
            pid,
            now,
            window_secs,
        ),
        final(recent)@.contains_key(pid) ==> final(recent)@[pid].model() == (Activity {
            starttime: old(recent)@[pid].starttime,
            files: fresh_files(old(recent)@[pid].model().files, now, window_secs),
        }),
{
    let ghost before = recent@;
    if let Some(activity) = recent.remove(&pid) {
        let starttime = activity.starttime;
        let files = keep_fresh(activity.files, now, window_secs);
        let ghost left = table(file_entries(files@));
        proof {
            table_keys(file_entries(files@));
            assert(remembered(before)[pid] == before[pid].model());
            if files@.len() > 0 {
                assert(left.contains_key(file_entries(files@)[0].0));
                assert(is_active(remembered(before), pid, now, window_secs));
            } else if is_active(remembered(before), pid, now, window_secs) {
                let k = choose|k: Seq<Seq<u8>>| #[trigger]
                    fresh_files(remembered(before)[pid].files, now, window_secs).contains_key(k);
                assert(left.contains_key(k));
            }
        }
        if files.len() > 0 {
            recent.insert(pid, PidActivity { starttime, files });
        }
    }
}

/// What no longer counts is dropped for every process.
fn sweep(recent: &mut HashMap<i32, PidActivity>, now: u128, window_secs: u64)
    requires
        recent_ok(old(recent)@),
    ensures
        recent_ok(final(recent)@),
        remembered(final(recent)@) == swept(remembered(old(recent)@), now, window_secs),
{
    let keys = keys_of(recent);
    let ghost all = recent@;
    let ghost goal = swept(remembered(all), now, window_secs);
    let mut i: usize = 0;
    while i < keys.len()
        invariant
            i <= keys.len(),
            all == old(recent)@,
            goal == swept(remembered(all), now, window_secs),
            keys@.no_duplicates(),
            forall|p: i32| #[trigger] all.contains_key(p) <==> keys@.contains(p),
            recent_ok(recent@),
            forall|j: int| #![trigger keys@[j]]
                0 <= j < i ==> (recent@.contains_key(keys@[j]) <==> goal.contains_key(keys@[j]))
                    && (recent@.contains_key(keys@[j]) ==> recent@[keys@[j]].model()
                    == goal[keys@[j]]),
            forall|j: int| #![trigger keys@[j]]
                i <= j < keys@.len() ==> recent@.contains_key(keys@[j]) && recent@[keys@[j]]
                    == all[keys@[j]],
            forall|p: i32| #[trigger] recent@.contains_key(p) ==> all.contains_key(p),
        decreases keys.len() - i,
    {
        let pid: i32 = keys[i];
        let ghost before = recent@;
        assert(keys@.contains(pid));
        sweep_one(recent, pid, now, window_secs);
        proof {
            assert(remembered(before)[pid] == remembered(all)[pid]);
            assert(is_active(remembered(before), pid, now, window_secs) == is_active(
                remembered(all),
                pid,
                now,
                window_secs,
            ));
            assert forall|j: int| #![trigger keys@[j]] 0 <= j < keys@.len() && j != i implies keys@[j]
                != pid by {
                assert(keys@[i as int] == pid);
            }
        }
        i = i + 1;
    }
    assert forall|p: i32| #[trigger] remembered(recent@).contains_key(p) == goal.contains_key(p) by {
        if all.contains_key(p) {
            let j = choose|j: int| 0 <= j < keys@.len() && keys@[j] == p;
            assert(keys@[j] == p);
        }
    }
    assert forall|p: i32| #[trigger] remembered(recent@).contains_key(p) implies remembered(
        recent@,
    )[p] == goal[p] by {
        let j = choose|j: int| 0 <= j < keys@.len() && keys@[j] == p;
        assert(keys@[j] == p);
    }
    assert(remembered(recent@) =~= goal);
}

/// Adds a rewrite of `path` at `now` to `files`.
fn add_rewrite(files: &mut Vec<SeenFile>, path: &FilePath, now: u128)
    requires
        files_ok(old(files)@),
    ensures
        files_ok(final(files)@),
        forall|starttime: Option<u64>|
            #![trigger with_rewrite(Activity { starttime, files: table(file_entries(old(files)@)) }, path@, now)]
            (Activity { starttime, files: table(file_entries(final(files)@)) }) == with_rewrite(
                Activity { starttime, files: table(file_entries(old(files)@)) },
                path@,
                now,
            ),
{
    let parts = path.parts();
    let ghost key = parts@;
    let ghost before = files@;
    let ghost entries = file_entries(before);
    proof {
        table_keys(entries);
        table_values(entries);
    }
    let mut i: usize = 0;
    while i < files.len()
        invariant
            i <= files.len(),
            files@ == before,
            files_ok(before),
            entries == file_entries(before),
            key == parts@,
            key == components(path@),
            before == old(files)@,
            forall|j: int| 0 <= j < i ==> (#[trigger] entries[j]).0 != key,
            forall|j: int|
                0 <= j < entries.len() ==> table(entries)[(#[trigger] entries[j]).0] == entries[j].1,
            forall|j: int|
                0 <= j < entries.len() ==> table(entries).contains_key((#[trigger] entries[j]).0),
        decreases files.len() - i,
    {
        assert(entries[i as int].0 == before[i as int].parts@);
        if files[i].parts.same(&parts) {
            files[i].seen = now;
            proof {
                let first = before[i as int].path@;
                assert(table(entries)[entries[i as int].0] == entries[i as int].1);
                assert(file_entries(files@) =~= entries.update(
                    i as int,
                    (entries[i as int].0, Rewrite { path: first, seen: now }),
                ));
                table_update(entries, i as int, Rewrite { path: first, seen: now });
                assert forall|j: int| 0 <= j < files@.len() implies (#[trigger] files@[j]).parts@
                    == components(files@[j].path@) by {
                    assert(files@[j].parts == before[j].parts);
                    assert(files@[j].path == before[j].path);
                }
            }
            return;
        }
        i = i + 1;
    }
    proof {
        if table(entries).contains_key(key) {
            let j = choose|j: int| 0 <= j < entries.len() && (#[trigger] entries[j]).0 == key;
            assert(entries[j].0 != key);
        }
    }
    let file = SeenFile { path: path.duplicate(), parts, seen: now };
    files.push(file);
    proof {
        assert(file_entries(files@) =~= entries.push((key, Rewrite { path: path@, seen: now })));
        table_push(entries, key, Rewrite { path: path@, seen: now });
        assert forall|j: int| 0 <= j < files@.len() implies (#[trigger] files@[j]).parts@
            == components(files@[j].path@) by {
            if j < before.len() {
                assert(files@[j] == before[j]);
            }
        }
    }
}

impl Detector {
    /// Whether the detector's own bookkeeping is in order.
    pub closed spec fn wf(self) -> bool {
        recent_ok(self.recent_writes@)
    }

    /// What the detector's clock showed when it was last read.
    pub closed spec fn latest(self) -> u128 {
        self.clock@
    }

    /// Whether that many nanoseconds were measured since the detector's clock was started.
    pub closed spec fn measures(self, elapsed: u128) -> bool {
        self.clock.measures(elapsed)
    }

    /// A detector that has seen nothing yet.
    pub fn new(cfg: &Config) -> (detector: Detector)
        ensures
            detector.wf(),
            detector.latest() == 0,
            detector@ == (DetectorModel {
                burst_file_count: cfg.burst_file_count,
                window_secs: cfg.burst_window_secs,
                require_baseline: cfg.require_directory_baseline,
                recent: Map::empty(),
                plain_dirs: Set::empty(),
            }),
    {
        Detector {
            burst_file_count: cfg.burst_file_count,
            burst_window_secs: cfg.burst_window_secs,
            require_directory_baseline: cfg.require_directory_baseline,
            recent_writes: HashMap::new(),
            directories_with_plaintext_history: DirectorySet::new(),
            clock: Clock::start(),
        }
    }

    /// Records that `path` was written with ordinary content: its directory holds
    /// plain data.
    pub fn note_plaintext_activity(&mut self, path: &FilePath)
        requires
            old(self).wf(),
        ensures
            final(self).wf(),
            final(self)@ == old(self)@.after_plain_write(path@),
            final(self).latest() == old(self).latest(),
    {
        let mut dir = path.parts();
        if dir.has_parent() {
            dir.drop_last();
            self.directories_with_plaintext_history.insert(dir);
        }
        assert(self@ =~= old(self)@.after_plain_write(path@));
    }

    /// Whether the directory of `path`, or one above it, has held plain content. A
    /// new directory inside such a tree is covered from the start.
    pub fn has_plaintext_baseline(&self, path: &FilePath) -> (b: bool)
        ensures
            b == self@.has_baseline(path@),
    {
        let ghost p = components(path@);
        proof {
            only_the_first_component_is_the_root(path@);
        }
        let mut dir = path.parts();
        assert(p.take(p.len() as int) =~= p);
        while dir.has_parent()
            invariant
                p == components(path@),
                forall|i: int| 0 < i < p.len() ==> #[trigger] p[i] != root_part(),
                dir@.len() <= p.len(),
                dir@ == p.take(dir@.len() as int),
                forall|d: Seq<Seq<u8>>|
                    #![trigger self@.plain_dirs.contains(d)]
                    is_ancestor(d, p) && d.len() >= dir@.len() ==> !self@.plain_dirs.contains(d),
            decreases dir@.len(),
        {
            dir.drop_last();
            assert(dir@ =~= p.take(dir@.len() as int));
            assert(is_ancestor(dir@, p));
            if self.directories_with_plaintext_history.contains(&dir) {
                assert(self@.plain_dirs.contains(dir@));
                return true;
            }
            assert forall|d: Seq<Seq<u8>>|
                #![trigger self@.plain_dirs.contains(d)]
                is_ancestor(d, p) && d.len() >= dir@.len() implies !self@.plain_dirs.contains(d) by {
                if d.len() == dir@.len() {
                    assert(d == dir@);
                }
            }
        }
        assert forall|d: Seq<Seq<u8>>|
            #![trigger self@.plain_dirs.contains(d)]
            is_ancestor(d, p) implies !self@.plain_dirs.contains(d) by {
            if dir@.len() > 0 {
                assert(dir@.last() == p[dir@.len() - 1]);
                assert(dir@.len() == 1);
            }
        }
        false
    }

    /// Records that `pid` rewrote `path` with encrypted-looking content, at the
    /// time `now` of the detector's clock, and says what that means. What no longer
    /// counts is dropped for every process, so that nothing is kept forever.
    pub fn observe_at(&mut self, pid: i32, path: &FilePath, now: u128) -> (verdict: Verdict)
        requires
            old(self).wf(),
        ensures
            final(self).wf(),
            final(self)@ == old(self)@.after_rewrite(pid, path@, now),
            final(self).latest() == old(self).latest(),
            verdict == old(self)@.verdict(pid, path@, now),
    {
        if self.require_directory_baseline && !self.has_plaintext_baseline(path) {
            return Verdict::Clean;
        }
        let ghost before = self@;
        sweep(&mut self.recent_writes, now, self.burst_window_secs);
        let ghost kept = self.recent_writes@;
        let mut activity = match self.recent_writes.remove(&pid) {
            Some(activity) => activity,
            None => {
                let files: Vec<SeenFile> = Vec::new();
                assert(table(file_entries(files@)) =~= Map::empty());
                PidActivity { starttime: None, files }
            },
        };
        assert(activity.model() == activity_of(remembered(kept), pid));
        add_rewrite(&mut activity.files, path, now);
        let count: usize = activity.files.len();
        proof {
            table_values(file_entries(activity.files@));
        }
        self.recent_writes.insert(pid, activity);
        assert(self@.recent =~= before.recent_after(pid, path@, now));
        assert(self@ =~= before.after_rewrite(pid, path@, now));
        if count >= self.burst_file_count {
            Verdict::Burst { count }
        } else {
            Verdict::Clean
        }
    }

    /// The time on the detector's clock, which never runs backwards. What the detector
    /// knows stays as it is.
    pub fn now(&mut self) -> (now: u128)
        ensures
            final(self).wf() == old(self).wf(),
            final(self)@ == old(self)@,
            now >= old(self).latest(),
            final(self).latest() == now,
            exists|elapsed: u128| #[trigger]
                old(self).measures(elapsed) && now == if elapsed > old(self).latest() {
                    elapsed
                } else {
                    old(self).latest()
                },
    {
        let now: u128 = self.clock.read();
        proof {
            let elapsed = choose|elapsed: u128| #[trigger]
                old(self).clock.measures(elapsed) && now == if elapsed > old(self).clock@ {
                    elapsed
                } else {
                    old(self).clock@
                };
            assert(old(self).measures(elapsed));
        }
        now
    }

    /// Records that `pid` rewrote `path` with encrypted-looking content, now, and
    /// says what that means. Of two writes the one that is observed later has no
    /// earlier time.
    pub fn observe_high_entropy_write(&mut self, pid: i32, path: &FilePath) -> (verdict: Verdict)
        requires
            old(self).wf(),
        ensures
            final(self).wf(),
            final(self).latest() >= old(self).latest(),
            final(self)@ == old(self)@.after_rewrite(pid, path@, final(self).latest()),
            verdict == old(self)@.verdict(pid, path@, final(self).latest()),
            !old(self)@.counts(path@) ==> verdict == Verdict::Clean && final(self)@ == old(self)@,
            exists|elapsed: u128| #[trigger]
                old(self).measures(elapsed) && final(self).latest() == if elapsed > old(
                    self,
                ).latest() {
                    elapsed
                } else {
                    old(self).latest()
                },
    {
        let now: u128 = self.now();
        self.observe_at(pid, path, now)
    }

    /// The distinct files recently rewritten by `pid`, for quarantine.
    pub fn files_for_pid(&self, pid: i32) -> (paths: Vec<FilePath>)
        requires
            self.wf(),
        ensures
            lists_files(views(paths@), activity_of(self@.recent, pid).files),
    {
        let mut paths: Vec<FilePath> = Vec::new();
        match self.recent_writes.get(&pid) {
            Some(activity) => {
                let files = &activity.files;
                let ghost entries = file_entries(files@);
                let mut i: usize = 0;
                while i < files.len()
                    invariant
                        i <= files.len(),
                        paths@.len() == i,
                        forall|j: int| 0 <= j < i ==> (#[trigger] paths@[j])@ == files@[j].path@,
                    decreases files.len() - i,
                {
                    let copy = files[i].path.duplicate();
                    paths.push(copy);
                    i = i + 1;
                }
                proof {
                    assert(files_ok(files@));
                    table_keys(entries);
                    table_values(entries);
                    let out = views(paths@);
                    let known = table(entries);
                    assert forall|j: int| 0 <= j < out.len() implies known.contains_key(
                        components(#[trigger] out[j]),
                    ) && known[components(out[j])].path == out[j] by {
                        assert(out[j] == files@[j].path@);
                        assert(files@[j].parts@ == components(files@[j].path@));
                        assert(known.contains_key(entries[j].0));
                        assert(known[entries[j].0] == entries[j].1);
                    }
                    assert forall|a: int, b: int| 0 <= a < b < out.len() implies components(
                        #[trigger] out[a],
                    ) != components(#[trigger] out[b]) by {
                        assert(files@[a].parts@ == components(files@[a].path@));
                        assert(files@[b].parts@ == components(files@[b].path@));
                        assert(entries[a].0 != entries[b].0);
                    }
                    assert forall|k: Seq<Seq<u8>>| #[trigger] known.contains_key(k) implies exists|
                        j: int,
                    | 0 <= j < out.len() && components(#[trigger] out[j]) == k by {
                        let j = choose|j: int|
                            0 <= j < entries.len() && (#[trigger] entries[j]).0 == k;
                        assert(files@[j].parts@ == components(files@[j].path@));
                        assert(components(out[j]) == k);
                    }
                }
            },
            None => {
                assert(views(paths@) =~= Seq::<Seq<u8>>::empty());
            },
        }
        paths
    }

    /// Drops what is remembered of `pid` once it has been dealt with, so that a
    /// process that is later given the same number starts anew.
    pub fn forget(&mut self, pid: i32)
        requires
            old(self).wf(),
        ensures
            final(self).wf(),
            final(self)@ == old(self)@.after_forgetting(pid),
            final(self).latest() == old(self).latest(),
    {
        self.recent_writes.remove(&pid);
        assert(self@.recent =~= old(self)@.recent.remove(pid));
        assert(self@ =~= old(self)@.after_forgetting(pid));
    }

    /// Remembers when the process `pid` was started, if it is one of those that
    /// have rewritten files and that is not known yet.
    pub fn note_starttime(&mut self, pid: i32, starttime: Option<u64>)
        requires
            old(self).wf(),
        ensures
            final(self).wf(),
            final(self)@ == old(self)@.after_start_time(pid, starttime),
            final(self).latest() == old(self).latest(),
    {
        if let Some(activity) = self.recent_writes.remove(&pid) {
            let known = match activity.starttime {
                Some(start) => Some(start),
                None => starttime,
            };
            self.recent_writes.insert(
                pid,
                PidActivity { starttime: known, files: activity.files },
            );
        }
        assert(self@.recent =~= old(self)@.after_start_time(pid, starttime).recent);
        assert(self@ =~= old(self)@.after_start_time(pid, starttime));
    }

    /// When the process that was seen rewriting files as `pid` was started, where
    /// that is known.
    pub fn starttime_for_pid(&self, pid: i32) -> (starttime: Option<u64>)
        requires
            self.wf(),
        ensures
            starttime == activity_of(self@.recent, pid).starttime,
    {
        match self.recent_writes.get(&pid) {
            Some(activity) => activity.starttime,
            None => None,
        }
    }

    /// How many processes something is remembered of.
    pub fn tracked_pids(&self) -> (count: usize)
        requires
            self.wf(),
        ensures
            count == self@.recent.len(),
    {
        assert(self@.recent.dom() =~= self.recent_writes@.dom());
        self.recent_writes.len()
    }

    /// What a detector knows is always valid.
    pub proof fn knows_valid_things(&self)
        requires
            self.wf(),
        ensures
            self@.is_valid(),
    {
        let all = self.recent_writes@;
        assert(self@.recent.dom() =~= all.dom());
        assert forall|pid: i32| #[trigger] self@.recent.contains_key(pid) implies
            self@.recent[pid].files.dom().finite() by {
            table_keys(file_entries(all[pid].files@));
        }
        assert forall|pid: i32, k: Seq<Seq<u8>>|
            self@.recent.contains_key(pid)
                && #[trigger] self@.recent[pid].files.contains_key(k) implies components(
            self@.recent[pid].files[k].path,
        ) == k by {
            assert(all.contains_key(pid));
            let files = all[pid].files@;
            let known = file_entries(files);
            table_keys(known);
            table_values(known);
            let j = choose|j: int| 0 <= j < known.len() && (#[trigger] known[j]).0 == k;
            assert(table(known)[known[j].0] == known[j].1);
            assert(files[j].parts@ == components(files[j].path@));
        }
    }
}

/// A plain write covers everything below its directory, at any depth: a directory
/// that is created later inside that tree counts from the start.
pub proof fn plain_write_covers_the_whole_tree(
    m: DetectorModel,
    seed: Seq<u8>,
    dir: Seq<Seq<u8>>,
    path: Seq<u8>,
)
    requires
        parent_parts(components(seed)) == Some(dir),
        is_ancestor(dir, components(path)),
    ensures
        m.after_plain_write(seed).has_baseline(path),
        m.after_plain_write(seed).counts(path),
{
    assert(m.after_plain_write(seed).plain_dirs.contains(dir));
}

/// What lies below the directory of a covered path is covered too.
pub proof fn baseline_reaches_down(m: DetectorModel, path: Seq<u8>, below: Seq<u8>)
    requires
        m.has_baseline(path),
        parent_parts(components(path)) is Some,
        is_ancestor(parent_parts(components(path))->0, components(below)),
    ensures
        m.has_baseline(below),
{
    let p = components(path);
    let q = components(below);
    let dir = parent_parts(p)->0;
    let plain = choose|d: Seq<Seq<u8>>| #[trigger] m.plain_dirs.contains(d) && is_ancestor(d, p);
    assert(q.take(plain.len() as int) =~= plain) by {
        assert(q.take(dir.len() as int) == dir);
        assert forall|i: int| 0 <= i < plain.len() implies q[i] == plain[i] by {
            assert(q.take(dir.len() as int)[i] == q[i]);
            assert(p.take(plain.len() as int)[i] == p[i]);
        }
    }
    if plain.len() == 0 && q.len() > 0 && q[0] == root_part() {
        if dir.len() > 0 {
            assert(q.take(dir.len() as int)[0] == q[0]);
            assert(p[0] == root_part());
        }
    }
    assert(is_ancestor(plain, q));
}

/// No operation takes a baseline away.
pub proof fn baseline_is_never_lost(
    m: DetectorModel,
    covered: Seq<u8>,
    pid: i32,
    path: Seq<u8>,
    now: u128,
    starttime: Option<u64>,
)
    requires
        m.has_baseline(covered),
    ensures
        m.after_plain_write(path).has_baseline(covered),
        m.after_rewrite(pid, path, now).has_baseline(covered),
        m.after_forgetting(pid).has_baseline(covered),
        m.after_start_time(pid, starttime).has_baseline(covered),
{
    let dir = choose|d: Seq<Seq<u8>>| #[trigger]
        m.plain_dirs.contains(d) && is_ancestor(d, components(covered));
    assert(m.after_plain_write(path).plain_dirs.contains(dir));
    assert(m.after_rewrite(pid, path, now).plain_dirs.contains(dir));
    assert(m.after_forgetting(pid).plain_dirs.contains(dir));
    assert(m.after_start_time(pid, starttime).plain_dirs.contains(dir));
}

/// Where nothing has ever been plain, encrypted-looking writes mean nothing: a
/// directory that only ever receives compressed output is no cause for alarm.
pub proof fn writes_without_a_baseline_are_clean(
    m: DetectorModel,
    pid: i32,
    path: Seq<u8>,
    now: u128,
)
    requires
        m.require_baseline,
        !m.has_baseline(path),
    ensures
        m.verdict(pid, path, now) == Verdict::Clean,
        m.after_rewrite(pid, path, now) == m,
{
}

/// After a write that counts, everything that is remembered of any process still
/// counts, and of every remembered process there is something: nothing stays
/// forever.
pub proof fn nothing_stale_is_remembered(m: DetectorModel, pid: i32, path: Seq<u8>, now: u128)
    requires
        m.counts(path),
    ensures
        forall|p: i32, k: Seq<Seq<u8>>|
            m.after_rewrite(pid, path, now).recent.contains_key(p) && #[trigger] m.after_rewrite(
                pid,
                path,
                now,
            ).recent[p].files.contains_key(k) ==> is_fresh(
                m.after_rewrite(pid, path, now).recent[p].files[k].seen,
                now,
                m.window_secs,
            ),
        forall|p: i32| #[trigger]
            m.after_rewrite(pid, path, now).recent.contains_key(p) ==> exists|k: Seq<Seq<u8>>|
                #[trigger] m.after_rewrite(pid, path, now).recent[p].files.contains_key(k),
{
    let after = m.after_rewrite(pid, path, now);
    let recent = swept(m.recent, now, m.window_secs);
    assert forall|p: i32| #[trigger] after.recent.contains_key(p) implies exists|
        k: Seq<Seq<u8>>,
    | #[trigger] after.recent[p].files.contains_key(k) by {
        if p == pid {
            assert(after.recent[p].files.contains_key(components(path)));
        } else {
            assert(recent.contains_key(p));
            let k = choose|k: Seq<Seq<u8>>| #[trigger]
                fresh_files(m.recent[p].files, now, m.window_secs).contains_key(k);
            assert(after.recent[p].files.contains_key(k));
        }
    }
}

/// A process that was forgotten starts anew: its next rewrite is its first. What is
/// remembered of others is untouched.
pub proof fn forgotten_process_starts_anew(
    m: DetectorModel,
    pid: i32,
    path: Seq<u8>,
    now: u128,
)
    ensures
        activity_of(m.after_forgetting(pid).recent, pid) == (Activity {
            starttime: None,
            files: Map::empty(),
        }),
        m.after_forgetting(pid).count(pid, path, now) == 1,
        forall|other: i32|
            other != pid ==> #[trigger] activity_of(m.after_forgetting(pid).recent, other)
                == activity_of(m.recent, other),
{
    let after = m.after_forgetting(pid);
    let files = after.recent_after(pid, path, now)[pid].files;
    assert(!swept(after.recent, now, m.window_secs).contains_key(pid));
    assert(files.dom() =~= Set::<Seq<Seq<u8>>>::empty().insert(components(path)));
}

/// Sweeping early changes nothing for what still counts later.
proof fn sweeping_twice(recent: Map<i32, Activity>, pid: i32, early: u128, late: u128, window: u64)
    requires
        early <= late,
    ensures
        fresh_files(
            activity_of(swept(recent, early, window), pid).files,
            late,
            window,
        ) == fresh_files(activity_of(recent, pid).files, late, window),
{
    let one = fresh_files(activity_of(recent, pid).files, late, window);
    let two = fresh_files(activity_of(swept(recent, early, window), pid).files, late, window);
    assert forall|k: Seq<Seq<u8>>| one.contains_key(k) == two.contains_key(k) by {
        if one.contains_key(k) {
            assert(recent.contains_key(pid));
            assert(is_fresh(recent[pid].files[k].seen, early, window));
            assert(fresh_files(recent[pid].files, early, window).contains_key(k));
            assert(is_active(recent, pid, early, window));
        }
    }
    assert(one =~= two);
}

/// The files of `pid` that count after a rewrite are those that still count, and
/// the one rewritten.
proof fn files_after_a_rewrite(m: DetectorModel, pid: i32, path: Seq<u8>, now: u128)
    ensures
        m.recent_after(pid, path, now)[pid].files.dom() == fresh_files(
            activity_of(m.recent, pid).files,
            now,
            m.window_secs,
        ).dom().insert(components(path)),
        forall|k: Seq<Seq<u8>>|
            k != components(path) && #[trigger] m.recent_after(
                pid,
                path,
                now,
            )[pid].files.contains_key(k) ==> m.recent_after(pid, path, now)[pid].files[k]
                == activity_of(m.recent, pid).files[k],
        m.recent_after(pid, path, now)[pid].files[components(path)].seen == now,
{
    let kept = swept(m.recent, now, m.window_secs);
    let fresh = fresh_files(activity_of(m.recent, pid).files, now, m.window_secs);
    assert(activity_of(kept, pid).files =~= fresh) by {
        if !kept.contains_key(pid) && m.recent.contains_key(pid) {
            assert forall|k: Seq<Seq<u8>>| !fresh.contains_key(k) by {}
        }
    }
    let after = m.recent_after(pid, path, now)[pid].files;
    assert(after.dom() =~= fresh.dom().insert(components(path)));
}

proof fn same_directories_same_baseline(a: DetectorModel, b: DetectorModel, path: Seq<u8>)
    requires
        a.plain_dirs == b.plain_dirs,
    ensures
        a.has_baseline(path) == b.has_baseline(path),
{
    if a.has_baseline(path) {
        let d = choose|d: Seq<Seq<u8>>| #[trigger]
            a.plain_dirs.contains(d) && is_ancestor(d, components(path));
        assert(b.plain_dirs.contains(d));
    }
    if b.has_baseline(path) {
        let d = choose|d: Seq<Seq<u8>>| #[trigger]
            b.plain_dirs.contains(d) && is_ancestor(d, components(path));
        assert(a.plain_dirs.contains(d));
    }
}

/// What one process does never counts against another.
pub proof fn processes_do_not_count_against_each_other(
    m: DetectorModel,
    pid: i32,
    path: Seq<u8>,
    now: u128,
    other: i32,
    elsewhere: Seq<u8>,
    earlier: u128,
)
    requires
        pid != other,
        earlier <= now,
    ensures
        m.after_rewrite(other, elsewhere, earlier).verdict(pid, path, now) == m.verdict(
            pid,
            path,
            now,
        ),
        m.after_forgetting(other).verdict(pid, path, now) == m.verdict(pid, path, now),
{
    let mid = m.after_rewrite(other, elsewhere, earlier);
    let gone = m.after_forgetting(other);
    if m.counts(elsewhere) {
        assert(activity_of(mid.recent, pid) == activity_of(
            swept(m.recent, earlier, m.window_secs),
            pid,
        ));
        sweeping_twice(m.recent, pid, earlier, now, m.window_secs);
    }
    files_after_a_rewrite(mid, pid, path, now);
    files_after_a_rewrite(gone, pid, path, now);
    files_after_a_rewrite(m, pid, path, now);
    assert(activity_of(gone.recent, pid) == activity_of(m.recent, pid));
    same_directories_same_baseline(mid, m, path);
    same_directories_same_baseline(gone, m, path);
}

/// A file that is rewritten in many pieces counts once: an earlier rewrite of the
/// same file adds nothing to the count.
pub proof fn a_file_counts_once(
    m: DetectorModel,
    pid: i32,
    path: Seq<u8>,
    again: Seq<u8>,
    earlier: u128,
    now: u128,
)
    requires
        components(path) == components(again),
        earlier <= now,
    ensures
        m.after_rewrite(pid, path, earlier).count(pid, again, now) == m.count(pid, again, now),
{
    let mid = m.after_rewrite(pid, path, earlier);
    files_after_a_rewrite(mid, pid, again, now);
    files_after_a_rewrite(m, pid, again, now);
    if m.counts(path) {
        files_after_a_rewrite(m, pid, path, earlier);
        let first = activity_of(mid.recent, pid).files;
        let one = fresh_files(first, now, m.window_secs).dom().insert(components(again));
        let two = fresh_files(activity_of(m.recent, pid).files, now, m.window_secs).dom().insert(
            components(again),
        );
        assert forall|k: Seq<Seq<u8>>| one.contains(k) == two.contains(k) by {
            if k != components(again) {
                let files = activity_of(m.recent, pid).files;
                if two.contains(k) {
                    assert(is_fresh(files[k].seen, earlier, m.window_secs));
                    assert(fresh_files(files, earlier, m.window_secs).dom().contains(k));
                    assert(first.contains_key(k));
                }
                if one.contains(k) {
                    assert(first.contains_key(k));
                    assert(first[k] == files[k]);
                    assert(fresh_files(files, earlier, m.window_secs).dom().contains(k));
                }
            }
        }
        assert(one =~= two);
    }
}

/// What is known once `pid` has rewritten each of `paths`, one after the other, at
/// `times`.
pub open spec fn after_rewrites(
    m: DetectorModel,
    pid: i32,
    paths: Seq<Seq<u8>>,
    times: Seq<u128>,
) -> DetectorModel
    decreases paths.len(),
{
    if paths.len() == 0 {
        m
    } else {
        after_rewrites(m, pid, paths.drop_last(), times).after_rewrite(
            pid,
            paths.last(),
            times[paths.len() - 1],
        )
    }
}

/// Whether `times` never go backwards.
pub open spec fn in_order(times: Seq<u128>) -> bool {
    forall|i: int, j: int| 0 <= i <= j < times.len() ==> #[trigger] times[i] <= #[trigger] times[j]
}

proof fn rewrites_keep_the_rest(
    m: DetectorModel,
    pid: i32,
    paths: Seq<Seq<u8>>,
    times: Seq<u128>,
)
    ensures
        after_rewrites(m, pid, paths, times).plain_dirs == m.plain_dirs,
        after_rewrites(m, pid, paths, times).burst_file_count == m.burst_file_count,
        after_rewrites(m, pid, paths, times).window_secs == m.window_secs,
        after_rewrites(m, pid, paths, times).require_baseline == m.require_baseline,
    decreases paths.len(),
{
    if paths.len() > 0 {
        rewrites_keep_the_rest(m, pid, paths.drop_last(), times);
    }
}

/// All the rewritten files are remembered while they count, and nothing else that
/// was not remembered before.
proof fn rewritten_files_are_remembered(
    m: DetectorModel,
    pid: i32,
    paths: Seq<Seq<u8>>,
    times: Seq<u128>,
    late: u128,
)
    requires
        paths.len() <= times.len(),
        in_order(times),
        forall|i: int| 0 <= i < paths.len() ==> m.counts(#[trigger] paths[i]),
        forall|i: int| 0 <= i < paths.len() ==> is_fresh(#[trigger] times[i], late, m.window_secs),
        forall|i: int| 0 <= i < paths.len() ==> #[trigger] times[i] <= late,
    ensures
        forall|i: int|
            0 <= i < paths.len() ==> fresh_files(
                activity_of(after_rewrites(m, pid, paths, times).recent, pid).files,
                late,
                m.window_secs,
            ).dom().contains(components(#[trigger] paths[i])),
    decreases paths.len(),
{
    if paths.len() > 0 {
        let n = paths.len() - 1;
        let before = paths.drop_last();
        assert forall|i: int| 0 <= i < before.len() implies m.counts(#[trigger] before[i]) by {
            assert(before[i] == paths[i]);
        }
        rewritten_files_are_remembered(m, pid, before, times, late);
        rewrites_keep_the_rest(m, pid, before, times);
        let mid = after_rewrites(m, pid, before, times);
        assert(m.counts(paths[n]));
        same_directories_same_baseline(mid, m, paths[n]);
        files_after_a_rewrite(mid, pid, paths[n], times[n]);
        let old_files = activity_of(mid.recent, pid).files;
        let after = after_rewrites(m, pid, paths, times);
        let new_files = activity_of(after.recent, pid).files;
        assert(new_files == mid.recent_after(pid, paths[n], times[n])[pid].files);
        assert(new_files.contains_key(components(paths[n])));
        assert forall|i: int| 0 <= i < paths.len() implies fresh_files(
            new_files,
            late,
            m.window_secs,
        ).dom().contains(components(#[trigger] paths[i])) by {
            let k = components(paths[i]);
            assert(is_fresh(times[n], late, m.window_secs));
            if k != components(paths[n]) {
                assert(before[i] == paths[i]);
                assert(fresh_files(old_files, late, m.window_secs).dom().contains(k));
                assert(is_fresh(old_files[k].seen, times[n], m.window_secs));
                assert(fresh_files(old_files, times[n], m.window_secs).dom().contains(k));
                assert(new_files.contains_key(k));
            }
        }
    }
}

proof fn distinct_members_bound_a_set<A>(members: Seq<A>, s: Set<A>)
    requires
        s.finite(),
        members.no_duplicates(),
        forall|i: int| 0 <= i < members.len() ==> s.contains(#[trigger] members[i]),
    ensures
        members.len() <= s.len(),
{
    members.unique_seq_to_set();
    assert(members.to_set().subset_of(s));
    vstd::set_lib::lemma_len_subset(members.to_set(), s);
}

/// The promise of the burst heuristic: a process that rewrites as many distinct
/// files as a burst takes, all within the window and all in places that count, is
/// found out at the last of them.
pub proof fn enough_distinct_files_are_a_burst(
    m: DetectorModel,
    pid: i32,
    paths: Seq<Seq<u8>>,
    times: Seq<u128>,
)
    requires
        m.is_valid(),
        paths.len() >= 1,
        paths.len() == times.len(),
        in_order(times),
        paths.len() >= m.burst_file_count,
        forall|i: int| 0 <= i < paths.len() ==> m.counts(#[trigger] paths[i]),
        forall|i: int, j: int|
            0 <= i < j < paths.len() ==> components(#[trigger] paths[i]) != components(
                #[trigger] paths[j],
            ),
        age(times.last(), times[0]) <= m.window_secs * NANOS_PER_SEC,
    ensures
        after_rewrites(m, pid, paths.drop_last(), times).verdict(
            pid,
            paths.last(),
            times.last(),
        ) is Burst,
        after_rewrites(m, pid, paths.drop_last(), times).count(pid, paths.last(), times.last())
            >= paths.len(),
{
    let n = paths.len() - 1;
    let before = paths.drop_last();
    let late = times[n];
    let mid = after_rewrites(m, pid, before, times);
    assert forall|i: int| 0 <= i < before.len() implies m.counts(#[trigger] before[i]) by {
        assert(before[i] == paths[i]);
    }
    assert forall|i: int| 0 <= i < before.len() implies is_fresh(
        #[trigger] times[i],
        late,
        m.window_secs,
    ) by {
        assert(times[0] <= times[i]);
        assert(times[i] <= times[n]);
    }
    assert forall|i: int| 0 <= i < before.len() implies #[trigger] times[i] <= late by {
        assert(times[i] <= times[n]);
    }
    rewritten_files_are_remembered(m, pid, before, times, late);
    rewrites_keep_the_rest(m, pid, before, times);
    assert(m.counts(paths[n]));
    same_directories_same_baseline(mid, m, paths[n]);
    files_after_a_rewrite(mid, pid, paths[n], late);
    let files = mid.recent_after(pid, paths[n], late)[pid].files;
    let keys = Seq::new(paths.len(), |i: int| components(paths[i]));
    assert forall|i: int| 0 <= i < keys.len() implies files.dom().contains(#[trigger] keys[i]) by {
        if i < n {
            assert(before[i] == paths[i]);
        }
    }
    assert(keys.no_duplicates()) by {
        assert forall|i: int, j: int| 0 <= i < j < keys.len() implies keys[i] != keys[j] by {
            assert(components(paths[i]) != components(paths[j]));
        }
    }
    rewrites_stay_finite(m, pid, before, times);
    assert(fresh_files(activity_of(mid.recent, pid).files, late, m.window_secs).dom().subset_of(
        activity_of(mid.recent, pid).files.dom(),
    ));
    vstd::set_lib::lemma_len_subset(
        fresh_files(activity_of(mid.recent, pid).files, late, m.window_secs).dom(),
        activity_of(mid.recent, pid).files.dom(),
    );
    distinct_members_bound_a_set(keys, files.dom());
}

proof fn rewrites_stay_finite(
    m: DetectorModel,
    pid: i32,
    paths: Seq<Seq<u8>>,
    times: Seq<u128>,
)
    requires
        m.is_valid(),
    ensures
        activity_of(after_rewrites(m, pid, paths, times).recent, pid).files.dom().finite(),
    decreases paths.len(),
{
    if paths.len() > 0 {
        let before = paths.drop_last();
        let mid = after_rewrites(m, pid, before, times);
        rewrites_stay_finite(m, pid, before, times);
        files_after_a_rewrite(mid, pid, paths.last(), times[paths.len() - 1]);
        let old_files = activity_of(mid.recent, pid).files;
        let fresh = fresh_files(old_files, times[paths.len() - 1], mid.window_secs);
        assert(fresh.dom().subset_of(old_files.dom()));
        vstd::set_lib::lemma_set_subset_finite(old_files.dom(), fresh.dom());
    }
}

/// The distinct files among `paths`.
pub open spec fn distinct_files(paths: Seq<Seq<u8>>) -> Set<Seq<Seq<u8>>> {
    paths.map_values(|p: Seq<u8>| components(p)).to_set()
}

proof fn only_rewritten_files_are_remembered(
    m: DetectorModel,
    pid: i32,
    paths: Seq<Seq<u8>>,
    times: Seq<u128>,
)
    requires
        !m.recent.contains_key(pid),
    ensures
        activity_of(after_rewrites(m, pid, paths, times).recent, pid).files.dom().subset_of(
            distinct_files(paths),
        ),
    decreases paths.len(),
{
    if paths.len() > 0 {
        let before = paths.drop_last();
        let mid = after_rewrites(m, pid, before, times);
        let now = times[paths.len() - 1];
        only_rewritten_files_are_remembered(m, pid, before, times);
        files_after_a_rewrite(mid, pid, paths.last(), now);
        let keys = paths.map_values(|p: Seq<u8>| components(p));
        let old_keys = before.map_values(|p: Seq<u8>| components(p));
        assert(keys[keys.len() - 1] == components(paths.last()));
        assert(distinct_files(paths).contains(components(paths.last())));
        assert forall|k: Seq<Seq<u8>>| distinct_files(before).contains(k) implies distinct_files(
            paths,
        ).contains(k) by {
            let i = choose|i: int| 0 <= i < old_keys.len() && old_keys[i] == k;
            assert(keys[i] == k);
        }
        let after = activity_of(after_rewrites(m, pid, paths, times).recent, pid).files;
        assert forall|k: Seq<Seq<u8>>| after.dom().contains(k) implies distinct_files(
            paths,
        ).contains(k) by {
            if mid.counts(paths.last()) && k != components(paths.last()) {
                assert(activity_of(mid.recent, pid).files.dom().contains(k));
            }
        }
    }
}

/// A process that has rewritten fewer distinct files than a burst takes is never
/// flagged, however often it writes to them and over whatever time.
pub proof fn fewer_files_than_a_burst_are_clean(
    m: DetectorModel,
    pid: i32,
    paths: Seq<Seq<u8>>,
    times: Seq<u128>,
)
    requires
        !m.recent.contains_key(pid),
        paths.len() >= 1,
        distinct_files(paths).len() < m.burst_file_count,
    ensures
        after_rewrites(m, pid, paths.drop_last(), times).verdict(
            pid,
            paths.last(),
            times[paths.len() - 1],
        ) == Verdict::Clean,
{
    let before = paths.drop_last();
    let mid = after_rewrites(m, pid, before, times);
    let now = times[paths.len() - 1];
    rewrites_keep_the_rest(m, pid, before, times);
    only_rewritten_files_are_remembered(m, pid, paths, times);
    let after = activity_of(after_rewrites(m, pid, paths, times).recent, pid).files;
    if mid.counts(paths.last()) {
        paths.map_values(|p: Seq<u8>| components(p)).lemma_cardinality_of_set();
        vstd::set_lib::lemma_len_subset(after.dom(), distinct_files(paths));
    }
}

/// After a write at `now` that counts, the files remembered of any process are those that
/// were remembered of it and seen at most `window_secs` thousand million nanoseconds
/// before, and the one written.
pub proof fn what_was_seen_within_the_window_is_remembered(
    m: DetectorModel,
    pid: i32,
    path: Seq<u8>,
    now: u128,
    p: i32,
    k: Seq<Seq<u8>>,
)
    requires
        m.counts(path),
    ensures
        ({
            let after = m.after_rewrite(pid, path, now);
            &&& after.recent.contains_key(p) && after.recent[p].files.contains_key(k) <==> {
                ||| p == pid && k == components(path)
                ||| m.recent.contains_key(p) && m.recent[p].files.contains_key(k) && now
                    - m.recent[p].files[k].seen <= m.window_secs * 1_000_000_000
            }
            &&& after.recent.contains_key(p) && after.recent[p].files.contains_key(k) ==> now
                - after.recent[p].files[k].seen <= m.window_secs * 1_000_000_000
            &&& after.recent.contains_key(p) && after.recent[p].files.contains_key(k) && !(p == pid
                && k == components(path)) ==> after.recent[p].files[k] == m.recent[p].files[k]
        }),
{
    let kept = swept(m.recent, now, m.window_secs);
    if m.recent.contains_key(p) && m.recent[p].files.contains_key(k) && now
        - m.recent[p].files[k].seen <= m.window_secs * 1_000_000_000 {
        assert(fresh_files(m.recent[p].files, now, m.window_secs).contains_key(k));
        assert(kept.contains_key(p));
    }
}

/// The file that was written is remembered with the time of the write, and under the path
/// by which the process first wrote to it as far as that is still remembered. A process
/// keeps its start time for as long as a file of it is remembered. What else the detector
/// knows stays.
pub proof fn a_rewrite_is_remembered(m: DetectorModel, pid: i32, path: Seq<u8>, now: u128, p: i32)
    requires
        m.counts(path),
    ensures
        ({
            let after = m.after_rewrite(pid, path, now);
            let key = components(path);
            let known = m.recent.contains_key(pid) && m.recent[pid].files.contains_key(key) && now
                - m.recent[pid].files[key].seen <= m.window_secs * 1_000_000_000;
            &&& after.recent.contains_key(pid)
            &&& after.recent[pid].files.contains_key(key)
            &&& after.recent[pid].files[key].seen == now
            &&& known ==> after.recent[pid].files[key].path == m.recent[pid].files[key].path
            &&& !known ==> after.recent[pid].files[key].path == path
            &&& after.recent.contains_key(p) <==> p == pid || m.recent.contains_key(p) && exists|
                k: Seq<Seq<u8>>,
            | #[trigger]
                m.recent[p].files.contains_key(k) && now - m.recent[p].files[k].seen
                    <= m.window_secs * 1_000_000_000
            &&& m.recent.contains_key(p) && (exists|k: Seq<Seq<u8>>| #[trigger]
                m.recent[p].files.contains_key(k) && now - m.recent[p].files[k].seen
                    <= m.window_secs * 1_000_000_000) ==> after.recent[p].starttime
                == m.recent[p].starttime
            &&& p == pid && !(m.recent.contains_key(p) && exists|k: Seq<Seq<u8>>| #[trigger]
                m.recent[p].files.contains_key(k) && now - m.recent[p].files[k].seen
                    <= m.window_secs * 1_000_000_000) ==> after.recent[p].starttime is None
            &&& after.plain_dirs == m.plain_dirs
            &&& after.burst_file_count == m.burst_file_count
            &&& after.window_secs == m.window_secs
            &&& after.require_baseline == m.require_baseline
        }),
{
    let kept = swept(m.recent, now, m.window_secs);
    let key = components(path);
    if m.recent.contains_key(p) {
        let fresh = fresh_files(m.recent[p].files, now, m.window_secs);
        if exists|k: Seq<Seq<u8>>| #[trigger]
            m.recent[p].files.contains_key(k) && now - m.recent[p].files[k].seen <= m.window_secs
                * 1_000_000_000 {
            let k = choose|k: Seq<Seq<u8>>| #[trigger]
                m.recent[p].files.contains_key(k) && now - m.recent[p].files[k].seen
                    <= m.window_secs * 1_000_000_000;
            assert(fresh.contains_key(k));
            assert(kept.contains_key(p));
        }
        if kept.contains_key(p) {
            let k = choose|k: Seq<Seq<u8>>| #[trigger] fresh.contains_key(k);
            assert(m.recent[p].files.contains_key(k));
        }
    }
    if m.recent.contains_key(pid) && m.recent[pid].files.contains_key(key) && now
        - m.recent[pid].files[key].seen <= m.window_secs * 1_000_000_000 {
        assert(fresh_files(m.recent[pid].files, now, m.window_secs).contains_key(key));
        assert(kept.contains_key(pid));
    }
}

/// A write is a burst exactly where it counts and leaves at least as many distinct files
/// of its process remembered as a burst takes; the burst then gives their number.
pub proof fn a_burst_is_told_by_the_number_of_files(
    m: DetectorModel,
    pid: i32,
    path: Seq<u8>,
    now: u128,
)
    ensures
        ({
            let files = m.after_rewrite(pid, path, now).recent[pid].files;
            &&& m.verdict(pid, path, now) is Burst <==> m.counts(path) && files.dom().len()
                >= m.burst_file_count
            &&& m.counts(path) && files.dom().len() <= usize::MAX && m.verdict(
                pid,
                path,
                now,
            ) is Burst ==> m.verdict(pid, path, now)->count == files.dom().len()
        }),
{
}

/// The distinct files among the writes that count and lie within the window before `now`.
pub open spec fn written_within_the_window(
    m: DetectorModel,
    paths: Seq<Seq<u8>>,
    times: Seq<u128>,
    now: u128,
) -> Set<Seq<Seq<u8>>> {
    Set::new(
        |k: Seq<Seq<u8>>|
            exists|i: int|
                0 <= i < paths.len() && m.counts(paths[i]) && components(#[trigger] paths[i]) == k
                    && now - times[i] <= m.window_secs * 1_000_000_000,
    )
}

proof fn what_still_counts_was_written_within_the_window(
    m: DetectorModel,
    pid: i32,
    paths: Seq<Seq<u8>>,
    times: Seq<u128>,
    late: u128,
)
    requires
        !m.recent.contains_key(pid),
        paths.len() <= times.len(),
        in_order(times),
        forall|i: int| 0 <= i < paths.len() ==> #[trigger] times[i] <= late,
    ensures
        fresh_files(
            activity_of(after_rewrites(m, pid, paths, times).recent, pid).files,
            late,
            m.window_secs,
        ).dom() == written_within_the_window(m, paths, times, late),
    decreases paths.len(),
{
    let after = activity_of(after_rewrites(m, pid, paths, times).recent, pid).files;
    let fresh = fresh_files(after, late, m.window_secs);
    let goal = written_within_the_window(m, paths, times, late);
    if paths.len() == 0 {
        assert(fresh.dom() =~= goal);
    } else {
        let n = paths.len() - 1;
        let before = paths.drop_last();
        let mid = after_rewrites(m, pid, before, times);
        let old_files = activity_of(mid.recent, pid).files;
        let at = times[n];
        assert forall|i: int| 0 <= i < before.len() implies #[trigger] times[i] <= at by {
            assert(times[i] <= times[n]);
        }
        what_still_counts_was_written_within_the_window(m, pid, before, times, late);
        what_still_counts_was_written_within_the_window(m, pid, before, times, at);
        rewrites_keep_the_rest(m, pid, before, times);
        same_directories_same_baseline(mid, m, paths[n]);
        files_after_a_rewrite(mid, pid, paths[n], at);
        let earlier = written_within_the_window(m, before, times, late);
        assert(at <= late);
        assert forall|k: Seq<Seq<u8>>| fresh.dom().contains(k) <==> goal.contains(k) by {
            if earlier.contains(k) {
                let i = choose|i: int|
                    0 <= i < before.len() && m.counts(before[i]) && components(
                        #[trigger] before[i],
                    ) == k && late - times[i] <= m.window_secs * 1_000_000_000;
                assert(paths[i] == before[i]);
                assert(times[i] <= times[n]);
                assert(goal.contains(k));
                assert(fresh_files(old_files, late, m.window_secs).dom().contains(k));
                assert(fresh_files(old_files, at, m.window_secs).dom().contains(k));
            }
            if goal.contains(k) {
                let i = choose|i: int|
                    0 <= i < paths.len() && m.counts(paths[i]) && components(#[trigger] paths[i])
                        == k && late - times[i] <= m.window_secs * 1_000_000_000;
                assert(times[i] <= times[n]);
                if i < n {
                    assert(before[i] == paths[i]);
                    assert(earlier.contains(k));
                }
            }
            if m.counts(paths[n]) && k == components(paths[n]) && late - at <= m.window_secs
                * 1_000_000_000 {
                assert(goal.contains(k));
            }
        }
        assert(fresh.dom() =~= goal);
    }
}

/// The files that count at a write are exactly the distinct ones that the process has
/// written to within the window, over any run of writes: none is lost, and none counts
/// beyond its time.
pub proof fn the_files_of_the_window_are_counted(
    m: DetectorModel,
    pid: i32,
    paths: Seq<Seq<u8>>,
    times: Seq<u128>,
)
    requires
        !m.recent.contains_key(pid),
        paths.len() >= 1,
        paths.len() == times.len(),
        in_order(times),
        m.counts(paths.last()),
    ensures
        after_rewrites(m, pid, paths, times).recent[pid].files.dom() == written_within_the_window(
            m,
            paths,
            times,
            times.last(),
        ),
        after_rewrites(m, pid, paths.drop_last(), times).count(pid, paths.last(), times.last())
            == written_within_the_window(m, paths, times, times.last()).len(),
{
    let before = paths.drop_last();
    let now = times.last();
    assert forall|i: int| 0 <= i < paths.len() implies #[trigger] times[i] <= now by {
        assert(times[i] <= times[paths.len() - 1]);
    }
    what_still_counts_was_written_within_the_window(m, pid, paths, times, now);
    rewrites_keep_the_rest(m, pid, before, times);
    let mid = after_rewrites(m, pid, before, times);
    same_directories_same_baseline(mid, m, paths.last());
    files_after_a_rewrite(mid, pid, paths.last(), now);
    let files = after_rewrites(m, pid, paths, times).recent[pid].files;
    let fresh = fresh_files(files, now, m.window_secs);
    assert(fresh.dom() =~= files.dom());
}

/// A process whose writes are each further apart than the window never has more than one
/// file that counts, however many it writes to.
pub proof fn writes_far_apart_do_not_add_up(
    m: DetectorModel,
    pid: i32,
    paths: Seq<Seq<u8>>,
    times: Seq<u128>,
)
    requires
        !m.recent.contains_key(pid),
        paths.len() >= 1,
        paths.len() == times.len(),
        forall|i: int, j: int|
            0 <= i < j < times.len() ==> #[trigger] times[j] - #[trigger] times[i] > m.window_secs
                * 1_000_000_000,
        m.burst_file_count >= 2,
    ensures
        after_rewrites(m, pid, paths.drop_last(), times).count(pid, paths.last(), times.last())
            == 1,
        after_rewrites(m, pid, paths.drop_last(), times).verdict(pid, paths.last(), times.last())
            == Verdict::Clean,
{
    let before = paths.drop_last();
    let mid = after_rewrites(m, pid, before, times);
    let n = paths.len() - 1;
    rewrites_keep_the_rest(m, pid, before, times);
    files_after_a_rewrite(mid, pid, paths.last(), times[n]);
    assert forall|i: int, j: int| 0 <= i <= j < times.len() implies #[trigger] times[i]
        <= #[trigger] times[j] by {
        if i < j {
            assert(times[j] - times[i] > m.window_secs * 1_000_000_000);
        }
    }
    assert forall|i: int| 0 <= i < before.len() implies #[trigger] times[i] <= times[n] by {
        assert(times[i] <= times[n]);
    }
    what_still_counts_was_written_within_the_window(m, pid, before, times, times[n]);
    let left = written_within_the_window(m, before, times, times[n]);
    assert forall|k: Seq<Seq<u8>>| !left.contains(k) by {
        if left.contains(k) {
            let i = choose|i: int|
                0 <= i < before.len() && m.counts(before[i]) && components(#[trigger] before[i])
                    == k && times[n] - times[i] <= m.window_secs * 1_000_000_000;
            assert(times[n] - times[i] > m.window_secs * 1_000_000_000);
        }
    }
    assert(left =~= Set::empty());
    let files = mid.recent_after(pid, paths.last(), times[n])[pid].files;
    assert(files.dom() =~= Set::<Seq<Seq<u8>>>::empty().insert(components(paths.last())));
}

/// A write counts exactly where no baseline is asked for, or some directory above the
/// path, the one that holds it or any higher one, is known to have held plain content.
pub proof fn any_directory_above_is_a_baseline(m: DetectorModel, path: Seq<u8>)
    ensures
        m.has_baseline(path) <==> exists|n: int|
            0 <= n < components(path).len() && #[trigger] m.plain_dirs.contains(
                components(path).take(n),
            ) && (n > 0 || components(path)[0] != seq![47u8]),
        m.counts(path) <==> !m.require_baseline || m.has_baseline(path),
{
    let p = components(path);
    if m.has_baseline(path) {
        let dir = choose|dir: Seq<Seq<u8>>| #[trigger]
            m.plain_dirs.contains(dir) && is_ancestor(dir, p);
        let n = dir.len() as int;
        assert(m.plain_dirs.contains(p.take(n)));
    }
    if exists|n: int|
        0 <= n < p.len() && #[trigger] m.plain_dirs.contains(p.take(n)) && (n > 0 || p[0]
            != seq![47u8]) {
        let n = choose|n: int|
            0 <= n < p.len() && #[trigger] m.plain_dirs.contains(p.take(n)) && (n > 0 || p[0]
                != seq![47u8]);
        let dir = p.take(n);
        assert(dir.len() == n);
        assert(is_ancestor(dir, p));
    }
}

/// A plain write adds the directory of its file to those that have held plain content,
/// and nothing else; where the path has no directory, it adds nothing. All the rest that
/// is known stays.
pub proof fn a_plain_write_adds_one_directory(m: DetectorModel, path: Seq<u8>, dir: Seq<Seq<u8>>)
    ensures
        m.after_plain_write(path).plain_dirs.contains(dir) <==> m.plain_dirs.contains(dir) || (
        components(path).len() > 0 && components(path).last() != seq![47u8] && dir == components(
            path,
        ).drop_last()),
        m.after_plain_write(path).recent == m.recent,
        m.after_plain_write(path).burst_file_count == m.burst_file_count,
        m.after_plain_write(path).window_secs == m.window_secs,
        m.after_plain_write(path).require_baseline == m.require_baseline,
{
}

/// Forgetting a process, and learning when one was started, touch nothing but what is
/// remembered of that process; a start time is kept from the first time it is learnt on,
/// and its files stay.
pub proof fn one_process_is_touched_at_a_time(
    m: DetectorModel,
    pid: i32,
    starttime: Option<u64>,
    other: i32,
)
    ensures
        !m.after_forgetting(pid).recent.contains_key(pid),
        other != pid ==> (m.after_forgetting(pid).recent.contains_key(other)
            <==> m.recent.contains_key(other)),
        other != pid && m.recent.contains_key(other) ==> m.after_forgetting(pid).recent[other]
            == m.recent[other],
        m.after_forgetting(pid).plain_dirs == m.plain_dirs,
        m.after_forgetting(pid).burst_file_count == m.burst_file_count,
        m.after_forgetting(pid).window_secs == m.window_secs,
        m.after_forgetting(pid).require_baseline == m.require_baseline,
        m.after_start_time(pid, starttime).recent.contains_key(other)
            <==> m.recent.contains_key(other),
        m.recent.contains_key(other) ==> m.after_start_time(pid, starttime).recent[other].files
            == m.recent[other].files,
        m.recent.contains_key(other) && (other != pid || m.recent[pid].starttime is Some)
            ==> m.after_start_time(pid, starttime).recent[other].starttime
            == m.recent[other].starttime,
        m.recent.contains_key(pid) && m.recent[pid].starttime is None ==> m.after_start_time(
            pid,
            starttime,
        ).recent[pid].starttime == starttime,
        m.after_start_time(pid, starttime).plain_dirs == m.plain_dirs,
        m.after_start_time(pid, starttime).burst_file_count == m.burst_file_count,
        m.after_start_time(pid, starttime).window_secs == m.window_secs,
        m.after_start_time(pid, starttime).require_baseline == m.require_baseline,
{
}

/// The list of a process's files holds a path exactly where one of its files is remembered
/// under that path, and holds none twice.
pub proof fn a_list_of_files_is_complete(
    paths: Seq<Seq<u8>>,
    files: Map<Seq<Seq<u8>>, Rewrite>,
    path: Seq<u8>,
)
    requires
        lists_files(paths, files),
    ensures
        paths.contains(path) <==> exists|k: Seq<Seq<u8>>| #[trigger]
            files.contains_key(k) && files[k].path == path,
        forall|i: int, j: int|
            0 <= i < j < paths.len() ==> components(#[trigger] paths[i]) != components(
                #[trigger] paths[j],
            ),
        paths.len() == files.dom().len(),
{
    if paths.contains(path) {
        let i = choose|i: int| 0 <= i < paths.len() && paths[i] == path;
        assert(files.contains_key(components(paths[i])));
    }
    if exists|k: Seq<Seq<u8>>| #[trigger] files.contains_key(k) && files[k].path == path {
        let k = choose|k: Seq<Seq<u8>>| #[trigger]
            files.contains_key(k) && files[k].path == path;
        let i = choose|i: int| 0 <= i < paths.len() && components(#[trigger] paths[i]) == k;
        assert(files[components(paths[i])].path == paths[i]);
    }
}

/// What is told of a process is what is remembered of it: its start time, and the number
/// of processes of which anything is.
pub proof fn what_is_remembered_is_told(
    detector: &Detector,
    pid: i32,
    starttime: Option<u64>,
    count: usize,
)
    requires
        call_ensures(Detector::starttime_for_pid, (detector, pid), starttime),
        call_ensures(Detector::tracked_pids, (detector,), count),
    ensures
        detector@.recent.contains_key(pid) ==> starttime == detector@.recent[pid].starttime,
        !detector@.recent.contains_key(pid) ==> starttime is None,
        count == detector@.recent.dom().len(),
{
}

/// A detector begins with the operator's limits, and with nothing seen.
pub proof fn a_detector_begins_with_nothing_seen(cfg: &Config, detector: Detector)
    requires
        call_ensures(Detector::new, (cfg,), detector),
    ensures
        detector@.burst_file_count == cfg.burst_file_count,
        detector@.window_secs == cfg.burst_window_secs,
        detector@.require_baseline == cfg.require_directory_baseline,
        detector@.recent =~= Map::<i32, Activity>::empty(),
        detector@.plain_dirs =~= Set::<Seq<Seq<u8>>>::empty(),
{
}

/// A write with encrypted-looking content is a burst exactly where it counts and, with it,
/// as many distinct files of the process were seen within the window as a burst takes. One
/// that does not count changes nothing.
pub proof fn a_write_is_judged_by_the_files_of_the_window(
    detector: &mut Detector,
    pid: i32,
    path: &FilePath,
    now: u128,
    verdict: Verdict,
    k: Seq<Seq<u8>>,
)
    requires
        call_ensures(Detector::observe_at, (detector, pid, path, now), verdict),
    ensures
        ({
            let before = old(detector)@;
            let after = final(detector)@;
            let files = after.recent[pid].files;
            let counts = !before.require_baseline || before.has_baseline(path@);
            &&& !counts ==> verdict is Clean && after == before
            &&& counts ==> (files.contains_key(k) <==> k == components(path@)
                || before.recent.contains_key(pid) && before.recent[pid].files.contains_key(k)
                && now - before.recent[pid].files[k].seen <= before.window_secs * 1_000_000_000)
            &&& counts ==> (verdict is Burst <==> files.dom().len() >= before.burst_file_count)
            &&& counts ==> files[components(path@)].seen == now
        }),
{
    let before = old(detector)@;
    if before.counts(path@) {
        what_was_seen_within_the_window_is_remembered(before, pid, path@, now, pid, k);
        a_rewrite_is_remembered(before, pid, path@, now, pid);
        a_burst_is_told_by_the_number_of_files(before, pid, path@, now);
    }
}

/// A plain write makes the directory that holds its file known, and changes nothing else.
pub proof fn what_is_noted_is_known(
    detector: &mut Detector,
    path: &FilePath,
    dir: Seq<Seq<u8>>,
)
    requires
        call_ensures(Detector::note_plaintext_activity, (detector, path), ()),
    ensures
        ({
            let before = old(detector)@;
            let after = final(detector)@;
            let file = components(path@);
            &&& after.plain_dirs.contains(dir) <==> before.plain_dirs.contains(dir) || file.len() > 0
                && file.last() != seq![47u8] && dir == file.drop_last()
            &&& after == (DetectorModel { plain_dirs: after.plain_dirs, ..before })
        }),
{
    a_plain_write_adds_one_directory(old(detector)@, path@, dir);
}

/// A process that is forgotten is forgotten alone, and of a process that is remembered the
/// first start time is kept.
pub proof fn one_process_is_forgotten_or_told_of(
    forgetful: &mut Detector,
    told: &mut Detector,
    pid: i32,
    starttime: Option<u64>,
    other: i32,
)
    requires
        call_ensures(Detector::forget, (forgetful, pid), ()),
        call_ensures(Detector::note_starttime, (told, pid, starttime), ()),
    ensures
        ({
            let before = old(forgetful)@;
            let after = final(forgetful)@;
            &&& !after.recent.contains_key(pid)
            &&& other != pid ==> (after.recent.contains_key(other) <==> before.recent.contains_key(
                other,
            ))
            &&& other != pid && before.recent.contains_key(other) ==> after.recent[other]
                == before.recent[other]
            &&& after == (DetectorModel { recent: after.recent, ..before })
        }),
        ({
            let before = old(told)@;
            let after = final(told)@;
            let first = before.recent[pid].starttime;
            &&& after.recent.contains_key(other) <==> before.recent.contains_key(other)
            &&& before.recent.contains_key(pid) && first is Some ==> after.recent[pid].starttime
                == first
            &&& before.recent.contains_key(pid) && first is None ==> after.recent[pid].starttime
                == starttime
            &&& before.recent.contains_key(pid) ==> after.recent[pid].files
                == before.recent[pid].files
            &&& other != pid && before.recent.contains_key(other) ==> after.recent[other]
                == before.recent[other]
            &&& after == (DetectorModel { recent: after.recent, ..before })
        }),
{
    one_process_is_touched_at_a_time(old(forgetful)@, pid, starttime, other);
    one_process_is_touched_at_a_time(old(told)@, pid, starttime, other);
}

/// A path has a baseline exactly where a directory above it is known to have held plain
/// content, and the files that are told of a process are those that are remembered of it,
/// each once.
pub proof fn what_is_known_is_told(
    detector: &Detector,
    path: &FilePath,
    baseline: bool,
    pid: i32,
    paths: Vec<FilePath>,
    file: Seq<u8>,
)
    requires
        call_ensures(Detector::has_plaintext_baseline, (detector, path), baseline),
        call_ensures(Detector::files_for_pid, (detector, pid), paths),
    ensures
        baseline <==> exists|n: int|
            0 <= n < components(path@).len() && #[trigger] detector@.plain_dirs.contains(
                components(path@).take(n),
            ) && (n > 0 || components(path@)[0] != seq![47u8]),
        views(paths@).contains(file) <==> detector@.recent.contains_key(pid) && exists|
            k: Seq<Seq<u8>>,
        | #[trigger]
            detector@.recent[pid].files.contains_key(k) && detector@.recent[pid].files[k].path
                == file,
        forall|i: int, j: int|
            0 <= i < j < paths@.len() ==> components((#[trigger] paths@[i])@) != components(
                (#[trigger] paths@[j])@,
            ),
{
    any_directory_above_is_a_baseline(detector@, path@);
    a_list_of_files_is_complete(
        views(paths@),
        activity_of(detector@.recent, pid).files,
        file,
    );
    assert forall|i: int, j: int| 0 <= i < j < paths@.len() implies components(
        (#[trigger] paths@[i])@,
    ) != components((#[trigger] paths@[j])@) by {
        assert(views(paths@)[i] == paths@[i]@ && views(paths@)[j] == paths@[j]@);
    }
}

/// A write that is observed as it happens is judged at the time that the clock then shows,
/// which is no earlier than before.
pub proof fn a_write_is_judged_at_its_time(
    detector: &mut Detector,
    pid: i32,
    path: &FilePath,
    verdict: Verdict,
)
    requires
        call_ensures(Detector::observe_high_entropy_write, (detector, pid, path), verdict),
    ensures
        final(detector).latest() >= old(detector).latest(),
        ({
            let before = old(detector)@;
            let after = final(detector)@;
            let counts = !before.require_baseline || before.has_baseline(path@);
            &&& !counts ==> verdict is Clean && after == before
            &&& counts ==> after.recent[pid].files.contains_key(components(path@))
            &&& counts ==> after.recent[pid].files[components(path@)].seen == final(detector).latest()
            &&& counts ==> (verdict is Burst <==> after.recent[pid].files.dom().len()
                >= before.burst_file_count)
        }),
{
    let before = old(detector)@;
    let now = final(detector).latest();
    if before.counts(path@) {
        a_rewrite_is_remembered(before, pid, path@, now, pid);
        a_burst_is_told_by_the_number_of_files(before, pid, path@, now);
    }
}

} // verus!
