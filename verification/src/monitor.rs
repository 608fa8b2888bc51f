//! What to make of each write that the kernel tells of.

use vstd::prelude::*;
use vstd::string::*;

use crate::config::{Config, Mode};
use crate::detector::{
    a_list_of_files_is_complete, activity_of, lists_files, Detector, DetectorModel, Verdict,
};
use crate::digest::is_hashable;
use crate::honeypot::{all_lie_within, decoy_directories, rearmed, Honeypots, Restored};
use crate::path::{
    begins_with, components, duplicate_all, is_ancestor, is_within_any, lossy_text, parent_parts, views,
    within_any, FilePath,
};
use crate::response::{
    a_response_moves_on, handle_detection, response_to, Response, ResponseAction, ResponseAnswer, ResponseModel,
    ResponsePhase,
};
use crate::sampling::{
    any_above, copied, live_plan, live_probes, max_sampled_entropy, nothing_read,
    one_encrypted_part_decides, stepped, Probe, Rng, PROBE_COUNT,
};
use crate::text::{decimal, push_decimal};
use crate::trust::{sighting_is_trusted, Sighting, TrustModel, TrustStore};

verus! {

/// How many failures in a row to read events are one too many.
pub const MAX_CONSECUTIVE_READ_FAILURES: u32 = 20;

/// What to do after a failure to read events.
#[derive(Clone, Copy, PartialEq, Eq, Structural, Debug)]
pub enum Backoff {
    /// Wait for that many milliseconds and try again.
    Retry { millis: u64 },
    /// Give up, after that many failures in a row.
    GiveUp { failures: u32 },
}

/// What to do after that many failures in a row.
pub open spec fn backoff_after(failures: nat) -> Backoff {
    if failures >= MAX_CONSECUTIVE_READ_FAILURES {
        Backoff::GiveUp { failures: failures as u32 }
    } else if failures < 10 {
        Backoff::Retry { millis: (200 * failures) as u64 }
    } else {
        Backoff::Retry { millis: 2000 }
    }
}

/// How often in a row events could not be read.
pub struct ReadFailures {
    consecutive: u32,
}

impl View for ReadFailures {
    type V = nat;

    closed spec fn view(&self) -> nat {
        self.consecutive as nat
    }
}

impl ReadFailures {
    /// No failure yet.
    pub fn none() -> (failures: ReadFailures)
        ensures
            failures@ == 0,
    {
        ReadFailures { consecutive: 0 }
    }

    /// Events were read.
    pub fn succeeded(&mut self)
        ensures
            final(self)@ == 0,
    {
        self.consecutive = 0;
    }

    /// Events could not be read. The pause grows with each failure in a row, up to two
    /// seconds.
    pub fn failed(&mut self) -> (backoff: Backoff)
        requires
            old(self)@ < MAX_CONSECUTIVE_READ_FAILURES,
        ensures
            final(self)@ == old(self)@ + 1,
            backoff == backoff_after(final(self)@),
    {
        let failures: u32 = self.consecutive + 1;
        self.consecutive = failures;
        if failures >= MAX_CONSECUTIVE_READ_FAILURES {
            return Backoff::GiveUp { failures };
        }
        let steps: u64 = if failures < 10 {
            failures as u64
        } else {
            10
        };
        Backoff::Retry { millis: 200 * steps }
    }
}

/// A spurious failure is worth a retry, while nothing is retried for ever, and no
/// pause is longer than two seconds.
pub proof fn retries_are_bounded(failures: nat)
    requires
        1 <= failures <= MAX_CONSECUTIVE_READ_FAILURES,
    ensures
        backoff_after(failures) is GiveUp <==> failures == MAX_CONSECUTIVE_READ_FAILURES,
        backoff_after(failures) matches Backoff::Retry { millis } ==> 200 <= millis <= 2000,
{
}

/// Why events are no longer read.
pub open spec fn gave_up(failures: u32) -> Seq<char> {
    "fanotify read_events failed "@ + decimal(failures as nat) + " times in a row, giving up"@
}

/// Why events are no longer read.
pub fn give_up_message(failures: u32) -> (text: String)
    ensures
        text@ == gave_up(failures),
{
    let mut text = String::new();
    text.append("fanotify read_events failed ");
    push_decimal(&mut text, failures as u128);
    text.append(" times in a row, giving up");
    assert(text@ =~= gave_up(failures));
    text
}

/// Why a process that wrote to the decoy at `canary` is dealt with.
pub open spec fn honeypot_reason(canary: Seq<u8>) -> Seq<char> {
    "honeypot touched: "@ + lossy_text(canary)
}

/// Why a process that rewrote `count` files, `path` last, is dealt with.
pub open spec fn burst_reason(count: usize, window_secs: u64, path: Seq<u8>) -> Seq<char> {
    decimal(count as nat) + " high-entropy file rewrites within "@ + decimal(window_secs as nat)
        + "s (last: "@ + lossy_text(path) + ")"@
}

fn honeypot_reason_text(canary: &FilePath) -> (text: String)
    ensures
        text@ == honeypot_reason(canary@),
{
    let mut text = String::new();
    text.append("honeypot touched: ");
    let shown = canary.display();
    text.append(shown.as_str());
    assert(text@ =~= honeypot_reason(canary@));
    text
}

fn burst_reason_text(count: usize, window_secs: u64, path: &FilePath) -> (text: String)
    ensures
        text@ == burst_reason(count, window_secs, path@),
{
    let mut text = String::new();
    push_decimal(&mut text, count as u128);
    text.append(" high-entropy file rewrites within ");
    push_decimal(&mut text, window_secs as u128);
    text.append("s (last: ");
    let shown = path.display();
    text.append(shown.as_str());
    text.append(")");
    assert(text@ =~= burst_reason(count, window_secs, path@));
    text
}

/// What became of an event.
#[derive(Clone, Copy, PartialEq, Eq, Structural, Debug)]
pub enum Admission {
    /// It is of no interest: the daemon itself wrote, or nobody did.
    Ignored,
    /// It tells that other events were lost.
    Overflow,
    /// It is being worked on.
    Accepted,
}

/// What has to be done next about a write.
pub enum MonitorAction {
    /// Nothing: wait for an event.
    Wait,
    /// Read the inode and the path of the file that was written.
    Identify,
    /// Read its size.
    Measure,
    /// Measure the entropy of these parts of it.
    Read { probes: Vec<Probe> },
    /// Read the start time of the process.
    FindStart { pid: i32 },
    /// Look at the executable of the process.
    Inspect { pid: i32 },
    /// Respond to a detection.
    Respond(ResponseAction),
    /// Write the decoy at this path anew, make it writable, and read its inode.
    Rearm { path: FilePath },
}

/// What an action has come to.
pub enum MonitorAnswer {
    /// The inode and the path of the file, as far as they could be read.
    Identity { inode: Option<(u64, u64)>, path: Option<FilePath> },
    /// The size of the file.
    Size(u64),
    /// The entropies of the parts of the file; none of a part that could not be read.
    Scores(Vec<Option<u64>>),
    /// The start time of the process, where there is such a process.
    Started(Option<u64>),
    /// What the executable of the process shows.
    Seen(Sighting),
    /// What a step of the response has come to.
    Responded(ResponseAnswer),
    /// What came of putting the decoy back.
    Rearmed(Restored),
}

enum Stage {
    Idle,
    Identify { pid: i32 },
    Measure { pid: i32, path: FilePath },
    Read { pid: i32, path: FilePath, probes: Vec<Probe> },
    FindStart { pid: i32, path: FilePath },
    Inspect { pid: i32, path: FilePath, asked: u128, starttime: Option<u64> },
    Respond { pid: i32, canary: Option<(u64, u64)>, response: Response },
    Rearm { pid: i32, dev: u64, ino: u64, neutralized: bool },
}

/// How far the work on an event has come.
#[verifier::ext_equal]
pub enum StageModel {
    /// There is no work.
    Idle,
    /// The process wrote to a file that is not identified yet.
    Identify { pid: i32 },
    /// It wrote to this file, which lies in scope.
    Measure { pid: i32, path: Seq<u8> },
    /// These parts of the file are to be read.
    Read { pid: i32, path: Seq<u8>, probes: Seq<Probe> },
    /// The file looks encrypted.
    FindStart { pid: i32, path: Seq<u8> },
    /// The file looks encrypted, and nothing is known of the process.
    Inspect { pid: i32, path: Seq<u8>, asked: u128, starttime: Option<u64> },
    /// The process is being dealt with; it may have written to a decoy.
    Respond { pid: i32, canary: Option<(u64, u64)>, response: ResponseModel },
    /// The process was dealt with, and the decoy that it wrote to is to be put back.
    Rearm { pid: i32, dev: u64, ino: u64, neutralized: bool },
}

impl Stage {
    spec fn model(self) -> StageModel {
        match self {
            Stage::Idle => StageModel::Idle,
            Stage::Identify { pid } => StageModel::Identify { pid },
            Stage::Measure { pid, path } => StageModel::Measure { pid, path: path@ },
            Stage::Read { pid, path, probes } => StageModel::Read {
                pid,
                path: path@,
                probes: probes@,
            },
            Stage::FindStart { pid, path } => StageModel::FindStart { pid, path: path@ },
            Stage::Inspect { pid, path, asked, starttime } => StageModel::Inspect {
                pid,
                path: path@,
                asked,
                starttime,
            },
            Stage::Respond { pid, canary, response } => StageModel::Respond {
                pid,
                canary,
                response: response@,
            },
            Stage::Rearm { pid, dev, ino, neutralized } => StageModel::Rearm {
                pid,
                dev,
                ino,
                neutralized,
            },
        }
    }
}

/// What a detector knows that has learnt of the directories of decoys.
pub open spec fn with_decoy_directories(
    known: DetectorModel,
    decoys: Map<(u64, u64), Seq<u8>>,
) -> DetectorModel {
    DetectorModel { plain_dirs: known.plain_dirs.union(decoy_directories(decoys)), ..known }
}

/// The directories that hold the first `n` of `paths`.
spec fn first_directories(paths: Seq<Seq<u8>>, n: int) -> Set<Seq<Seq<u8>>> {
    Set::new(
        |dir: Seq<Seq<u8>>|
            exists|i: int|
                0 <= i < n && parent_parts(components(#[trigger] paths[i])) == Some(dir),
    )
}

/// `detector` once it has learnt of the directories of decoys.
fn learn_decoy_directories(detector: Detector, honeypots: &Honeypots) -> (taught: Detector)
    requires
        detector.wf(),
        honeypots.wf(),
    ensures
        taught.wf(),
        taught@ == with_decoy_directories(detector@, honeypots@),
        taught.latest() == detector.latest(),
{
    let mut taught = detector;
    let places = honeypots.places();
    let ghost paths = views(places@);
    let ghost start = detector@;
    assert(start.plain_dirs.union(first_directories(paths, 0)) =~= start.plain_dirs);
    let mut i: usize = 0;
    while i < places.len()
        invariant
            i <= places.len(),
            paths == views(places@),
            taught.wf(),
            taught.latest() == detector.latest(),
            taught@ == (DetectorModel {
                plain_dirs: start.plain_dirs.union(first_directories(paths, i as int)),
                ..start
            }),
        decreases places.len() - i,
    {
        let ghost before = first_directories(paths, i as int);
        let ghost after = first_directories(paths, i + 1);
        taught.note_plaintext_activity(&places[i]);
        proof {
            assert(paths[i as int] == places@[i as int]@);
            assert forall|dir: Seq<Seq<u8>>| #[trigger] after.contains(dir) == (before.contains(dir)
                || parent_parts(components(paths[i as int])) == Some(dir)) by {
                if after.contains(dir) {
                    let k = choose|k: int|
                        0 <= k < i + 1 && parent_parts(components(#[trigger] paths[k])) == Some(dir);
                    if k < i {
                        assert(before.contains(dir));
                    }
                }
            }
            assert(taught@.plain_dirs =~= start.plain_dirs.union(after));
        }
        i = i + 1;
    }
    proof {
        let all = first_directories(paths, i as int);
        let goal = decoy_directories(honeypots@);
        assert forall|dir: Seq<Seq<u8>>| all.contains(dir) == goal.contains(dir) by {
            if all.contains(dir) {
                let k = choose|k: int|
                    0 <= k < i && parent_parts(components(#[trigger] paths[k])) == Some(dir);
                assert(places@[k]@ == paths[k]);
                let id = choose|id: (u64, u64)| #[trigger]
                    honeypots@.contains_key(id) && honeypots@[id] == places@[k]@;
                assert(honeypots@.contains_key(id));
            }
            if goal.contains(dir) {
                let id = choose|id: (u64, u64)| #[trigger]
                    honeypots@.contains_key(id) && parent_parts(components(honeypots@[id])) == Some(
                        dir,
                    );
                assert(paths.contains(honeypots@[id]));
                let k = choose|k: int| 0 <= k < paths.len() && paths[k] == honeypots@[id];
                assert(parent_parts(components(paths[k])) == Some(dir));
            }
        }
        assert(all =~= goal);
    }
    taught
}

/// A directory that holds a decoy has a baseline from the start, and so has everything
/// below it.
pub proof fn the_directory_of_a_decoy_has_a_baseline(
    known: DetectorModel,
    decoys: Map<(u64, u64), Seq<u8>>,
    id: (u64, u64),
    dir: Seq<Seq<u8>>,
    path: Seq<u8>,
)
    requires
        decoys.contains_key(id),
        parent_parts(components(decoys[id])) == Some(dir),
        is_ancestor(dir, components(path)),
    ensures
        with_decoy_directories(known, decoys).has_baseline(path),
{
    assert(decoy_directories(decoys).contains(dir));
    assert(with_decoy_directories(known, decoys).plain_dirs.contains(dir));
}

/// What the daemon knows, and the event that it works on.
pub struct Monitor {
    own_pid: i32,
    mode: Mode,
    threshold: u64,
    window_secs: u64,
    sample_bytes: usize,
    roots: Vec<FilePath>,
    honeypots: Honeypots,
    detector: Detector,
    trust: TrustStore,
    rng: Rng,
    stage: Stage,
}

/// What the daemon knows, and the event that it works on.
#[verifier::ext_equal]
pub struct MonitorModel {
    pub own_pid: i32,
    pub mode: Mode,
    pub threshold: u64,
    pub window_secs: u64,
    pub sample_bytes: usize,
    pub roots: Seq<Seq<u8>>,
    pub honeypots: Map<(u64, u64), Seq<u8>>,
    pub detector: DetectorModel,
    pub trust: TrustModel,
    pub rng: u64,
    pub stage: StageModel,
}

impl View for Monitor {
    type V = MonitorModel;

    closed spec fn view(&self) -> MonitorModel {
        MonitorModel {
            own_pid: self.own_pid,
            mode: self.mode,
            threshold: self.threshold,
            window_secs: self.window_secs,
            sample_bytes: self.sample_bytes,
            roots: views(self.roots@),
            honeypots: self.honeypots@,
            detector: self.detector@,
            trust: self.trust@,
            rng: self.rng@,
            stage: self.stage.model(),
        }
    }
}

impl MonitorModel {
    pub open spec fn at(self, stage: StageModel) -> MonitorModel {
        MonitorModel { stage, ..self }
    }

    /// Whether `inode` is that of a decoy.
    pub open spec fn is_decoy(self, inode: Option<(u64, u64)>) -> bool {
        inode matches Some(id) && self.honeypots.contains_key(id)
    }

    /// The response to a detection begins, on the files `affected`.
    pub open spec fn responding(
        self,
        pid: i32,
        canary: Option<(u64, u64)>,
        reason: Seq<char>,
        affected: Seq<Seq<u8>>,
    ) -> MonitorModel {
        let starttime = activity_of(self.detector.recent, pid).starttime;
        self.at(
            StageModel::Respond {
                pid,
                canary,
                response: response_to(self.mode, pid, starttime, reason, affected),
            },
        )
    }

    /// An event is taken up, or is not.
    pub open spec fn admission(self, pid: i32, has_file: bool) -> Admission {
        if pid == self.own_pid || pid <= 0 {
            Admission::Ignored
        } else if !has_file {
            Admission::Overflow
        } else {
            Admission::Accepted
        }
    }

    /// The file was identified. A write to a decoy is a detection, whoever wrote and
    /// wherever the file is by now, even where its path cannot be told; any other file
    /// has to lie in scope.
    pub open spec fn after_identity(
        self,
        pid: i32,
        inode: Option<(u64, u64)>,
        path: Option<FilePath>,
        affected: Seq<Seq<u8>>,
    ) -> MonitorModel {
        if self.is_decoy(inode) {
            self.responding(pid, inode, honeypot_reason(self.honeypots[inode->0]), affected)
        } else {
            match path {
                Some(path) => if within_any(path@, self.roots) {
                    self.at(StageModel::Measure { pid, path: path@ })
                } else {
                    self.at(StageModel::Idle)
                },
                None => self.at(StageModel::Idle),
            }
        }
    }

    /// The size of the file is known, and with it the parts to read.
    pub open spec fn after_size(self, pid: i32, path: Seq<u8>, size: u64) -> MonitorModel {
        MonitorModel {
            rng: if size <= self.sample_bytes {
                self.rng
            } else {
                stepped(self.rng, PROBE_COUNT as nat)
            },
            stage: StageModel::Read {
                pid,
                path,
                probes: live_plan(size, self.sample_bytes, self.rng),
            },
            ..self
        }
    }

    /// The entropies of parts of the file are known. Where nothing could be read
    /// there is nothing to decide; where a part looks encrypted, the file does; else
    /// its directory holds ordinary content.
    pub open spec fn after_scores(
        self,
        pid: i32,
        path: Seq<u8>,
        scores: Seq<Option<u64>>,
    ) -> MonitorModel {
        if nothing_read(scores) {
            self.at(StageModel::Idle)
        } else if any_above(scores, self.threshold) {
            self.at(StageModel::FindStart { pid, path })
        } else {
            MonitorModel {
                detector: self.detector.after_plain_write(path),
                stage: StageModel::Idle,
                ..self
            }
        }
    }

    /// The start time of the process is known.
    pub open spec fn after_start(
        self,
        pid: i32,
        path: Seq<u8>,
        starttime: Option<u64>,
        now: u128,
        affected: Seq<Seq<u8>>,
    ) -> MonitorModel {
        if self.trust.must_look(pid, now, starttime) {
            self.at(StageModel::Inspect { pid, path, asked: now, starttime })
        } else {
            self.after_trust(
                pid,
                path,
                starttime,
                self.trust.verdict(pid, now, starttime, false),
                now,
                affected,
            )
        }
    }

    /// The executable of the process was looked at, and is a trusted one or is not.
    pub open spec fn after_look(
        self,
        pid: i32,
        path: Seq<u8>,
        asked: u128,
        starttime: Option<u64>,
        looked: bool,
        now: u128,
        affected: Seq<Seq<u8>>,
    ) -> MonitorModel {
        MonitorModel { trust: self.trust.after(pid, asked, starttime, looked), ..self }.after_trust(
            pid,
            path,
            starttime,
            self.trust.verdict(pid, asked, starttime, looked),
            now,
            affected,
        )
    }

    /// The process is trusted, and its write does not count, or it is not.
    pub open spec fn after_trust(
        self,
        pid: i32,
        path: Seq<u8>,
        starttime: Option<u64>,
        trusted: bool,
        now: u128,
        affected: Seq<Seq<u8>>,
    ) -> MonitorModel {
        if trusted {
            self.at(StageModel::Idle)
        } else {
            let seen = MonitorModel {
                detector: self.detector.after_rewrite(pid, path, now).after_start_time(
                    pid,
                    starttime,
                ),
                ..self
            };
            match self.detector.verdict(pid, path, now) {
                Verdict::Burst { count } => seen.responding(
                    pid,
                    None,
                    burst_reason(count, self.window_secs, path),
                    affected,
                ),
                Verdict::Clean => seen.at(StageModel::Idle),
            }
        }
    }

    /// The process was dealt with. Only where it is known to be gone is it forgotten.
    pub open spec fn settled(self, pid: i32, neutralized: bool) -> MonitorModel {
        MonitorModel {
            detector: if neutralized {
                self.detector.after_forgetting(pid)
            } else {
                self.detector
            },
            stage: StageModel::Idle,
            ..self
        }
    }

    /// A step of the response was taken.
    pub open spec fn after_response(
        self,
        pid: i32,
        canary: Option<(u64, u64)>,
        response: ResponseModel,
    ) -> MonitorModel {
        match response.phase {
            ResponsePhase::End { neutralized } => match canary {
                Some((dev, ino)) => self.at(StageModel::Rearm { pid, dev, ino, neutralized }),
                None => self.settled(pid, neutralized),
            },
            _ => self.at(StageModel::Respond { pid, canary, response }),
        }
    }

    /// The monitor once the action at hand has come to `answer` at the time `now`.
    /// Where that is a detection, the response is on the files `affected`. An answer
    /// that does not fit the action changes nothing.
    pub open spec fn after(
        self,
        answer: MonitorAnswer,
        now: u128,
        affected: Seq<Seq<u8>>,
    ) -> MonitorModel {
        match (self.stage, answer) {
            (
                StageModel::Identify { pid },
                MonitorAnswer::Identity { inode, path },
            ) => self.after_identity(pid, inode, path, affected),
            (StageModel::Measure { pid, path }, MonitorAnswer::Size(size)) => self.after_size(
                pid,
                path,
                size,
            ),
            (
                StageModel::Read { pid, path, .. },
                MonitorAnswer::Scores(scores),
            ) => self.after_scores(pid, path, scores@),
            (
                StageModel::FindStart { pid, path },
                MonitorAnswer::Started(starttime),
            ) => self.after_start(pid, path, starttime, now, affected),
            (
                StageModel::Inspect { pid, path, asked, starttime },
                MonitorAnswer::Seen(seen),
            ) => self.after_look(
                pid,
                path,
                asked,
                starttime,
                sighting_is_trusted(self.trust.trusted, seen),
                now,
                affected,
            ),
            (
                StageModel::Respond { pid, canary, response },
                MonitorAnswer::Responded(step),
            ) => self.after_response(pid, canary, response.after(step)),
            (
                StageModel::Rearm { pid, dev, ino, neutralized },
                MonitorAnswer::Rearmed(outcome),
            ) => MonitorModel {
                honeypots: rearmed(self.honeypots, dev, ino, outcome),
                ..self
            }.settled(pid, neutralized),
            _ => self,
        }
    }

    /// Whether a response that has just begun is on the files that the process is
    /// known to have rewritten of late.
    pub open spec fn names_its_files(self) -> bool {
        self.stage matches StageModel::Respond { pid, response, .. } ==> lists_files(
            response.affected,
            activity_of(self.detector.recent, pid).files,
        )
    }

    /// The files that the response at hand is on.
    pub open spec fn affected(self) -> Seq<Seq<u8>> {
        match self.stage {
            StageModel::Respond { response, .. } => response.affected,
            _ => Seq::empty(),
        }
    }

    /// Whether `action` is what has to be done next.
    pub open spec fn is_next(self, action: MonitorAction) -> bool {
        match self.stage {
            StageModel::Idle => action is Wait,
            StageModel::Identify { .. } => action is Identify,
            StageModel::Measure { .. } => action is Measure,
            StageModel::Read { probes, .. } => action matches MonitorAction::Read {
                probes: parts,
            } && parts@ == probes,
            StageModel::FindStart { pid, .. } => action == (MonitorAction::FindStart { pid }),
            StageModel::Inspect { pid, .. } => action == (MonitorAction::Inspect { pid }),
            StageModel::Respond { response, .. } => action matches MonitorAction::Respond(step)
                && response.is_next(step),
            StageModel::Rearm { dev, ino, .. } => action matches MonitorAction::Rearm { path }
                && path@ == self.honeypots[(dev, ino)],
        }
    }
}

impl Monitor {
    pub closed spec fn wf(self) -> bool {
        &&& self.honeypots.wf()
        &&& self.detector.wf()
        &&& self.rng@ != 0
        &&& match self.stage {
            Stage::Respond { canary, response, .. } => {
                &&& response.wf()
                &&& canary matches Some(id) ==> self.honeypots@.contains_key(id)
            },
            Stage::Rearm { dev, ino, .. } => self.honeypots@.contains_key((dev, ino)),
            _ => true,
        }
    }

    /// What the clock of the detector showed when it was last read.
    pub closed spec fn latest(self) -> u128 {
        self.detector.latest()
    }

    /// Whether that many nanoseconds were measured since that clock was started.
    pub closed spec fn measures(self, elapsed: u128) -> bool {
        self.detector.measures(elapsed)
    }

    /// A daemon with the number `own_pid`, with `roots` in scope, that has to work on
    /// no event yet. A directory that holds a decoy holds ordinary content.
    pub fn new(
        cfg: &Config,
        own_pid: i32,
        roots: &Vec<FilePath>,
        honeypots: Honeypots,
        detector: Detector,
        trust: TrustStore,
        rng: Rng,
    ) -> (monitor: Monitor)
        requires
            honeypots.wf(),
            detector.wf(),
            rng@ != 0,
        ensures
            monitor.wf(),
            monitor@ == (MonitorModel {
                own_pid,
                mode: cfg.mode,
                threshold: cfg.entropy_threshold,
                window_secs: cfg.burst_window_secs,
                sample_bytes: cfg.sample_bytes,
                roots: views(roots@),
                honeypots: honeypots@,
                detector: with_decoy_directories(detector@, honeypots@),
                trust: trust@,
                rng: rng@,
                stage: StageModel::Idle,
            }),
            monitor.latest() == detector.latest(),
    {
        let detector = learn_decoy_directories(detector, &honeypots);
        Monitor {
            own_pid,
            mode: cfg.mode,
            threshold: cfg.entropy_threshold,
            window_secs: cfg.burst_window_secs,
            sample_bytes: cfg.sample_bytes,
            roots: duplicate_all(roots),
            honeypots,
            detector,
            trust,
            rng,
            stage: Stage::Idle,
        }
    }

    /// Whether a decoy lies outside everything that is watched, and so never fires.
    pub fn has_blind_honeypot(&self) -> (b: bool)
        requires
            self.wf(),
        ensures
            b == !all_lie_within(self@.honeypots, self@.roots),
    {
        !self.honeypots.is_empty() && !self.honeypots.all_within(&self.roots)
    }

    /// What is known of the executables that the operator trusts.
    pub fn trust(&self) -> (trust: &TrustStore)
        requires
            self.wf(),
        ensures
            trust@ == self@.trust,
    {
        &self.trust
    }

    /// What is known of writes.
    pub fn detector(&self) -> (detector: &Detector)
        requires
            self.wf(),
        ensures
            detector.wf(),
            detector@ == self@.detector,
            detector.latest() == self.latest(),
    {
        &self.detector
    }

    /// Takes up an event: the process `pid` wrote to a file, unless there is none.
    pub fn begin(&mut self, pid: i32, has_file: bool) -> (admission: Admission)
        requires
            old(self).wf(),
            old(self)@.stage is Idle,
        ensures
            final(self).wf(),
            final(self).latest() == old(self).latest(),
            admission == old(self)@.admission(pid, has_file),
            final(self)@ == old(self)@.at(
                if admission is Accepted {
                    StageModel::Identify { pid }
                } else {
                    StageModel::Idle
                },
            ),
    {
        if pid == self.own_pid || pid <= 0 {
            return Admission::Ignored;
        }
        if !has_file {
            return Admission::Overflow;
        }
        self.stage = Stage::Identify { pid };
        Admission::Accepted
    }

    /// What has to be done next.
    pub fn action(&self) -> (action: MonitorAction)
        requires
            self.wf(),
        ensures
            self@.is_next(action),
    {
        match &self.stage {
            Stage::Idle => MonitorAction::Wait,
            Stage::Identify { pid } => MonitorAction::Identify,
            Stage::Measure { pid, path } => MonitorAction::Measure,
            Stage::Read { pid, path, probes } => MonitorAction::Read { probes: copied(probes) },
            Stage::FindStart { pid, path } => MonitorAction::FindStart { pid: *pid },
            Stage::Inspect { pid, path, asked, starttime } => MonitorAction::Inspect { pid: *pid },
            Stage::Respond { pid, canary, response } => MonitorAction::Respond(response.action()),
            Stage::Rearm { pid, dev, ino, neutralized } => {
                let canary = self.honeypots.lookup(*dev, *ino);
                match canary {
                    Some(path) => MonitorAction::Rearm { path: path.duplicate() },
                    None => MonitorAction::Wait,
                }
            },
        }
    }

    /// The response to a detection begins.
    fn respond(&mut self, pid: i32, canary: Option<(u64, u64)>, reason: &str)
        requires
            old(self).wf(),
            canary matches Some(id) ==> old(self)@.honeypots.contains_key(id),
        ensures
            final(self).wf(),
            final(self).latest() == old(self).latest(),
            final(self)@ == old(self)@.responding(pid, canary, reason@, final(self)@.affected()),
            final(self)@.names_its_files(),
    {
        let affected = self.detector.files_for_pid(pid);
        let starttime = self.detector.starttime_for_pid(pid);
        let response = handle_detection(self.mode, pid, starttime, reason, &affected);
        self.stage = Stage::Respond { pid, canary, response };
    }

    fn identified(&mut self, pid: i32, inode: Option<(u64, u64)>, path: Option<FilePath>)
        requires
            old(self).wf(),
        ensures
            final(self).wf(),
            final(self).latest() == old(self).latest(),
            final(self)@ == old(self)@.after_identity(pid, inode, path, final(self)@.affected()),
            final(self)@.names_its_files(),
    {
        let canary = match inode {
            Some((dev, ino)) => self.honeypots.lookup(dev, ino),
            None => None,
        };
        if let Some(place) = canary {
            let reason = honeypot_reason_text(place);
            self.respond(pid, inode, reason.as_str());
            return;
        }
        self.stage = match path {
            Some(file) => if is_within_any(&file, &self.roots) {
                Stage::Measure { pid, path: file }
            } else {
                Stage::Idle
            },
            None => Stage::Idle,
        };
    }

    fn scored(&mut self, pid: i32, path: FilePath, scores: &Vec<Option<u64>>)
        requires
            old(self).wf(),
        ensures
            final(self).wf(),
            final(self).latest() == old(self).latest(),
            final(self)@ == old(self)@.after_scores(pid, path@, scores@),
    {
        let best = max_sampled_entropy(scores);
        proof {
            one_encrypted_part_decides(best, scores@, self.threshold);
        }
        match best {
            None => {
                self.stage = Stage::Idle;
            },
            Some(entropy) => {
                if entropy <= self.threshold {
                    self.detector.note_plaintext_activity(&path);
                    self.stage = Stage::Idle;
                } else {
                    self.stage = Stage::FindStart { pid, path };
                }
            },
        }
    }

    fn judged(
        &mut self,
        pid: i32,
        path: &FilePath,
        starttime: Option<u64>,
        trusted: bool,
        now: u128,
    )
        requires
            old(self).wf(),
        ensures
            final(self).wf(),
            final(self).latest() == old(self).latest(),
            final(self)@ == old(self)@.after_trust(
                pid,
                path@,
                starttime,
                trusted,
                now,
                final(self)@.affected(),
            ),
            final(self)@.names_its_files(),
    {
        self.stage = Stage::Idle;
        if trusted {
            return;
        }
        let verdict = self.detector.observe_at(pid, path, now);
        self.detector.note_starttime(pid, starttime);
        if let Verdict::Burst { count } = verdict {
            let reason = burst_reason_text(count, self.window_secs, path);
            self.respond(pid, None, reason.as_str());
        }
    }

    fn settle(&mut self, pid: i32, neutralized: bool)
        requires
            old(self).wf(),
        ensures
            final(self).wf(),
            final(self).latest() == old(self).latest(),
            final(self)@ == old(self)@.settled(pid, neutralized),
    {
        if neutralized {
            self.detector.forget(pid);
        }
        self.stage = Stage::Idle;
    }

    /// Records what the action at hand has come to at the time `now`, on the clock of
    /// the detector.
    pub fn advance_at(&mut self, answer: MonitorAnswer, now: u128)
        requires
            old(self).wf(),
            answer matches MonitorAnswer::Seen(seen) ==> (seen.content matches Some(content)
                ==> is_hashable(content@.len())),
        ensures
            final(self).wf(),
            final(self).latest() == old(self).latest(),
            final(self)@ == old(self)@.after(answer, now, final(self)@.affected()),
            !(old(self)@.stage is Respond) ==> final(self)@.names_its_files(),
    {
        let mut stage = Stage::Idle;
        std::mem::swap(&mut stage, &mut self.stage);
        match (stage, answer) {
            (Stage::Identify { pid }, MonitorAnswer::Identity { inode, path }) => {
                self.identified(pid, inode, path);
            },
            (Stage::Measure { pid, path }, MonitorAnswer::Size(size)) => {
                let probes = live_probes(size, self.sample_bytes, &mut self.rng);
                self.stage = Stage::Read { pid, path, probes };
            },
            (Stage::Read { pid, path, probes }, MonitorAnswer::Scores(scores)) => {
                self.scored(pid, path, &scores);
            },
            (Stage::FindStart { pid, path }, MonitorAnswer::Started(starttime)) => {
                if self.trust.needs_inspection(pid, now, starttime) {
                    self.stage = Stage::Inspect { pid, path, asked: now, starttime };
                } else {
                    let unseen = Sighting { path: None, content: None };
                    let trusted = self.trust.is_trusted(pid, now, starttime, &unseen);
                    self.judged(pid, &path, starttime, trusted, now);
                }
            },
            (Stage::Inspect { pid, path, asked, starttime }, MonitorAnswer::Seen(seen)) => {
                let trusted = self.trust.is_trusted(pid, asked, starttime, &seen);
                self.judged(pid, &path, starttime, trusted, now);
            },
            (Stage::Respond { pid, canary, response }, MonitorAnswer::Responded(step)) => {
                let mut response = response;
                response.advance(step);
                let end = match response.action() {
                    ResponseAction::End { neutralized } => Some(neutralized),
                    _ => None,
                };
                match (end, canary) {
                    (Some(neutralized), Some((dev, ino))) => {
                        self.stage = Stage::Rearm { pid, dev, ino, neutralized };
                    },
                    (Some(neutralized), None) => {
                        self.settle(pid, neutralized);
                    },
                    (None, _) => {
                        self.stage = Stage::Respond { pid, canary, response };
                    },
                }
            },
            (Stage::Rearm { pid, dev, ino, neutralized }, MonitorAnswer::Rearmed(outcome)) => {
                self.honeypots.rearm(dev, ino, outcome);
                self.settle(pid, neutralized);
            },
            (other, _) => {
                self.stage = other;
            },
        }
    }

    /// Records what the action at hand has come to, now. Of two answers the one that is
    /// recorded later has no earlier time.
    pub fn advance(&mut self, answer: MonitorAnswer)
        requires
            old(self).wf(),
            answer matches MonitorAnswer::Seen(seen) ==> (seen.content matches Some(content)
                ==> is_hashable(content@.len())),
        ensures
            final(self).wf(),
            final(self).latest() >= old(self).latest(),
            final(self)@ == old(self)@.after(
                answer,
                final(self).latest(),
                final(self)@.affected(),
            ),
            !(old(self)@.stage is Respond) ==> final(self)@.names_its_files(),
            exists|elapsed: u128| #[trigger]
                old(self).measures(elapsed) && final(self).latest() == if elapsed > old(
                    self,
                ).latest() {
                    elapsed
                } else {
                    old(self).latest()
                },
    {
        let now: u128 = self.detector.now();
        proof {
            let elapsed = choose|elapsed: u128| #[trigger]
                old(self).detector.measures(elapsed) && now == if elapsed > old(
                    self,
                ).detector.latest() {
                    elapsed
                } else {
                    old(self).detector.latest()
                };
            assert(old(self).measures(elapsed));
        }
        self.advance_at(answer, now);
    }
}

/// A write to a decoy is a detection on the very first write: no trust in whoever
/// wrote, no scope, no entropy and no baseline makes a difference, nor does it whether
/// the path of the file can be told.
pub proof fn nothing_exempts_from_a_decoy(
    m: MonitorModel,
    pid: i32,
    id: (u64, u64),
    path: Option<FilePath>,
    now: u128,
    affected: Seq<Seq<u8>>,
)
    requires
        m.stage == (StageModel::Identify { pid }),
        m.honeypots.contains_key(id),
    ensures
        m.after(
            MonitorAnswer::Identity { inode: Some(id), path },
            now,
            affected,
        ).stage == (StageModel::Respond {
            pid,
            canary: Some(id),
            response: response_to(
                m.mode,
                pid,
                activity_of(m.detector.recent, pid).starttime,
                honeypot_reason(m.honeypots[id]),
                affected,
            ),
        }),
{
}

/// A write outside every root to a file that is no decoy changes nothing, however
/// the file may look.
pub proof fn what_is_out_of_scope_is_left_alone(
    m: MonitorModel,
    pid: i32,
    inode: Option<(u64, u64)>,
    path: FilePath,
    now: u128,
    affected: Seq<Seq<u8>>,
)
    requires
        m.stage == (StageModel::Identify { pid }),
        !m.is_decoy(inode),
        !within_any(path@, m.roots),
    ensures
        m.after(MonitorAnswer::Identity { inode, path: Some(path) }, now, affected) == m.at(
            StageModel::Idle,
        ),
{
}

/// The daemon never works on an event of its own, nor on one of no process: it can
/// respond to neither.
pub proof fn the_daemon_does_not_suspect_itself(m: MonitorModel, pid: i32, has_file: bool)
    ensures
        m.admission(pid, has_file) is Accepted <==> pid != m.own_pid && pid > 0 && has_file,
{
}

/// The trust in a process shields its write from the burst heuristic: nothing is
/// counted.
pub proof fn a_trusted_write_does_not_count(
    m: MonitorModel,
    pid: i32,
    path: Seq<u8>,
    asked: u128,
    starttime: Option<u64>,
    seen: Sighting,
    now: u128,
    affected: Seq<Seq<u8>>,
)
    requires
        m.stage == (StageModel::Inspect { pid, path, asked, starttime }),
        m.trust.must_look(pid, asked, starttime),
        sighting_is_trusted(m.trust.trusted, seen),
    ensures
        ({
            let after = m.after(MonitorAnswer::Seen(seen), now, affected);
            &&& after.detector == m.detector
            &&& after.stage is Idle
        }),
{
}

/// A response only ever begins because of a write to a decoy, or because of a burst
/// by a process that is not trusted.
pub proof fn no_response_without_a_cause(
    m: MonitorModel,
    answer: MonitorAnswer,
    now: u128,
    affected: Seq<Seq<u8>>,
)
    requires
        !(m.stage is Respond),
        m.after(answer, now, affected).stage is Respond,
    ensures
        match (m.stage, answer) {
            (
                StageModel::Identify { .. },
                MonitorAnswer::Identity { inode, path },
            ) => m.is_decoy(inode),
            (StageModel::FindStart { pid, path }, MonitorAnswer::Started(starttime)) => {
                &&& !m.trust.must_look(pid, now, starttime)
                &&& !m.trust.verdict(pid, now, starttime, false)
                &&& m.detector.verdict(pid, path, now) is Burst
            },
            (
                StageModel::Inspect { pid, path, asked, starttime },
                MonitorAnswer::Seen(seen),
            ) => {
                &&& !m.trust.verdict(
                    pid,
                    asked,
                    starttime,
                    sighting_is_trusted(m.trust.trusted, seen),
                )
                &&& m.detector.verdict(pid, path, now) is Burst
            },
            _ => false,
        },
{
}

/// A burst by a process that is not trusted, and whose executable needs no look, is
/// responded to at once.
pub proof fn an_untrusted_burst_is_responded_to(
    m: MonitorModel,
    pid: i32,
    path: Seq<u8>,
    starttime: Option<u64>,
    count: usize,
    now: u128,
    affected: Seq<Seq<u8>>,
)
    requires
        m.stage == (StageModel::FindStart { pid, path }),
        !m.trust.must_look(pid, now, starttime),
        !m.trust.verdict(pid, now, starttime, false),
        m.detector.verdict(pid, path, now) == (Verdict::Burst { count }),
    ensures
        m.after(MonitorAnswer::Started(starttime), now, affected).stage matches StageModel::Respond {
            pid: suspect,
            canary,
            response,
        } && suspect == pid && canary is None && response.reason == burst_reason(
            count,
            m.window_secs,
            path,
        ) && response.affected == affected,
{
}

/// A burst by a process whose executable was looked at and is not a trusted one is
/// responded to at once.
pub proof fn a_burst_by_an_impostor_is_responded_to(
    m: MonitorModel,
    pid: i32,
    path: Seq<u8>,
    asked: u128,
    starttime: Option<u64>,
    seen: Sighting,
    count: usize,
    now: u128,
    affected: Seq<Seq<u8>>,
)
    requires
        m.stage == (StageModel::Inspect { pid, path, asked, starttime }),
        m.trust.must_look(pid, asked, starttime),
        !sighting_is_trusted(m.trust.trusted, seen),
        m.detector.verdict(pid, path, now) == (Verdict::Burst { count }),
    ensures
        m.after(MonitorAnswer::Seen(seen), now, affected).stage matches StageModel::Respond {
            pid: suspect,
            canary,
            response,
        } && suspect == pid && canary is None && response.reason == burst_reason(
            count,
            m.window_secs,
            path,
        ) && response.affected == affected,
{
}

/// While a process is dealt with, what is known of it is only dropped where the
/// response ends with the process gone: one that could not be killed keeps its count.
pub proof fn a_surviving_process_keeps_its_count(
    m: MonitorModel,
    answer: MonitorAnswer,
    now: u128,
    affected: Seq<Seq<u8>>,
)
    requires
        m.stage is Respond || m.stage is Rearm,
    ensures
        ({
            let after = m.after(answer, now, affected);
            let gone = match (m.stage, answer) {
                (
                    StageModel::Respond { canary, response, .. },
                    MonitorAnswer::Responded(step),
                ) => canary is None && response.after(step).phase == (ResponsePhase::End {
                    neutralized: true,
                }),
                (StageModel::Rearm { neutralized, .. }, MonitorAnswer::Rearmed(_)) => neutralized,
                _ => false,
            };
            let pid = match m.stage {
                StageModel::Respond { pid, .. } => pid,
                StageModel::Rearm { pid, .. } => pid,
                _ => 0,
            };
            after.detector == if gone {
                m.detector.after_forgetting(pid)
            } else {
                m.detector
            }
        }),
{
}

/// After the response to a write to a decoy, the decoy is put back before anything
/// else is done.
pub proof fn a_decoy_is_always_put_back(
    m: MonitorModel,
    pid: i32,
    id: (u64, u64),
    response: ResponseModel,
    step: ResponseAnswer,
    now: u128,
    affected: Seq<Seq<u8>>,
)
    requires
        m.stage == (StageModel::Respond { pid, canary: Some(id), response }),
        response.after(step).phase is End,
    ensures
        m.after(MonitorAnswer::Responded(step), now, affected) == m.at(
            StageModel::Rearm {
                pid,
                dev: id.0,
                ino: id.1,
                neutralized: response.after(step).phase->End_neutralized,
            },
        ),
{
}

/// Whether `answer` is one to the action at hand.
pub open spec fn fits(stage: StageModel, answer: MonitorAnswer) -> bool {
    match stage {
        StageModel::Idle => false,
        StageModel::Identify { .. } => answer is Identity,
        StageModel::Measure { .. } => answer is Size,
        StageModel::Read { .. } => answer is Scores,
        StageModel::FindStart { .. } => answer is Started,
        StageModel::Inspect { .. } => answer is Seen,
        StageModel::Respond { response, .. } => answer is Responded && response.is_valid()
            && !(response.phase is End),
        StageModel::Rearm { .. } => answer is Rearmed,
    }
}

/// How far a stage is from the end of the work on an event.
pub open spec fn distance(stage: StageModel) -> nat {
    match stage {
        StageModel::Idle => 0,
        StageModel::Rearm { .. } => 1,
        StageModel::Respond { .. } => 2,
        StageModel::Inspect { .. } => 3,
        StageModel::FindStart { .. } => 4,
        StageModel::Read { .. } => 5,
        StageModel::Measure { .. } => 6,
        StageModel::Identify { .. } => 7,
    }
}

/// The work on an event comes to an end: each answer leads to a later stage, or takes
/// the response at hand nearer to its own end.
pub proof fn work_on_an_event_ends(
    m: MonitorModel,
    answer: MonitorAnswer,
    now: u128,
    affected: Seq<Seq<u8>>,
)
    requires
        fits(m.stage, answer),
    ensures
        ({
            let after = m.after(answer, now, affected);
            ||| distance(after.stage) < distance(m.stage)
            ||| match (m.stage, after.stage) {
                (
                    StageModel::Respond { response: before, .. },
                    StageModel::Respond { response: later, .. },
                ) => 0 <= later.steps_left() < before.steps_left(),
                _ => false,
            }
        }),
{
    if let (StageModel::Respond { response, .. }, MonitorAnswer::Responded(step)) = (
        m.stage,
        answer,
    ) {
        a_response_moves_on(response, step);
    }
}

/// The parts of a file that was written decide together. Where any part has an entropy
/// above the threshold, the start time of the process is looked up next, and nothing else
/// changes. Where a part could be read and none is above the threshold, a plain write to
/// the path is noted, and the work on the event is over. Where no part could be read, the
/// work is over with nothing noted.
pub proof fn any_part_above_the_threshold_decides(
    m: MonitorModel,
    pid: i32,
    path: Seq<u8>,
    probes: Seq<Probe>,
    scores: Vec<Option<u64>>,
    now: u128,
    affected: Seq<Seq<u8>>,
)
    requires
        m.stage == (StageModel::Read { pid, path, probes }),
    ensures
        ({
            let after = m.after(MonitorAnswer::Scores(scores), now, affected);
            &&& (exists|i: int|
                0 <= i < scores@.len() && (#[trigger] scores@[i]) is Some && scores@[i]->0
                    > m.threshold) ==> after == (MonitorModel {
                stage: StageModel::FindStart { pid, path },
                ..m
            })
            &&& (forall|i: int|
                0 <= i < scores@.len() && (#[trigger] scores@[i]) is Some ==> scores@[i]->0
                    <= m.threshold) && (exists|i: int|
                0 <= i < scores@.len() && (#[trigger] scores@[i]) is Some) ==> after == (
            MonitorModel {
                detector: m.detector.after_plain_write(path),
                stage: StageModel::Idle,
                ..m
            })
            &&& (forall|i: int| 0 <= i < scores@.len() ==> (#[trigger] scores@[i]) is None)
                ==> after == (MonitorModel { stage: StageModel::Idle, ..m })
        }),
{
    if exists|i: int|
        0 <= i < scores@.len() && (#[trigger] scores@[i]) is Some && scores@[i]->0 > m.threshold {
        let i = choose|i: int|
            0 <= i < scores@.len() && (#[trigger] scores@[i]) is Some && scores@[i]->0
                > m.threshold;
        assert(!(scores@[i] is None));
        assert(any_above(scores@, m.threshold));
    }
    if exists|i: int| 0 <= i < scores@.len() && (#[trigger] scores@[i]) is Some {
        let i = choose|i: int| 0 <= i < scores@.len() && (#[trigger] scores@[i]) is Some;
        assert(!(scores@[i] is None));
        assert(!nothing_read(scores@));
    }
}

/// The order in which the parts were read makes no difference, nor do parts that could
/// not be read: two readings that hold the same entropies lead to the same.
pub proof fn the_order_of_the_parts_makes_no_difference(
    m: MonitorModel,
    one: Vec<Option<u64>>,
    other: Vec<Option<u64>>,
    now: u128,
    affected: Seq<Seq<u8>>,
)
    requires
        m.stage is Read,
        forall|e: u64| #[trigger] one@.contains(Some(e)) <==> other@.contains(Some(e)),
    ensures
        m.after(MonitorAnswer::Scores(one), now, affected) == m.after(
            MonitorAnswer::Scores(other),
            now,
            affected,
        ),
{
    same_entropies_same_extremes(one@, other@, m.threshold);
    assert forall|e: u64| #[trigger] other@.contains(Some(e)) implies one@.contains(Some(e)) by {
        assert(one@.contains(Some(e)));
    }
    same_entropies_same_extremes(other@, one@, m.threshold);
}

proof fn same_entropies_same_extremes(
    one: Seq<Option<u64>>,
    other: Seq<Option<u64>>,
    threshold: u64,
)
    requires
        forall|e: u64| #[trigger] one.contains(Some(e)) ==> other.contains(Some(e)),
    ensures
        any_above(one, threshold) ==> any_above(other, threshold),
        nothing_read(other) ==> nothing_read(one),
{
    assert forall|i: int| 0 <= i < one.len() && #[trigger] one[i] is Some implies exists|j: int|
        0 <= j < other.len() && #[trigger] other[j] == one[i] by {
        assert(one.contains(Some(one[i]->0)));
        assert(other.contains(Some(one[i]->0)));
    }
    if any_above(one, threshold) {
        let i = choose|i: int|
            0 <= i < one.len() && #[trigger] one[i] is Some && one[i]->0 > threshold;
        let j = choose|j: int| 0 <= j < other.len() && #[trigger] other[j] == one[i];
        assert(other[j] is Some);
    }
    if nothing_read(other) && !nothing_read(one) {
        let i = choose|i: int| 0 <= i < one.len() && !(#[trigger] one[i] is None);
        let j = choose|j: int| 0 <= j < other.len() && #[trigger] other[j] == one[i];
        assert(other[j] is None);
    }
}

/// A write to a decoy begins a response at once, to the process that wrote, in the mode of
/// the daemon, with the start time that is remembered of it, and for a reason that names
/// the decoy; nothing else changes.
pub proof fn a_write_to_a_decoy_begins_a_response(
    m: MonitorModel,
    pid: i32,
    id: (u64, u64),
    path: Option<FilePath>,
    now: u128,
    affected: Seq<Seq<u8>>,
)
    requires
        m.stage == (StageModel::Identify { pid }),
        m.honeypots.contains_key(id),
    ensures
        ({
            let after = m.after(MonitorAnswer::Identity { inode: Some(id), path }, now, affected);
            &&& after == (MonitorModel { stage: after.stage, ..m })
            &&& after.stage is Respond
            &&& after.stage->Respond_pid == pid
            &&& after.stage->canary == Some(id)
            &&& after.stage->response.pid == pid
            &&& after.stage->response.mode == m.mode
            &&& after.stage->response.affected == affected
            &&& after.stage->response.reason == "honeypot touched: "@ + lossy_text(m.honeypots[id])
            &&& m.detector.recent.contains_key(pid) ==> after.stage->response.expected
                == m.detector.recent[pid].starttime
            &&& !m.detector.recent.contains_key(pid) ==> after.stage->response.expected is None
        }),
{
}

/// A write to a file that is no decoy is looked into exactly where its path is known and
/// begins with all the components of one of the roots; else the work on the event is over.
/// Nothing else changes either way.
pub proof fn a_write_in_scope_is_looked_into(
    m: MonitorModel,
    pid: i32,
    inode: Option<(u64, u64)>,
    path: Option<FilePath>,
    now: u128,
    affected: Seq<Seq<u8>>,
)
    requires
        m.stage == (StageModel::Identify { pid }),
        inode is Some ==> !m.honeypots.contains_key(inode->0),
    ensures
        ({
            let after = m.after(MonitorAnswer::Identity { inode, path }, now, affected);
            &&& path is Some && (exists|i: int|
                0 <= i < m.roots.len() && begins_with(
                    components(path->0@),
                    components(#[trigger] m.roots[i]),
                )) ==> after == (MonitorModel {
                stage: StageModel::Measure { pid, path: path->0@ },
                ..m
            })
            &&& path is None || (forall|i: int|
                0 <= i < m.roots.len() ==> !begins_with(
                    components(path->0@),
                    components(#[trigger] m.roots[i]),
                )) ==> after == (MonitorModel { stage: StageModel::Idle, ..m })
        }),
{
}

/// Once the size of the file is known, its parts are read as the live sampling picks them
/// with the generator at hand, which is stepped five times where the file does not fit the
/// budget, and not at all where it does.
pub proof fn the_parts_to_read_are_picked_anew(
    m: MonitorModel,
    pid: i32,
    path: Seq<u8>,
    size: u64,
    now: u128,
    affected: Seq<Seq<u8>>,
)
    requires
        m.stage == (StageModel::Measure { pid, path }),
    ensures
        ({
            let after = m.after(MonitorAnswer::Size(size), now, affected);
            &&& after == (MonitorModel { stage: after.stage, rng: after.rng, ..m })
            &&& after.stage == (StageModel::Read {
                pid,
                path,
                probes: live_plan(size, m.sample_bytes, m.rng),
            })
            &&& size <= m.sample_bytes ==> after.rng == m.rng
            &&& size > m.sample_bytes ==> after.rng == stepped(m.rng, 5)
        }),
{
}

/// Once the start time of the process is known, a verdict on it that is less than sixty
/// seconds old settles whether it is trusted, and so does a list that trusts nobody. In
/// any other case its executable is looked at first.
pub proof fn trust_is_settled_or_looked_into(
    m: MonitorModel,
    pid: i32,
    path: Seq<u8>,
    starttime: Option<u64>,
    now: u128,
    affected: Seq<Seq<u8>>,
)
    requires
        m.stage == (StageModel::FindStart { pid, path }),
    ensures
        ({
            let after = m.after(MonitorAnswer::Started(starttime), now, affected);
            let known = m.trust.cache.contains_key(pid) && starttime == Some(
                m.trust.cache[pid].start,
            ) && now - m.trust.cache[pid].at < 60_000_000_000;
            &&& m.trust.trusted.len() > 0 && !known ==> after == (MonitorModel {
                stage: StageModel::Inspect { pid, path, asked: now, starttime },
                ..m
            })
            &&& m.trust.trusted.len() > 0 && known && m.trust.cache[pid].trusted ==> after == (
            MonitorModel { stage: StageModel::Idle, ..m })
            &&& m.trust.trusted.len() == 0 || known && !m.trust.cache[pid].trusted
                ==> has_counted(m, after, pid, path, starttime, now, affected) && after.trust
                == m.trust
        }),
{
}

/// Whether `after` is `m` with the write counted: it is remembered with the start time of
/// the process, and where it is a burst a response to the process has begun; else the work
/// on the event is over.
pub open spec fn has_counted(
    m: MonitorModel,
    after: MonitorModel,
    pid: i32,
    path: Seq<u8>,
    starttime: Option<u64>,
    now: u128,
    affected: Seq<Seq<u8>>,
) -> bool {
    let verdict = m.detector.verdict(pid, path, now);
    &&& after.detector == m.detector.after_rewrite(pid, path, now).after_start_time(pid, starttime)
    &&& after == (MonitorModel {
        stage: after.stage,
        detector: after.detector,
        trust: after.trust,
        ..m
    })
    &&& verdict is Clean ==> after.stage is Idle
    &&& verdict is Burst ==> {
        &&& after.stage is Respond
        &&& after.stage->Respond_pid == pid
        &&& after.stage->canary is None
        &&& after.stage->response.pid == pid
        &&& after.stage->response.mode == m.mode
        &&& after.stage->response.affected == affected
        &&& after.stage->response.reason == decimal(verdict->count as nat)
            + " high-entropy file rewrites within "@ + decimal(m.window_secs as nat)
            + "s (last: "@ + lossy_text(path) + ")"@
        &&& after.detector.recent.contains_key(pid) ==> after.stage->response.expected
            == after.detector.recent[pid].starttime
        &&& !after.detector.recent.contains_key(pid) ==> after.stage->response.expected is None
    }
}

/// Once the executable was looked at, a trusted one ends the work on the event with
/// nothing counted, and any other has its write counted. The verdict is kept either way.
pub proof fn a_look_settles_trust(
    m: MonitorModel,
    pid: i32,
    path: Seq<u8>,
    asked: u128,
    starttime: Option<u64>,
    seen: Sighting,
    now: u128,
    affected: Seq<Seq<u8>>,
)
    requires
        m.stage == (StageModel::Inspect { pid, path, asked, starttime }),
        m.trust.must_look(pid, asked, starttime),
    ensures
        ({
            let after = m.after(MonitorAnswer::Seen(seen), now, affected);
            let looked = sighting_is_trusted(m.trust.trusted, seen);
            &&& after.trust == m.trust.after(pid, asked, starttime, looked)
            &&& looked ==> after == (MonitorModel {
                stage: StageModel::Idle,
                trust: after.trust,
                ..m
            })
            &&& !looked ==> has_counted(m, after, pid, path, starttime, now, affected)
        }),
{
}

/// A response is carried on until it ends. The response to a burst then ends the work on
/// the event, and that to a write to a decoy leads to putting the decoy back, which does.
/// The process is forgotten at that point exactly where it counts as neutralized.
pub proof fn a_response_is_carried_through(
    m: MonitorModel,
    pid: i32,
    canary: Option<(u64, u64)>,
    response: ResponseModel,
    step: ResponseAnswer,
    now: u128,
    affected: Seq<Seq<u8>>,
)
    requires
        m.stage == (StageModel::Respond { pid, canary, response }),
    ensures
        ({
            let after = m.after(MonitorAnswer::Responded(step), now, affected);
            let later = response.after(step);
            &&& !(later.phase is End) ==> after == (MonitorModel {
                stage: StageModel::Respond { pid, canary, response: later },
                ..m
            })
            &&& later.phase is End && canary is Some ==> after == (MonitorModel {
                stage: StageModel::Rearm {
                    pid,
                    dev: (canary->0).0,
                    ino: (canary->0).1,
                    neutralized: later.phase->End_neutralized,
                },
                ..m
            })
            &&& later.phase is End && canary is None && later.phase->End_neutralized ==> after == (
            MonitorModel {
                stage: StageModel::Idle,
                detector: m.detector.after_forgetting(pid),
                ..m
            })
            &&& later.phase is End && canary is None && !later.phase->End_neutralized ==> after
                == (MonitorModel { stage: StageModel::Idle, ..m })
        }),
{
}

/// Putting a decoy back ends the work on the event: the decoys are those known then, and
/// the process is forgotten exactly where it counts as neutralized.
pub proof fn putting_a_decoy_back_ends_the_work(
    m: MonitorModel,
    pid: i32,
    dev: u64,
    ino: u64,
    neutralized: bool,
    outcome: Restored,
    now: u128,
    affected: Seq<Seq<u8>>,
)
    requires
        m.stage == (StageModel::Rearm { pid, dev, ino, neutralized }),
    ensures
        ({
            let after = m.after(MonitorAnswer::Rearmed(outcome), now, affected);
            &&& after.honeypots == rearmed(m.honeypots, dev, ino, outcome)
            &&& after == (MonitorModel {
                stage: StageModel::Idle,
                honeypots: after.honeypots,
                detector: after.detector,
                ..m
            })
            &&& neutralized ==> after.detector == m.detector.after_forgetting(pid)
            &&& !neutralized ==> after.detector == m.detector
        }),
{
}

/// An answer that is not one to the action at hand changes nothing.
pub proof fn an_answer_that_does_not_fit_changes_nothing(
    m: MonitorModel,
    answer: MonitorAnswer,
    now: u128,
    affected: Seq<Seq<u8>>,
)
    requires
        m.stage is Identify ==> !(answer is Identity),
        m.stage is Measure ==> !(answer is Size),
        m.stage is Read ==> !(answer is Scores),
        m.stage is FindStart ==> !(answer is Started),
        m.stage is Inspect ==> !(answer is Seen),
        m.stage is Respond ==> !(answer is Responded),
        m.stage is Rearm ==> !(answer is Rearmed),
    ensures
        m.after(answer, now, affected) == m,
{
}

/// Where a process writes to a file in scope that is no decoy, nobody is trusted, and some
/// part of what was written, whichever, has an entropy above the threshold, the write is
/// counted, and a burst is responded to.
pub proof fn an_encrypted_write_in_scope_is_counted(
    m: MonitorModel,
    pid: i32,
    inode: Option<(u64, u64)>,
    path: FilePath,
    root: int,
    size: u64,
    scores: Vec<Option<u64>>,
    part: int,
    starttime: Option<u64>,
    now: u128,
    affected: Seq<Seq<u8>>,
)
    requires
        m.stage == (StageModel::Identify { pid }),
        inode is Some ==> !m.honeypots.contains_key(inode->0),
        0 <= root < m.roots.len(),
        begins_with(components(path@), components(m.roots[root])),
        0 <= part < scores@.len(),
        scores@[part] is Some,
        scores@[part]->0 > m.threshold,
        m.trust.trusted.len() == 0,
    ensures
        ({
            let identified = m.after(
                MonitorAnswer::Identity { inode, path: Some(path) },
                now,
                affected,
            );
            let measured = identified.after(MonitorAnswer::Size(size), now, affected);
            let read = measured.after(MonitorAnswer::Scores(scores), now, affected);
            let after = read.after(MonitorAnswer::Started(starttime), now, affected);
            &&& after.detector == m.detector.after_rewrite(pid, path@, now).after_start_time(
                pid,
                starttime,
            )
            &&& after.stage is Respond <==> m.detector.verdict(pid, path@, now) is Burst
            &&& after.stage is Respond || after.stage is Idle
        }),
{
    assert(within_any(path@, m.roots));
    let identified = m.after(MonitorAnswer::Identity { inode, path: Some(path) }, now, affected);
    let measured = identified.after(MonitorAnswer::Size(size), now, affected);
    any_part_above_the_threshold_decides(
        measured,
        pid,
        path@,
        measured.stage->Read_probes,
        scores,
        now,
        affected,
    );
    assert(scores@[part] is Some);
}

/// What the daemon wrote itself, and what nobody did, is of no interest; of the rest, an
/// event without a file tells that others were lost.
pub proof fn events_are_sorted(m: MonitorModel, pid: i32, has_file: bool)
    ensures
        m.admission(pid, has_file) is Ignored <==> pid == m.own_pid || pid <= 0,
        m.admission(pid, has_file) is Overflow <==> pid != m.own_pid && pid > 0 && !has_file,
        m.admission(pid, has_file) is Accepted <==> pid != m.own_pid && pid > 0 && has_file,
{
}

/// The pause after a failure grows by a fifth of a second with each failure in a row, up
/// to two seconds with the tenth, and the twentieth is the last.
pub proof fn pauses_grow_up_to_two_seconds(failures: nat)
    ensures
        1 <= failures <= 10 ==> backoff_after(failures) == (Backoff::Retry {
            millis: (200 * failures) as u64,
        }),
        10 <= failures < 20 ==> backoff_after(failures) == backoff_after(10),
        20 <= failures <= u32::MAX ==> backoff_after(failures) == (Backoff::GiveUp {
            failures: failures as u32,
        }),
{
}

/// What people are told when events can no longer be read gives the number of failures.
pub proof fn giving_up_gives_the_number_of_failures(failures: u32)
    ensures
        gave_up(failures) == "fanotify read_events failed "@ + decimal(failures as nat)
            + " times in a row, giving up"@,
{
}

/// A directory is known to hold ordinary content once the decoys are told of exactly where
/// it was known before or holds a decoy; nothing else changes.
pub proof fn decoys_add_their_directories_alone(
    known: DetectorModel,
    decoys: Map<(u64, u64), Seq<u8>>,
    dir: Seq<Seq<u8>>,
)
    ensures
        with_decoy_directories(known, decoys).plain_dirs.contains(dir)
            <==> known.plain_dirs.contains(dir) || exists|id: (u64, u64)| #[trigger]
            decoys.contains_key(id) && components(decoys[id]).len() > 0 && components(
                decoys[id],
            ).last() != seq![47u8] && components(decoys[id]).drop_last() == dir,
        with_decoy_directories(known, decoys) == (DetectorModel {
            plain_dirs: with_decoy_directories(known, decoys).plain_dirs,
            ..known
        }),
{
    if decoy_directories(decoys).contains(dir) {
        let id = choose|id: (u64, u64)| #[trigger]
            decoys.contains_key(id) && parent_parts(components(decoys[id])) == Some(dir);
        assert(components(decoys[id]).drop_last() == dir);
    }
    if exists|id: (u64, u64)| #[trigger]
        decoys.contains_key(id) && components(decoys[id]).len() > 0 && components(decoys[id]).last()
            != seq![47u8] && components(decoys[id]).drop_last() == dir {
        let id = choose|id: (u64, u64)| #[trigger]
            decoys.contains_key(id) && components(decoys[id]).len() > 0 && components(
                decoys[id],
            ).last() != seq![47u8] && components(decoys[id]).drop_last() == dir;
        assert(parent_parts(components(decoys[id])) == Some(dir));
    }
}

/// A response that has just begun is on exactly the files that are remembered of the
/// process, and on none where nothing is.
pub proof fn a_response_is_on_the_files_of_its_process(m: MonitorModel, path: Seq<u8>)
    requires
        m.stage is Respond,
        m.names_its_files(),
    ensures
        ({
            let pid = m.stage->Respond_pid;
            let files = m.stage->response.affected;
            &&& m.affected() == files
            &&& files.contains(path) <==> m.detector.recent.contains_key(pid) && exists|
                k: Seq<Seq<u8>>,
            | #[trigger]
                m.detector.recent[pid].files.contains_key(k)
                    && m.detector.recent[pid].files[k].path == path
            &&& m.detector.recent.contains_key(pid) ==> files.len()
                == m.detector.recent[pid].files.dom().len()
            &&& !m.detector.recent.contains_key(pid) ==> files.len() == 0
        }),
{
    let pid = m.stage->Respond_pid;
    a_list_of_files_is_complete(
        m.stage->response.affected,
        activity_of(m.detector.recent, pid).files,
        path,
    );
}

/// Each stage asks for one thing, of the file or process at hand, and waits for an event
/// where there is nothing at hand.
pub proof fn each_stage_asks_for_one_thing(m: MonitorModel, action: MonitorAction)
    requires
        m.is_next(action),
    ensures
        m.stage is Idle <==> action is Wait,
        m.stage is Identify <==> action is Identify,
        m.stage is Measure <==> action is Measure,
        m.stage is Read <==> action is Read,
        m.stage is FindStart <==> action is FindStart,
        m.stage is Inspect <==> action is Inspect,
        m.stage is Respond <==> action is Respond,
        m.stage is Rearm <==> action is Rearm,
        m.stage is Read ==> action->probes@ == m.stage->Read_probes,
        m.stage is FindStart ==> action->FindStart_pid == m.stage->FindStart_pid,
        m.stage is Inspect ==> action->Inspect_pid == m.stage->Inspect_pid,
        m.stage is Respond ==> m.stage->response.is_next(action->Respond_0),
        m.stage is Rearm ==> action->Rearm_path@ == m.honeypots[(m.stage->dev, m.stage->ino)],
{
}

/// A daemon begins with what the operator has configured, waits for an event, and knows the
/// directories of the decoys besides what the detector knows.
pub proof fn a_daemon_begins_as_configured(
    cfg: &Config,
    own_pid: i32,
    roots: &Vec<FilePath>,
    honeypots: Honeypots,
    detector: Detector,
    trust: TrustStore,
    rng: Rng,
    monitor: Monitor,
)
    requires
        call_ensures(
            Monitor::new,
            (cfg, own_pid, roots, honeypots, detector, trust, rng),
            monitor,
        ),
    ensures
        monitor@.own_pid == own_pid,
        monitor@.mode == cfg.mode,
        monitor@.threshold == cfg.entropy_threshold,
        monitor@.window_secs == cfg.burst_window_secs,
        monitor@.sample_bytes == cfg.sample_bytes,
        monitor@.roots == views(roots@),
        monitor@.honeypots == honeypots@,
        monitor@.trust == trust@,
        monitor@.rng == rng@,
        monitor@.stage is Idle,
        monitor@.detector.recent == detector@.recent,
        detector@.plain_dirs.subset_of(monitor@.detector.plain_dirs),
        monitor@.detector.burst_file_count == detector@.burst_file_count,
        monitor@.detector.window_secs == detector@.window_secs,
        monitor@.detector.require_baseline == detector@.require_baseline,
{
}

/// An event is taken up exactly where another process than the daemon wrote to a file, and
/// nothing changes where it is not.
pub proof fn an_event_of_another_process_is_taken_up(
    monitor: &mut Monitor,
    pid: i32,
    has_file: bool,
    admission: Admission,
)
    requires
        old(monitor)@.stage is Idle,
        call_ensures(Monitor::begin, (monitor, pid, has_file), admission),
    ensures
        admission is Ignored <==> pid == old(monitor)@.own_pid || pid <= 0,
        admission is Overflow <==> pid != old(monitor)@.own_pid && pid > 0 && !has_file,
        admission is Accepted ==> final(monitor)@ == (MonitorModel {
            stage: StageModel::Identify { pid },
            ..old(monitor)@
        }),
        !(admission is Accepted) ==> final(monitor)@ == old(monitor)@,
{
}

/// Recording the entropies of what was written leads to the process where any part is above
/// the threshold, notes a plain write where parts could be read and none is, and notes
/// nothing where none could be read.
pub proof fn what_was_written_is_judged_by_its_parts(
    monitor: &mut Monitor,
    pid: i32,
    path: Seq<u8>,
    probes: Seq<Probe>,
    scores: Vec<Option<u64>>,
    now: u128,
)
    requires
        old(monitor)@.stage == (StageModel::Read { pid, path, probes }),
        call_ensures(Monitor::advance_at, (monitor, MonitorAnswer::Scores(scores), now), ()),
    ensures
        ({
            let before = old(monitor)@;
            let after = final(monitor)@;
            let above = exists|i: int|
                0 <= i < scores@.len() && (#[trigger] scores@[i]) is Some && scores@[i]->0
                    > before.threshold;
            let read = exists|i: int| 0 <= i < scores@.len() && (#[trigger] scores@[i]) is Some;
            &&& above ==> after == (MonitorModel {
                stage: StageModel::FindStart { pid, path },
                ..before
            })
            &&& read && !above ==> after == (MonitorModel {
                detector: before.detector.after_plain_write(path),
                stage: StageModel::Idle,
                ..before
            })
            &&& !read ==> after == (MonitorModel { stage: StageModel::Idle, ..before })
        }),
{
    any_part_above_the_threshold_decides(
        old(monitor)@,
        pid,
        path,
        probes,
        scores,
        now,
        final(monitor)@.affected(),
    );
}

/// Each failure to read events in a row counts one more and is answered by its number, and
/// a success begins the count anew.
pub proof fn failures_in_a_row_are_counted(
    none: ReadFailures,
    reset: &mut ReadFailures,
    failing: &mut ReadFailures,
    backoff: Backoff,
)
    requires
        call_ensures(ReadFailures::none, (), none),
        call_ensures(ReadFailures::succeeded, (reset,), ()),
        old(failing)@ < 20,
        call_ensures(ReadFailures::failed, (failing,), backoff),
    ensures
        none@ == 0,
        final(reset)@ == 0,
        final(failing)@ == old(failing)@ + 1,
        old(failing)@ < 9 ==> backoff == (Backoff::Retry {
            millis: (200 * final(failing)@) as u64,
        }),
        9 <= old(failing)@ < 19 ==> backoff == (Backoff::Retry { millis: 2000 }),
        old(failing)@ == 19 ==> backoff == (Backoff::GiveUp { failures: 20 }),
{
}

/// A decoy is blind exactly where it lies under none of the roots that are watched.
pub proof fn a_decoy_outside_every_root_is_blind(monitor: &Monitor, blind: bool)
    requires
        call_ensures(Monitor::has_blind_honeypot, (monitor,), blind),
    ensures
        blind <==> exists|id: (u64, u64)| #[trigger]
            monitor@.honeypots.contains_key(id) && !within_any(
                monitor@.honeypots[id],
                monitor@.roots,
            ),
{
}

/// What the daemon is told as it happens is recorded at the time that the clock then shows,
/// which is no earlier than before. An answer that does not fit changes nothing.
pub proof fn answers_are_recorded_at_their_time(monitor: &mut Monitor, starttime: Option<u64>)
    requires
        call_ensures(Monitor::advance, (monitor, MonitorAnswer::Started(starttime)), ()),
    ensures
        final(monitor).latest() >= old(monitor).latest(),
        !(old(monitor)@.stage is FindStart) ==> final(monitor)@ == old(monitor)@,
        old(monitor)@.stage is FindStart && old(monitor)@.trust.trusted.len() == 0 ==> final(
            monitor
        )@.detector == old(monitor)@.detector.after_rewrite(
            old(monitor)@.stage->FindStart_pid,
            old(monitor)@.stage->FindStart_path,
            final(monitor).latest(),
        ).after_start_time(old(monitor)@.stage->FindStart_pid, starttime),
{
}

} // verus!
