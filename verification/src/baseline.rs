//! The scan of existing files at startup, which finds the directories that already
//! hold ordinary content.

use vstd::prelude::*;

use crate::detector::{Detector, DetectorModel};
use crate::path::{components, is_ancestor, parent_parts, views, FilePath};
use crate::sampling::{
    any_below, baseline_plan, baseline_plan_keeps_to_its_budget, baseline_probes, bytes_read, copied,
    min_sampled_entropy, one_plain_part_decides, Probe,
};

verus! {

/// How many files a scan looks at.
pub const MAX_FILES_SCANNED: usize = 50_000;

/// What an entry of a directory is; links are not followed.
#[derive(Clone, Copy, PartialEq, Eq, Structural, Debug)]
pub enum EntryKind {
    Directory,
    File,
    /// Something else, such as a link, or nothing that could be looked at.
    Other,
}

/// What has to be done next to scan a directory.
pub enum ScanAction {
    /// Begin to list this directory.
    Open { dir: FilePath },
    /// Get the next entry of the directory that was opened last.
    Next,
    /// Open this file and read its size.
    Measure { path: FilePath },
    /// Measure the entropy of these parts of the file.
    Sample { path: FilePath, probes: Vec<Probe> },
    /// It is over; this is whether there was more than a scan looks at.
    End { limit_reached: bool },
}

/// What an action has come to.
pub enum ScanAnswer {
    /// The directory can be listed.
    Opened,
    /// The directory cannot be listed, or the file cannot be opened.
    Refused,
    /// The next entry.
    Entry { path: FilePath, kind: EntryKind },
    /// There is no further entry.
    Exhausted,
    /// The size of the file.
    Size(u64),
    /// The entropies of the parts of the file; none of a part that could not be read.
    Scores(Vec<Option<u64>>),
}

/// How far a scan has come.
#[derive(Clone, Copy, PartialEq, Eq, Structural, Debug)]
pub enum ScanPhase {
    Open,
    Next,
    Measure,
    Sample,
    End { limit_reached: bool },
}

/// The scan of a directory and what is below it.
pub struct Scan {
    stack: Vec<FilePath>,
    file: FilePath,
    probes: Vec<Probe>,
    scanned: usize,
    sample_bytes: usize,
    threshold: u64,
    phase: ScanPhase,
}

/// A scan, so far.
#[verifier::ext_equal]
pub struct ScanModel {
    /// The directories that are still to be listed, the next one last.
    pub stack: Seq<Seq<u8>>,
    /// The file that was found last.
    pub file: Seq<u8>,
    /// The parts of a file that were to be read last.
    pub probes: Seq<Probe>,
    /// How many files were found.
    pub scanned: nat,
    /// How many bytes of a file are read at most.
    pub sample_bytes: usize,
    pub threshold: u64,
    pub phase: ScanPhase,
}

impl View for Scan {
    type V = ScanModel;

    closed spec fn view(&self) -> ScanModel {
        ScanModel {
            stack: views(self.stack@),
            file: self.file@,
            probes: self.probes@,
            scanned: self.scanned as nat,
            sample_bytes: self.sample_bytes,
            threshold: self.threshold,
            phase: self.phase,
        }
    }
}

/// A scan of `root` that has not begun.
pub open spec fn scan_of(root: Seq<u8>, sample_bytes: usize, threshold: u64) -> ScanModel {
    ScanModel {
        stack: seq![root],
        file: Seq::empty(),
        probes: Seq::empty(),
        scanned: 0,
        sample_bytes,
        threshold,
        phase: ScanPhase::Open,
    }
}

impl ScanModel {
    pub open spec fn is_valid(self) -> bool {
        &&& self.scanned <= MAX_FILES_SCANNED
        &&& self.phase is Open ==> self.stack.len() > 0
    }

    /// The scan goes on with the next directory, or is over.
    pub open spec fn in_next_directory(self) -> ScanModel {
        ScanModel {
            phase: if self.stack.len() > 0 {
                ScanPhase::Open
            } else {
                ScanPhase::End { limit_reached: false }
            },
            ..self
        }
    }

    /// The scan once it has met an entry of a directory. A directory is kept for
    /// later, a file is sampled, anything else is passed over; and once the scan has
    /// found as many files as it looks at, it stops.
    pub open spec fn after_entry(self, path: Seq<u8>, kind: EntryKind) -> ScanModel {
        if self.scanned >= MAX_FILES_SCANNED {
            ScanModel { phase: ScanPhase::End { limit_reached: true }, ..self }
        } else {
            match kind {
                EntryKind::Directory => ScanModel { stack: self.stack.push(path), ..self },
                EntryKind::File => ScanModel {
                    file: path,
                    scanned: self.scanned + 1,
                    phase: ScanPhase::Measure,
                    ..self
                },
                EntryKind::Other => self,
            }
        }
    }

    /// The scan once the action at hand has come to `answer`.
    pub open spec fn after(self, answer: ScanAnswer) -> ScanModel {
        match self.phase {
            ScanPhase::Open => {
                let rest = ScanModel { stack: self.stack.drop_last(), ..self };
                if answer is Opened {
                    ScanModel { phase: ScanPhase::Next, ..rest }
                } else {
                    rest.in_next_directory()
                }
            },
            ScanPhase::Next => match answer {
                ScanAnswer::Entry { path, kind } => self.after_entry(path@, kind),
                _ => self.in_next_directory(),
            },
            ScanPhase::Measure => match answer {
                ScanAnswer::Size(size) => ScanModel {
                    probes: baseline_plan(size, self.sample_bytes),
                    phase: ScanPhase::Sample,
                    ..self
                },
                _ => ScanModel { phase: ScanPhase::Next, ..self },
            },
            ScanPhase::Sample => ScanModel { phase: ScanPhase::Next, ..self },
            ScanPhase::End { .. } => self,
        }
    }

    /// Whether `answer` shows that the file at hand has ordinary content.
    pub open spec fn finds_plain_content(self, answer: ScanAnswer) -> bool {
        &&& self.phase is Sample
        &&& answer matches ScanAnswer::Scores(scores) && any_below(scores@, self.threshold)
    }

    /// What the detector knows once the action at hand has come to `answer`.
    pub open spec fn seeded(self, known: DetectorModel, answer: ScanAnswer) -> DetectorModel {
        if self.finds_plain_content(answer) {
            known.after_plain_write(self.file)
        } else {
            known
        }
    }

    /// Whether `action` is what has to be done next.
    pub open spec fn is_next(self, action: ScanAction) -> bool {
        match self.phase {
            ScanPhase::Open => action matches ScanAction::Open { dir } && dir@ == self.stack.last(),
            ScanPhase::Next => action is Next,
            ScanPhase::Measure => action matches ScanAction::Measure { path } && path@ == self.file,
            ScanPhase::Sample => action matches ScanAction::Sample { path, probes } && path@
                == self.file && probes@ == self.probes,
            ScanPhase::End { limit_reached } => action == (ScanAction::End { limit_reached }),
        }
    }
}

/// Begins the scan of `root`. Of each file up to `sample_bytes` bytes are read. A file
/// counts as ordinary content where a part of it has an entropy below
/// `entropy_threshold`.
pub fn seed(root: &FilePath, sample_bytes: usize, entropy_threshold: u64) -> (scan: Scan)
    ensures
        scan.wf(),
        scan@ == scan_of(root@, sample_bytes, entropy_threshold),
{
    let mut stack: Vec<FilePath> = Vec::new();
    stack.push(root.duplicate());
    let file = FilePath::new(Vec::new());
    let scan = Scan {
        stack,
        file,
        probes: Vec::new(),
        scanned: 0,
        sample_bytes,
        threshold: entropy_threshold,
        phase: ScanPhase::Open,
    };
    assert(scan@ =~= scan_of(root@, sample_bytes, entropy_threshold));
    scan
}

impl Scan {
    pub closed spec fn wf(self) -> bool {
        self@.is_valid()
    }

    /// What has to be done next.
    pub fn action(&self) -> (action: ScanAction)
        requires
            self.wf(),
        ensures
            self@.is_next(action),
    {
        match self.phase {
            ScanPhase::Open => ScanAction::Open {
                dir: self.stack[self.stack.len() - 1].duplicate(),
            },
            ScanPhase::Next => ScanAction::Next,
            ScanPhase::Measure => ScanAction::Measure { path: self.file.duplicate() },
            ScanPhase::Sample => ScanAction::Sample {
                path: self.file.duplicate(),
                probes: copied(&self.probes),
            },
            ScanPhase::End { limit_reached } => ScanAction::End { limit_reached },
        }
    }

    fn go_to_next_directory(&mut self)
        ensures
            final(self)@ == old(self)@.in_next_directory(),
    {
        self.phase = if self.stack.len() > 0 {
            ScanPhase::Open
        } else {
            ScanPhase::End { limit_reached: false }
        };
    }

    fn meet(&mut self, path: FilePath, kind: EntryKind)
        requires
            old(self).wf(),
            old(self)@.phase is Next,
        ensures
            final(self).wf(),
            final(self)@ == old(self)@.after_entry(path@, kind),
    {
        if self.scanned >= MAX_FILES_SCANNED {
            self.phase = ScanPhase::End { limit_reached: true };
            return;
        }
        match kind {
            EntryKind::Directory => {
                self.stack.push(path);
            },
            EntryKind::File => {
                self.scanned = self.scanned + 1;
                self.file = path;
                self.phase = ScanPhase::Measure;
            },
            EntryKind::Other => {},
        }
        assert(self@ =~= old(self)@.after_entry(path@, kind));
    }

    /// Records what the action at hand has come to, and teaches the detector what it
    /// shows.
    pub fn advance(&mut self, detector: &mut Detector, answer: ScanAnswer)
        requires
            old(self).wf(),
            old(detector).wf(),
        ensures
            final(self).wf(),
            final(detector).wf(),
            final(self)@ == old(self)@.after(answer),
            final(detector)@ == old(self)@.seeded(old(detector)@, answer),
            final(detector).latest() == old(detector).latest(),
    {
        match self.phase {
            ScanPhase::Open => {
                let opened = match &answer {
                    ScanAnswer::Opened => true,
                    _ => false,
                };
                self.stack.pop();
                assert(views(self.stack@) =~= old(self)@.stack.drop_last());
                if opened {
                    self.phase = ScanPhase::Next;
                } else {
                    self.go_to_next_directory();
                }
            },
            ScanPhase::Next => match answer {
                ScanAnswer::Entry { path, kind } => {
                    self.meet(path, kind);
                },
                _ => {
                    self.go_to_next_directory();
                },
            },
            ScanPhase::Measure => match answer {
                ScanAnswer::Size(size) => {
                    self.probes = baseline_probes(size, self.sample_bytes);
                    self.phase = ScanPhase::Sample;
                },
                _ => {
                    self.phase = ScanPhase::Next;
                },
            },
            ScanPhase::Sample => {
                if let ScanAnswer::Scores(scores) = &answer {
                    let best = min_sampled_entropy(scores);
                    proof {
                        one_plain_part_decides(best, scores@, self.threshold);
                    }
                    if let Some(low) = best {
                        if low < self.threshold {
                            detector.note_plaintext_activity(&self.file);
                        }
                    }
                }
                self.phase = ScanPhase::Next;
            },
            ScanPhase::End { limit_reached } => {},
        }
    }
}

/// A scan and what the detector knows, after a series of answers.
pub open spec fn scan_run(
    start: ScanModel,
    known: DetectorModel,
    answers: Seq<ScanAnswer>,
) -> (ScanModel, DetectorModel)
    decreases answers.len(),
{
    if answers.len() == 0 {
        (start, known)
    } else {
        let (scan, before) = scan_run(start, known, answers.drop_last());
        (scan.after(answers.last()), scan.seeded(before, answers.last()))
    }
}

/// Whether `answer` tells of an entry at `path` of that kind.
pub open spec fn tells_of(answer: ScanAnswer, path: Seq<u8>, kind: EntryKind) -> bool {
    answer matches ScanAnswer::Entry { path: found, kind: found_kind } && found@ == path
        && found_kind == kind
}

/// Whether one of `answers` told of an entry at `path` of that kind.
pub open spec fn was_met(answers: Seq<ScanAnswer>, path: Seq<u8>, kind: EntryKind) -> bool {
    exists|i: int| 0 <= i < answers.len() && tells_of(#[trigger] answers[i], path, kind)
}

/// However many files there are, a scan looks at no more than its limit, and what it
/// knows of itself stays valid.
pub proof fn a_scan_keeps_to_its_limit(
    root: Seq<u8>,
    sample_bytes: usize,
    threshold: u64,
    known: DetectorModel,
    answers: Seq<ScanAnswer>,
)
    ensures
        scan_run(scan_of(root, sample_bytes, threshold), known, answers).0.is_valid(),
        scan_run(scan_of(root, sample_bytes, threshold), known, answers).0.scanned <= MAX_FILES_SCANNED,
    decreases answers.len(),
{
    if answers.len() > 0 {
        a_scan_keeps_to_its_limit(root, sample_bytes, threshold, known, answers.drop_last());
    }
}

proof fn was_met_before(answers: Seq<ScanAnswer>, path: Seq<u8>, kind: EntryKind)
    requires
        answers.len() > 0,
        was_met(answers.drop_last(), path, kind),
    ensures
        was_met(answers, path, kind),
{
    let before = answers.drop_last();
    let i = choose|i: int| 0 <= i < before.len() && tells_of(#[trigger] before[i], path, kind);
    assert(answers[i] == before[i]);
}

/// A scan lists its root and directories that it met, and samples files that it met;
/// it enters nothing through a link.
pub proof fn a_scan_follows_no_links(
    root: Seq<u8>,
    sample_bytes: usize,
    threshold: u64,
    known: DetectorModel,
    answers: Seq<ScanAnswer>,
)
    ensures
        ({
            let scan = scan_run(scan_of(root, sample_bytes, threshold), known, answers).0;
            &&& forall|i: int|
                0 <= i < scan.stack.len() ==> (#[trigger] scan.stack[i]) == root || was_met(
                    answers,
                    scan.stack[i],
                    EntryKind::Directory,
                )
            &&& scan.phase is Measure || scan.phase is Sample ==> was_met(
                answers,
                scan.file,
                EntryKind::File,
            )
        }),
    decreases answers.len(),
{
    if answers.len() > 0 {
        let before = answers.drop_last();
        let answer = answers.last();
        a_scan_follows_no_links(root, sample_bytes, threshold, known, before);
        let then = scan_run(scan_of(root, sample_bytes, threshold), known, before).0;
        let scan = scan_run(scan_of(root, sample_bytes, threshold), known, answers).0;
        assert(answers[answers.len() - 1] == answer);
        if then.phase is Measure {
            was_met_before(answers, then.file, EntryKind::File);
        }
        assert forall|i: int| 0 <= i < scan.stack.len() implies (#[trigger] scan.stack[i]) == root
            || was_met(answers, scan.stack[i], EntryKind::Directory) by {
            if i < then.stack.len() {
                assert(scan.stack[i] == then.stack[i]);
                if then.stack[i] != root {
                    was_met_before(answers, then.stack[i], EntryKind::Directory);
                }
            }
        }
    }
}

/// Of no file does a scan read more than its share of bytes.
pub proof fn a_scan_reads_no_more_than_its_budget(
    root: Seq<u8>,
    sample_bytes: usize,
    threshold: u64,
    known: DetectorModel,
    answers: Seq<ScanAnswer>,
)
    ensures
        bytes_read(
            scan_run(scan_of(root, sample_bytes, threshold), known, answers).0.probes,
        ) <= sample_bytes,
        scan_run(scan_of(root, sample_bytes, threshold), known, answers).0.sample_bytes
            == sample_bytes,
    decreases answers.len(),
{
    if answers.len() > 0 {
        a_scan_reads_no_more_than_its_budget(
            root,
            sample_bytes,
            threshold,
            known,
            answers.drop_last(),
        );
        if let ScanAnswer::Size(size) = answers.last() {
            baseline_plan_keeps_to_its_budget(size, sample_bytes);
        }
    }
}

/// A scan only ever adds to the directories that are known to hold ordinary content,
/// and leaves everything else that the detector knows as it is.
pub proof fn a_scan_only_adds_to_the_baseline(
    start: ScanModel,
    known: DetectorModel,
    answers: Seq<ScanAnswer>,
)
    ensures
        ({
            let after = scan_run(start, known, answers).1;
            &&& known.plain_dirs.subset_of(after.plain_dirs)
            &&& after == (DetectorModel { plain_dirs: after.plain_dirs, ..known })
        }),
    decreases answers.len(),
{
    if answers.len() > 0 {
        a_scan_only_adds_to_the_baseline(start, known, answers.drop_last());
    }
}

/// A file with a part that looks like ordinary content gives its directory, and all
/// that is below it, a baseline.
pub proof fn a_file_with_a_plain_part_is_evidence(
    scan: ScanModel,
    known: DetectorModel,
    scores: Vec<Option<u64>>,
    path: Seq<u8>,
)
    requires
        scan.phase is Sample,
        any_below(scores@, scan.threshold),
        parent_parts(components(scan.file)) matches Some(dir) && is_ancestor(
            dir,
            components(path),
        ),
    ensures
        scan.seeded(known, ScanAnswer::Scores(scores)).has_baseline(path),
{
    let dir = parent_parts(components(scan.file))->0;
    assert(scan.seeded(known, ScanAnswer::Scores(scores)).plain_dirs.contains(dir));
}

/// What a scan has once found to be ordinary content counts from then on: the directory
/// of a file with a plain part is known to hold such content when the scan is over.
pub proof fn what_a_scan_finds_plain_is_known_in_the_end(
    start: ScanModel,
    known: DetectorModel,
    answers: Seq<ScanAnswer>,
    i: int,
    dir: Seq<Seq<u8>>,
)
    requires
        0 <= i < answers.len(),
        scan_run(start, known, answers.take(i)).0.finds_plain_content(answers[i]),
        parent_parts(components(scan_run(start, known, answers.take(i)).0.file)) == Some(dir),
    ensures
        scan_run(start, known, answers).1.plain_dirs.contains(dir),
    decreases answers.len(),
{
    let before = answers.drop_last();
    if i == answers.len() - 1 {
        assert(answers.take(i) =~= before);
    } else {
        assert(before.take(i) =~= answers.take(i));
        assert(before[i] == answers[i]);
        what_a_scan_finds_plain_is_known_in_the_end(start, known, before, i, dir);
    }
}

/// Whether `answer` gives a part of a file an entropy below `threshold`.
pub open spec fn has_a_part_below(answer: ScanAnswer, threshold: u64) -> bool {
    answer is Scores && exists|j: int|
        0 <= j < answer->Scores_0@.len() && (#[trigger] answer->Scores_0@[j]) is Some
            && answer->Scores_0@[j]->0 < threshold
}

/// A file none of whose parts has an entropy below the threshold, or of which no part
/// could be read, leaves what the detector knows exactly as it was; so does every answer
/// that gives no entropies, and every answer to anything but the sampling of a file.
pub proof fn without_a_plain_part_nothing_is_learnt(
    scan: ScanModel,
    known: DetectorModel,
    answer: ScanAnswer,
)
    ensures
        answer is Scores && (forall|j: int|
            0 <= j < answer->Scores_0@.len() && (#[trigger] answer->Scores_0@[j]) is Some
                ==> answer->Scores_0@[j]->0 >= scan.threshold) ==> scan.seeded(known, answer)
            == known,
        !(answer is Scores) ==> scan.seeded(known, answer) == known,
        !(scan.phase is Sample) ==> scan.seeded(known, answer) == known,
{
}

/// A file with a part that has an entropy below the threshold, whichever part it is,
/// makes its directory known, and that alone.
pub proof fn a_plain_part_makes_the_directory_known(
    scan: ScanModel,
    known: DetectorModel,
    answer: ScanAnswer,
    dir: Seq<Seq<u8>>,
)
    requires
        scan.phase is Sample,
        has_a_part_below(answer, scan.threshold),
        components(scan.file).len() > 0,
        components(scan.file).last() != seq![47u8],
    ensures
        scan.seeded(known, answer).plain_dirs.contains(dir) <==> known.plain_dirs.contains(dir)
            || dir == components(scan.file).drop_last(),
        scan.seeded(known, answer) == (DetectorModel {
            plain_dirs: scan.seeded(known, answer).plain_dirs,
            ..known
        }),
{
    let scores = answer->Scores_0@;
    let j = choose|j: int|
        0 <= j < scores.len() && (#[trigger] scores[j]) is Some && scores[j]->0 < scan.threshold;
    assert(any_below(scores, scan.threshold));
}

/// Whether the answer at `i` was the sampling of a file in `dir` that had been met, and
/// gave a part of it an entropy below the threshold.
pub open spec fn is_evidence(
    root: Seq<u8>,
    sample_bytes: usize,
    threshold: u64,
    known: DetectorModel,
    answers: Seq<ScanAnswer>,
    i: int,
    dir: Seq<Seq<u8>>,
) -> bool {
    let before = answers.take(i);
    let scan = scan_run(scan_of(root, sample_bytes, threshold), known, before).0;
    &&& 0 <= i < answers.len()
    &&& scan.phase is Sample
    &&& was_met(before, scan.file, EntryKind::File)
    &&& has_a_part_below(answers[i], threshold)
    &&& components(scan.file).len() > 0
    &&& components(scan.file).last() != seq![47u8]
    &&& dir == components(scan.file).drop_last()
}

proof fn the_threshold_stays(
    root: Seq<u8>,
    sample_bytes: usize,
    threshold: u64,
    known: DetectorModel,
    answers: Seq<ScanAnswer>,
)
    ensures
        scan_run(scan_of(root, sample_bytes, threshold), known, answers).0.threshold == threshold,
    decreases answers.len(),
{
    if answers.len() > 0 {
        the_threshold_stays(root, sample_bytes, threshold, known, answers.drop_last());
    }
}

/// Over a whole scan, a directory is known to hold ordinary content at the end exactly
/// where it was known at the start, or is that of a file that was met and sampled and had
/// a part with an entropy below the threshold.
pub proof fn every_new_directory_held_a_plain_file(
    root: Seq<u8>,
    sample_bytes: usize,
    threshold: u64,
    known: DetectorModel,
    answers: Seq<ScanAnswer>,
    dir: Seq<Seq<u8>>,
)
    ensures
        scan_run(
            scan_of(root, sample_bytes, threshold),
            known,
            answers,
        ).1.plain_dirs.contains(dir) <==> known.plain_dirs.contains(dir) || exists|i: int|
            #[trigger] is_evidence(root, sample_bytes, threshold, known, answers, i, dir),
    decreases answers.len(),
{
    if answers.len() == 0 {
        assert forall|i: int| !#[trigger] is_evidence(
            root,
            sample_bytes,
            threshold,
            known,
            answers,
            i,
            dir,
        ) by {}
    } else {
        let start = scan_of(root, sample_bytes, threshold);
        let before = answers.drop_last();
        let n = answers.len() - 1;
        let answer = answers[n];
        let (scan, then) = scan_run(start, known, before);
        every_new_directory_held_a_plain_file(root, sample_bytes, threshold, known, before, dir);
        the_threshold_stays(root, sample_bytes, threshold, known, before);
        a_scan_follows_no_links(root, sample_bytes, threshold, known, before);
        assert(answers.take(n) =~= before);
        assert forall|i: int| 0 <= i < n implies is_evidence(
            root,
            sample_bytes,
            threshold,
            known,
            before,
            i,
            dir,
        ) == #[trigger] is_evidence(root, sample_bytes, threshold, known, answers, i, dir) by {
            assert(before.take(i) =~= answers.take(i));
            assert(before[i] == answers[i]);
        }
        assert(scan_run(start, known, answers).1 == scan.seeded(then, answer));
        if exists|i: int| #[trigger]
            is_evidence(root, sample_bytes, threshold, known, before, i, dir) {
            let i = choose|i: int| #[trigger]
                is_evidence(root, sample_bytes, threshold, known, before, i, dir);
            assert(is_evidence(root, sample_bytes, threshold, known, answers, i, dir));
        }
        if exists|i: int| #[trigger]
            is_evidence(root, sample_bytes, threshold, known, answers, i, dir) {
            let i = choose|i: int| #[trigger]
                is_evidence(root, sample_bytes, threshold, known, answers, i, dir);
            if i < n {
                assert(is_evidence(root, sample_bytes, threshold, known, before, i, dir));
            } else {
                a_plain_part_makes_the_directory_known(scan, then, answer, dir);
            }
        }
        if scan.seeded(then, answer).plain_dirs.contains(dir) && !then.plain_dirs.contains(dir) {
            let scores = answer->Scores_0@;
            let j = choose|j: int|
                0 <= j < scores.len() && (#[trigger] scores[j]) is Some && scores[j]->0
                    < scan.threshold;
            assert(has_a_part_below(answer, threshold));
            assert(is_evidence(root, sample_bytes, threshold, known, answers, n, dir));
        }
        if then.plain_dirs.contains(dir) {
            assert(scan.seeded(then, answer).plain_dirs.contains(dir));
        }
    }
}

/// Each file that is met before the limit of fifty thousand is measured, sampled as its
/// size calls for, and judged by the entropies of its own parts; the scan then goes on
/// with the directory that it lists.
pub proof fn each_file_is_judged_by_its_own_parts(
    scan: ScanModel,
    known: DetectorModel,
    path: FilePath,
    size: u64,
    scores: Vec<Option<u64>>,
)
    requires
        scan.phase is Next,
        scan.scanned < 50_000,
    ensures
        ({
            let met = scan.after(ScanAnswer::Entry { path, kind: EntryKind::File });
            let measured = met.after(ScanAnswer::Size(size));
            let told = ScanAnswer::Scores(scores);
            let done = measured.after(told);
            &&& met.phase is Measure && met.file == path@ && met.stack == scan.stack
            &&& met.scanned == scan.scanned + 1
            &&& measured.phase is Sample && measured.file == path@
            &&& measured.probes == baseline_plan(size, scan.sample_bytes)
            &&& done.phase is Next && done.stack == scan.stack && done.scanned == scan.scanned + 1
            &&& done.threshold == scan.threshold && done.sample_bytes == scan.sample_bytes
            &&& (exists|j: int|
                0 <= j < scores@.len() && (#[trigger] scores@[j]) is Some && scores@[j]->0
                    < scan.threshold) ==> measured.seeded(known, told) == known.after_plain_write(
                path@,
            )
            &&& (forall|j: int|
                0 <= j < scores@.len() && (#[trigger] scores@[j]) is Some ==> scores@[j]->0
                    >= scan.threshold) ==> measured.seeded(known, told) == known
        }),
{
    if exists|j: int|
        0 <= j < scores@.len() && (#[trigger] scores@[j]) is Some && scores@[j]->0
            < scan.threshold {
        let j = choose|j: int|
            0 <= j < scores@.len() && (#[trigger] scores@[j]) is Some && scores@[j]->0
                < scan.threshold;
        assert(any_below(scores@, scan.threshold));
    }
}

/// A file that cannot be opened is passed over.
pub proof fn a_file_that_cannot_be_opened_is_passed_over(scan: ScanModel, answer: ScanAnswer)
    requires
        scan.phase is Measure,
        !(answer is Size),
    ensures
        scan.after(answer) == (ScanModel { phase: ScanPhase::Next, ..scan }),
{
}

/// A directory that is met is kept for later, behind those that were kept before, and
/// anything that is neither a directory nor a file changes nothing. Whatever is met once
/// fifty thousand files were found ends the scan, and the end says so.
pub proof fn directories_are_kept_for_later(scan: ScanModel, path: FilePath, kind: EntryKind)
    requires
        scan.phase is Next,
    ensures
        ({
            let now = scan.after(ScanAnswer::Entry { path, kind });
            &&& scan.scanned < 50_000 && kind is Directory ==> now == (ScanModel {
                stack: scan.stack.push(path@),
                ..scan
            })
            &&& scan.scanned < 50_000 && kind is Other ==> now == scan
            &&& scan.scanned >= 50_000 ==> now.phase == (ScanPhase::End { limit_reached: true })
        }),
{
}

/// A directory that can be listed is listed; when there is no further entry, or where it
/// cannot be listed, the scan takes the directory that was kept last, and is over, without
/// having reached its limit, where there is none.
pub proof fn every_directory_has_its_turn(scan: ScanModel, answer: ScanAnswer)
    ensures
        scan.phase is Open && answer is Opened ==> scan.after(answer) == (ScanModel {
            stack: scan.stack.drop_last(),
            phase: ScanPhase::Next,
            ..scan
        }),
        scan.phase is Open && !(answer is Opened) && scan.stack.len() > 1 ==> scan.after(answer)
            == (ScanModel { stack: scan.stack.drop_last(), ..scan }),
        scan.phase is Open && !(answer is Opened) && scan.stack.len() == 1 ==> scan.after(
            answer,
        ).phase == (ScanPhase::End { limit_reached: false }),
        scan.phase is Next && !(answer is Entry) && scan.stack.len() > 0 ==> scan.after(answer)
            == (ScanModel { phase: ScanPhase::Open, ..scan }),
        scan.phase is Next && !(answer is Entry) && scan.stack.len() == 0 ==> scan.after(
            answer,
        ).phase == (ScanPhase::End { limit_reached: false }),
        scan.phase is End ==> scan.after(answer) == scan,
{
}

/// A scan begins with its root, and with no file found.
pub proof fn a_scan_begins_with_its_root(root: Seq<u8>, sample_bytes: usize, threshold: u64)
    ensures
        scan_of(root, sample_bytes, threshold).phase is Open,
        scan_of(root, sample_bytes, threshold).stack == seq![root],
        scan_of(root, sample_bytes, threshold).scanned == 0,
        scan_of(root, sample_bytes, threshold).sample_bytes == sample_bytes,
        scan_of(root, sample_bytes, threshold).threshold == threshold,
{
}

/// What is done is done to the directory that was kept last, or to the file that was met
/// last, and what is read of it is what its size calls for.
pub proof fn scan_actions_name_what_is_at_hand(scan: ScanModel, action: ScanAction)
    requires
        scan.is_next(action),
    ensures
        scan.phase is Open <==> action is Open,
        scan.phase is Next <==> action is Next,
        scan.phase is Measure <==> action is Measure,
        scan.phase is Sample <==> action is Sample,
        scan.phase is End <==> action is End,
        action is Open ==> action->dir@ == scan.stack.last(),
        action is Measure ==> action->Measure_path@ == scan.file,
        action is Sample ==> action->Sample_path@ == scan.file && action->probes@ == scan.probes,
        action is End ==> action->limit_reached == scan.phase->limit_reached,
{
}

/// Recording the entropies of a file teaches the detector its directory exactly where a
/// part of it is below the threshold, and leaves all else that the detector knows as it is.
pub proof fn a_sampled_file_teaches_its_directory_or_nothing(
    scan: &mut Scan,
    detector: &mut Detector,
    scores: Vec<Option<u64>>,
    dir: Seq<Seq<u8>>,
)
    requires
        old(scan)@.phase is Sample,
        call_ensures(Scan::advance, (scan, detector, ScanAnswer::Scores(scores)), ()),
    ensures
        ({
            let plain = exists|j: int|
                0 <= j < scores@.len() && (#[trigger] scores@[j]) is Some && scores@[j]->0 < old(
                    scan,
                )@.threshold;
            let file = components(old(scan)@.file);
            let before = old(detector)@;
            let after = final(detector)@;
            &&& !plain ==> after == before
            &&& plain && file.len() > 0 && file.last() != seq![47u8] ==> (
            after.plain_dirs.contains(dir) <==> before.plain_dirs.contains(dir) || dir
                == file.drop_last())
            &&& after == (DetectorModel { plain_dirs: after.plain_dirs, ..before })
            &&& final(scan)@.phase is Next
        }),
{
    let answer = ScanAnswer::Scores(scores);
    let file = components(old(scan)@.file);
    without_a_plain_part_nothing_is_learnt(old(scan)@, old(detector)@, answer);
    if has_a_part_below(answer, old(scan)@.threshold) && file.len() > 0 && file.last() != seq![
        47u8,
    ] {
        a_plain_part_makes_the_directory_known(old(scan)@, old(detector)@, answer, dir);
    }
}

/// A scan that was begun has its root to list, and looks for what it was asked to.
pub proof fn a_scan_is_begun_as_asked(
    root: &FilePath,
    sample_bytes: usize,
    threshold: u64,
    scan: Scan,
)
    requires
        call_ensures(seed, (root, sample_bytes, threshold), scan),
    ensures
        scan@.phase is Open,
        scan@.stack == seq![root@],
        scan@.scanned == 0,
        scan@.sample_bytes == sample_bytes,
        scan@.threshold == threshold,
{
}

} // verus!
