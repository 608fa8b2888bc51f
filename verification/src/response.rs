//! The response to a detection: make sure of the process, freeze it, move what it
//! wrote out of harm's way, kill it, report.

use vstd::prelude::*;
use vstd::string::*;

use crate::config::Mode;
use crate::path::{duplicate_all, views, FilePath};
use crate::quarantine::Taken;

verus! {

/// Whether the process `pid`, which started at `current` where it still exists, is
/// the one that was seen writing: the one that started at `expected`, where its start
/// time could be read at all. Numbers up to that of init are nobody to signal.
pub open spec fn is_same_process(pid: i32, expected: Option<u64>, current: Option<u64>) -> bool {
    pid > 1 && match expected {
        Some(_) => current == expected,
        None => current is Some,
    }
}

/// Whether `pid` still refers to the process that was seen writing.
pub fn still_the_same_process(pid: i32, expected_starttime: Option<u64>, current: Option<u64>) -> (b:
    bool)
    ensures
        b == is_same_process(pid, expected_starttime, current),
{
    if pid <= 1 {
        return false;
    }
    match (expected_starttime, current) {
        (Some(expected), Some(started)) => expected == started,
        (Some(_), None) => false,
        (None, Some(_)) => true,
        (None, None) => false,
    }
}

/// Where a file is now, where it was moved at all.
pub open spec fn place_of(outcome: Taken) -> Option<Seq<u8>> {
    match outcome {
        Taken::Moved(dest) => Some(dest@),
        _ => None,
    }
}

/// Where a file is now: nowhere new where there was nothing to take, or where it
/// could not be moved.
pub fn quarantine_one(outcome: Taken) -> (dest: Option<FilePath>)
    ensures
        dest matches Some(path) ==> place_of(outcome) == Some(path@),
        dest is None ==> place_of(outcome) is None,
{
    match outcome {
        Taken::Moved(dest) => Some(dest),
        _ => None,
    }
}

/// What has to be done next to respond to a detection.
pub enum ResponseAction {
    /// Read the start time of the process.
    Identify { pid: i32 },
    /// Freeze the process.
    Stop { pid: i32 },
    /// Move the file into quarantine.
    Quarantine { path: FilePath, pid: i32, reason: String },
    /// Kill the process.
    Kill { pid: i32 },
    /// Write a report.
    Report {
        mode: Mode,
        pid: i32,
        reason: String,
        affected: Vec<FilePath>,
        quarantined: Vec<FilePath>,
        action_taken: bool,
    },
    /// It is over; this is whether the process is known to be gone.
    End { neutralized: bool },
}

/// What an action has come to.
pub enum ResponseAnswer {
    /// The start time of the process, where there is such a process.
    Started(Option<u64>),
    /// It worked.
    Done,
    /// There is no such process.
    Gone,
    /// It did not work.
    Refused,
    /// What has come of the file.
    File(Taken),
}

/// How far a response has come.
#[derive(Clone, Copy, PartialEq, Eq, Structural, Debug)]
pub enum ResponsePhase {
    Identify,
    Stop,
    Quarantine { at: usize },
    Kill,
    Report { action_taken: bool, neutralized: bool },
    End { neutralized: bool },
}

/// The work of responding to a detection.
pub struct Response {
    mode: Mode,
    pid: i32,
    expected: Option<u64>,
    reason: String,
    affected: Vec<FilePath>,
    quarantined: Vec<FilePath>,
    phase: ResponsePhase,
}

/// The work of responding to a detection, so far.
#[verifier::ext_equal]
pub struct ResponseModel {
    pub mode: Mode,
    pub pid: i32,
    pub expected: Option<u64>,
    pub reason: Seq<char>,
    pub affected: Seq<Seq<u8>>,
    pub quarantined: Seq<Seq<u8>>,
    pub phase: ResponsePhase,
}

impl View for Response {
    type V = ResponseModel;

    closed spec fn view(&self) -> ResponseModel {
        ResponseModel {
            mode: self.mode,
            pid: self.pid,
            expected: self.expected,
            reason: self.reason@,
            affected: views(self.affected@),
            quarantined: views(self.quarantined@),
            phase: self.phase,
        }
    }
}

/// The response to a detection, before anything was done. In monitor mode there is
/// nothing to do but to report.
pub open spec fn response_to(
    mode: Mode,
    pid: i32,
    expected: Option<u64>,
    reason: Seq<char>,
    affected: Seq<Seq<u8>>,
) -> ResponseModel {
    ResponseModel {
        mode,
        pid,
        expected,
        reason,
        affected,
        quarantined: Seq::empty(),
        phase: match mode {
            Mode::Monitor => ResponsePhase::Report { action_taken: false, neutralized: true },
            Mode::Enforce => ResponsePhase::Identify,
        },
    }
}

impl ResponseModel {
    /// What comes once the file before `at` is dealt with: the file at `at`, or the
    /// kill.
    pub open spec fn onwards(self, at: nat) -> ResponsePhase {
        if at < self.affected.len() {
            ResponsePhase::Quarantine { at: at as usize }
        } else {
            ResponsePhase::Kill
        }
    }

    /// How far the response has come once the action at hand has come to `answer`.
    ///
    /// A process that is not the one that was seen writing is left alone. Neither a
    /// failure to freeze the process nor one to move a file holds the response up. A
    /// process that is already gone has been dealt with, while one that could not be
    /// killed has not.
    pub open spec fn after(self, answer: ResponseAnswer) -> ResponseModel {
        match self.phase {
            ResponsePhase::Identify => ResponseModel {
                phase: if answer matches ResponseAnswer::Started(current) && is_same_process(
                    self.pid,
                    self.expected,
                    current,
                ) {
                    ResponsePhase::Stop
                } else {
                    ResponsePhase::Report { action_taken: false, neutralized: true }
                },
                ..self
            },
            ResponsePhase::Stop => ResponseModel { phase: self.onwards(0), ..self },
            ResponsePhase::Quarantine { at } => ResponseModel {
                phase: self.onwards(at as nat + 1),
                quarantined: self.quarantined + moved(answer),
                ..self
            },
            ResponsePhase::Kill => {
                let gone = answer is Done || answer is Gone;
                ResponseModel {
                    phase: ResponsePhase::Report { action_taken: gone, neutralized: gone },
                    ..self
                }
            },
            ResponsePhase::Report { neutralized, .. } => ResponseModel {
                phase: ResponsePhase::End { neutralized },
                ..self
            },
            ResponsePhase::End { .. } => self,
        }
    }

    /// How many answers the response still waits for, at most.
    pub open spec fn steps_left(self) -> int {
        let files = self.affected.len() as int;
        match self.phase {
            ResponsePhase::Identify => files + 4,
            ResponsePhase::Stop => files + 3,
            ResponsePhase::Quarantine { at } => files - at + 2,
            ResponsePhase::Kill => 2,
            ResponsePhase::Report { .. } => 1,
            ResponsePhase::End { .. } => 0,
        }
    }

    /// Whether the file at hand is one of those that are affected.
    pub open spec fn is_valid(self) -> bool {
        &&& self.affected.len() <= usize::MAX
        &&& self.phase matches ResponsePhase::Quarantine { at } ==> at < self.affected.len()
    }

    /// Whether `action` is what has to be done next.
    pub open spec fn is_next(self, action: ResponseAction) -> bool {
        match self.phase {
            ResponsePhase::Identify => action == (ResponseAction::Identify { pid: self.pid }),
            ResponsePhase::Stop => action == (ResponseAction::Stop { pid: self.pid }),
            ResponsePhase::Quarantine { at } => action matches ResponseAction::Quarantine {
                path,
                pid,
                reason,
            } && path@ == self.affected[at as int] && pid == self.pid && reason@ == self.reason,
            ResponsePhase::Kill => action == (ResponseAction::Kill { pid: self.pid }),
            ResponsePhase::Report { action_taken, .. } => action matches ResponseAction::Report {
                mode,
                pid,
                reason,
                affected,
                quarantined,
                action_taken: taken,
            } && mode == self.mode && pid == self.pid && reason@ == self.reason && views(affected@)
                == self.affected && views(quarantined@) == self.quarantined && taken
                == action_taken,
            ResponsePhase::End { neutralized } => action == (ResponseAction::End { neutralized }),
        }
    }
}

/// The file that an answer tells of, where it was moved.
pub open spec fn moved(answer: ResponseAnswer) -> Seq<Seq<u8>> {
    match answer {
        ResponseAnswer::File(outcome) => match place_of(outcome) {
            Some(dest) => seq![dest],
            None => Seq::empty(),
        },
        _ => Seq::empty(),
    }
}

/// Begins the response to the detection of the process `pid`, which started at
/// `expected_starttime` where that could be read, and which wrote `affected_files`.
pub fn handle_detection(
    mode: Mode,
    pid: i32,
    expected_starttime: Option<u64>,
    reason: &str,
    affected_files: &Vec<FilePath>,
) -> (response: Response)
    ensures
        response.wf(),
        response@ == response_to(mode, pid, expected_starttime, reason@, views(affected_files@)),
{
    let quarantined: Vec<FilePath> = Vec::new();
    let response = Response {
        mode,
        pid,
        expected: expected_starttime,
        reason: reason.to_owned(),
        affected: duplicate_all(affected_files),
        quarantined,
        phase: match mode {
            Mode::Monitor => ResponsePhase::Report { action_taken: false, neutralized: true },
            Mode::Enforce => ResponsePhase::Identify,
        },
    };
    assert(views(response.quarantined@) =~= Seq::<Seq<u8>>::empty());
    response
}

impl Response {
    pub closed spec fn wf(self) -> bool {
        self.phase matches ResponsePhase::Quarantine { at } ==> at < self.affected@.len()
    }

    /// What has to be done next.
    pub fn action(&self) -> (action: ResponseAction)
        requires
            self.wf(),
        ensures
            self@.is_next(action),
    {
        match self.phase {
            ResponsePhase::Identify => ResponseAction::Identify { pid: self.pid },
            ResponsePhase::Stop => ResponseAction::Stop { pid: self.pid },
            ResponsePhase::Quarantine { at } => ResponseAction::Quarantine {
                path: self.affected[at].duplicate(),
                pid: self.pid,
                reason: self.reason.clone(),
            },
            ResponsePhase::Kill => ResponseAction::Kill { pid: self.pid },
            ResponsePhase::Report { action_taken, neutralized } => ResponseAction::Report {
                mode: self.mode,
                pid: self.pid,
                reason: self.reason.clone(),
                affected: duplicate_all(&self.affected),
                quarantined: duplicate_all(&self.quarantined),
                action_taken,
            },
            ResponsePhase::End { neutralized } => ResponseAction::End { neutralized },
        }
    }

    fn onwards(&self, at: usize) -> (phase: ResponsePhase)
        ensures
            phase == self@.onwards(at as nat),
    {
        if at < self.affected.len() {
            ResponsePhase::Quarantine { at }
        } else {
            ResponsePhase::Kill
        }
    }

    /// Records what the action at hand has come to.
    pub fn advance(&mut self, answer: ResponseAnswer)
        requires
            old(self).wf(),
        ensures
            final(self).wf(),
            final(self)@ == old(self)@.after(answer),
    {
        match self.phase {
            ResponsePhase::Identify => {
                let same = match answer {
                    ResponseAnswer::Started(current) => still_the_same_process(
                        self.pid,
                        self.expected,
                        current,
                    ),
                    _ => false,
                };
                self.phase = if same {
                    ResponsePhase::Stop
                } else {
                    ResponsePhase::Report { action_taken: false, neutralized: true }
                };
            },
            ResponsePhase::Stop => {
                self.phase = self.onwards(0);
            },
            ResponsePhase::Quarantine { at } => {
                let ghost before = self.quarantined@;
                let ghost told = answer;
                let dest = match answer {
                    ResponseAnswer::File(outcome) => quarantine_one(outcome),
                    _ => None,
                };
                if let Some(path) = dest {
                    self.quarantined.push(path);
                    assert(views(self.quarantined@) =~= views(before) + moved(told));
                } else {
                    assert(views(self.quarantined@) =~= views(before) + moved(told));
                }
                assert(at < self.affected.len());
                self.phase = self.onwards(at + 1);
            },
            ResponsePhase::Kill => {
                let gone = match answer {
                    ResponseAnswer::Done => true,
                    ResponseAnswer::Gone => true,
                    _ => false,
                };
                self.phase = ResponsePhase::Report { action_taken: gone, neutralized: gone };
            },
            ResponsePhase::Report { action_taken, neutralized } => {
                self.phase = ResponsePhase::End { neutralized };
            },
            ResponsePhase::End { neutralized } => {},
        }
    }
}

/// Whatever the answer, a response comes nearer to its end.
pub proof fn a_response_moves_on(response: ResponseModel, answer: ResponseAnswer)
    requires
        response.is_valid(),
        !(response.phase is End),
    ensures
        response.after(answer).is_valid(),
        0 <= response.after(answer).steps_left() < response.steps_left(),
{
}

/// How far the response `start` has come after a series of answers.
pub open spec fn response_run(start: ResponseModel, answers: Seq<ResponseAnswer>) -> ResponseModel
    decreases answers.len(),
{
    if answers.len() == 0 {
        start
    } else {
        response_run(start, answers.drop_last()).after(answers.last())
    }
}

/// The files that `answers` tell of, where they were moved, in order.
pub open spec fn all_moved(answers: Seq<ResponseAnswer>) -> Seq<Seq<u8>>
    decreases answers.len(),
{
    if answers.len() == 0 {
        Seq::empty()
    } else {
        all_moved(answers.drop_last()) + moved(answers.last())
    }
}

/// Whether the first answer showed that the process is the one that was seen writing.
pub open spec fn was_identified(start: ResponseModel, answers: Seq<ResponseAnswer>) -> bool {
    &&& answers.len() >= 1
    &&& answers[0] matches ResponseAnswer::Started(current) && is_same_process(
        start.pid,
        start.expected,
        current,
    )
}

/// Whether the answer to the kill was that the process is gone.
pub open spec fn was_killed(start: ResponseModel, answers: Seq<ResponseAnswer>) -> bool {
    &&& answers.len() >= start.affected.len() + 3
    &&& answers[start.affected.len() as int + 2] is Done || answers[start.affected.len() as int
        + 2] is Gone
}

/// Where a response stands, read off the answers alone.
spec fn stands_at(start: ResponseModel, answers: Seq<ResponseAnswer>, now: ResponseModel) -> bool {
    let n = answers.len() as int;
    let files = start.affected.len() as int;
    &&& now.mode == start.mode && now.pid == start.pid && now.expected == start.expected
    &&& now.reason == start.reason && now.affected == start.affected
    &&& if start.mode is Monitor {
        &&& now.quarantined == Seq::<Seq<u8>>::empty()
        &&& now.phase == if n == 0 {
            ResponsePhase::Report { action_taken: false, neutralized: true }
        } else {
            ResponsePhase::End { neutralized: true }
        }
    } else if n == 0 {
        now.phase is Identify && now.quarantined == Seq::<Seq<u8>>::empty()
    } else if !was_identified(start, answers) {
        &&& now.quarantined == Seq::<Seq<u8>>::empty()
        &&& now.phase == if n == 1 {
            ResponsePhase::Report { action_taken: false, neutralized: true }
        } else {
            ResponsePhase::End { neutralized: true }
        }
    } else if n == 1 {
        now.phase is Stop && now.quarantined == Seq::<Seq<u8>>::empty()
    } else if n < files + 2 {
        &&& now.phase == (ResponsePhase::Quarantine { at: (n - 2) as usize })
        &&& now.quarantined == all_moved(answers.subrange(2, n))
    } else {
        &&& now.quarantined == all_moved(answers.subrange(2, files + 2))
        &&& now.phase == if n == files + 2 {
            ResponsePhase::Kill
        } else if n == files + 3 {
            ResponsePhase::Report {
                action_taken: was_killed(start, answers),
                neutralized: was_killed(start, answers),
            }
        } else {
            ResponsePhase::End { neutralized: was_killed(start, answers) }
        }
    }
}

proof fn response_stands(
    mode: Mode,
    pid: i32,
    expected: Option<u64>,
    reason: Seq<char>,
    affected: Seq<Seq<u8>>,
    answers: Seq<ResponseAnswer>,
)
    requires
        affected.len() <= usize::MAX,
    ensures
        ({
            let start = response_to(mode, pid, expected, reason, affected);
            stands_at(start, answers, response_run(start, answers))
        }),
    decreases answers.len(),
{
    let start = response_to(mode, pid, expected, reason, affected);
    let n = answers.len() as int;
    let files = affected.len() as int;
    if n > 0 {
        let before = answers.drop_last();
        response_stands(mode, pid, expected, reason, affected, before);
        let then = response_run(start, before);
        let now = response_run(start, answers);
        if n > 1 {
            assert(before[0] == answers[0]);
            assert(was_identified(start, before) == was_identified(start, answers));
        }
        if mode is Enforce && was_identified(start, answers) && n >= 2 {
            if n <= files + 2 {
                if n == 2 {
                    assert(answers.subrange(2, n) =~= Seq::<ResponseAnswer>::empty());
                } else {
                    let told = answers.subrange(2, n);
                    assert(told.drop_last() =~= before.subrange(2, n - 1));
                    assert(told.last() == answers.last());
                }
            } else {
                assert(answers.subrange(2, files + 2) =~= before.subrange(2, files + 2));
                assert(answers[files + 2] == if n == files + 3 {
                    answers.last()
                } else {
                    before[files + 2]
                });
            }
        }
    }
}

/// In monitor mode neither the process nor its files are touched: a report, which
/// says so, is all there is.
pub proof fn monitoring_touches_nothing(
    pid: i32,
    expected: Option<u64>,
    reason: Seq<char>,
    affected: Seq<Seq<u8>>,
    answers: Seq<ResponseAnswer>,
)
    requires
        affected.len() <= usize::MAX,
    ensures
        ({
            let now = response_run(
                response_to(Mode::Monitor, pid, expected, reason, affected),
                answers,
            );
            &&& now.phase == (ResponsePhase::Report { action_taken: false, neutralized: true })
                || now.phase == (ResponsePhase::End { neutralized: true })
            &&& now.quarantined.len() == 0
        }),
{
    response_stands(Mode::Monitor, pid, expected, reason, affected, answers);
}

/// A process is only frozen or killed, and a file only moved, in enforce mode and
/// after the process was found to be the very one that was seen writing. In
/// particular neither init nor anything below it is ever signalled.
pub proof fn only_the_suspect_is_touched(
    mode: Mode,
    pid: i32,
    expected: Option<u64>,
    reason: Seq<char>,
    affected: Seq<Seq<u8>>,
    answers: Seq<ResponseAnswer>,
)
    requires
        affected.len() <= usize::MAX,
    ensures
        ({
            let start = response_to(mode, pid, expected, reason, affected);
            let now = response_run(start, answers);
            now.phase is Stop || now.phase is Quarantine || now.phase is Kill ==> {
                &&& mode is Enforce
                &&& was_identified(start, answers)
                &&& pid > 1
                &&& now.pid == pid
            }
        }),
{
    response_stands(mode, pid, expected, reason, affected, answers);
}

/// A process that was found to be the one that was seen writing is frozen, each of its
/// files is dealt with, and it is killed, whatever comes of each step.
pub proof fn an_identified_suspect_is_dealt_with(
    pid: i32,
    expected: Option<u64>,
    reason: Seq<char>,
    affected: Seq<Seq<u8>>,
    answers: Seq<ResponseAnswer>,
)
    requires
        affected.len() <= usize::MAX,
        was_identified(
            response_to(Mode::Enforce, pid, expected, reason, affected),
            answers,
        ),
    ensures
        ({
            let start = response_to(Mode::Enforce, pid, expected, reason, affected);
            let now = response_run(start, answers);
            let n = answers.len() as int;
            let files = affected.len() as int;
            let gone = was_killed(start, answers);
            now.phase == if n == 1 {
                ResponsePhase::Stop
            } else if n < files + 2 {
                ResponsePhase::Quarantine { at: (n - 2) as usize }
            } else if n == files + 2 {
                ResponsePhase::Kill
            } else if n == files + 3 {
                ResponsePhase::Report { action_taken: gone, neutralized: gone }
            } else {
                ResponsePhase::End { neutralized: gone }
            }
        }),
{
    response_stands(Mode::Enforce, pid, expected, reason, affected, answers);
}

/// The process is frozen before the first file is moved, and each affected file is
/// dealt with once, in order, before the process is killed.
pub proof fn every_file_is_dealt_with_before_the_kill(
    mode: Mode,
    pid: i32,
    expected: Option<u64>,
    reason: Seq<char>,
    affected: Seq<Seq<u8>>,
    answers: Seq<ResponseAnswer>,
)
    requires
        affected.len() <= usize::MAX,
    ensures
        ({
            let start = response_to(mode, pid, expected, reason, affected);
            let now = response_run(start, answers);
            &&& now.phase is Stop ==> answers.len() == 1
            &&& now.phase matches ResponsePhase::Quarantine { at } ==> at < affected.len()
                && answers.len() == at + 2 && now.quarantined == all_moved(
                answers.subrange(2, at + 2),
            )
            &&& now.phase is Kill ==> answers.len() == affected.len() + 2 && now.quarantined
                == all_moved(answers.skip(2))
        }),
{
    response_stands(mode, pid, expected, reason, affected, answers);
    let start = response_to(mode, pid, expected, reason, affected);
    if response_run(start, answers).phase is Kill {
        assert(answers.subrange(2, answers.len() as int) =~= answers.skip(2));
    }
}

/// A report says that action was taken, and the process counts as neutralized after
/// it, exactly where the process was identified and the kill found it gone; a process
/// that was never touched counts as neutralized, too.
pub proof fn a_failed_kill_is_not_a_success(
    mode: Mode,
    pid: i32,
    expected: Option<u64>,
    reason: Seq<char>,
    affected: Seq<Seq<u8>>,
    answers: Seq<ResponseAnswer>,
)
    requires
        affected.len() <= usize::MAX,
    ensures
        ({
            let start = response_to(mode, pid, expected, reason, affected);
            let now = response_run(start, answers);
            let touched = mode is Enforce && was_identified(start, answers);
            &&& now.phase matches ResponsePhase::Report { action_taken, neutralized } ==> {
                &&& action_taken == (touched && was_killed(start, answers))
                &&& neutralized == (touched ==> was_killed(start, answers))
            }
            &&& now.phase matches ResponsePhase::End { neutralized } ==> neutralized == (touched
                ==> was_killed(start, answers))
        }),
{
    response_stands(mode, pid, expected, reason, affected, answers);
}

/// A response writes one report, as its last act, and comes to an end.
pub proof fn every_response_ends_with_a_report(
    mode: Mode,
    pid: i32,
    expected: Option<u64>,
    reason: Seq<char>,
    affected: Seq<Seq<u8>>,
    answers: Seq<ResponseAnswer>,
)
    requires
        affected.len() <= usize::MAX,
    ensures
        ({
            let start = response_to(mode, pid, expected, reason, affected);
            let now = response_run(start, answers);
            &&& answers.len() >= affected.len() + 4 ==> now.phase is End
            &&& now.phase is Report ==> forall|answer: ResponseAnswer|
                (#[trigger] now.after(answer)).phase is End
            &&& now.phase is End ==> exists|n: int|
                0 <= n < answers.len() && (#[trigger] response_run(start, answers.take(n))).phase
                    is Report && forall|m: int|
                    0 <= m < answers.len() && (#[trigger] response_run(
                        start,
                        answers.take(m),
                    )).phase is Report ==> m == n
        }),
{
    let start = response_to(mode, pid, expected, reason, affected);
    let now = response_run(start, answers);
    response_stands(mode, pid, expected, reason, affected, answers);
    if now.phase is End {
        let n: int = if mode is Monitor {
            0
        } else if !was_identified(start, answers) {
            1
        } else {
            affected.len() as int + 3
        };
        assert forall|m: int| 0 <= m < answers.len() implies ((#[trigger] response_run(
            start,
            answers.take(m),
        )).phase is Report <==> m == n) by {
            response_stands(mode, pid, expected, reason, affected, answers.take(m));
            if m >= 1 {
                assert(answers.take(m)[0] == answers[0]);
            }
        }
        assert(0 <= n < answers.len());
        assert(response_run(start, answers.take(n)).phase is Report);
    }
}

/// A process of any number above that of init is frozen where it started when the one
/// that was seen writing did, or where nothing is known of when that one started and it
/// is there at all. Numbers up to that of init, a process that is gone or that started at
/// another time, and an answer that tells of no start time, lead to a report of no action.
/// The answer changes nothing else.
pub proof fn the_process_that_was_seen_is_frozen(
    response: ResponseModel,
    answer: ResponseAnswer,
    start: u64,
    other: u64,
)
    requires
        response.phase is Identify,
        start != other,
    ensures
        ({
            let now = response.after(answer);
            let left_alone = ResponsePhase::Report { action_taken: false, neutralized: true };
            &&& response.pid > 1 && response.expected == Some(start) && answer
                == ResponseAnswer::Started(Some(start)) ==> now.phase is Stop
            &&& response.pid > 1 && response.expected is None && answer
                == ResponseAnswer::Started(Some(start)) ==> now.phase is Stop
            &&& response.pid <= 1 ==> now.phase == left_alone
            &&& response.expected == Some(start) && answer == ResponseAnswer::Started(Some(other))
                ==> now.phase == left_alone
            &&& answer == ResponseAnswer::Started(None) ==> now.phase == left_alone
            &&& !(answer is Started) ==> now.phase == left_alone
            &&& now == (ResponseModel { phase: now.phase, ..response })
        }),
{
}

/// A process above init that was seen writing is frozen after the first answer, its
/// files are then taken one after the other, and it is killed after the last of them,
/// whatever comes of each step: the response is over after four answers and one for each
/// file. It counts as neutralized exactly where the answer to the kill was that it is
/// done, or that there is no such process.
pub proof fn a_process_that_was_seen_is_killed(
    pid: i32,
    expected: Option<u64>,
    start: u64,
    reason: Seq<char>,
    affected: Seq<Seq<u8>>,
    answers: Seq<ResponseAnswer>,
)
    requires
        affected.len() <= usize::MAX,
        pid > 1,
        expected is None || expected == Some(start),
        answers.len() >= 1,
        answers[0] == ResponseAnswer::Started(Some(start)),
    ensures
        ({
            let now = response_run(
                response_to(Mode::Enforce, pid, expected, reason, affected),
                answers,
            );
            let n = answers.len() as int;
            let files = affected.len() as int;
            let kill = answers[files + 2];
            let gone = kill == ResponseAnswer::Done || kill == ResponseAnswer::Gone;
            &&& n == 1 ==> now.phase is Stop
            &&& 2 <= n < files + 2 ==> now.phase == (ResponsePhase::Quarantine {
                at: (n - 2) as usize,
            })
            &&& n == files + 2 ==> now.phase is Kill
            &&& n == files + 3 ==> now.phase == (ResponsePhase::Report {
                action_taken: gone,
                neutralized: gone,
            })
            &&& n > files + 3 ==> now.phase == (ResponsePhase::End { neutralized: gone })
            &&& now.pid == pid && now.affected == affected && now.reason == reason
        }),
{
    response_stands(Mode::Enforce, pid, expected, reason, affected, answers);
}

/// A response in monitor mode, and one whose process is not the one that was seen,
/// report without having stopped, moved or killed anything, and count as neutralized.
pub proof fn nobody_else_is_touched(
    mode: Mode,
    pid: i32,
    expected: Option<u64>,
    reason: Seq<char>,
    affected: Seq<Seq<u8>>,
    answers: Seq<ResponseAnswer>,
)
    requires
        affected.len() <= usize::MAX,
        mode is Monitor || pid <= 1 || (answers.len() >= 1 && !(answers[0] is Started
            && answers[0]->Started_0 is Some && (expected is None || expected
            == answers[0]->Started_0))),
    ensures
        ({
            let now = response_run(response_to(mode, pid, expected, reason, affected), answers);
            let n = answers.len() as int;
            let report = if mode is Monitor {
                0int
            } else {
                1int
            };
            &&& n < report ==> now.phase is Identify
            &&& n == report ==> now.phase == (ResponsePhase::Report {
                action_taken: false,
                neutralized: true,
            })
            &&& n > report ==> now.phase == (ResponsePhase::End { neutralized: true })
            &&& now.quarantined.len() == 0
        }),
{
    response_stands(mode, pid, expected, reason, affected, answers);
}

/// A file that was moved is listed behind those moved before it, by where it is now. A
/// file that was not, for whatever reason, is not listed, and the response goes on either
/// way: to the next file, or from the last one to the kill.
pub proof fn a_moved_file_is_listed(
    response: ResponseModel,
    answer: ResponseAnswer,
    dest: FilePath,
    at: usize,
)
    requires
        response.is_valid(),
        response.phase == (ResponsePhase::Quarantine { at }),
    ensures
        answer == ResponseAnswer::File(Taken::Moved(dest)) ==> response.after(answer).quarantined
            == response.quarantined.push(dest@),
        !(answer is File) ==> response.after(answer).quarantined == response.quarantined,
        answer is File && !(answer->File_0 is Moved) ==> response.after(answer).quarantined
            == response.quarantined,
        at + 1 < response.affected.len() ==> response.after(answer).phase == (
        ResponsePhase::Quarantine { at: (at + 1) as usize }),
        at + 1 == response.affected.len() ==> response.after(answer).phase is Kill,
        response.after(answer).affected == response.affected,
        response.after(answer).pid == response.pid,
        response.after(answer).mode == response.mode,
        response.after(answer).expected == response.expected,
        response.after(answer).reason == response.reason,
{
    assert(response.after(answer).quarantined =~= response.quarantined + moved(answer));
}

/// A response begins with the detection as it was told, and with nothing moved: with the
/// report in monitor mode, and with finding out about the process in enforce mode.
pub proof fn a_response_begins_with_the_detection(
    pid: i32,
    expected: Option<u64>,
    reason: Seq<char>,
    affected: Seq<Seq<u8>>,
    mode: Mode,
)
    ensures
        ({
            let start = response_to(mode, pid, expected, reason, affected);
            &&& start.mode == mode && start.pid == pid && start.expected == expected
            &&& start.reason == reason && start.affected == affected
            &&& start.quarantined.len() == 0
            &&& mode is Enforce ==> start.phase is Identify
            &&& mode is Monitor ==> start.phase == (ResponsePhase::Report {
                action_taken: false,
                neutralized: true,
            })
        }),
{
}

/// What is done is done to the process and the file at hand: each action names them, and
/// comes only in its own phase. The report tells of the detection as it was, of what was
/// moved, and of whether action was taken.
pub proof fn actions_name_what_is_at_hand(response: ResponseModel, action: ResponseAction)
    requires
        response.is_next(action),
    ensures
        response.phase is Identify <==> action is Identify,
        response.phase is Stop <==> action is Stop,
        response.phase is Quarantine <==> action is Quarantine,
        response.phase is Kill <==> action is Kill,
        response.phase is Report <==> action is Report,
        response.phase is End <==> action is End,
        action is Identify ==> action->Identify_pid == response.pid,
        action is Stop ==> action->Stop_pid == response.pid,
        action is Kill ==> action->Kill_pid == response.pid,
        action is Quarantine ==> action->Quarantine_pid == response.pid && action->path@
            == response.affected[response.phase->at as int] && action->Quarantine_reason@
            == response.reason,
        action is Report ==> action->Report_pid == response.pid && action->mode == response.mode
            && action->Report_reason@ == response.reason && views(action->affected@)
            == response.affected && views(action->quarantined@) == response.quarantined
            && action->action_taken == response.phase->action_taken,
        action is End ==> action->neutralized == response.phase->End_neutralized,
{
}

/// A process is taken for the one that was seen writing exactly where its number is above
/// that of init, it is there, and it started when that one did, as far as that is known.
pub proof fn a_process_is_known_by_its_start_time(
    pid: i32,
    expected: Option<u64>,
    current: Option<u64>,
    same: bool,
)
    requires
        call_ensures(still_the_same_process, (pid, expected, current), same),
    ensures
        same <==> pid > 1 && current is Some && (expected is Some ==> expected->0 == current->0),
{
}

/// A file has a new place exactly where it was moved, and it is that place.
pub proof fn only_a_moved_file_has_a_new_place(
    outcome: Taken,
    dest: FilePath,
    place: Option<FilePath>,
)
    requires
        call_ensures(quarantine_one, (outcome,), place),
    ensures
        outcome == Taken::Moved(dest) ==> place is Some && place->0@ == dest@,
        !(outcome is Moved) ==> place is None,
{
}

/// Carrying a response on, once the start time of the process was read: a process above
/// init that started when the one that was seen did is frozen next, and any other is left
/// alone. The response stays on the same process and files.
pub proof fn a_response_goes_on_with_the_process_that_was_seen(
    response: &mut Response,
    started: Option<u64>,
)
    requires
        old(response)@.phase is Identify,
        call_ensures(Response::advance, (response, ResponseAnswer::Started(started)), ()),
    ensures
        ({
            let before = old(response)@;
            let after = final(response)@;
            let same = before.pid > 1 && started is Some && (before.expected is Some
                ==> before.expected == started);
            &&& same ==> after.phase is Stop
            &&& !same ==> after.phase == (ResponsePhase::Report {
                action_taken: false,
                neutralized: true,
            })
            &&& after == (ResponseModel { phase: after.phase, ..before })
        }),
{
}

/// The response to a detection begins as the mode demands, on what was detected.
pub proof fn a_detection_is_handled_as_the_mode_demands(
    mode: Mode,
    pid: i32,
    expected: Option<u64>,
    reason: &str,
    affected: &Vec<FilePath>,
    response: Response,
)
    requires
        call_ensures(handle_detection, (mode, pid, expected, reason, affected), response),
    ensures
        mode is Enforce ==> response@.phase is Identify,
        mode is Monitor ==> response@.phase == (ResponsePhase::Report {
            action_taken: false,
            neutralized: true,
        }),
        response@.pid == pid,
        response@.mode == mode,
        response@.expected == expected,
        response@.reason == reason@,
        response@.affected == views(affected@),
        response@.quarantined.len() == 0,
{
}

} // verus!
