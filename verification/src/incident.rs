//! Incident reports: what an operator reads after a detection, and what is handed
//! to a notify hook.

use vstd::prelude::*;
use vstd::string::*;
use vstd::utf8::*;

use crate::clock::{is_reading, unix_seconds};
use crate::config::Mode;
use crate::encoding::encoding_of_text_without_slashes;
use crate::path::{
    duplicate_all, joined, joining_puts_one_slash_between, lossy_text, views, FilePath,
};
use crate::text::{
    decimal, decimal_is_injective, is_control_char, push_decimal, push_signed_decimal, sanitize, sanitized,
    sanitized_text_is_free_of_control_characters, signed_decimal,
};

verus! {

/// The permissions of the directory that holds the reports: its owner's alone. They
/// name affected files and processes.
pub const REPORTS_DIR_MODE: u32 = 0o700;

/// The texts behind `lines`.
pub open spec fn texts(lines: Seq<String>) -> Seq<Seq<char>> {
    lines.map_values(|line: String| line@)
}

/// How the files at `paths` are shown.
pub open spec fn displayed(paths: Seq<Seq<u8>>) -> Seq<Seq<char>> {
    paths.map_values(|path: Seq<u8>| lossy_text(path))
}

/// The lines that list files: one for each, or a single one where there is none.
pub open spec fn listed(paths: Seq<Seq<char>>) -> Seq<Seq<char>> {
    if paths.len() == 0 {
        seq!["  (none)"@]
    } else {
        paths.map_values(|path: Seq<char>| "  - "@ + sanitized(path))
    }
}

pub open spec fn mode_name(mode: Mode) -> Seq<char> {
    match mode {
        Mode::Monitor => "Monitor"@,
        Mode::Enforce => "Enforce"@,
    }
}

pub open spec fn outcome(action_taken: bool) -> Seq<char> {
    if action_taken {
        "yes - process killed (SIGSTOP then SIGKILL), files below moved to quarantine"@
    } else {
        "no - monitor mode or the process could not be neutralized, see logs"@
    }
}

/// The lines that tell when a process did what, and what was done about it.
pub open spec fn summary(
    stamp: u64,
    mode: Mode,
    pid: i32,
    reason: Seq<char>,
    action_taken: bool,
) -> Seq<Seq<char>> {
    seq![
        "RansomShield incident report"@,
        "============================="@,
        "Time (unix epoch seconds): "@ + decimal(stamp as nat),
        "Mode: "@ + mode_name(mode),
        "Action taken: "@ + outcome(action_taken),
        "Suspect PID: "@ + signed_decimal(pid as int),
        "Reason: "@ + sanitized(reason),
        Seq::<char>::empty(),
    ]
}

/// A list of files under a title that counts them.
pub open spec fn section(title: Seq<char>, paths: Seq<Seq<char>>) -> Seq<Seq<char>> {
    seq![title + " ("@ + decimal(paths.len()) + "):"@] + listed(paths)
}

/// The lines of a report.
pub open spec fn report_lines_of(
    stamp: u64,
    mode: Mode,
    pid: i32,
    reason: Seq<char>,
    affected: Seq<Seq<char>>,
    quarantined: Seq<Seq<char>>,
    action_taken: bool,
) -> Seq<Seq<char>> {
    summary(stamp, mode, pid, reason, action_taken) + section("Affected files"@, affected)
        + seq![Seq::<char>::empty()] + section("Quarantined to"@, quarantined)
}

/// Each of `lines` with a line break behind it.
pub open spec fn terminated(lines: Seq<Seq<char>>) -> Seq<char>
    decreases lines.len(),
{
    if lines.len() == 0 {
        Seq::empty()
    } else {
        terminated(lines.drop_last()) + lines.last() + seq!['\n']
    }
}

/// What tells the reports on one process in one second apart.
pub open spec fn number_part(number: u64) -> Seq<char> {
    if number == 0 {
        Seq::empty()
    } else {
        seq!['_'] + decimal(number as nat)
    }
}

/// The name of a report on the process `pid`: the first one in a second has the number
/// zero, which is not shown.
pub open spec fn report_name(stamp: u64, pid: i32, number: u64) -> Seq<char> {
    decimal(stamp as nat) + seq!['_'] + signed_decimal(pid as int) + number_part(number) + ".txt"@
}

fn line_of(label: &str, rest: &str) -> (line: String)
    ensures
        line@ == label@ + rest@,
{
    let mut line = String::new();
    line.append(label);
    line.append(rest);
    assert(line@ =~= label@ + rest@);
    line
}

/// The lines that list the files shown as `paths`.
pub fn format_list(paths: &Vec<String>) -> (lines: Vec<String>)
    ensures
        texts(lines@) == listed(texts(paths@)),
{
    let mut lines: Vec<String> = Vec::new();
    if paths.len() == 0 {
        lines.push(line_of("  (none)", ""));
        assert("  (none)"@ + ""@ =~= "  (none)"@) by {
            reveal_strlit("");
        }
        assert(texts(lines@) =~= listed(texts(paths@)));
        return lines;
    }
    let mut i: usize = 0;
    while i < paths.len()
        invariant
            i <= paths.len(),
            paths.len() > 0,
            texts(lines@) == listed(texts(paths@)).take(i as int),
        decreases paths.len() - i,
    {
        let clean = sanitize(paths[i].as_str());
        let ghost before = lines@;
        lines.push(line_of("  - ", clean.as_str()));
        proof {
            let all = listed(texts(paths@));
            assert(texts(lines@) =~= texts(before).push(lines@.last()@));
            assert(all.take(i + 1) =~= all.take(i as int).push(all[i as int]));
        }
        i += 1;
    }
    assert(listed(texts(paths@)).take(i as int) =~= listed(texts(paths@)));
    lines
}

/// `lines` with those of `more` behind them.
fn extend(lines: &mut Vec<String>, more: Vec<String>)
    ensures
        texts(final(lines)@) == texts(old(lines)@) + texts(more@),
{
    let mut more = more;
    let ghost first = lines@;
    let ghost second = more@;
    lines.append(&mut more);
    assert(texts(lines@) =~= texts(first) + texts(second));
}

/// The lines that list the files shown as `paths` under a title that counts them.
fn section_lines(title: &str, paths: &Vec<String>) -> (lines: Vec<String>)
    ensures
        texts(lines@) == section(title@, texts(paths@)),
{
    let mut heading = String::new();
    heading.append(title);
    heading.append(" (");
    push_decimal(&mut heading, paths.len() as u128);
    heading.append("):");
    assert(heading@ =~= title@ + " ("@ + decimal(paths@.len()) + "):"@);
    let mut lines: Vec<String> = Vec::new();
    lines.push(heading);
    assert(texts(lines@) =~= seq![heading@]);
    extend(&mut lines, format_list(paths));
    lines
}

/// The lines that tell when a process did what, and what was done about it.
fn summary_lines(stamp: u64, mode: Mode, pid: i32, reason: &str, action_taken: bool) -> (lines: Vec<
    String,
>)
    ensures
        texts(lines@) == summary(stamp, mode, pid, reason@, action_taken),
{
    let mut time = String::new();
    time.append("Time (unix epoch seconds): ");
    push_decimal(&mut time, stamp as u128);
    assert(time@ =~= "Time (unix epoch seconds): "@ + decimal(stamp as nat));
    let mut suspect = String::new();
    suspect.append("Suspect PID: ");
    push_signed_decimal(&mut suspect, pid);
    assert(suspect@ =~= "Suspect PID: "@ + signed_decimal(pid as int));
    let mode_line = match mode {
        Mode::Monitor => line_of("Mode: ", "Monitor"),
        Mode::Enforce => line_of("Mode: ", "Enforce"),
    };
    let action_line = if action_taken {
        line_of(
            "Action taken: ",
            "yes - process killed (SIGSTOP then SIGKILL), files below moved to quarantine",
        )
    } else {
        line_of(
            "Action taken: ",
            "no - monitor mode or the process could not be neutralized, see logs",
        )
    };
    let clean = sanitize(reason);
    let lines: Vec<String> = vec![
        "RansomShield incident report".to_owned(),
        "=============================".to_owned(),
        time,
        mode_line,
        action_line,
        suspect,
        line_of("Reason: ", clean.as_str()),
        String::new(),
    ];
    assert(texts(lines@) =~= summary(stamp, mode, pid, reason@, action_taken));
    lines
}

/// The lines of a report on files that are shown as `affected` and `quarantined`.
pub fn report_lines(
    stamp: u64,
    mode: Mode,
    pid: i32,
    reason: &str,
    affected: &Vec<String>,
    quarantined: &Vec<String>,
    action_taken: bool,
) -> (lines: Vec<String>)
    ensures
        texts(lines@) == report_lines_of(
            stamp,
            mode,
            pid,
            reason@,
            texts(affected@),
            texts(quarantined@),
            action_taken,
        ),
{
    let mut lines = summary_lines(stamp, mode, pid, reason, action_taken);
    extend(&mut lines, section_lines("Affected files", affected));
    let ghost before = lines@;
    lines.push(String::new());
    assert(texts(lines@) =~= texts(before) + seq![Seq::<char>::empty()]);
    extend(&mut lines, section_lines("Quarantined to", quarantined));
    lines
}

/// Each of `lines` with a line break behind it.
pub fn terminate(lines: &Vec<String>) -> (text: String)
    ensures
        text@ == terminated(texts(lines@)),
{
    let mut text = String::new();
    let mut i: usize = 0;
    while i < lines.len()
        invariant
            i <= lines.len(),
            text@ == terminated(texts(lines@).take(i as int)),
        decreases lines.len() - i,
    {
        text.append(lines[i].as_str());
        text.push('\n');
        proof {
            let all = texts(lines@);
            assert(all.take(i + 1).drop_last() =~= all.take(i as int));
            assert(all.take(i + 1).last() == lines@[i as int]@);
            assert(text@ =~= terminated(all.take(i as int)) + lines@[i as int]@ + seq!['\n']);
        }
        i += 1;
    }
    assert(texts(lines@).take(i as int) =~= texts(lines@));
    text
}

fn shown(paths: &Vec<FilePath>) -> (out: Vec<String>)
    ensures
        texts(out@) == displayed(views(paths@)),
{
    let mut out: Vec<String> = Vec::new();
    let mut i: usize = 0;
    while i < paths.len()
        invariant
            i <= paths.len(),
            texts(out@) == displayed(views(paths@)).take(i as int),
        decreases paths.len() - i,
    {
        let ghost before = out@;
        out.push(paths[i].display());
        proof {
            let all = displayed(views(paths@));
            assert(texts(out@) =~= texts(before).push(out@.last()@));
            assert(all.take(i + 1) =~= all.take(i as int).push(all[i as int]));
        }
        i += 1;
    }
    assert(displayed(views(paths@)).take(i as int) =~= displayed(views(paths@)));
    out
}

/// A variable in the environment of a notify hook.
pub struct Variable {
    pub name: String,
    pub value: Vec<u8>,
}

/// The names and values of `variables`.
pub open spec fn assignments(variables: Seq<Variable>) -> Seq<(Seq<char>, Seq<u8>)> {
    variables.map_values(|v: Variable| (v.name@, v.value@))
}

/// A run of the operator's notify hook.
pub struct Notice {
    pub command: String,
    pub variables: Vec<Variable>,
}

/// What a notify hook is told: nothing in it that an attacker has chosen holds a
/// control character.
pub open spec fn notice_variables(
    pid: i32,
    reason: Seq<char>,
    report: Seq<u8>,
    action_taken: bool,
) -> Seq<(Seq<char>, Seq<u8>)> {
    seq![
        ("RANSOMSHIELD_PID"@, encode_utf8(signed_decimal(pid as int))),
        ("RANSOMSHIELD_REASON"@, encode_utf8(sanitized(reason))),
        ("RANSOMSHIELD_REPORT_PATH"@, report),
        (
            "RANSOMSHIELD_ACTION_TAKEN"@,
            encode_utf8(
                if action_taken {
                    "true"@
                } else {
                    "false"@
                },
            ),
        ),
    ]
}

/// A report: where it goes, what it says, and who is told.
pub struct Report {
    pub path: FilePath,
    pub body: String,
    pub notice: Option<Notice>,
}

/// Writes a report on every detection, for an operator to read after the fact, and
/// hands the details to the operator's notify hook where there is one.
pub struct IncidentReporter {
    dir: FilePath,
    notify_command: Option<String>,
}

/// Where the reports go, and the notify hook.
#[verifier::ext_equal]
pub struct ReporterModel {
    pub dir: Seq<u8>,
    pub notify_command: Option<Seq<char>>,
}

impl View for IncidentReporter {
    type V = ReporterModel;

    closed spec fn view(&self) -> ReporterModel {
        ReporterModel {
            dir: self.dir@,
            notify_command: match self.notify_command {
                Some(command) => Some(command@),
                None => None,
            },
        }
    }
}

impl ReporterModel {
    /// Whether `report` is the report on these things.
    pub open spec fn is_reported_by(
        self,
        stamp: u64,
        number: u64,
        mode: Mode,
        pid: i32,
        reason: Seq<char>,
        affected: Seq<Seq<u8>>,
        quarantined: Seq<Seq<u8>>,
        action_taken: bool,
        report: Report,
    ) -> bool {
        &&& report.path@ == joined(self.dir, encode_utf8(report_name(stamp, pid, number)))
        &&& report.body@ == terminated(
            report_lines_of(
                stamp,
                mode,
                pid,
                reason,
                displayed(affected),
                displayed(quarantined),
                action_taken,
            ),
        )
        &&& report.notice is Some <==> self.notify_command is Some
        &&& report.notice matches Some(notice) ==> {
            &&& self.notify_command == Some(notice.command@)
            &&& assignments(notice.variables@) == notice_variables(
                pid,
                reason,
                report.path@,
                action_taken,
            )
        }
    }
}

fn variable(name: &str, value: &str) -> (v: Variable)
    ensures
        v.name@ == name@,
        v.value@ == encode_utf8(value@),
{
    Variable { name: name.to_owned(), value: value.as_bytes_vec() }
}

/// What the hook is told of a report at `report`.
fn notice_for(
    command: &str,
    pid: i32,
    reason: &str,
    report: &FilePath,
    action_taken: bool,
) -> (notice: Notice)
    ensures
        notice.command@ == command@,
        assignments(notice.variables@) == notice_variables(pid, reason@, report@, action_taken),
{
    let mut number = String::new();
    push_signed_decimal(&mut number, pid);
    assert(number@ =~= signed_decimal(pid as int));
    let clean = sanitize(reason);
    let taken = if action_taken {
        "true"
    } else {
        "false"
    };
    let path = report.duplicate();
    let variables: Vec<Variable> = vec![
        variable("RANSOMSHIELD_PID", number.as_str()),
        variable("RANSOMSHIELD_REASON", clean.as_str()),
        Variable { name: "RANSOMSHIELD_REPORT_PATH".to_owned(), value: path.bytes },
        variable("RANSOMSHIELD_ACTION_TAKEN", taken),
    ];
    assert(assignments(variables@) =~= notice_variables(pid, reason@, report@, action_taken));
    Notice { command: command.to_owned(), variables }
}

impl IncidentReporter {
    /// Reports go into `dir`; `notify_command` is the operator's hook.
    pub fn new(dir: FilePath, notify_command: Option<String>) -> (reporter: IncidentReporter)
        ensures
            reporter@ == (ReporterModel {
                dir: dir@,
                notify_command: match notify_command {
                    Some(command) => Some(command@),
                    None => None,
                },
            }),
    {
        IncidentReporter { dir, notify_command }
    }

    /// The report, at the time `stamp`, on what the process `pid` did to the files
    /// `affected`, of which `quarantined` is left. `number` tells it from other reports
    /// on the process from that second.
    pub fn report_at(
        &self,
        stamp: u64,
        number: u64,
        mode: Mode,
        pid: i32,
        reason: &str,
        affected: &Vec<FilePath>,
        quarantined: &Vec<FilePath>,
        action_taken: bool,
    ) -> (report: Report)
        ensures
            self@.is_reported_by(
                stamp,
                number,
                mode,
                pid,
                reason@,
                views(affected@),
                views(quarantined@),
                action_taken,
                report,
            ),
    {
        let mut name = String::new();
        push_decimal(&mut name, stamp as u128);
        name.push('_');
        push_signed_decimal(&mut name, pid);
        if number > 0 {
            name.push('_');
            push_decimal(&mut name, number as u128);
        }
        name.append(".txt");
        assert(name@ =~= report_name(stamp, pid, number));
        let path = self.dir.join(name.as_str());
        let lines = report_lines(
            stamp,
            mode,
            pid,
            reason,
            &shown(affected),
            &shown(quarantined),
            action_taken,
        );
        let body = terminate(&lines);
        let notice = match &self.notify_command {
            Some(command) => Some(
                notice_for(command.as_str(), pid, reason, &path, action_taken),
            ),
            None => None,
        };
        Report { path, body, notice }
    }

    /// Begins to file the report, at the time `stamp`, on what the process `pid` did.
    pub fn file_at<'a>(
        &'a self,
        stamp: u64,
        mode: Mode,
        pid: i32,
        reason: &str,
        affected: &Vec<FilePath>,
        quarantined: &Vec<FilePath>,
        action_taken: bool,
    ) -> (filing: Filing<'a>)
        ensures
            filing@ == filing_of(
                self@,
                stamp,
                mode,
                pid,
                reason@,
                views(affected@),
                views(quarantined@),
                action_taken,
            ),
    {
        Filing {
            reporter: self,
            stamp,
            number: 0,
            mode,
            pid,
            reason: reason.to_owned(),
            affected: duplicate_all(affected),
            quarantined: duplicate_all(quarantined),
            action_taken,
            phase: FilingPhase::Create,
        }
    }

    /// Begins to file the report, now, on what the process `pid` did.
    pub fn report<'a>(
        &'a self,
        mode: Mode,
        pid: i32,
        reason: &str,
        affected: &Vec<FilePath>,
        quarantined: &Vec<FilePath>,
        action_taken: bool,
    ) -> (filing: Filing<'a>)
        ensures
            filing@ == filing_of(
                self@,
                filing@.stamp,
                mode,
                pid,
                reason@,
                views(affected@),
                views(quarantined@),
                action_taken,
            ),
            exists|reading: Option<(u64, u32)>| #[trigger]
                is_reading(reading) && filing@.stamp == match reading {
                    Some(since) => since.0,
                    None => 0,
                },
    {
        let stamp: u64 = unix_seconds();
        self.file_at(stamp, mode, pid, reason, affected, quarantined, action_taken)
    }
}

/// What has to be done next to file a report.
pub enum FilingAction {
    /// Create this file, which must not be there yet, and write this into it.
    Create { path: FilePath, body: String },
    /// Run the operator's hook.
    Notify(Notice),
    /// It is over; this is whether the report was written.
    End { written: bool },
}

/// What an action has come to.
#[derive(Clone, Copy, PartialEq, Eq, Structural, Debug)]
pub enum FilingAnswer {
    /// The file was created and written.
    Written,
    /// There is such a file already; it was left as it is.
    Exists,
    /// The file could not be written.
    Refused,
    /// The hook was dealt with.
    Done,
}

/// How far the filing of a report has come.
#[derive(Clone, Copy, PartialEq, Eq, Structural, Debug)]
pub enum FilingPhase {
    Create,
    Notify { written: bool },
    End { written: bool },
}

/// The work of filing a report.
pub struct Filing<'a> {
    reporter: &'a IncidentReporter,
    stamp: u64,
    number: u64,
    mode: Mode,
    pid: i32,
    reason: String,
    affected: Vec<FilePath>,
    quarantined: Vec<FilePath>,
    action_taken: bool,
    phase: FilingPhase,
}

/// The work of filing a report, so far.
#[verifier::ext_equal]
pub struct FilingModel {
    pub reporter: ReporterModel,
    pub stamp: u64,
    /// How many names were found to be taken.
    pub number: u64,
    pub mode: Mode,
    pub pid: i32,
    pub reason: Seq<char>,
    pub affected: Seq<Seq<u8>>,
    pub quarantined: Seq<Seq<u8>>,
    pub action_taken: bool,
    pub phase: FilingPhase,
}

impl<'a> View for Filing<'a> {
    type V = FilingModel;

    closed spec fn view(&self) -> FilingModel {
        FilingModel {
            reporter: self.reporter@,
            stamp: self.stamp,
            number: self.number,
            mode: self.mode,
            pid: self.pid,
            reason: self.reason@,
            affected: views(self.affected@),
            quarantined: views(self.quarantined@),
            action_taken: self.action_taken,
            phase: self.phase,
        }
    }
}

/// The filing of a report that has not begun.
pub open spec fn filing_of(
    reporter: ReporterModel,
    stamp: u64,
    mode: Mode,
    pid: i32,
    reason: Seq<char>,
    affected: Seq<Seq<u8>>,
    quarantined: Seq<Seq<u8>>,
    action_taken: bool,
) -> FilingModel {
    FilingModel {
        reporter,
        stamp,
        number: 0,
        mode,
        pid,
        reason,
        affected,
        quarantined,
        action_taken,
        phase: FilingPhase::Create,
    }
}

impl FilingModel {
    /// Where the report goes.
    pub open spec fn path(self) -> Seq<u8> {
        joined(self.reporter.dir, encode_utf8(report_name(self.stamp, self.pid, self.number)))
    }

    /// What the report says.
    pub open spec fn body(self) -> Seq<char> {
        terminated(
            report_lines_of(
                self.stamp,
                self.mode,
                self.pid,
                self.reason,
                displayed(self.affected),
                displayed(self.quarantined),
                self.action_taken,
            ),
        )
    }

    /// The filing once it is settled whether the report was written. The hook is run
    /// either way.
    pub open spec fn settled(self, written: bool) -> FilingModel {
        FilingModel {
            phase: if self.reporter.notify_command is Some {
                FilingPhase::Notify { written }
            } else {
                FilingPhase::End { written }
            },
            ..self
        }
    }

    /// The filing once the action at hand has come to `answer`. A name that is taken is
    /// passed over for the next one.
    pub open spec fn after(self, answer: FilingAnswer) -> FilingModel {
        match self.phase {
            FilingPhase::Create => match answer {
                FilingAnswer::Written => self.settled(true),
                FilingAnswer::Exists => if self.number < u64::MAX {
                    FilingModel { number: (self.number + 1) as u64, ..self }
                } else {
                    self.settled(false)
                },
                _ => self.settled(false),
            },
            FilingPhase::Notify { written } => FilingModel {
                phase: FilingPhase::End { written },
                ..self
            },
            FilingPhase::End { .. } => self,
        }
    }

    /// Whether `action` is what has to be done next.
    pub open spec fn is_next(self, action: FilingAction) -> bool {
        match self.phase {
            FilingPhase::Create => action matches FilingAction::Create { path, body } && path@
                == self.path() && body@ == self.body(),
            FilingPhase::Notify { written } => {
                &&& action matches FilingAction::Notify(notice)
                &&& self.reporter.notify_command == Some(notice.command@)
                &&& assignments(notice.variables@) == notice_variables(
                    self.pid,
                    self.reason,
                    self.path(),
                    self.action_taken,
                )
            },
            FilingPhase::End { written } => action == (FilingAction::End { written }),
        }
    }

    /// Whether there is a hook where one is to be run.
    pub open spec fn is_valid(self) -> bool {
        self.phase is Notify ==> self.reporter.notify_command is Some
    }
}

impl<'a> Filing<'a> {
    /// What has to be done next.
    pub fn action(&self) -> (action: FilingAction)
        requires
            self@.is_valid(),
        ensures
            self@.is_next(action),
    {
        if let FilingPhase::End { written } = self.phase {
            return FilingAction::End { written };
        }
        let report = self.reporter.report_at(
            self.stamp,
            self.number,
            self.mode,
            self.pid,
            self.reason.as_str(),
            &self.affected,
            &self.quarantined,
            self.action_taken,
        );
        match (self.phase, report.notice) {
            (FilingPhase::Notify { written }, Some(notice)) => FilingAction::Notify(notice),
            _ => FilingAction::Create { path: report.path, body: report.body },
        }
    }

    fn settle(&mut self, written: bool)
        ensures
            final(self)@ == old(self)@.settled(written),
    {
        self.phase = if self.reporter.notify_command.is_some() {
            FilingPhase::Notify { written }
        } else {
            FilingPhase::End { written }
        };
    }

    /// Records what the action at hand has come to.
    pub fn advance(&mut self, answer: FilingAnswer)
        requires
            old(self)@.is_valid(),
        ensures
            final(self)@.is_valid(),
            final(self)@ == old(self)@.after(answer),
    {
        match self.phase {
            FilingPhase::Create => match answer {
                FilingAnswer::Written => {
                    self.settle(true);
                },
                FilingAnswer::Exists => {
                    if self.number < u64::MAX {
                        self.number = self.number + 1;
                    } else {
                        self.settle(false);
                    }
                },
                _ => {
                    self.settle(false);
                },
            },
            FilingPhase::Notify { written } => {
                self.phase = FilingPhase::End { written };
            },
            FilingPhase::End { written } => {},
        }
    }
}

proof fn a_number_has_no_slash(n: int)
    ensures
        n >= 0 ==> forall|i: int| 0 <= i < decimal(n as nat).len() ==> #[trigger] decimal(n as nat)[i]
            != '/',
        n >= 0 ==> decimal(n as nat).len() >= 1,
        forall|i: int| 0 <= i < signed_decimal(n).len() ==> #[trigger] signed_decimal(n)[i] != '/',
    decreases
            if n < 0 {
                -n + 1
            } else {
                n
            },
{
    if n < 0 {
        a_number_has_no_slash(-n);
    } else if n >= 10 {
        a_number_has_no_slash(n / 10);
    }
}

proof fn a_report_name_has_no_slash(stamp: u64, pid: i32, number: u64)
    ensures
        report_name(stamp, pid, number).len() > 0,
        forall|i: int|
            0 <= i < report_name(stamp, pid, number).len() ==> #[trigger] report_name(
                stamp,
                pid,
                number,
            )[i] != '/',
{
    a_number_has_no_slash(stamp as int);
    a_number_has_no_slash(pid as int);
    a_number_has_no_slash(number as int);
    reveal_strlit(".txt");
}

/// Each detection has a report of its own: two reports on one process in one second
/// have different paths as long as their numbers differ.
pub proof fn reports_with_different_numbers_have_different_paths(
    dir: Seq<u8>,
    stamp: u64,
    pid: i32,
    number: u64,
    other: u64,
)
    requires
        number != other,
    ensures
        joined(dir, encode_utf8(report_name(stamp, pid, number))) != joined(
            dir,
            encode_utf8(report_name(stamp, pid, other)),
        ),
{
    let name = report_name(stamp, pid, number);
    let other_name = report_name(stamp, pid, other);
    a_report_name_has_no_slash(stamp, pid, number);
    a_report_name_has_no_slash(stamp, pid, other);
    encoding_of_text_without_slashes(name);
    encoding_of_text_without_slashes(other_name);
    let bytes = encode_utf8(name);
    let other_bytes = encode_utf8(other_name);
    if joined(dir, bytes) == joined(dir, other_bytes) {
        let skipped = joined(dir, bytes).len() - bytes.len();
        assert(joined(dir, bytes).skip(skipped) =~= bytes);
        assert(joined(dir, other_bytes).skip(skipped) =~= other_bytes);
        encode_utf8_decode_utf8(name);
        encode_utf8_decode_utf8(other_name);
        assert(name == other_name);
        let head = decimal(stamp as nat) + seq!['_'] + signed_decimal(pid as int);
        let end = name.len() - ".txt"@.len();
        assert(name.subrange(head.len() as int, end) =~= number_part(number));
        assert(other_name.subrange(head.len() as int, end) =~= number_part(other));
        a_number_has_no_slash(number as int);
        a_number_has_no_slash(other as int);
        if number > 0 && other > 0 {
            assert(number_part(number).skip(1) =~= decimal(number as nat));
            assert(number_part(other).skip(1) =~= decimal(other as nat));
            decimal_is_injective(number as nat, other as nat);
        }
    }
}

/// The filing of a report after a series of answers.
pub open spec fn filing_run(start: FilingModel, answers: Seq<FilingAnswer>) -> FilingModel
    decreases answers.len(),
{
    if answers.len() == 0 {
        start
    } else {
        filing_run(start, answers.drop_last()).after(answers.last())
    }
}

/// The filing with another number.
pub open spec fn numbered(m: FilingModel, number: u64) -> FilingModel {
    FilingModel { number, ..m }
}

proof fn numbers_count_the_taken_names(start: FilingModel, answers: Seq<FilingAnswer>)
    requires
        start.phase is Create,
        filing_run(start, answers).phase is Create,
    ensures
        start.number + answers.len() <= u64::MAX,
        filing_run(start, answers) == numbered(start, (start.number + answers.len()) as u64),
    decreases answers.len(),
{
    if answers.len() > 0 {
        numbers_count_the_taken_names(start, answers.drop_last());
    }
}

/// Whatever the system answers, no name is tried twice: a path that was found to be
/// taken is not named again.
pub proof fn a_taken_path_is_never_named_again(
    start: FilingModel,
    answers: Seq<FilingAnswer>,
    i: int,
    j: int,
)
    requires
        start.phase is Create,
        0 <= i < j <= answers.len(),
        filing_run(start, answers.take(i)).phase is Create,
        filing_run(start, answers.take(j)).phase is Create,
    ensures
        filing_run(start, answers.take(i)).path() != filing_run(start, answers.take(j)).path(),
{
    numbers_count_the_taken_names(start, answers.take(i));
    numbers_count_the_taken_names(start, answers.take(j));
    reports_with_different_numbers_have_different_paths(
        start.reporter.dir,
        start.stamp,
        start.pid,
        (start.number + i) as u64,
        (start.number + j) as u64,
    );
}

/// What a system answers where the files are `files` and where it can create others.
pub open spec fn faithful_answer(files: Map<Seq<u8>, Seq<char>>, m: FilingModel) -> FilingAnswer {
    if m.phase is Create {
        if files.contains_key(m.path()) {
            FilingAnswer::Exists
        } else {
            FilingAnswer::Written
        }
    } else {
        FilingAnswer::Done
    }
}

/// The files once the action at hand was performed: a file is only ever created.
pub open spec fn files_after(files: Map<Seq<u8>, Seq<char>>, m: FilingModel) -> Map<
    Seq<u8>,
    Seq<char>,
> {
    if m.phase is Create && !files.contains_key(m.path()) {
        files.insert(m.path(), m.body())
    } else {
        files
    }
}

/// The files and the filing after `n` actions.
pub open spec fn filed(files: Map<Seq<u8>, Seq<char>>, m: FilingModel, n: nat) -> (
    Map<Seq<u8>, Seq<char>>,
    FilingModel,
)
    decreases n,
{
    if n == 0 {
        (files, m)
    } else {
        filed(files_after(files, m), m.after(faithful_answer(files, m)), (n - 1) as nat)
    }
}

proof fn a_settled_filing_creates_nothing(
    files: Map<Seq<u8>, Seq<char>>,
    m: FilingModel,
    n: nat,
)
    requires
        !(m.phase is Create),
    ensures
        filed(files, m, n).0 == files,
        m.phase matches FilingPhase::Notify { written } ==> filed(files, m, n).1.phase == if n
            == 0 {
            m.phase
        } else {
            FilingPhase::End { written }
        },
        m.phase is End ==> filed(files, m, n).1.phase == m.phase,
    decreases n,
{
    if n > 0 {
        a_settled_filing_creates_nothing(
            files,
            m.after(faithful_answer(files, m)),
            (n - 1) as nat,
        );
    }
}

/// The number of the first name that is not taken is found, where there is one.
proof fn the_first_free_name_is_taken(
    files: Map<Seq<u8>, Seq<char>>,
    m: FilingModel,
    free: u64,
    n: nat,
)
    requires
        m.phase is Create,
        m.number <= free,
        !files.contains_key(numbered(m, free).path()),
        forall|k: u64|
            m.number <= k < free ==> files.contains_key((#[trigger] numbered(m, k)).path()),
        n > free - m.number,
    ensures
        filed(files, m, n).0 == files.insert(numbered(m, free).path(), m.body()),
        filed(files, m, n).1.phase matches FilingPhase::Notify { written } ==> written,
        filed(files, m, n).1.phase matches FilingPhase::End { written } ==> written,
        !(filed(files, m, n).1.phase is Create),
        n > free - m.number + 1 ==> filed(files, m, n).1.phase is End,
    decreases free - m.number,
{
    assert(numbered(m, m.number) == m);
    if m.number == free {
        a_settled_filing_creates_nothing(
            files_after(files, m),
            m.settled(true),
            (n - 1) as nat,
        );
    } else {
        let next = m.after(FilingAnswer::Exists);
        assert(files.contains_key(numbered(m, m.number).path()));
        assert forall|k: u64| next.number <= k < free implies files.contains_key(
            (#[trigger] numbered(next, k)).path(),
        ) by {
            assert(numbered(next, k) == numbered(m, k));
        }
        assert(numbered(next, free) == numbered(m, free));
        the_first_free_name_is_taken(files, next, free, (n - 1) as nat);
    }
}

/// The paths of the first `n` numbers.
spec fn first_paths(m: FilingModel, n: nat) -> Set<Seq<u8>>
    decreases n,
{
    if n == 0 {
        Set::empty()
    } else {
        first_paths(m, (n - 1) as nat).insert(numbered(m, (n - 1) as u64).path())
    }
}

proof fn first_paths_are_distinct(m: FilingModel, n: nat)
    requires
        n <= u64::MAX,
    ensures
        first_paths(m, n).finite(),
        first_paths(m, n).len() == n,
        forall|p: Seq<u8>| #[trigger]
            first_paths(m, n).contains(p) ==> exists|k: u64|
                k < n && (#[trigger] numbered(m, k)).path() == p,
    decreases n,
{
    if n > 0 {
        let before = first_paths(m, (n - 1) as nat);
        first_paths_are_distinct(m, (n - 1) as nat);
        let last = (n - 1) as u64;
        let p = numbered(m, last).path();
        if before.contains(p) {
            let k = choose|k: u64| k < n - 1 && (#[trigger] numbered(m, k)).path() == p;
            reports_with_different_numbers_have_different_paths(
                m.reporter.dir,
                m.stamp,
                m.pid,
                k,
                last,
            );
        }
        assert(numbered(m, last).path() == p);
    }
}

proof fn some_name_is_free(files: Map<Seq<u8>, Seq<char>>, m: FilingModel, n: nat) -> (free: u64)
    requires
        files.dom().finite(),
        files.len() < n <= u64::MAX,
    ensures
        free < n,
        !files.contains_key(numbered(m, free).path()),
        forall|k: u64| k < free ==> files.contains_key((#[trigger] numbered(m, k)).path()),
{
    if exists|k: u64| k < n && !files.contains_key((#[trigger] numbered(m, k)).path()) {
        let k = choose|k: u64| k < n && !files.contains_key((#[trigger] numbered(m, k)).path());
        least_free_name(files, m, k)
    } else {
        first_paths_are_distinct(m, n);
        assert forall|p: Seq<u8>| first_paths(m, n).contains(p) implies files.dom().contains(p) by {
            let k = choose|k: u64| k < n && (#[trigger] numbered(m, k)).path() == p;
            assert(files.contains_key(numbered(m, k).path()));
        }
        vstd::set_lib::lemma_len_subset(first_paths(m, n), files.dom());
        0
    }
}

proof fn least_free_name(files: Map<Seq<u8>, Seq<char>>, m: FilingModel, k: u64) -> (free: u64)
    requires
        !files.contains_key(numbered(m, k).path()),
    ensures
        free <= k,
        !files.contains_key(numbered(m, free).path()),
        forall|i: u64| i < free ==> files.contains_key((#[trigger] numbered(m, i)).path()),
    decreases k,
{
    if exists|i: u64| i < k && !files.contains_key((#[trigger] numbered(m, i)).path()) {
        let i = choose|i: u64| i < k && !files.contains_key((#[trigger] numbered(m, i)).path());
        least_free_name(files, m, i)
    } else {
        k
    }
}

/// Filing a report changes no file that is there: no report overwrites another.
pub proof fn no_report_overwrites_another(
    files: Map<Seq<u8>, Seq<char>>,
    m: FilingModel,
    n: nat,
    path: Seq<u8>,
)
    requires
        files.contains_key(path),
    ensures
        filed(files, m, n).0.contains_key(path),
        filed(files, m, n).0[path] == files[path],
    decreases n,
{
    if n > 0 {
        no_report_overwrites_another(
            files_after(files, m),
            m.after(faithful_answer(files, m)),
            (n - 1) as nat,
            path,
        );
    }
}

/// Each report gets a file of its own, whatever files are there: one file more than
/// before, which holds the report, and nothing else.
pub proof fn every_report_gets_a_file_of_its_own(
    files: Map<Seq<u8>, Seq<char>>,
    m: FilingModel,
    n: nat,
) -> (path: Seq<u8>)
    requires
        files.dom().finite(),
        files.len() < u64::MAX,
        m.phase is Create,
        m.number == 0,
        n >= files.len() + 2,
    ensures
        !files.contains_key(path),
        filed(files, m, n).0 == files.insert(path, m.body()),
        filed(files, m, n).1.phase == (FilingPhase::End { written: true }),
{
    let free = some_name_is_free(files, m, files.len() + 1);
    the_first_free_name_is_taken(files, m, free, n);
    numbered(m, free).path()
}

/// One file per detection: of two reports, be they on the same process and from the same
/// second, both are there in the end, each with its own text.
pub proof fn two_detections_leave_two_reports(
    files: Map<Seq<u8>, Seq<char>>,
    first: FilingModel,
    second: FilingModel,
    n: nat,
) -> (paths: (Seq<u8>, Seq<u8>))
    requires
        files.dom().finite(),
        files.len() + 1 < u64::MAX,
        first.phase is Create,
        first.number == 0,
        second.phase is Create,
        second.number == 0,
        n >= files.len() + 3,
    ensures
        paths.0 != paths.1,
        !files.contains_key(paths.0),
        !files.contains_key(paths.1),
        filed(filed(files, first, n).0, second, n).0 == files.insert(
            paths.0,
            first.body(),
        ).insert(paths.1, second.body()),
{
    let one = every_report_gets_a_file_of_its_own(files, first, n);
    let between = filed(files, first, n).0;
    let two = every_report_gets_a_file_of_its_own(between, second, n);
    (one, two)
}

/// Whether `s` holds no control character, and so no line break.
pub open spec fn is_clean(s: Seq<char>) -> bool {
    forall|i: int| 0 <= i < s.len() ==> !is_control_char(#[trigger] s[i])
}

/// The lines that line breaks cut `text` into, and what stands behind the last break.
pub open spec fn broken(text: Seq<char>) -> (Seq<Seq<char>>, Seq<char>)
    decreases text.len(),
{
    if text.len() == 0 {
        (Seq::empty(), Seq::empty())
    } else {
        let (lines, rest) = broken(text.drop_last());
        if text.last() == '\n' {
            (lines.push(rest), Seq::empty())
        } else {
            (lines, rest.push(text.last()))
        }
    }
}

proof fn fixed_words_are_clean()
    ensures
        is_clean("RansomShield incident report"@),
        is_clean("============================="@),
        is_clean("Time (unix epoch seconds): "@),
        is_clean("Mode: "@),
        is_clean("Monitor"@),
        is_clean("Enforce"@),
        is_clean("Action taken: "@),
        is_clean("yes - process killed (SIGSTOP then SIGKILL), files below moved to quarantine"@),
        is_clean("no - monitor mode or the process could not be neutralized, see logs"@),
        is_clean("Suspect PID: "@),
        is_clean("Reason: "@),
        is_clean("Affected files"@),
        is_clean("Quarantined to"@),
        is_clean(" ("@),
        is_clean("):"@),
        is_clean("  (none)"@),
        is_clean("  - "@),
{
    reveal_strlit("RansomShield incident report");
    reveal_strlit("=============================");
    reveal_strlit("Time (unix epoch seconds): ");
    reveal_strlit("Mode: ");
    reveal_strlit("Monitor");
    reveal_strlit("Enforce");
    reveal_strlit("Action taken: ");
    reveal_strlit("yes - process killed (SIGSTOP then SIGKILL), files below moved to quarantine");
    reveal_strlit("no - monitor mode or the process could not be neutralized, see logs");
    reveal_strlit("Suspect PID: ");
    reveal_strlit("Reason: ");
    reveal_strlit("Affected files");
    reveal_strlit("Quarantined to");
    reveal_strlit(" (");
    reveal_strlit("):");
    reveal_strlit("  (none)");
    reveal_strlit("  - ");
}

proof fn a_number_is_clean(n: int)
    ensures
        n >= 0 ==> is_clean(decimal(n as nat)),
        is_clean(signed_decimal(n)),
    decreases
            if n < 0 {
                -n + 1
            } else {
                n
            },
{
    if n < 0 {
        a_number_is_clean(-n);
    } else if n >= 10 {
        a_number_is_clean(n / 10);
    }
}

proof fn a_clean_text_breaks_nothing(text: Seq<char>, line: Seq<char>)
    requires
        is_clean(line),
    ensures
        broken(text + line) == (broken(text).0, broken(text).1 + line),
    decreases line.len(),
{
    if line.len() == 0 {
        assert(text + line =~= text);
        assert(broken(text).1 + line =~= broken(text).1);
    } else {
        a_clean_text_breaks_nothing(text, line.drop_last());
        assert((text + line).drop_last() =~= text + line.drop_last());
        assert(!is_control_char(line.last()));
        assert((broken(text).1 + line.drop_last()).push(line.last()) =~= broken(text).1 + line);
    }
}

/// Lines without control characters are found again in their text: nothing in them
/// passes for another line.
pub proof fn clean_lines_are_found_again(lines: Seq<Seq<char>>)
    requires
        forall|i: int| 0 <= i < lines.len() ==> is_clean(#[trigger] lines[i]),
    ensures
        broken(terminated(lines)) == (lines, Seq::<char>::empty()),
    decreases lines.len(),
{
    if lines.len() > 0 {
        let before = lines.drop_last();
        clean_lines_are_found_again(before);
        let text = terminated(before) + lines.last();
        a_clean_text_breaks_nothing(terminated(before), lines.last());
        assert(Seq::<char>::empty() + lines.last() =~= lines.last());
        assert(terminated(lines).drop_last() =~= text);
        assert(before.push(lines.last()) =~= lines);
    } else {
        assert(lines =~= Seq::<Seq<char>>::empty());
    }
}

proof fn a_section_is_clean(title: Seq<char>, paths: Seq<Seq<char>>)
    requires
        is_clean(title),
    ensures
        forall|i: int|
            0 <= i < section(title, paths).len() ==> is_clean(#[trigger] section(title, paths)[i]),
        section(title, paths).len() == 1 + if paths.len() == 0 {
            1
        } else {
            paths.len()
        },
{
    let lines = section(title, paths);
    fixed_words_are_clean();
    a_number_is_clean(paths.len() as int);
    assert forall|i: int| 0 <= i < lines.len() implies is_clean(#[trigger] lines[i]) by {
        if i > 0 && paths.len() > 0 {
            sanitized_text_is_free_of_control_characters(paths[i - 1]);
            assert(is_clean(sanitized(paths[i - 1])));
        }
    }
}

/// Whatever an attacker calls a file, a report has the lines that it ought to have
/// and no others: one for each listed file, and none that a name has forged.
pub proof fn names_forge_no_lines(
    stamp: u64,
    mode: Mode,
    pid: i32,
    reason: Seq<char>,
    affected: Seq<Seq<char>>,
    quarantined: Seq<Seq<char>>,
    action_taken: bool,
)
    ensures
        ({
            let lines = report_lines_of(
                stamp,
                mode,
                pid,
                reason,
                affected,
                quarantined,
                action_taken,
            );
            &&& broken(terminated(lines)) == (lines, Seq::<char>::empty())
            &&& lines.len() == 11 + (if affected.len() == 0 {
                1
            } else {
                affected.len()
            }) + (if quarantined.len() == 0 {
                1
            } else {
                quarantined.len()
            })
        }),
{
    let lines = report_lines_of(stamp, mode, pid, reason, affected, quarantined, action_taken);
    fixed_words_are_clean();
    a_number_is_clean(stamp as int);
    a_number_is_clean(pid as int);
    sanitized_text_is_free_of_control_characters(reason);
    a_section_is_clean("Affected files"@, affected);
    a_section_is_clean("Quarantined to"@, quarantined);
    assert(is_clean(sanitized(reason)));
    let head = summary(stamp, mode, pid, reason, action_taken);
    assert forall|i: int| 0 <= i < head.len() implies is_clean(#[trigger] head[i]) by {
    }
    assert forall|i: int| 0 <= i < lines.len() implies is_clean(#[trigger] lines[i]) by {
        let first = section("Affected files"@, affected);
        let second = section("Quarantined to"@, quarantined);
        if i < head.len() {
            assert(lines[i] == head[i]);
        } else if i < head.len() + first.len() {
            assert(lines[i] == first[i - head.len()]);
        } else if i > head.len() + first.len() {
            assert(lines[i] == second[i - head.len() - first.len() - 1]);
        }
    }
    clean_lines_are_found_again(lines);
}

/// The first lines of a report say what it is, and give the time, the mode, whether action
/// was taken, the process and the reason, each on a line of its own.
pub proof fn a_report_says_what_happened(
    stamp: u64,
    mode: Mode,
    pid: i32,
    reason: Seq<char>,
    affected: Seq<Seq<char>>,
    quarantined: Seq<Seq<char>>,
    action_taken: bool,
)
    ensures
        ({
            let lines = report_lines_of(
                stamp,
                mode,
                pid,
                reason,
                affected,
                quarantined,
                action_taken,
            );
            &&& lines.len() > 8
            &&& lines[0] == "RansomShield incident report"@
            &&& lines[1] == "============================="@
            &&& lines[2] == "Time (unix epoch seconds): "@ + decimal(stamp as nat)
            &&& mode is Monitor ==> lines[3] == "Mode: "@ + "Monitor"@
            &&& mode is Enforce ==> lines[3] == "Mode: "@ + "Enforce"@
            &&& action_taken ==> lines[4] == "Action taken: "@
                + "yes - process killed (SIGSTOP then SIGKILL), files below moved to quarantine"@
            &&& !action_taken ==> lines[4] == "Action taken: "@
                + "no - monitor mode or the process could not be neutralized, see logs"@
            &&& lines[5] == "Suspect PID: "@ + signed_decimal(pid as int)
            &&& lines[6] == "Reason: "@ + sanitized(reason)
            &&& lines[7].len() == 0
        }),
{
}

/// A report lists every affected file and every file in quarantine, in their order, one to
/// a line, under a heading with their number; where there is none, a line says so. Nothing
/// else stands in it.
pub proof fn a_report_lists_every_file(
    stamp: u64,
    mode: Mode,
    pid: i32,
    reason: Seq<char>,
    affected: Seq<Seq<char>>,
    quarantined: Seq<Seq<char>>,
    action_taken: bool,
    i: int,
)
    ensures
        ({
            let lines = report_lines_of(
                stamp,
                mode,
                pid,
                reason,
                affected,
                quarantined,
                action_taken,
            );
            let first = 9int;
            let gap = first + if affected.len() == 0 {
                1
            } else {
                affected.len() as int
            };
            let second = gap + 2;
            let end = second + if quarantined.len() == 0 {
                1
            } else {
                quarantined.len() as int
            };
            &&& lines.len() == end
            &&& lines[8] == "Affected files"@ + " ("@ + decimal(affected.len()) + "):"@
            &&& affected.len() == 0 ==> lines[first] == "  (none)"@
            &&& 0 <= i < affected.len() ==> lines[first + i] == "  - "@ + sanitized(affected[i])
            &&& lines[gap].len() == 0
            &&& lines[gap + 1] == "Quarantined to"@ + " ("@ + decimal(quarantined.len()) + "):"@
            &&& quarantined.len() == 0 ==> lines[second] == "  (none)"@
            &&& 0 <= i < quarantined.len() ==> lines[second + i] == "  - "@ + sanitized(
                quarantined[i],
            )
        }),
{
    let head = summary(stamp, mode, pid, reason, action_taken);
    let one = section("Affected files"@, affected);
    let two = section("Quarantined to"@, quarantined);
    let lines = report_lines_of(stamp, mode, pid, reason, affected, quarantined, action_taken);
    assert(head.len() == 8);
    let gap = 8 + one.len() as int;
    assert(lines[8] == one[0]);
    assert(lines[gap].len() == 0);
    assert(lines[gap + 1] == two[0]);
    if affected.len() == 0 {
        assert(lines[9] == one[1]);
    } else if 0 <= i < affected.len() {
        assert(lines[9 + i] == one[1 + i]);
    }
    if quarantined.len() == 0 {
        assert(lines[gap + 2] == two[1]);
    } else if 0 <= i < quarantined.len() {
        assert(lines[gap + 2 + i] == two[1 + i]);
    }
}

/// Each line of a text is followed by a line break: a further line adds itself and one
/// break, and no lines make no text.
pub proof fn each_line_is_terminated(lines: Seq<Seq<char>>, line: Seq<char>)
    ensures
        terminated(Seq::empty()).len() == 0,
        terminated(lines.push(line)) == terminated(lines) + line + seq!['\n'],
{
    assert(lines.push(line).drop_last() =~= lines);
}

/// The name of a report gives the time and the process; its number follows where it is not
/// the first.
pub proof fn the_name_of_a_report_tells_what_it_is_on(stamp: u64, pid: i32, number: u64)
    ensures
        report_name(stamp, pid, 0) == decimal(stamp as nat) + seq!['_'] + signed_decimal(
            pid as int,
        ) + ".txt"@,
        number > 0 ==> report_name(stamp, pid, number) == decimal(stamp as nat) + seq!['_']
            + signed_decimal(pid as int) + seq!['_'] + decimal(number as nat) + ".txt"@,
{
    assert(report_name(stamp, pid, 0) =~= decimal(stamp as nat) + seq!['_'] + signed_decimal(
        pid as int,
    ) + ".txt"@);
    if number > 0 {
        assert(report_name(stamp, pid, number) =~= decimal(stamp as nat) + seq!['_']
            + signed_decimal(pid as int) + seq!['_'] + decimal(number as nat) + ".txt"@);
    }
}

/// The hook is told the process, the reason without control characters, where the report
/// is, byte for byte, and whether action was taken, and nothing else.
pub proof fn the_hook_is_told_four_things(
    pid: i32,
    reason: Seq<char>,
    report: Seq<u8>,
    action_taken: bool,
)
    ensures
        ({
            let told = notice_variables(pid, reason, report, action_taken);
            &&& told.len() == 4
            &&& told[0] == ("RANSOMSHIELD_PID"@, encode_utf8(signed_decimal(pid as int)))
            &&& told[1] == ("RANSOMSHIELD_REASON"@, encode_utf8(sanitized(reason)))
            &&& told[2] == ("RANSOMSHIELD_REPORT_PATH"@, report)
            &&& action_taken ==> told[3] == ("RANSOMSHIELD_ACTION_TAKEN"@, encode_utf8("true"@))
            &&& !action_taken ==> told[3] == (
                "RANSOMSHIELD_ACTION_TAKEN"@,
                encode_utf8("false"@),
            )
        }),
{
}

/// The filing of a report begins with what is to be reported, as it was told, and with the
/// first name.
pub proof fn a_filing_begins_with_the_first_name(
    reporter: ReporterModel,
    stamp: u64,
    mode: Mode,
    pid: i32,
    reason: Seq<char>,
    affected: Seq<Seq<u8>>,
    quarantined: Seq<Seq<u8>>,
    action_taken: bool,
)
    requires
        reporter.dir.len() > 0,
        reporter.dir.last() != 47,
    ensures
        ({
            let m = filing_of(
                reporter,
                stamp,
                mode,
                pid,
                reason,
                affected,
                quarantined,
                action_taken,
            );
            &&& m.phase is Create && m.number == 0 && m.reporter == reporter
            &&& m.stamp == stamp && m.mode == mode && m.pid == pid && m.reason == reason
            &&& m.affected == affected && m.quarantined == quarantined
            &&& m.action_taken == action_taken
            &&& m.path() == reporter.dir + seq![47u8] + encode_utf8(report_name(stamp, pid, 0))
            &&& m.body() == terminated(
                report_lines_of(
                    stamp,
                    mode,
                    pid,
                    reason,
                    affected.map_values(|path: Seq<u8>| lossy_text(path)),
                    quarantined.map_values(|path: Seq<u8>| lossy_text(path)),
                    action_taken,
                ),
            )
        }),
{
    let name = report_name(stamp, pid, 0);
    a_report_name_has_no_slash(stamp, pid, 0);
    encoding_of_text_without_slashes(name);
    assert(encode_utf8(name)[0] != 47);
    joining_puts_one_slash_between(reporter.dir, encode_utf8(name));
    assert(displayed(affected) =~= affected.map_values(|path: Seq<u8>| lossy_text(path)));
    assert(displayed(quarantined) =~= quarantined.map_values(|path: Seq<u8>| lossy_text(path)));
}

/// A name that is taken leads to the next number, and to nothing else, as long as there is
/// one. A report that was written, and one that could not be, is settled, and whoever is
/// to be told is told of either; then the filing is over.
pub proof fn a_report_is_written_or_given_up(m: FilingModel, answer: FilingAnswer)
    ensures
        ({
            let now = m.after(answer);
            let hook = m.reporter.notify_command is Some;
            let more = answer is Exists && m.number < u64::MAX;
            let done = answer is Written;
            &&& m.phase is Create && more ==> now == (FilingModel {
                number: (m.number + 1) as u64,
                ..m
            })
            &&& m.phase is Create && !more && hook ==> now == (FilingModel {
                phase: FilingPhase::Notify { written: done },
                ..m
            })
            &&& m.phase is Create && !more && !hook ==> now == (FilingModel {
                phase: FilingPhase::End { written: done },
                ..m
            })
            &&& m.phase is Notify ==> now == (FilingModel {
                phase: FilingPhase::End { written: m.phase->Notify_written },
                ..m
            })
            &&& m.phase is End ==> now == m
        }),
{
}

/// What is done is done for the report at hand: its text goes to its path, and the hook is
/// the operator's and is told of that path.
pub proof fn filing_actions_are_on_the_report_at_hand(m: FilingModel, action: FilingAction)
    requires
        m.is_next(action),
    ensures
        m.phase is Create <==> action is Create,
        m.phase is Notify <==> action is Notify,
        m.phase is End <==> action is End,
        action is Create ==> action->path@ == m.path() && action->body@ == m.body(),
        action is Notify ==> m.reporter.notify_command == Some(action->Notify_0.command@)
            && assignments(action->Notify_0.variables@) == notice_variables(
            m.pid,
            m.reason,
            m.path(),
            m.action_taken,
        ),
        action is End ==> action->written == m.phase->End_written,
{
}

/// A report at a given time goes to its own path with its own text, and tells the hook of
/// it exactly where there is one.
pub proof fn a_report_is_on_what_it_was_asked_for(
    reporter: ReporterModel,
    stamp: u64,
    number: u64,
    mode: Mode,
    pid: i32,
    reason: Seq<char>,
    affected: Seq<Seq<u8>>,
    quarantined: Seq<Seq<u8>>,
    action_taken: bool,
    report: Report,
)
    requires
        reporter.is_reported_by(
            stamp,
            number,
            mode,
            pid,
            reason,
            affected,
            quarantined,
            action_taken,
            report,
        ),
    ensures
        ({
            let first = filing_of(
                reporter,
                stamp,
                mode,
                pid,
                reason,
                affected,
                quarantined,
                action_taken,
            );
            &&& report.path@ == numbered(first, number).path()
            &&& report.body@ == first.body()
            &&& reporter.notify_command is None ==> report.notice is None
            &&& reporter.notify_command is Some ==> {
                &&& report.notice is Some
                &&& report.notice->0.command@ == reporter.notify_command->0
                &&& assignments(report.notice->0.variables@) == notice_variables(
                    pid,
                    reason,
                    report.path@,
                    action_taken,
                )
            }
        }),
{
}

/// The lines that list files are as many as the files, each with the file that it is for,
/// and one that says so where there is none; a text holds each line with a break behind
/// it, in order.
pub proof fn files_are_listed_one_to_a_line(
    paths: &Vec<String>,
    lines: Vec<String>,
    i: int,
    all: &Vec<String>,
    text: String,
)
    requires
        call_ensures(format_list, (paths,), lines),
        call_ensures(terminate, (all,), text),
    ensures
        paths@.len() == 0 ==> lines@.len() == 1 && lines@[0]@ == "  (none)"@,
        paths@.len() > 0 ==> lines@.len() == paths@.len(),
        0 <= i < paths@.len() ==> lines@[i]@ == "  - "@ + sanitized(paths@[i]@),
        all@.len() == 0 ==> text@.len() == 0,
        all@.len() == 1 ==> text@ == all@[0]@ + seq!['\n'],
{
    assert(texts(lines@).len() == lines@.len());
    assert(texts(paths@).len() == paths@.len());
    if paths@.len() == 0 {
        assert(texts(lines@)[0] == lines@[0]@);
    }
    if 0 <= i < paths@.len() {
        assert(texts(lines@)[i] == lines@[i]@);
        assert(texts(paths@)[i] == paths@[i]@);
    }
    if all@.len() == 1 {
        let one = texts(all@);
        assert(one.drop_last() =~= Seq::<Seq<char>>::empty());
        assert(terminated(one.drop_last()) =~= Seq::<char>::empty());
        assert(one.last() == all@[0]@);
        assert(text@ =~= all@[0]@ + seq!['\n']);
    }
}

/// Reports go into the directory given, and the hook is the one given; the filing of a
/// report begins with the first name, on what it was asked for, and a name that is taken
/// leads to the next.
pub proof fn reports_are_filed_where_the_operator_wants_them<'a>(
    dir: FilePath,
    hook: Option<String>,
    made: IncidentReporter,
    reporter: &'a IncidentReporter,
    stamp: u64,
    mode: Mode,
    pid: i32,
    reason: &str,
    affected: &Vec<FilePath>,
    quarantined: &Vec<FilePath>,
    action_taken: bool,
    filing: Filing<'a>,
    work: &mut Filing<'a>,
)
    requires
        call_ensures(IncidentReporter::new, (dir, hook), made),
        call_ensures(
            IncidentReporter::file_at,
            (reporter, stamp, mode, pid, reason, affected, quarantined, action_taken),
            filing,
        ),
        old(work)@.phase is Create,
        old(work)@.number < u64::MAX,
        call_ensures(Filing::advance, (work, FilingAnswer::Exists), ()),
    ensures
        made@.dir == dir@,
        made@.notify_command is Some <==> hook is Some,
        hook is Some ==> made@.notify_command->0 == hook->0@,
        filing@.reporter == reporter@,
        filing@.stamp == stamp,
        filing@.number == 0,
        filing@.mode == mode,
        filing@.pid == pid,
        filing@.reason == reason@,
        filing@.affected == views(affected@),
        filing@.quarantined == views(quarantined@),
        filing@.action_taken == action_taken,
        filing@.phase is Create,
        final(work)@.number == old(work)@.number + 1,
        final(work)@ == (FilingModel { number: final(work)@.number, ..old(work)@ }),
{
}

} // verus!
