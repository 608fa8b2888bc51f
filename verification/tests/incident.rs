use ransomshield::config::Mode;
use ransomshield::incident::{
    format_list, report_lines, terminate, Filing, FilingAction, FilingAnswer, IncidentReporter,
    REPORTS_DIR_MODE,
};
use ransomshield::path::FilePath;

fn files(names: &[&str]) -> Vec<FilePath> {
    names.iter().map(|n| FilePath::from_text(n)).collect()
}

fn reporter(hook: Option<&str>) -> IncidentReporter {
    IncidentReporter::new(FilePath::from_text("/inc"), hook.map(|h| h.to_string()))
}

#[test]
fn a_report_reads_as_it_should() {
    let report = reporter(None).report_at(
        1700000000,
        0,
        Mode::Enforce,
        42,
        "3 high-entropy file rewrites",
        &files(&["/d/a", "/d/b"]),
        &files(&["/q/1"]),
        true,
    );
    assert_eq!(report.path.display(), "/inc/1700000000_42.txt");
    assert_eq!(
        report.body,
        "RansomShield incident report\n\
         =============================\n\
         Time (unix epoch seconds): 1700000000\n\
         Mode: Enforce\n\
         Action taken: yes - process killed (SIGSTOP then SIGKILL), files below moved to quarantine\n\
         Suspect PID: 42\n\
         Reason: 3 high-entropy file rewrites\n\
         \n\
         Affected files (2):\n  - /d/a\n  - /d/b\n\
         \n\
         Quarantined to (1):\n  - /q/1\n"
    );
    assert!(report.notice.is_none());
}

#[test]
fn an_observation_says_that_nothing_was_done() {
    let report =
        reporter(None).report_at(5, 0, Mode::Monitor, 7, "r", &files(&[]), &files(&[]), false);
    assert_eq!(
        report.body,
        "RansomShield incident report\n\
         =============================\n\
         Time (unix epoch seconds): 5\n\
         Mode: Monitor\n\
         Action taken: no - monitor mode or the process could not be neutralized, see logs\n\
         Suspect PID: 7\n\
         Reason: r\n\
         \n\
         Affected files (0):\n  (none)\n\
         \n\
         Quarantined to (0):\n  (none)\n"
    );
}

#[test]
fn a_file_name_cannot_forge_lines() {
    let evil = "/d/invoice.txt\n\nAffected files (0):\n  (none)\n";
    let report = reporter(None).report_at(
        5,
        0,
        Mode::Monitor,
        7,
        "reason\nwith a break",
        &files(&[evil]),
        &files(&[]),
        false,
    );
    assert_eq!(report.body.lines().count(), 13);
    assert!(report.body.contains(
        "\n  - /d/invoice.txt\u{FFFD}\u{FFFD}Affected files (0):\u{FFFD}  (none)\u{FFFD}\n"
    ));
    assert!(report.body.contains("\nReason: reason\u{FFFD}with a break\n"));
}

#[test]
fn the_hook_is_told_what_happened() {
    let report = reporter(Some("/opt/hook.sh")).report_at(
        8,
        0,
        Mode::Enforce,
        -3,
        "a\tb",
        &files(&[]),
        &files(&[]),
        true,
    );
    let notice = report.notice.unwrap();
    assert_eq!(notice.command, "/opt/hook.sh");
    let told: Vec<(String, String)> = notice
        .variables
        .iter()
        .map(|v| (v.name.clone(), String::from_utf8(v.value.clone()).unwrap()))
        .collect();
    let expected: Vec<(String, String)> = [
        ("RANSOMSHIELD_PID", "-3"),
        ("RANSOMSHIELD_REASON", "a\u{FFFD}b"),
        ("RANSOMSHIELD_REPORT_PATH", "/inc/8_-3.txt"),
        ("RANSOMSHIELD_ACTION_TAKEN", "true"),
    ]
    .iter()
    .map(|(n, v)| (n.to_string(), v.to_string()))
    .collect();
    assert_eq!(told, expected);
}

#[test]
fn a_hook_is_told_that_no_action_was_taken() {
    let report =
        reporter(Some("h")).report_at(8, 0, Mode::Monitor, 3, "a", &files(&[]), &files(&[]), false);
    let notice = report.notice.unwrap();
    assert_eq!(notice.variables[3].value, b"false".to_vec());
}

fn expect_create(filing: &Filing) -> (String, String) {
    match filing.action() {
        FilingAction::Create { path, body } => (path.display(), body),
        _ => panic!("expected a file to be created"),
    }
}

#[test]
fn a_report_now_is_stamped_with_the_time() {
    let filer = reporter(None);
    let filing = filer.report(Mode::Monitor, 9, "r", &files(&[]), &files(&[]), false);
    let (name, body) = expect_create(&filing);
    let stamp: u64 = name
        .strip_prefix("/inc/")
        .unwrap()
        .strip_suffix("_9.txt")
        .unwrap()
        .parse()
        .unwrap();
    assert!(stamp > 1_600_000_000);
    assert!(body.contains(&format!("Time (unix epoch seconds): {stamp}\n")));
}

#[test]
fn a_report_never_overwrites_another() {
    let filer = reporter(Some("/hook"));
    let mut filing = filer.file_at(5, Mode::Monitor, 7, "r", &files(&[]), &files(&[]), false);
    let (name, body) = expect_create(&filing);
    assert_eq!(name, "/inc/5_7.txt");
    filing.advance(FilingAnswer::Exists);
    assert_eq!(expect_create(&filing), ("/inc/5_7_1.txt".to_string(), body.clone()));
    filing.advance(FilingAnswer::Exists);
    assert_eq!(expect_create(&filing), ("/inc/5_7_2.txt".to_string(), body));
    filing.advance(FilingAnswer::Written);
    match filing.action() {
        FilingAction::Notify(notice) => {
            assert_eq!(notice.command, "/hook");
            assert_eq!(notice.variables[2].value, b"/inc/5_7_2.txt".to_vec());
        }
        _ => panic!("expected the hook to be run"),
    }
    filing.advance(FilingAnswer::Done);
    assert!(matches!(filing.action(), FilingAction::End { written: true }));
    filing.advance(FilingAnswer::Exists);
    assert!(matches!(filing.action(), FilingAction::End { written: true }));
}

#[test]
fn a_report_that_cannot_be_written_is_given_up_and_the_hook_runs_all_the_same() {
    let filer = reporter(Some("/hook"));
    let mut filing = filer.file_at(5, Mode::Monitor, 7, "r", &files(&[]), &files(&[]), false);
    filing.advance(FilingAnswer::Refused);
    assert!(matches!(filing.action(), FilingAction::Notify(_)));
    filing.advance(FilingAnswer::Done);
    assert!(matches!(filing.action(), FilingAction::End { written: false }));
    let quiet = reporter(None);
    let mut filing = quiet.file_at(5, Mode::Monitor, 7, "r", &files(&[]), &files(&[]), false);
    filing.advance(FilingAnswer::Refused);
    assert!(matches!(filing.action(), FilingAction::End { written: false }));
}

#[test]
fn a_list_without_files_says_so() {
    assert_eq!(format_list(&vec![]), vec!["  (none)"]);
    assert_eq!(
        format_list(&vec!["a".to_string(), "b\u{1b}c".to_string()]),
        vec!["  - a", "  - b\u{FFFD}c"]
    );
}

#[test]
fn every_line_ends_with_a_break() {
    assert_eq!(terminate(&vec![]), "");
    assert_eq!(terminate(&vec!["a".to_string(), String::new()]), "a\n\n");
    let lines = report_lines(1, Mode::Monitor, 2, "r", &vec![], &vec!["q".to_string()], false);
    assert_eq!(lines.len(), 13);
    assert_eq!(lines[12], "  - q");
}

#[test]
fn only_its_owner_may_look_into_the_reports() {
    assert_eq!(REPORTS_DIR_MODE, 0o700);
}

#[test]
fn two_reports_in_one_second_have_files_of_their_own() {
    let name = |number| {
        let report =
            reporter(None).report_at(5, number, Mode::Monitor, 7, "r", &files(&[]), &files(&[]), false);
        report.path.display()
    };
    assert_eq!(name(0), "/inc/5_7.txt");
    assert_eq!(name(1), "/inc/5_7_1.txt");
    assert_eq!(name(12), "/inc/5_7_12.txt");
}
