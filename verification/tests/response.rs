use ransomshield::config::Mode;
use ransomshield::path::FilePath;
use ransomshield::quarantine::Taken;
use ransomshield::response::{
    handle_detection, quarantine_one, still_the_same_process, Response, ResponseAction,
    ResponseAnswer,
};
use ransomshield::trust::TrustStore;

fn files(names: &[&str]) -> Vec<FilePath> {
    names.iter().map(|n| FilePath::from_text(n)).collect()
}

fn shown(paths: &Vec<FilePath>) -> Vec<String> {
    paths.iter().map(|p| p.display()).collect()
}

fn stat_line(pid: i32, start: u64) -> String {
    format!("{pid} (a name) S 1 2 3 4 5 6 7 8 9 10 11 12 13 14 15 16 17 18 {start} 20 21")
}

#[test]
fn our_own_pid_matches_its_recorded_start_time() {
    let stat = stat_line(4242, 98765);
    let start = TrustStore::process_starttime(Some(&stat));
    assert!(start.is_some());
    assert!(still_the_same_process(4242, start, TrustStore::process_starttime(Some(&stat))));
}

#[test]
fn a_mismatched_start_time_means_the_pid_was_recycled() {
    let stat = stat_line(4242, 98765);
    assert!(
        !still_the_same_process(4242, Some(0), TrustStore::process_starttime(Some(&stat))),
        "a pid whose start time no longer matches must not be signalled"
    );
}

#[test]
fn init_is_never_signalled() {
    let running = TrustStore::process_starttime(Some(&stat_line(1, 1)));
    assert!(running.is_some());
    assert!(!still_the_same_process(1, None, running));
    assert!(!still_the_same_process(0, None, running));
    assert!(!still_the_same_process(1, Some(1), running));
    assert!(!still_the_same_process(-5, None, running));
}

#[test]
fn a_dead_pid_is_not_signalled() {
    // The stat file of 999_999_999 cannot be read.
    assert!(!still_the_same_process(999_999_999, None, TrustStore::process_starttime(None)));
    assert!(!still_the_same_process(999_999_999, Some(3), TrustStore::process_starttime(None)));
}

#[test]
fn a_process_without_a_known_start_time_only_has_to_exist() {
    assert!(still_the_same_process(2, None, Some(9)));
}

#[test]
fn only_a_file_that_was_moved_has_a_new_place() {
    let dest = quarantine_one(Taken::Moved(FilePath::from_text("/q/x")));
    assert_eq!(dest.unwrap().display(), "/q/x");
    assert!(quarantine_one(Taken::Nothing).is_none());
    assert!(quarantine_one(Taken::Failed).is_none());
}

fn expect_report(
    response: &Response,
    mode: Mode,
    affected: &[&str],
    quarantined: &[&str],
    taken: bool,
) {
    match response.action() {
        ResponseAction::Report {
            mode: m,
            pid,
            reason,
            affected: a,
            quarantined: q,
            action_taken,
        } => {
            assert_eq!(m, mode);
            assert_eq!(pid, 42);
            assert_eq!(reason, "burst");
            assert_eq!(shown(&a), affected.to_vec());
            assert_eq!(shown(&q), quarantined.to_vec());
            assert_eq!(action_taken, taken);
        }
        _ => panic!("expected a report"),
    }
}

#[test]
fn monitor_mode_only_reports() {
    let mut r = handle_detection(Mode::Monitor, 42, Some(7), "burst", &files(&["/d/a", "/d/b"]));
    expect_report(&r, Mode::Monitor, &["/d/a", "/d/b"], &[], false);
    r.advance(ResponseAnswer::Done);
    assert!(matches!(r.action(), ResponseAction::End { neutralized: true }));
    r.advance(ResponseAnswer::Refused);
    assert!(matches!(r.action(), ResponseAction::End { neutralized: true }));
}

#[test]
fn a_recycled_pid_is_reported_and_left_alone() {
    let mut r = handle_detection(Mode::Enforce, 42, Some(7), "burst", &files(&["/d/a"]));
    assert!(matches!(r.action(), ResponseAction::Identify { pid: 42 }));
    r.advance(ResponseAnswer::Started(Some(8)));
    expect_report(&r, Mode::Enforce, &["/d/a"], &[], false);
    r.advance(ResponseAnswer::Done);
    assert!(matches!(r.action(), ResponseAction::End { neutralized: true }));
}

#[test]
fn the_suspect_is_frozen_then_its_files_are_moved_then_it_is_killed() {
    let mut r =
        handle_detection(Mode::Enforce, 42, Some(7), "burst", &files(&["/d/a", "/d/b", "/d/c"]));
    r.advance(ResponseAnswer::Started(Some(7)));
    assert!(matches!(r.action(), ResponseAction::Stop { pid: 42 }));
    // A failure to freeze it does not stop the response.
    r.advance(ResponseAnswer::Refused);
    let outcomes = [
        ("/d/a", Taken::Moved(FilePath::from_text("/q/a"))),
        ("/d/b", Taken::Nothing),
        ("/d/c", Taken::Moved(FilePath::from_text("/q/c"))),
    ];
    for (name, outcome) in outcomes {
        match r.action() {
            ResponseAction::Quarantine { path, pid, reason } => {
                assert_eq!(path.display(), name);
                assert_eq!(pid, 42);
                assert_eq!(reason, "burst");
            }
            _ => panic!("expected a file to be moved"),
        }
        r.advance(ResponseAnswer::File(outcome));
    }
    assert!(matches!(r.action(), ResponseAction::Kill { pid: 42 }));
    r.advance(ResponseAnswer::Done);
    expect_report(&r, Mode::Enforce, &["/d/a", "/d/b", "/d/c"], &["/q/a", "/q/c"], true);
    r.advance(ResponseAnswer::Done);
    assert!(matches!(r.action(), ResponseAction::End { neutralized: true }));
}

#[test]
fn a_process_that_is_already_gone_counts_as_neutralized() {
    let mut r = handle_detection(Mode::Enforce, 42, None, "burst", &files(&[]));
    r.advance(ResponseAnswer::Started(Some(1)));
    r.advance(ResponseAnswer::Done);
    r.advance(ResponseAnswer::Gone);
    expect_report(&r, Mode::Enforce, &[], &[], true);
}

#[test]
fn a_process_that_cannot_be_killed_is_not_neutralized() {
    let mut r = handle_detection(Mode::Enforce, 42, None, "burst", &files(&[]));
    r.advance(ResponseAnswer::Started(Some(1)));
    r.advance(ResponseAnswer::Done);
    r.advance(ResponseAnswer::Refused);
    expect_report(&r, Mode::Enforce, &[], &[], false);
    r.advance(ResponseAnswer::Done);
    assert!(matches!(r.action(), ResponseAction::End { neutralized: false }));
}
