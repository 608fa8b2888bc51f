use ransomshield::baseline::{
    seed, EntryKind, Scan, ScanAction, ScanAnswer, MAX_FILES_SCANNED,
};
use ransomshield::config::{Config, Mode};
use ransomshield::detector::Detector;
use ransomshield::path::FilePath;
use ransomshield::sampling::baseline_probes;

fn path(text: &str) -> FilePath {
    FilePath::from_text(text)
}

fn detector() -> Detector {
    Detector::new(&Config {
        watch_dirs: vec![path("/data")],
        honeypots: vec![],
        mode: Mode::Enforce,
        entropy_threshold: 7.5f64.to_bits(),
        burst_file_count: 3,
        burst_window_secs: 10,
        sample_bytes: 8192,
        quarantine_dir: path("/q"),
        require_directory_baseline: true,
        incident_reports_dir: path("/i"),
        notify_command: None,
        trusted_executables: vec![],
    })
}

fn entry(text: &str, kind: EntryKind) -> ScanAnswer {
    ScanAnswer::Entry { path: path(text), kind }
}

fn expect_open(scan: &Scan, text: &str) {
    match scan.action() {
        ScanAction::Open { dir } => assert_eq!(dir.display(), text),
        _ => panic!("expected {text} to be opened"),
    }
}

#[test]
fn a_scan_learns_from_files_with_a_plain_part() {
    let mut d = detector();
    let low = 4.0f64.to_bits();
    let high = 7.9f64.to_bits();
    let mut scan = seed(&path("/data"), 8192, 7.5f64.to_bits());
    expect_open(&scan, "/data");
    scan.advance(&mut d, ScanAnswer::Opened);
    assert!(matches!(scan.action(), ScanAction::Next));
    scan.advance(&mut d, entry("/data/sub", EntryKind::Directory));
    scan.advance(&mut d, entry("/data/link", EntryKind::Other));
    scan.advance(&mut d, entry("/data/zip", EntryKind::File));
    match scan.action() {
        ScanAction::Measure { path } => assert_eq!(path.display(), "/data/zip"),
        _ => panic!("expected the file to be measured"),
    }
    scan.advance(&mut d, ScanAnswer::Size(100_000));
    match scan.action() {
        ScanAction::Sample { path, probes } => {
            assert_eq!(path.display(), "/data/zip");
            assert_eq!(probes, baseline_probes(100_000, 8192));
            assert_eq!(probes.len(), 3);
        }
        _ => panic!("expected the file to be sampled"),
    }
    scan.advance(&mut d, ScanAnswer::Scores(vec![Some(high), None, Some(high)]));
    assert!(!d.has_plaintext_baseline(&path("/data/x")));
    scan.advance(&mut d, entry("/data/secret", EntryKind::File));
    scan.advance(&mut d, ScanAnswer::Refused);
    assert!(matches!(scan.action(), ScanAction::Next));
    scan.advance(&mut d, entry("/data/empty", EntryKind::File));
    scan.advance(&mut d, ScanAnswer::Size(0));
    scan.advance(&mut d, ScanAnswer::Scores(vec![]));
    assert!(!d.has_plaintext_baseline(&path("/data/x")));
    scan.advance(&mut d, ScanAnswer::Exhausted);
    expect_open(&scan, "/data/sub");
    scan.advance(&mut d, ScanAnswer::Opened);
    scan.advance(&mut d, entry("/data/sub/doc", EntryKind::File));
    scan.advance(&mut d, ScanAnswer::Size(100_000));
    scan.advance(&mut d, ScanAnswer::Scores(vec![Some(high), Some(low), Some(high)]));
    assert!(d.has_plaintext_baseline(&path("/data/sub/x")));
    assert!(!d.has_plaintext_baseline(&path("/data/x")));
    scan.advance(&mut d, ScanAnswer::Exhausted);
    assert!(matches!(scan.action(), ScanAction::End { limit_reached: false }));
}

#[test]
fn a_directory_that_cannot_be_read_is_passed_over() {
    let mut d = detector();
    let mut scan = seed(&path("/data"), 8192, 1);
    scan.advance(&mut d, ScanAnswer::Opened);
    scan.advance(&mut d, entry("/data/a", EntryKind::Directory));
    scan.advance(&mut d, entry("/data/b", EntryKind::Directory));
    scan.advance(&mut d, ScanAnswer::Exhausted);
    expect_open(&scan, "/data/b");
    scan.advance(&mut d, ScanAnswer::Refused);
    expect_open(&scan, "/data/a");
    scan.advance(&mut d, ScanAnswer::Refused);
    assert!(matches!(scan.action(), ScanAction::End { limit_reached: false }));
}

#[test]
fn a_scan_stops_at_its_limit() {
    let mut d = detector();
    let mut scan = seed(&path("/data"), 8192, 1);
    scan.advance(&mut d, ScanAnswer::Opened);
    for _ in 0..MAX_FILES_SCANNED {
        scan.advance(&mut d, entry("/data/f", EntryKind::File));
        scan.advance(&mut d, ScanAnswer::Size(1));
        assert!(matches!(scan.action(), ScanAction::Sample { .. }));
        scan.advance(&mut d, ScanAnswer::Scores(vec![]));
    }
    scan.advance(&mut d, entry("/data/other", EntryKind::Directory));
    assert!(matches!(scan.action(), ScanAction::End { limit_reached: true }));
}
