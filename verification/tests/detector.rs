use ransomshield::config::{Config, Mode};
use ransomshield::detector::{Detector, Verdict};
use ransomshield::path::FilePath;

const SECOND: u128 = 1_000_000_000;

fn test_config() -> Config {
    Config {
        watch_dirs: vec![FilePath::from_text("/data")],
        honeypots: vec![],
        mode: Mode::Enforce,
        entropy_threshold: 7.5f64.to_bits(),
        burst_file_count: 3,
        burst_window_secs: 10,
        sample_bytes: 8192,
        quarantine_dir: FilePath::from_text("/tmp/quarantine"),
        require_directory_baseline: true,
        incident_reports_dir: FilePath::from_text("/tmp/incidents"),
        notify_command: None,
        trusted_executables: vec![],
    }
}

fn path(text: &str) -> FilePath {
    FilePath::from_text(text)
}

fn shown(paths: Vec<FilePath>) -> Vec<String> {
    let mut out: Vec<String> = paths.iter().map(|p| p.display()).collect();
    out.sort();
    out
}

#[test]
fn baseline_extends_to_a_brand_new_subdirectory_of_a_known_tree() {
    let cfg = test_config();
    let mut d = Detector::new(&cfg);
    d.note_plaintext_activity(&path("/data/victim/seed.txt"));

    // The subdirectory never held plain content itself, but it lies in a tree that did.
    let sub = path("/data/victim/brand_new_subdir");
    assert!(matches!(d.observe_high_entropy_write(1234, &sub.join("a.bin")), Verdict::Clean));
    assert!(matches!(d.observe_high_entropy_write(1234, &sub.join("b.bin")), Verdict::Clean));
    assert!(matches!(
        d.observe_high_entropy_write(1234, &sub.join("c.bin")),
        Verdict::Burst { count: 3 }
    ));
}

#[test]
fn directories_with_no_baselined_ancestor_stay_clean() {
    let cfg = test_config();
    let mut d = Detector::new(&cfg);
    let dir = path("/data/totally_unseen");
    for i in 0..10 {
        assert!(matches!(
            d.observe_high_entropy_write(1, &dir.join(&format!("f{i}.bin"))),
            Verdict::Clean
        ));
    }
}

#[test]
fn stale_per_pid_bookkeeping_does_not_accumulate_forever() {
    let mut cfg = test_config();
    cfg.burst_window_secs = 0; // everything is stale by the next call
    let mut d = Detector::new(&cfg);
    d.note_plaintext_activity(&path("/data/victim/seed.txt"));

    for pid in 0..500 {
        d.observe_high_entropy_write(pid, &path("/data/victim/x.bin"));
    }

    d.observe_high_entropy_write(999_999, &path("/data/victim/y.bin"));
    assert_eq!(d.tracked_pids(), 1, "stale per-pid entries were not swept");
}

#[test]
fn a_file_that_is_written_in_many_chunks_counts_once() {
    let mut d = Detector::new(&test_config());
    d.note_plaintext_activity(&path("/data/seed.txt"));
    for i in 0..20u128 {
        assert_eq!(d.observe_at(7, &path("/data/big.bin"), i), Verdict::Clean);
    }
    // The same file, spelled otherwise.
    assert_eq!(d.observe_at(7, &path("/data//./big.bin"), 21), Verdict::Clean);
    assert_eq!(shown(d.files_for_pid(7)), vec!["/data/big.bin"]);
}

#[test]
fn processes_are_counted_apart() {
    let mut d = Detector::new(&test_config());
    d.note_plaintext_activity(&path("/data/seed.txt"));
    for (i, name) in ["a", "b"].iter().enumerate() {
        assert_eq!(d.observe_at(1, &path("/data").join(name), i as u128), Verdict::Clean);
        assert_eq!(d.observe_at(2, &path("/data").join(name), i as u128), Verdict::Clean);
    }
    assert_eq!(d.tracked_pids(), 2);
    assert_eq!(d.observe_at(1, &path("/data/c"), 3), Verdict::Burst { count: 3 });
    assert_eq!(shown(d.files_for_pid(2)), vec!["/data/a", "/data/b"]);
}

#[test]
fn a_write_counts_up_to_the_very_end_of_the_window() {
    let mut d = Detector::new(&test_config());
    d.note_plaintext_activity(&path("/data/seed.txt"));
    assert_eq!(d.observe_at(1, &path("/data/a"), 0), Verdict::Clean);
    assert_eq!(d.observe_at(1, &path("/data/b"), 5 * SECOND), Verdict::Clean);
    assert_eq!(d.observe_at(1, &path("/data/c"), 10 * SECOND), Verdict::Burst { count: 3 });

    let mut d = Detector::new(&test_config());
    d.note_plaintext_activity(&path("/data/seed.txt"));
    assert_eq!(d.observe_at(1, &path("/data/a"), 0), Verdict::Clean);
    assert_eq!(d.observe_at(1, &path("/data/b"), 5 * SECOND), Verdict::Clean);
    assert_eq!(d.observe_at(1, &path("/data/c"), 10 * SECOND + 1), Verdict::Clean);
    assert_eq!(shown(d.files_for_pid(1)), vec!["/data/b", "/data/c"]);
}

#[test]
fn a_forgotten_process_starts_anew() {
    let mut d = Detector::new(&test_config());
    d.note_plaintext_activity(&path("/data/seed.txt"));
    d.observe_at(1, &path("/data/a"), 0);
    d.observe_at(1, &path("/data/b"), 0);
    d.forget(1);
    assert_eq!(d.tracked_pids(), 0);
    assert!(d.files_for_pid(1).is_empty());
    assert_eq!(d.observe_at(1, &path("/data/c"), 0), Verdict::Clean);
    d.forget(77);
    assert_eq!(d.tracked_pids(), 1);
}

#[test]
fn without_a_required_baseline_every_write_counts() {
    let mut cfg = test_config();
    cfg.require_directory_baseline = false;
    let mut d = Detector::new(&cfg);
    d.observe_at(1, &path("/data/a"), 0);
    d.observe_at(1, &path("/data/b"), 0);
    assert_eq!(d.observe_at(1, &path("/data/c"), 0), Verdict::Burst { count: 3 });
    assert_eq!(d.observe_at(1, &path("/data/d"), 0), Verdict::Burst { count: 4 });
}

#[test]
fn a_sibling_directory_is_not_covered() {
    let mut d = Detector::new(&test_config());
    d.note_plaintext_activity(&path("/data/victim/seed.txt"));
    assert!(d.has_plaintext_baseline(&path("/data/victim/deep/down/x")));
    assert!(!d.has_plaintext_baseline(&path("/data/victim2/x")));
    assert!(!d.has_plaintext_baseline(&path("/data/x")));
    d.note_plaintext_activity(&path("/"));
    assert!(!d.has_plaintext_baseline(&path("/data/x")));
    d.note_plaintext_activity(&path("/top.txt"));
    assert!(d.has_plaintext_baseline(&path("/data/x")));
}

#[test]
fn the_first_start_time_of_a_tracked_process_stays() {
    let mut d = Detector::new(&test_config());
    d.note_plaintext_activity(&path("/data/seed.txt"));
    d.note_starttime(1, Some(5));
    assert_eq!(d.starttime_for_pid(1), None);
    d.observe_at(1, &path("/data/a"), 0);
    d.note_starttime(1, None);
    assert_eq!(d.starttime_for_pid(1), None);
    d.note_starttime(1, Some(6));
    d.note_starttime(1, Some(7));
    assert_eq!(d.starttime_for_pid(1), Some(6));
    d.forget(1);
    assert_eq!(d.starttime_for_pid(1), None);
}

#[test]
fn the_clock_of_a_detector_does_not_run_backwards() {
    let mut d = Detector::new(&test_config());
    let first = d.now();
    let second = d.now();
    assert!(first <= second);
}
