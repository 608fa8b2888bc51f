use ransomshield::config::{Config, Mode, TrustedExecutable};
use ransomshield::detector::Detector;
use ransomshield::honeypot::{Honeypots, Occupied, ProvisionAnswer, Restored};
use ransomshield::monitor::{
    give_up_message, Admission, Backoff, Monitor, MonitorAction, MonitorAnswer, ReadFailures,
};
use ransomshield::path::FilePath;
use ransomshield::response::{ResponseAction, ResponseAnswer};
use ransomshield::sampling::Rng;
use ransomshield::trust::{Sighting, TrustStore};

const ABC: &str = "ba7816bf8f01cfea414140de5dae2223b00361a396177a9cb410ff61f20015ad";

fn path(text: &str) -> FilePath {
    FilePath::from_text(text)
}

fn config(mode: Mode) -> Config {
    Config {
        watch_dirs: vec![path("/data")],
        honeypots: vec![],
        mode,
        entropy_threshold: 7.5f64.to_bits(),
        burst_file_count: 3,
        burst_window_secs: 10,
        sample_bytes: 8192,
        quarantine_dir: path("/q"),
        require_directory_baseline: true,
        incident_reports_dir: path("/i"),
        notify_command: None,
        trusted_executables: vec![],
    }
}

fn decoys() -> Honeypots {
    let mut work = Honeypots::provision(&vec![path("/data/bait")]);
    work.advance(ProvisionAnswer::Done);
    work.advance(ProvisionAnswer::Found(Occupied::File));
    work.advance(ProvisionAnswer::Done);
    work.advance(ProvisionAnswer::Inode { dev: 8, ino: 100 });
    work.into_honeypots()
}

fn monitor(mode: Mode, trusted: Vec<TrustedExecutable>) -> Monitor {
    let cfg = config(mode);
    let mut detector = Detector::new(&cfg);
    detector.note_plaintext_activity(&path("/data/seed.txt"));
    let roots = vec![path("/data")];
    let rng = Rng::from_reading(None);
    Monitor::new(&cfg, 1000, &roots, decoys(), detector, TrustStore::new(trusted), rng)
}

fn identity(m: &mut Monitor, inode: Option<(u64, u64)>, name: Option<&str>) {
    assert!(matches!(m.action(), MonitorAction::Identify));
    m.advance(MonitorAnswer::Identity { inode, path: name.map(path) });
}

/// A write of encrypted-looking content by `pid`, up to the question of trust.
fn high_entropy_write(m: &mut Monitor, pid: i32, name: &str) {
    assert_eq!(m.begin(pid, true), Admission::Accepted);
    identity(m, Some((8, 5)), Some(name));
    assert!(matches!(m.action(), MonitorAction::Measure));
    m.advance(MonitorAnswer::Size(100));
    match m.action() {
        MonitorAction::Read { probes } => assert_eq!(probes.len(), 1),
        _ => panic!("expected the file to be read"),
    }
    m.advance(MonitorAnswer::Scores(vec![Some(1.0f64.to_bits()), Some(7.9f64.to_bits())]));
    match m.action() {
        MonitorAction::FindStart { pid: p } => assert_eq!(p, pid),
        _ => panic!("expected the start time to be read"),
    }
}

fn is_idle(m: &Monitor) -> bool {
    matches!(m.action(), MonitorAction::Wait)
}

fn finish(m: &mut Monitor, kill: ResponseAnswer) -> Vec<String> {
    let mut moved = vec![];
    let mut kill = Some(kill);
    while let MonitorAction::Respond(action) = m.action() {
        let answer = match action {
            ResponseAction::Identify { .. } => ResponseAnswer::Started(Some(7)),
            ResponseAction::Stop { .. } => ResponseAnswer::Done,
            ResponseAction::Quarantine { path, .. } => {
                moved.push(path.display());
                ResponseAnswer::Done
            }
            ResponseAction::Kill { .. } => kill.take().unwrap(),
            ResponseAction::Report { .. } => ResponseAnswer::Done,
            ResponseAction::End { .. } => panic!("a response that is over is not handed out"),
        };
        m.advance(MonitorAnswer::Responded(answer));
    }
    moved.sort();
    moved
}

#[test]
fn events_of_the_daemon_and_of_nobody_are_ignored() {
    let mut m = monitor(Mode::Enforce, vec![]);
    assert_eq!(m.begin(1000, true), Admission::Ignored);
    assert_eq!(m.begin(0, true), Admission::Ignored);
    assert_eq!(m.begin(-1, false), Admission::Ignored);
    assert_eq!(m.begin(5, false), Admission::Overflow);
    assert!(is_idle(&m));
}

#[test]
fn a_file_that_cannot_be_resolved_is_skipped() {
    let mut m = monitor(Mode::Enforce, vec![]);
    m.begin(5, true);
    identity(&mut m, Some((8, 5)), None);
    assert!(is_idle(&m));
    m.begin(5, true);
    identity(&mut m, None, None);
    assert!(is_idle(&m));
}

#[test]
fn a_decoy_fires_even_where_its_path_cannot_be_told() {
    let mut m = monitor(Mode::Enforce, vec![]);
    m.begin(5, true);
    identity(&mut m, Some((8, 100)), None);
    assert!(matches!(m.action(), MonitorAction::Respond(_)));
}

#[test]
fn the_directory_of_a_decoy_holds_ordinary_content() {
    let cfg = config(Mode::Enforce);
    let m = Monitor::new(
        &cfg,
        1000,
        &vec![path("/data")],
        decoys(),
        Detector::new(&cfg),
        TrustStore::new(vec![]),
        Rng::new(),
    );
    assert!(m.detector().has_plaintext_baseline(&path("/data/sub/x")));
    assert!(!m.detector().has_plaintext_baseline(&path("/other/x")));
}

#[test]
fn an_entropy_at_the_threshold_is_not_above_it() {
    let mut m = monitor(Mode::Enforce, vec![]);
    m.begin(5, true);
    identity(&mut m, None, Some("/data/sub/a"));
    m.advance(MonitorAnswer::Size(10));
    m.advance(MonitorAnswer::Scores(vec![Some(7.5f64.to_bits())]));
    assert!(is_idle(&m));
    assert_eq!(m.detector().tracked_pids(), 0);
}

#[test]
fn a_write_out_of_scope_is_skipped() {
    let mut m = monitor(Mode::Enforce, vec![]);
    m.begin(5, true);
    identity(&mut m, Some((8, 5)), Some("/etc/passwd"));
    assert!(is_idle(&m));
    m.begin(5, true);
    identity(&mut m, None, Some("/database/x"));
    assert!(is_idle(&m));
}

#[test]
fn a_plain_write_makes_its_directory_plain() {
    let mut m = monitor(Mode::Enforce, vec![]);
    let roots = vec![path("/")];
    let mut fresh = Monitor::new(
        &config(Mode::Enforce),
        1000,
        &roots,
        Honeypots::none(),
        Detector::new(&config(Mode::Enforce)),
        TrustStore::new(vec![]),
        Rng::new(),
    );
    fresh.begin(5, true);
    identity(&mut fresh, None, Some("/data/doc.txt"));
    fresh.advance(MonitorAnswer::Size(50_000));
    match fresh.action() {
        MonitorAction::Read { probes } => assert_eq!(probes.len(), 5),
        _ => panic!("expected the file to be read"),
    }
    fresh.advance(MonitorAnswer::Scores(vec![None, Some(4.0f64.to_bits()), Some(7.4f64.to_bits())]));
    assert!(is_idle(&fresh));
    assert!(fresh.detector().has_plaintext_baseline(&path("/data/x")));

    m.begin(5, true);
    identity(&mut m, None, Some("/data/empty"));
    m.advance(MonitorAnswer::Size(0));
    m.advance(MonitorAnswer::Scores(vec![]));
    assert!(is_idle(&m));
    assert_eq!(m.detector().tracked_pids(), 0);
}

#[test]
fn a_burst_is_responded_to_and_the_process_is_forgotten() {
    let mut m = monitor(Mode::Enforce, vec![]);
    for name in ["/data/a", "/data/b"] {
        high_entropy_write(&mut m, 5, name);
        m.advance(MonitorAnswer::Started(Some(7)));
        assert!(is_idle(&m));
    }
    assert_eq!(m.detector().starttime_for_pid(5), Some(7));
    high_entropy_write(&mut m, 5, "/data/c");
    m.advance(MonitorAnswer::Started(Some(7)));
    match m.action() {
        MonitorAction::Respond(ResponseAction::Identify { pid }) => assert_eq!(pid, 5),
        _ => panic!("expected a response"),
    }
    m.advance(MonitorAnswer::Responded(ResponseAnswer::Started(Some(7))));
    m.advance(MonitorAnswer::Responded(ResponseAnswer::Done));
    match m.action() {
        MonitorAction::Respond(ResponseAction::Quarantine { reason, .. }) => {
            assert_eq!(reason, "3 high-entropy file rewrites within 10s (last: /data/c)")
        }
        _ => panic!("expected a file to be moved"),
    }
    let moved = finish(&mut m, ResponseAnswer::Done);
    assert_eq!(moved, vec!["/data/a", "/data/b", "/data/c"]);
    assert!(is_idle(&m));
    assert_eq!(m.detector().tracked_pids(), 0);
}

#[test]
fn a_process_that_survives_is_not_forgotten() {
    let mut m = monitor(Mode::Enforce, vec![]);
    for name in ["/data/a", "/data/b", "/data/c"] {
        high_entropy_write(&mut m, 5, name);
        m.advance(MonitorAnswer::Started(Some(7)));
    }
    finish(&mut m, ResponseAnswer::Refused);
    assert!(is_idle(&m));
    assert_eq!(m.detector().tracked_pids(), 1);
    // The next write is a detection at once.
    high_entropy_write(&mut m, 5, "/data/d");
    m.advance(MonitorAnswer::Started(Some(7)));
    assert!(matches!(m.action(), MonitorAction::Respond(_)));
}

fn touch_decoy(m: &mut Monitor, pid: i32) {
    m.begin(pid, true);
    identity(m, Some((8, 100)), Some("/elsewhere/link"));
}

#[test]
fn a_decoy_is_put_back_after_it_was_touched() {
    let mut m = monitor(Mode::Enforce, vec![]);
    touch_decoy(&mut m, 5);
    // Nothing is known of the process but that it exists.
    let moved = finish(&mut m, ResponseAnswer::Done);
    assert!(moved.is_empty());
    match m.action() {
        MonitorAction::Rearm { path } => assert_eq!(path.display(), "/data/bait"),
        _ => panic!("expected the decoy to be put back"),
    }
    m.advance(MonitorAnswer::Rearmed(Restored::At { dev: 8, ino: 200 }));
    assert!(is_idle(&m));
    // It fires again, under its new inode.
    m.begin(6, true);
    identity(&mut m, Some((8, 200)), Some("/data/bait"));
    assert!(matches!(m.action(), MonitorAction::Respond(_)));
}

#[test]
fn trust_does_not_extend_to_decoys() {
    let tool = TrustedExecutable { path: path("/usr/bin/tool"), sha256: ABC.to_string() };
    let mut m = monitor(Mode::Monitor, vec![tool]);
    touch_decoy(&mut m, 5);
    match m.action() {
        MonitorAction::Respond(ResponseAction::Report { mode, reason, action_taken, .. }) => {
            assert_eq!(mode, Mode::Monitor);
            assert_eq!(reason, "honeypot touched: /data/bait");
            assert!(!action_taken);
        }
        _ => panic!("expected a report"),
    }
}

#[test]
fn the_writes_of_a_trusted_process_do_not_count() {
    let tool = TrustedExecutable { path: path("/usr/bin/tool"), sha256: ABC.to_string() };
    let mut m = monitor(Mode::Enforce, vec![tool]);
    assert!(m.trust().lists(&path("/usr/bin/tool")));
    high_entropy_write(&mut m, 5, "/data/a");
    m.advance(MonitorAnswer::Started(Some(7)));
    match m.action() {
        MonitorAction::Inspect { pid } => assert_eq!(pid, 5),
        _ => panic!("expected a look at the executable"),
    }
    m.advance(MonitorAnswer::Seen(Sighting {
        path: Some(path("/usr/bin/tool")),
        content: Some(b"abc".to_vec()),
    }));
    assert!(is_idle(&m));
    assert_eq!(m.detector().tracked_pids(), 0);
    // The verdict is remembered: no second look.
    high_entropy_write(&mut m, 5, "/data/b");
    m.advance(MonitorAnswer::Started(Some(7)));
    assert!(is_idle(&m));
    // A process that took over the number is looked at.
    high_entropy_write(&mut m, 5, "/data/c");
    m.advance(MonitorAnswer::Started(Some(8)));
    assert!(matches!(m.action(), MonitorAction::Inspect { .. }));
    m.advance(MonitorAnswer::Seen(Sighting {
        path: Some(path("/usr/bin/tool")),
        content: Some(b"trojan".to_vec()),
    }));
    assert!(is_idle(&m));
    assert_eq!(m.detector().tracked_pids(), 1);
}

#[test]
fn writes_without_a_baseline_are_not_counted() {
    let mut m = Monitor::new(
        &config(Mode::Enforce),
        1000,
        &vec![path("/data")],
        Honeypots::none(),
        Detector::new(&config(Mode::Enforce)),
        TrustStore::new(vec![]),
        Rng::new(),
    );
    for name in ["/data/a", "/data/b", "/data/c", "/data/d"] {
        high_entropy_write(&mut m, 5, name);
        m.advance(MonitorAnswer::Started(None));
        assert!(is_idle(&m));
    }
    assert_eq!(m.detector().tracked_pids(), 0);
}

#[test]
fn an_answer_that_does_not_fit_changes_nothing() {
    let mut m = monitor(Mode::Enforce, vec![]);
    m.begin(5, true);
    m.advance(MonitorAnswer::Size(3));
    assert!(matches!(m.action(), MonitorAction::Identify));
}

#[test]
fn a_decoy_out_of_sight_is_noticed() {
    assert!(!monitor(Mode::Enforce, vec![]).has_blind_honeypot());
    let blind = Monitor::new(
        &config(Mode::Enforce),
        1000,
        &vec![path("/home")],
        decoys(),
        Detector::new(&config(Mode::Enforce)),
        TrustStore::new(vec![]),
        Rng::new(),
    );
    assert!(blind.has_blind_honeypot());
}

#[test]
fn a_read_that_keeps_failing_is_given_up() {
    let mut failures = ReadFailures::none();
    assert_eq!(failures.failed(), Backoff::Retry { millis: 200 });
    assert_eq!(failures.failed(), Backoff::Retry { millis: 400 });
    failures.succeeded();
    for n in 1..10u64 {
        assert_eq!(failures.failed(), Backoff::Retry { millis: 200 * n });
    }
    for _ in 10..20 {
        assert_eq!(failures.failed(), Backoff::Retry { millis: 2000 });
    }
    assert_eq!(failures.failed(), Backoff::GiveUp { failures: 20 });
    assert_eq!(
        give_up_message(20),
        "fanotify read_events failed 20 times in a row, giving up"
    );
}
