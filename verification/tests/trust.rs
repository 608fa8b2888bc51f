use ransomshield::config::TrustedExecutable;
use ransomshield::digest::sha256_hex;
use ransomshield::path::FilePath;
use ransomshield::trust::{Sighting, TrustStore};

const SECOND: u128 = 1_000_000_000;
const ABC: &str = "ba7816bf8f01cfea414140de5dae2223b00361a396177a9cb410ff61f20015ad";

fn store(path: &str, sha256: &str) -> TrustStore {
    TrustStore::new(vec![TrustedExecutable {
        path: FilePath::from_text(path),
        sha256: sha256.to_string(),
    }])
}

fn seen(path: &str, content: &[u8]) -> Sighting {
    Sighting { path: Some(FilePath::from_text(path)), content: Some(content.to_vec()) }
}

fn nothing() -> Sighting {
    Sighting { path: None, content: None }
}

#[test]
fn a_digest_is_the_real_one() {
    assert_eq!(sha256_hex(b"abc"), ABC);
    assert_eq!(
        sha256_hex(b""),
        "e3b0c44298fc1c149afbf4c8996fb92427ae41e4649b934ca495991b7852b855"
    );
}

#[test]
fn process_starttime_is_stable_and_present_for_self() {
    let stat = "4242 (ransomshield) S 1 4242 4242 0 -1 4194560 1 0 0 0 0 0 0 0 20 0 1 0 98765 0 0";
    let a = TrustStore::process_starttime(Some(stat));
    let b = TrustStore::process_starttime(Some(stat));
    assert!(a.is_some(), "expected a start time for our own running process");
    assert_eq!(a, b, "start time must be stable across repeated reads");
    assert_eq!(a, Some(98765));
}

#[test]
fn process_starttime_is_none_for_a_pid_that_does_not_exist() {
    // The stat file of 999_999_999 cannot be read.
    assert_eq!(TrustStore::process_starttime(None), None);
}

#[test]
fn a_process_cannot_forge_its_start_time_by_its_name() {
    let stat = "7 (x) S 1 2 3 4 5 6 7 8 9 10 11 12 13 14 15 16 17 18 1 (y) z) R 1 2 3 4 5 6 7 8 9 10 11 12 13 14 15 16 17 18 555 20";
    assert_eq!(TrustStore::process_starttime(Some(stat)), Some(555));
    assert_eq!(TrustStore::process_starttime(Some("no bracket at all")), None);
    assert_eq!(TrustStore::process_starttime(Some("7 (x) S 1 2 3")), None);
    let odd = "7 (x) S 1 2 3 4 5 6 7 8 9 10 11 12 13 14 15 16 17 18 -4 20";
    assert_eq!(TrustStore::process_starttime(Some(odd)), None);
    let large = "7 (x) S 1 2 3 4 5 6 7 8 9 10 11 12 13 14 15 16 17 18 18446744073709551616";
    assert_eq!(TrustStore::process_starttime(Some(large)), None);
    let greatest = "7 (x)\tS 1 2 3 4 5 6 7 8 9 10 11 12 13 14 15 16 17 18\n18446744073709551615";
    assert_eq!(TrustStore::process_starttime(Some(greatest)), Some(u64::MAX));
}

#[test]
fn a_cache_entry_with_a_mismatched_starttime_is_not_trusted_blindly() {
    let mut s = store("/usr/bin/tool", ABC);
    // The verdict on an earlier process of that number was that it is not trusted.
    assert!(!s.is_trusted(42, 0, Some(0), &nothing()));
    assert_eq!(s.cached_verdict(42, 0, Some(0)), Some(false));
    // Another process has the number now: it is looked at.
    assert!(s.needs_inspection(42, 1, Some(7)));
    assert!(s.is_trusted(42, 1, Some(7), &seen("/usr/bin/tool", b"abc")));
    assert_eq!(s.cached_verdict(42, 1, Some(7)), Some(true));
    assert_eq!(s.last_verdict(42), Some(true));
    assert_eq!(s.last_verdict(43), None);
}

#[test]
fn trust_takes_the_path_and_the_content() {
    let s = store("/usr/bin/tool", &ABC.to_uppercase());
    assert!(s.compute_trust(&seen("/usr/bin/tool", b"abc")));
    assert!(s.compute_trust(&seen("/usr//bin/./tool", b"abc")));
    assert!(!s.compute_trust(&seen("/usr/bin/tool", b"abd")));
    assert!(!s.compute_trust(&seen("/tmp/tool", b"abc")));
    assert!(!s.compute_trust(&nothing()));
    assert!(s.lists(&FilePath::from_text("/usr/bin/tool")));
    assert!(!s.lists(&FilePath::from_text("/usr/bin")));
    assert!(s.trusts_digest(&FilePath::from_text("/usr/bin/tool"), ABC));
    assert!(!s.trusts_digest(&FilePath::from_text("/usr/bin/tool"), "ba"));
}

#[test]
fn any_entry_for_a_path_may_decide() {
    let s = TrustStore::new(vec![
        TrustedExecutable { path: FilePath::from_text("/t"), sha256: "00".to_string() },
        TrustedExecutable { path: FilePath::from_text("/t"), sha256: ABC.to_string() },
    ]);
    assert!(s.compute_trust(&seen("/t", b"abc")));
    assert!(!s.compute_trust(&seen("/t", b"abd")));
}

#[test]
fn an_empty_list_trusts_nobody_and_needs_no_look() {
    let mut s = TrustStore::new(vec![]);
    assert!(!s.needs_inspection(42, 0, Some(1)));
    assert!(!s.is_trusted(42, 0, Some(1), &seen("/usr/bin/tool", b"abc")));
}

#[test]
fn a_verdict_is_kept_for_less_than_a_minute() {
    let mut s = store("/usr/bin/tool", ABC);
    assert!(s.is_trusted(42, 0, Some(7), &seen("/usr/bin/tool", b"abc")));
    assert!(!s.needs_inspection(42, 60 * SECOND - 1, Some(7)));
    assert!(s.is_trusted(42, 60 * SECOND - 1, Some(7), &nothing()));
    assert!(s.needs_inspection(42, 60 * SECOND, Some(7)));
    assert!(!s.is_trusted(42, 60 * SECOND, Some(7), &nothing()));
}

#[test]
fn a_process_without_a_start_time_is_looked_at_each_time() {
    let mut s = store("/usr/bin/tool", ABC);
    assert!(s.is_trusted(42, 0, None, &seen("/usr/bin/tool", b"abc")));
    assert!(s.needs_inspection(42, 0, None));
    assert_eq!(s.cached_verdict(42, 0, Some(7)), None);
}

#[test]
fn old_verdicts_are_dropped() {
    let mut s = store("/usr/bin/tool", ABC);
    s.is_trusted(1, 0, Some(7), &nothing());
    s.is_trusted(2, 240 * SECOND, Some(7), &nothing());
    // Were the first verdict still there, it would hold at the time at which it was reached.
    assert_eq!(s.cached_verdict(1, 0, Some(7)), None);
    assert_eq!(s.cached_verdict(2, 240 * SECOND, Some(7)), Some(false));
}

#[test]
fn the_clock_of_a_store_does_not_run_backwards() {
    let mut s = store("/usr/bin/tool", ABC);
    let first = s.now();
    let second = s.now();
    assert!(first <= second);
}
