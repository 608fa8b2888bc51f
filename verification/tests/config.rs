use ransomshield::config::{
    check_permissions, default_burst_file_count, default_burst_window_secs,
    default_entropy_threshold, default_incident_reports_dir, default_quarantine_dir,
    default_sample_bytes, default_true, Config, ConfigError, Mode, TrustedExecutable,
};
use ransomshield::path::FilePath;
use serde_json::Value;

fn paths(value: Option<&Value>) -> Vec<FilePath> {
    match value {
        Some(list) => list
            .as_array()
            .unwrap()
            .iter()
            .map(|p| FilePath::from_text(p.as_str().unwrap()))
            .collect(),
        None => vec![],
    }
}

fn config_from(json: &str) -> Config {
    let value: Value = serde_json::from_str(json).unwrap();
    Config {
        watch_dirs: paths(value.get("watch_dirs")),
        honeypots: paths(value.get("honeypots")),
        mode: match value.get("mode").unwrap().as_str().unwrap() {
            "monitor" => Mode::Monitor,
            "enforce" => Mode::Enforce,
            other => panic!("no such mode: {other}"),
        },
        entropy_threshold: match value.get("entropy_threshold") {
            Some(v) => v.as_f64().unwrap().to_bits(),
            None => default_entropy_threshold(),
        },
        burst_file_count: match value.get("burst_file_count") {
            Some(v) => v.as_u64().unwrap() as usize,
            None => default_burst_file_count(),
        },
        burst_window_secs: match value.get("burst_window_secs") {
            Some(v) => v.as_u64().unwrap(),
            None => default_burst_window_secs(),
        },
        sample_bytes: match value.get("sample_bytes") {
            Some(v) => v.as_u64().unwrap() as usize,
            None => default_sample_bytes(),
        },
        quarantine_dir: default_quarantine_dir(),
        require_directory_baseline: default_true(),
        incident_reports_dir: default_incident_reports_dir(),
        notify_command: None,
        trusted_executables: Vec::<TrustedExecutable>::new(),
    }
}

fn parse(json: &str) -> Result<Config, ConfigError> {
    let cfg = config_from(json);
    cfg.validate()?;
    Ok(cfg)
}

#[test]
fn a_sane_config_is_accepted() {
    assert!(parse(r#"{"watch_dirs":["/data"],"mode":"enforce"}"#).is_ok());
}

#[test]
fn values_that_silently_disable_detection_are_rejected() {
    // A probe of zero bytes scores nothing, ever.
    assert!(parse(r#"{"watch_dirs":["/d"],"mode":"enforce","sample_bytes":0}"#).is_err());
    // Nor is a threshold that no byte can reach of any use.
    assert!(parse(r#"{"watch_dirs":["/d"],"mode":"enforce","entropy_threshold":99.0}"#).is_err());
}

#[test]
fn values_that_make_the_daemon_a_hair_trigger_are_rejected() {
    assert!(parse(r#"{"watch_dirs":["/d"],"mode":"enforce","burst_file_count":0}"#).is_err());
    assert!(parse(r#"{"watch_dirs":["/d"],"mode":"enforce","burst_file_count":1}"#).is_err());
}

#[test]
fn each_problem_is_named_and_the_first_one_wins() {
    let none = config_from(r#"{"watch_dirs":[],"mode":"monitor","burst_file_count":0}"#);
    assert_eq!(none.validate(), Err(ConfigError::NoWatchDirs));
    let low = config_from(r#"{"watch_dirs":["/d"],"mode":"monitor","entropy_threshold":0.0}"#);
    assert_eq!(low.validate(), Err(ConfigError::EntropyThreshold));
    let top = config_from(r#"{"watch_dirs":["/d"],"mode":"monitor","entropy_threshold":8.0}"#);
    assert_eq!(top.validate(), Err(ConfigError::EntropyThreshold));
    let negative = config_from(r#"{"watch_dirs":["/d"],"mode":"monitor","entropy_threshold":-1.0}"#);
    assert_eq!(negative.validate(), Err(ConfigError::EntropyThreshold));
    let count = config_from(r#"{"watch_dirs":["/d"],"mode":"monitor","burst_file_count":1}"#);
    assert_eq!(count.validate(), Err(ConfigError::BurstFileCount { count: 1 }));
    let window = config_from(r#"{"watch_dirs":["/d"],"mode":"monitor","burst_window_secs":0}"#);
    assert_eq!(window.validate(), Err(ConfigError::BurstWindow));
    let sample = config_from(r#"{"watch_dirs":["/d"],"mode":"monitor","sample_bytes":1023}"#);
    assert_eq!(sample.validate(), Err(ConfigError::SampleBytes { bytes: 1023 }));
    let edge = config_from(
        r#"{"watch_dirs":["/d"],"mode":"monitor","entropy_threshold":7.99,"burst_file_count":2,
            "burst_window_secs":1,"sample_bytes":1024}"#,
    );
    assert_eq!(edge.validate(), Ok(()));
}

#[test]
fn a_threshold_that_is_no_number_is_rejected() {
    let mut cfg = config_from(r#"{"watch_dirs":["/d"],"mode":"monitor"}"#);
    cfg.entropy_threshold = f64::NAN.to_bits();
    assert_eq!(cfg.validate(), Err(ConfigError::EntropyThreshold));
    cfg.entropy_threshold = f64::INFINITY.to_bits();
    assert_eq!(cfg.validate(), Err(ConfigError::EntropyThreshold));
}

#[test]
fn the_defaults_are_the_documented_ones() {
    assert_eq!(f64::from_bits(default_entropy_threshold()), 7.5);
    assert_eq!(default_burst_file_count(), 8);
    assert_eq!(default_burst_window_secs(), 10);
    assert_eq!(default_sample_bytes(), 8192);
    assert_eq!(default_quarantine_dir().display(), "/var/lib/ransomshield/quarantine");
    assert_eq!(default_incident_reports_dir().display(), "/var/lib/ransomshield/incidents");
    assert!(default_true());
}

#[test]
fn a_config_file_that_others_may_write_is_refused() {
    assert_eq!(check_permissions(Some(0o100600)), Ok(()));
    assert_eq!(check_permissions(Some(0o100644)), Ok(()));
    assert_eq!(check_permissions(None), Ok(()));
    let group = check_permissions(Some(0o100620)).unwrap_err();
    assert_eq!(group, ConfigError::Writable { permissions: 0o100620 });
    let world = check_permissions(Some(0o100602)).unwrap_err();
    assert_eq!(
        world.message("/etc/c.json", ""),
        "config file /etc/c.json is group/world-writable (mode 602); refusing to start - run: chmod 0600 /etc/c.json"
    );
}

#[test]
fn every_refusal_says_what_is_wrong() {
    assert_eq!(ConfigError::NoWatchDirs.message("f", "t"), "watch_dirs must not be empty");
    assert_eq!(
        ConfigError::EntropyThreshold.message("f", "99"),
        "entropy_threshold must be between 0 and 8 bits/byte (got 99); 8.0 is the maximum a byte \
         can carry, so anything at or above it can never be reached"
    );
    assert_eq!(
        ConfigError::BurstFileCount { count: 1 }.message("f", "t"),
        "burst_file_count must be at least 2 (got 1); 0 or 1 would make a single high-entropy \
         write from any process a detection"
    );
    assert_eq!(
        ConfigError::BurstWindow.message("f", "t"),
        "burst_window_secs must be at least 1"
    );
    assert_eq!(
        ConfigError::SampleBytes { bytes: 0 }.message("f", "t"),
        "sample_bytes must be at least 1024 (got 0); a smaller budget makes entropy sampling \
         meaningless, and 0 disables detection entirely"
    );
}
