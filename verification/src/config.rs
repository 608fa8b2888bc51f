//! What the operator configures, and which configurations are refused.

use vstd::prelude::*;
use vstd::string::*;
use vstd::utf8::*;

use crate::path::FilePath;
use crate::text::{decimal, octal, push_decimal, push_octal};

verus! {

/// What to do about a detection.
#[derive(Clone, Copy, PartialEq, Eq, Structural, Debug)]
pub enum Mode {
    /// Only log detections, never touch the offending process.
    Monitor,
    /// Log and kill the offending process.
    Enforce,
}

/// An executable exempted from the burst heuristic, anchored on both its path
/// and its content.
pub struct TrustedExecutable {
    pub path: FilePath,
    /// Hexadecimal SHA-256 of the executable's content.
    pub sha256: String,
}

/// The configuration of the daemon.
pub struct Config {
    /// Directories to watch.
    pub watch_dirs: Vec<FilePath>,
    /// Decoy files. Any write to one of these is a near-certain ransomware signal.
    pub honeypots: Vec<FilePath>,
    pub mode: Mode,
    /// Entropy above which a rewritten file is considered encrypted: the bits of
    /// the floating-point number of bits per byte.
    pub entropy_threshold: u64,
    /// Number of distinct files rewritten by one process within the window that
    /// is a burst.
    pub burst_file_count: usize,
    pub burst_window_secs: u64,
    /// How many bytes to sample from a closed file.
    pub sample_bytes: usize,
    /// Where quarantined files and their manifest are kept.
    pub quarantine_dir: FilePath,
    /// Only count a write toward a burst where its directory, or one above it,
    /// has held plain content.
    pub require_directory_baseline: bool,
    /// Where incident reports are written.
    pub incident_reports_dir: FilePath,
    /// Command run on every detection.
    pub notify_command: Option<String>,
    pub trusted_executables: Vec<TrustedExecutable>,
}

/// Why a configuration is refused.
#[derive(Clone, Copy, PartialEq, Eq, Structural, Debug)]
pub enum ConfigError {
    /// The file can be rewritten by its group or by anyone.
    Writable { permissions: u32 },
    NoWatchDirs,
    EntropyThreshold,
    BurstFileCount { count: usize },
    BurstWindow,
    SampleBytes { bytes: usize },
}

/// The bits of the floating-point number eight: the most that a byte can carry,
/// in bits per byte. The floating-point numbers strictly between zero and eight
/// are those whose bits, as an integer, lie strictly between zero and this one.
pub const EIGHT: u64 = 0x4020_0000_0000_0000;

/// The bits of the floating-point number seven and a half.
pub const SEVEN_AND_A_HALF: u64 = 0x401E_0000_0000_0000;

/// The permissions with which others than the owner may write.
pub const OTHERS_MAY_WRITE: u32 = 0o22;

pub fn default_true() -> (value: bool)
    ensures
        value,
{
    true
}

pub fn default_entropy_threshold() -> (bits: u64)
    ensures
        bits == SEVEN_AND_A_HALF,
{
    SEVEN_AND_A_HALF
}

pub fn default_burst_file_count() -> (count: usize)
    ensures
        count == 8,
{
    8
}

pub fn default_burst_window_secs() -> (secs: u64)
    ensures
        secs == 10,
{
    10
}

pub fn default_sample_bytes() -> (bytes: usize)
    ensures
        bytes == 8192,
{
    8192
}

pub fn default_quarantine_dir() -> (path: FilePath)
    ensures
        path@ == encode_utf8("/var/lib/ransomshield/quarantine"@),
{
    FilePath::from_text("/var/lib/ransomshield/quarantine")
}

pub fn default_incident_reports_dir() -> (path: FilePath)
    ensures
        path@ == encode_utf8("/var/lib/ransomshield/incidents"@),
{
    FilePath::from_text("/var/lib/ransomshield/incidents")
}

/// Whether a configuration makes sense: it watches something, can both reach and
/// miss its entropy threshold, needs more than one file for a burst, and has a
/// window and a sample to speak of.
pub open spec fn is_sane(cfg: Config) -> bool {
    &&& cfg.watch_dirs@.len() > 0
    &&& 0 < cfg.entropy_threshold < EIGHT
    &&& cfg.burst_file_count >= 2
    &&& cfg.burst_window_secs >= 1
    &&& cfg.sample_bytes >= 1024
}

/// The first thing wrong with a configuration that makes no sense.
pub open spec fn first_problem(cfg: Config) -> ConfigError {
    if cfg.watch_dirs@.len() == 0 {
        ConfigError::NoWatchDirs
    } else if !(0 < cfg.entropy_threshold < EIGHT) {
        ConfigError::EntropyThreshold
    } else if cfg.burst_file_count < 2 {
        ConfigError::BurstFileCount { count: cfg.burst_file_count }
    } else if cfg.burst_window_secs < 1 {
        ConfigError::BurstWindow
    } else {
        ConfigError::SampleBytes { bytes: cfg.sample_bytes }
    }
}

/// Refuses a configuration file that others than its owner may write: it decides
/// what is watched and which executables are exempt. A file whose permissions
/// could not be read is let through.
pub fn check_permissions(permissions: Option<u32>) -> (result: Result<(), ConfigError>)
    ensures
        result == match permissions {
            Some(mode) => if mode & OTHERS_MAY_WRITE == 0 {
                Ok(())
            } else {
                Err(ConfigError::Writable { permissions: mode })
            },
            None => Ok::<(), ConfigError>(()),
        },
{
    match permissions {
        Some(mode) => {
            if mode & OTHERS_MAY_WRITE == 0 {
                Ok(())
            } else {
                Err(ConfigError::Writable { permissions: mode })
            }
        },
        None => Ok(()),
    }
}

impl Config {
    /// Refuses configurations that silently disable detection or that turn a
    /// single write into one.
    pub fn validate(&self) -> (result: Result<(), ConfigError>)
        ensures
            is_sane(*self) ==> result == Ok::<(), ConfigError>(()),
            !is_sane(*self) ==> result == Err::<(), ConfigError>(first_problem(*self)),
    {
        if self.watch_dirs.len() == 0 {
            return Err(ConfigError::NoWatchDirs);
        }
        if !(self.entropy_threshold > 0 && self.entropy_threshold < EIGHT) {
            return Err(ConfigError::EntropyThreshold);
        }
        if self.burst_file_count < 2 {
            return Err(ConfigError::BurstFileCount { count: self.burst_file_count });
        }
        if self.burst_window_secs < 1 {
            return Err(ConfigError::BurstWindow);
        }
        if self.sample_bytes < 1024 {
            return Err(ConfigError::SampleBytes { bytes: self.sample_bytes });
        }
        Ok(())
    }
}

/// What the operator is told of a refusal of the configuration file `file`, with
/// the text `threshold` for its entropy threshold.
pub open spec fn refusal(error: ConfigError, file: Seq<char>, threshold: Seq<char>) -> Seq<char> {
    match error {
        ConfigError::Writable { permissions } => "config file "@ + file
            + " is group/world-writable (mode "@ + octal((permissions & 0o7777) as nat)
            + "); refusing to start - run: chmod 0600 "@ + file,
        ConfigError::NoWatchDirs => "watch_dirs must not be empty"@,
        ConfigError::EntropyThreshold => "entropy_threshold must be between 0 and 8 bits/byte (got "@
            + threshold
            + "); 8.0 is the maximum a byte can carry, so anything at or above it can never be reached"@,
        ConfigError::BurstFileCount { count } => "burst_file_count must be at least 2 (got "@ + decimal(
            count as nat,
        )
            + "); 0 or 1 would make a single high-entropy write from any process a detection"@,
        ConfigError::BurstWindow => "burst_window_secs must be at least 1"@,
        ConfigError::SampleBytes { bytes } => "sample_bytes must be at least 1024 (got "@ + decimal(
            bytes as nat,
        )
            + "); a smaller budget makes entropy sampling meaningless, and 0 disables detection entirely"@,
    }
}

impl ConfigError {
    /// What to tell the operator.
    pub fn message(&self, file: &str, threshold: &str) -> (text: String)
        ensures
            text@ == refusal(*self, file@, threshold@),
    {
        let mut text = String::new();
        match *self {
            ConfigError::Writable { permissions } => {
                text.append("config file ");
                text.append(file);
                text.append(" is group/world-writable (mode ");
                push_octal(&mut text, permissions & 0o7777);
                text.append("); refusing to start - run: chmod 0600 ");
                text.append(file);
            },
            ConfigError::NoWatchDirs => {
                text.append("watch_dirs must not be empty");
            },
            ConfigError::EntropyThreshold => {
                text.append("entropy_threshold must be between 0 and 8 bits/byte (got ");
                text.append(threshold);
                text.append("); 8.0 is the maximum a byte can carry, so anything at or above it can never be reached");
            },
            ConfigError::BurstFileCount { count } => {
                text.append("burst_file_count must be at least 2 (got ");
                push_decimal(&mut text, count as u128);
                text.append("); 0 or 1 would make a single high-entropy write from any process a detection");
            },
            ConfigError::BurstWindow => {
                text.append("burst_window_secs must be at least 1");
            },
            ConfigError::SampleBytes { bytes } => {
                text.append("sample_bytes must be at least 1024 (got ");
                push_decimal(&mut text, bytes as u128);
                text.append("); a smaller budget makes entropy sampling meaningless, and 0 disables detection entirely");
            },
        }
        assert(text@ =~= refusal(*self, file@, threshold@));
        text
    }
}

/// A configuration is accepted exactly where it watches something, has an entropy
/// threshold whose bits lie strictly between zero and those of eight, takes two files or
/// more for a burst, has a window of a second or more and samples 1024 bytes or more.
/// Else it is refused for the first of these that fails, and for no other.
pub proof fn a_configuration_is_refused_for_its_first_fault(
    cfg: &Config,
    result: Result<(), ConfigError>,
)
    requires
        call_ensures(Config::validate, (cfg,), result),
    ensures
        ({
            let watches = cfg.watch_dirs@.len() > 0;
            let reachable = 0 < cfg.entropy_threshold < 0x4020_0000_0000_0000;
            let several = cfg.burst_file_count >= 2;
            let timed = cfg.burst_window_secs >= 1;
            let sampled = cfg.sample_bytes >= 1024;
            &&& result is Ok <==> watches && reachable && several && timed && sampled
            &&& result == Err::<(), ConfigError>(ConfigError::NoWatchDirs) <==> !watches
            &&& result == Err::<(), ConfigError>(ConfigError::EntropyThreshold) <==> watches
                && !reachable
            &&& result == Err::<(), ConfigError>(
                ConfigError::BurstFileCount { count: cfg.burst_file_count },
            ) <==> watches && reachable && !several
            &&& result == Err::<(), ConfigError>(ConfigError::BurstWindow) <==> watches && reachable
                && several && !timed
            &&& result == Err::<(), ConfigError>(
                ConfigError::SampleBytes { bytes: cfg.sample_bytes },
            ) <==> watches && reachable && several && timed && !sampled
        }),
{
}

/// A configuration file is refused exactly where its permissions are known and let its
/// group or everyone write, and the refusal gives them.
pub proof fn a_file_that_others_may_write_is_refused(
    permissions: Option<u32>,
    result: Result<(), ConfigError>,
)
    requires
        call_ensures(check_permissions, (permissions,), result),
    ensures
        result is Err <==> permissions is Some && (permissions->0 & 0o20 != 0 || permissions->0
            & 0o2 != 0),
        result is Err ==> result == Err::<(), ConfigError>(
            ConfigError::Writable { permissions: permissions->0 },
        ),
{
    if let Some(mode) = permissions {
        assert(mode & 0o22 == 0 <==> mode & 0o20 == 0 && mode & 0o2 == 0) by (bit_vector);
    }
}

/// What the operator is told names the file twice and gives its permissions in octal,
/// without the kind of the file; gives the threshold as it was read; and gives the numbers
/// that are too small.
pub proof fn refusals_give_what_was_refused(
    file: Seq<char>,
    threshold: Seq<char>,
    permissions: u32,
    number: usize,
)
    ensures
        refusal(ConfigError::Writable { permissions }, file, threshold) == "config file "@ + file
            + " is group/world-writable (mode "@ + octal((permissions % 4096) as nat)
            + "); refusing to start - run: chmod 0600 "@ + file,
        refusal(ConfigError::EntropyThreshold, file, threshold)
            == "entropy_threshold must be between 0 and 8 bits/byte (got "@ + threshold
            + "); 8.0 is the maximum a byte can carry, so anything at or above it can never be reached"@,
        refusal(ConfigError::BurstFileCount { count: number }, file, threshold)
            == "burst_file_count must be at least 2 (got "@ + decimal(number as nat)
            + "); 0 or 1 would make a single high-entropy write from any process a detection"@,
        refusal(ConfigError::SampleBytes { bytes: number }, file, threshold)
            == "sample_bytes must be at least 1024 (got "@ + decimal(number as nat)
            + "); a smaller budget makes entropy sampling meaningless, and 0 disables detection entirely"@,
        refusal(ConfigError::NoWatchDirs, file, threshold) == "watch_dirs must not be empty"@,
        refusal(ConfigError::BurstWindow, file, threshold)
            == "burst_window_secs must be at least 1"@,
{
    assert(permissions & 0o7777 == permissions % 4096) by (bit_vector);
}

/// The values that stand where the operator gives none make sense together: a burst is
/// eight files in ten seconds, in a place with a baseline, the threshold is seven and a half
/// bits per byte, and 8192 bytes are sampled. What is kept is kept under one directory.
pub proof fn the_defaults_make_sense(
    cfg: &Config,
    threshold: u64,
    count: usize,
    secs: u64,
    bytes: usize,
    baseline: bool,
    quarantine: FilePath,
    reports: FilePath,
    result: Result<(), ConfigError>,
)
    requires
        call_ensures(default_quarantine_dir, (), quarantine),
        call_ensures(default_incident_reports_dir, (), reports),
        call_ensures(default_entropy_threshold, (), threshold),
        call_ensures(default_burst_file_count, (), count),
        call_ensures(default_burst_window_secs, (), secs),
        call_ensures(default_sample_bytes, (), bytes),
        call_ensures(default_true, (), baseline),
        cfg.watch_dirs@.len() > 0,
        cfg.entropy_threshold == threshold,
        cfg.burst_file_count == count,
        cfg.burst_window_secs == secs,
        cfg.sample_bytes == bytes,
        call_ensures(Config::validate, (cfg,), result),
    ensures
        result is Ok,
        threshold == 0x401E_0000_0000_0000,
        count == 8,
        secs == 10,
        bytes == 8192,
        baseline,
        quarantine@ == encode_utf8("/var/lib/ransomshield/quarantine"@),
        reports@ == encode_utf8("/var/lib/ransomshield/incidents"@),
{
}

} // verus!
