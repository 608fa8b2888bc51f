//! Behaviour-based ransomware detection: the decisions of the daemon, verified.

pub mod baseline;
pub mod clock;
pub mod config;
pub mod detector;
pub mod digest;
pub mod directories;
pub mod encoding;
pub mod honeypot;
pub mod incident;
pub mod monitor;
pub mod path;
pub mod quarantine;
pub mod response;
pub mod sampling;
pub mod table;
pub mod text;
pub mod tree;
pub mod trust;
