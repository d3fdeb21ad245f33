//! Signature-based malware detection: each file's SHA-256 digest is looked up
//! in a set of known-malicious digests, and a scan job hands the files of a
//! tree to workers, tallies their verdicts and reports progress.

pub mod coordinator;
pub mod database;
pub mod digest;
pub mod hex;
pub mod scanner;
