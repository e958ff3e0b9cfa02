//! Core of a log-search engine: given a time window and a substring pattern,
//! it selects candidate files by modification time, decodes each file (plain
//! text, gzip, or zip), and scans its lines for timestamped matches, emitting
//! per-file diagnostics for files that cannot be decoded.
//!
//! The library is pure: it works on file names, modification times and byte
//! contents handed to it, and returns the output lines.  Listing folders,
//! reading files, and streaming the result over a pipe to an HTTP response
//! belong to the surrounding program.
pub mod decode;
pub mod file_selector;
pub mod pattern;
pub mod scanner;
pub mod search;
pub mod timestamp;
