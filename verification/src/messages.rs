//! Plain records that consumers of the reader exchange around it: connection
//! coordinates, health reports and the summaries built from `list_signals`.
//! They carry plain values only; any transport encoding lives with the
//! consumer.

use vstd::prelude::*;

verus! {

/// Where a consumer listens and which upstream endpoint it talks to.
#[derive(Debug)]
pub struct Connection {
    pub ip: String,
    pub port: u16,
    pub target: String,
    pub target_port: u16,
}

/// A one-word health report.
#[derive(Debug)]
pub struct HealthStatus {
    pub status: String,
}

/// A summary of one opened reader: an opaque identifier, how many signals it
/// registered and their names.
#[derive(Debug)]
pub struct ReaderSummary {
    pub id: String,
    pub signals_count: usize,
    pub headers: Vec<String>,
}

/// The signal names registered under one opened reader.
#[derive(Debug)]
pub struct ReaderHeaders {
    pub id: String,
    pub headers: Vec<String>,
}

/// A request to open one file image.
#[derive(Debug)]
pub struct FileReadRequest {
    pub mode: String,
    pub path: String,
}

/// What opening a file yields for a consumer: an identifier, naming, and
/// the exposed signal names.
#[derive(Debug)]
pub struct FileReadResponse {
    pub id: String,
    pub name: String,
    pub path: String,
    pub source: String,
    pub headers: Option<Vec<String>>,
    pub desc: Option<String>,
    pub tags: Option<Vec<String>>,
    pub created_at: Option<String>,
    pub source_url: Option<String>,
}

} // verus!
