//! Plain request and view records the command layer exchanges with the
//! user interface: benchmark and knowledge requests, usage rows, workspace
//! files and documents, chat side channels.
use vstd::prelude::*;
use crate::chat_progress::DurationSampleSummary;

verus! {

/// Import the results of a benchmark job directory.
#[derive(Debug)]
pub struct ImportBenchmarkResultsRequest {
    pub job_path: String,
}

/// A cross-model consistency report over one dataset (its newest version
/// when none is given).
#[derive(Debug)]
pub struct ConsistencyReportRequest {
    pub dataset: String,
    pub dataset_version: Option<String>,
}

/// Register a local document library.
#[derive(Debug)]
pub struct RegisterKnowledgeLibraryRequest {
    pub name: String,
    pub root_path: String,
}

/// Token usage of one local day.
#[derive(Debug)]
pub struct UsageHeatmapDay {
    pub local_date: String,
    pub status: String,
    pub total_tokens: Option<i64>,
    pub input_tokens: i64,
    pub output_tokens: i64,
    pub reasoning_tokens: i64,
    pub cached_tokens: i64,
    pub requests: Option<i64>,
}

/// Token usage of one surface.
#[derive(Debug)]
pub struct UsageBreakdown {
    pub surface: String,
    pub total_tokens: i64,
    pub requests: i64,
}

/// A document shown in the preview pane.
#[derive(Debug)]
pub struct DocumentPreview {
    pub path: String,
    pub relative_path: String,
    pub name: String,
    pub extension: String,
    pub content: String,
    pub truncated: bool,
}

/// A file or directory of the workspace tree.
#[derive(Debug)]
pub struct FileNode {
    pub name: String,
    pub path: String,
    pub is_dir: bool,
    pub children: Option<Vec<FileNode>>,
}

/// An attachment saved for a chat message.
#[derive(Debug)]
pub struct SavedAttachment {
    pub path: String,
    pub name: String,
    pub size_bytes: usize,
}

/// Which delivery channels are ready: a signed-in GitHub CLI, a GitHub
/// token.
#[derive(Debug, Clone, Copy, PartialEq, Eq, Structural)]
pub struct DeliveryChannelStatus {
    pub gh_cli: bool,
    pub rest_token: bool,
}

/// One turn of an anonymous conversation, as the front end holds it.
#[derive(Debug)]
pub struct AnonTurn {
    pub role: String,
    pub content: String,
}

/// Timing estimates for a project's turns: per plan phase kind, for build
/// and test commands, and for external jobs.
#[derive(Debug)]
pub struct TurnTimingProfile {
    pub phases: Vec<(String, DurationSampleSummary)>,
    pub build: Option<DurationSampleSummary>,
    pub external_job: Option<DurationSampleSummary>,
}

} // verus!
