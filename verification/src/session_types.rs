//! Session vocabulary: errors, entry projections, scans, identity, fork
//! options and the durable lane/operation records.

use vstd::prelude::*;
use crate::text::{debug_quoted, debug_str, push_str, string_of, to_string};
use crate::types::ThinkingLevel;

verus! {

/// Why a session operation failed.
#[derive(Debug, Clone, PartialEq, Eq)]
pub enum SessionError {
    /// Durable session state is internally inconsistent.
    Invariant(String),
    InvalidBranch { branch: String, reason: String },
    BranchExists(String),
    /// A pending assistant message cannot be persisted as a session entry.
    PendingAssistantMessage,
    UnknownTarget(String),
    Closed,
    Storage(String),
    Other(String),
}

impl SessionError {
    pub open spec fn message_spec(self) -> Seq<char> {
        match self {
            SessionError::Invariant(m) => "session invariant violated: "@ + m@,
            SessionError::InvalidBranch { branch, reason } => "invalid branch "@ + debug_quoted(branch@)
                + ": "@ + reason@,
            SessionError::BranchExists(b) => "branch already exists: "@ + b@,
            SessionError::PendingAssistantMessage => "cannot persist a pending assistant message"@,
            SessionError::UnknownTarget(t) => "unknown target: "@ + t@,
            SessionError::Closed => "session is closed"@,
            SessionError::Storage(m) => "storage failure: "@ + m@,
            SessionError::Other(m) => m@,
        }
    }

    /// The error's message.
    pub fn message(&self) -> (r: String)
        ensures
            r@ == self.message_spec(),
    {
        match self {
            SessionError::Invariant(m) => prefixed("session invariant violated: ", m.as_str()),
            SessionError::InvalidBranch { branch, reason } => {
                let mut v = crate::text::chars_of("invalid branch ");
                push_str(&mut v, debug_str(branch.as_str()).as_str());
                push_str(&mut v, ": ");
                push_str(&mut v, reason.as_str());
                assert(v@ =~= self.message_spec());
                string_of(&v)
            },
            SessionError::BranchExists(b) => prefixed("branch already exists: ", b.as_str()),
            SessionError::PendingAssistantMessage => to_string("cannot persist a pending assistant message"),
            SessionError::UnknownTarget(t) => prefixed("unknown target: ", t.as_str()),
            SessionError::Closed => to_string("session is closed"),
            SessionError::Storage(m) => prefixed("storage failure: ", m.as_str()),
            SessionError::Other(m) => to_string(m.as_str()),
        }
    }

    /// A plain message as an error.
    pub fn from_message(message: String) -> (r: SessionError)
        ensures
            r == SessionError::Other(message),
    {
        SessionError::Other(message)
    }
}

fn prefixed(p: &str, s: &str) -> (r: String)
    ensures
        r@ == p@ + s@,
{
    let mut v = crate::text::chars_of(p);
    push_str(&mut v, s);
    string_of(&v)
}

pub const ENTRY_TYPE_MESSAGE: &'static str = "message";

pub const ENTRY_TYPE_COMPACTION: &'static str = "compaction";

pub const ENTRY_TYPE_BRANCH_SUMMARY: &'static str = "branch_summary";

pub const ENTRY_TYPE_CUSTOM: &'static str = "custom";

/// Structure-only projection of an entry, for cheap branch walking.
#[derive(Debug, Clone, PartialEq)]
pub struct EntryStructure {
    pub id: String,
    pub parent_id: Option<String>,
    pub seq: u64,
    pub timestamp: u64,
    pub entry_type: String,
    pub custom_type: Option<String>,
}

#[derive(Debug, Clone, Default)]
pub struct BranchScan {
    pub stop_at_type: Option<&'static str>,
    pub stop_at_id: Option<String>,
    pub entry_type: Option<&'static str>,
    pub custom_type: Option<String>,
    pub oldest_first: bool,
    pub limit: Option<usize>,
    /// Only entries with seq strictly greater (oldest first) or smaller
    /// (newest first).
    pub cursor: Option<u64>,
}

#[derive(Debug, Clone)]
pub struct StorageBranchScan {
    pub start: String,
    pub query: BranchScan,
}

#[derive(Debug, Clone, Default)]
pub struct EntryScan {
    pub entry_type: Option<&'static str>,
    pub custom_type: Option<String>,
    pub from_seq: Option<u64>,
    pub to_seq: Option<u64>,
    pub desc: bool,
    pub limit: Option<usize>,
}

#[derive(Debug, Clone, Default)]
pub struct UsageScan {
    pub from_seq: Option<u64>,
    pub to_seq: Option<u64>,
    pub desc: bool,
    pub limit: Option<usize>,
}

pub const STORAGE_VERSION: u64 = 1;

#[derive(Debug, Clone)]
pub struct SessionMetadata {
    pub id: String,
    pub created_at: u64,
    pub storage_version: u64,
    pub cwd: Option<String>,
    pub parent_session_id: Option<String>,
}

/// Source of fresh ids.
pub trait IdGenerator {
    fn next(&self) -> String;
}

/// Time-ordered ids (UUID version 7), so entry ids sort chronologically.
#[derive(Default)]
pub struct UuidV7Generator;

impl IdGenerator for UuidV7Generator {
    /// A version-7 UUID of the current clock reading: 36 characters,
    /// hyphens at 8, 13, 18 and 23, lowercase hexadecimal digits elsewhere.
    fn next(&self) -> (r: String)
        ensures
            crate::clock::hyphenated_uuid_shape(r@),
            exists|ms: u64, b: Seq<u8>| b.len() == 10 && r@ == crate::clock::uuid_v7_text(ms, b),
    {
        crate::clock::uuid_v7_now()
    }
}

#[derive(Debug, Clone, Default)]
pub struct SessionCreateOptions {
    pub id: Option<String>,
    pub parent_session_id: Option<String>,
}

#[derive(Debug, Clone)]
pub enum ForkOptions {
    /// Copy one path from a source lane: its ancestry (at or before the
    /// chosen entry), copied configuration, fresh idle lane state.
    Branch {
        branch: String,
        entry_id: Option<String>,
        /// Stop at the selected entry's parent instead of including it.
        before: bool,
        id: Option<String>,
    },
    /// Copy the whole tree and every branch tip.
    Tree { id: Option<String> },
}

#[derive(Debug, Clone, PartialEq)]
pub struct LaneConfiguration {
    pub provider: String,
    pub model_id: String,
    pub thinking_level: ThinkingLevel,
    pub active_tool_names: Vec<String>,
}

#[derive(Debug, Clone, Default, PartialEq)]
pub struct LaneState {
    pub current_operation_id: Option<String>,
    pub last_operation_id: Option<String>,
    pub inbox: Vec<InboxItem>,
}

#[derive(Debug, Clone, PartialEq)]
pub enum OperationIntent {
    Run { prompt_entry_ids: Vec<String> },
    Compaction { custom_instructions: Option<String> },
    Navigation {
        target_id: Option<String>,
        summarize: bool,
        label: Option<String>,
        custom_instructions: Option<String>,
    },
}

#[derive(Debug, Clone, PartialEq)]
pub enum Control {
    Running,
    CancelRequested { requested_at: u64 },
}

#[derive(Debug, Clone, PartialEq)]
pub struct OperationMeta {
    pub operation_id: String,
    pub lane: String,
    pub source_tip_id: Option<String>,
    pub started_at: u64,
    pub intent: OperationIntent,
}

#[derive(Debug, Clone, Copy, PartialEq, Eq, Structural)]
pub enum TerminalStatus {
    Completed,
    Declined,
    Aborted,
    Failed,
}

#[derive(Debug, Clone, Copy, PartialEq, Eq, Structural)]
pub enum InboxItemKind {
    Steer,
    FollowUp,
    NextRun,
    Write,
}

#[derive(Debug, Clone, PartialEq)]
pub struct InboxItem {
    pub entry_id: String,
    pub kind: InboxItemKind,
}

#[derive(Debug, Clone, PartialEq)]
pub struct NormalizedRetryPolicy {
    pub max_attempts: u32,
    pub base_delay_ms: u64,
    pub max_agent_delay_ms: u64,
}

#[derive(Debug, Clone, Copy, PartialEq, Eq, Structural)]
pub enum QueueMode {
    All,
    OneAtATime,
}

#[derive(Debug, Clone, Copy, PartialEq, Eq, Structural)]
pub enum ToolExecutionMode {
    Sequential,
    Parallel,
}

#[derive(Debug, Clone, Copy, PartialEq, Eq, Structural)]
pub enum Continuation {
    NeedAssistant { overflow_recovery_used: bool },
    MayFinish { include_final_assistant: bool },
}

#[derive(Debug, Clone, PartialEq)]
pub struct CheckpointData {
    pub continuation: Continuation,
    pub trigger_entry_id: String,
}

#[derive(Debug, Clone, Copy, PartialEq, Eq, Structural)]
pub enum ToolCallStatus {
    Planned,
    EffectPending,
    OutcomeReady,
    Completed,
}

#[derive(Debug, Clone, PartialEq)]
pub enum ResultBoundary {
    ResumeCheckpoint { resume_after: CheckpointData },
    Finish,
    CommitNavigation { target_id: Option<String>, label: Option<String> },
}

#[derive(Debug, Clone, PartialEq)]
pub struct SummaryTask {
    pub task_id: String,
    pub reason: Option<String>,
    pub custom_instructions: Option<String>,
    pub boundary: ResultBoundary,
}

#[derive(Debug, Clone, Default, PartialEq)]
pub struct DurableFileOperations {
    pub read: Vec<String>,
    pub written: Vec<String>,
    pub edited: Vec<String>,
}

#[derive(Debug, Clone, Copy, PartialEq, Eq, Structural)]
pub enum RetryWaitKind {
    Assistant,
    Summary,
}

/// Backoff data for retry-wait states.
#[derive(Debug, Clone, PartialEq)]
pub struct RetryWait {
    pub next_attempt: u32,
    pub not_before: u64,
    pub error_message: String,
}

#[derive(Debug, Clone, PartialEq)]
pub struct GenerationRequestRef {
    pub index: u64,
    pub usage_id: String,
}

} // verus!
