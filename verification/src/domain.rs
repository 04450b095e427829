//! Core data model of the mirror: providers, repositories, mirrored rows,
//! query-facing views, and the normalized records a provider client hands
//! back.  Timestamps of the local bookkeeping are epoch milliseconds; the
//! timestamps that remote APIs report are kept as the RFC 3339 text they
//! arrived in.

use vstd::prelude::*;
use crate::strutil::clone_opt_string;

verus! {

/// The three resource collections mirrored per repository.  Each one has an
/// independent sync cursor, so a failure in one never blocks the others.
#[derive(Clone, Copy, PartialEq, Eq, Structural, Debug)]
pub enum ResourceKind {
    Issues,
    PullRequests,
    WorkflowRuns,
}

/// Outcome code of the most recent sync attempt of one resource collection.
#[derive(Clone, Copy, PartialEq, Eq, Structural, Debug)]
pub enum SyncOutcome {
    Success,
    Failure,
    InProgress,
}

/// Lifecycle status of a sync-history record: `Started` when the campaign
/// begins, finalized exactly once to `Completed` or `Failed`.
#[derive(Clone, Copy, PartialEq, Eq, Structural, Debug)]
pub enum HistoryStatus {
    Started,
    Completed,
    Failed,
}

/// Scope of one sync campaign: a single provider or all registered providers.
#[derive(Clone, Copy, PartialEq, Eq, Structural, Debug)]
pub enum ScopeKind {
    Provider,
    AllProviders,
}

/// The closed error taxonomy of the engine.  Callers branch on the kind, not
/// on message text.
#[derive(Clone, Copy, PartialEq, Eq, Structural, Debug)]
pub enum SyncError {
    /// A sync campaign is already running; no work was started.
    Contention,
    /// The provider has no credential or an invalid one; checked before any
    /// network call is planned.
    Authentication,
    /// The provider kind is not supported.
    Configuration,
    /// A remote call answered with a non-success HTTP status.
    Transport(u16),
    /// The local store could not resolve or record something.
    Persistence,
    /// A referenced provider, repository or record does not exist.
    NotFound,
}

/// A configured remote Git-hosting account.
#[derive(Debug)]
pub struct GitProvider {
    pub id: i64,
    pub name: String,
    /// Provider kind code: `"github"` or `"gitlab"`.
    pub provider_type: String,
    pub base_url: String,
    pub api_base_url: String,
    pub token: Option<String>,
    pub token_valid: bool,
    /// True once a usable credential has been accepted.
    pub is_initialized: bool,
    pub created_at: i64,
    pub updated_at: i64,
}

/// A mirrored repository with its three independent resource cursors.
#[derive(Debug)]
pub struct Repository {
    pub id: i64,
    /// Remote identifier, opaque to the engine.
    pub api_id: String,
    pub name: String,
    pub full_name: String,
    pub web_url: String,
    pub api_base_url: String,
    pub description: Option<String>,
    pub provider_id: i64,
    pub provider_name: String,
    pub provider_type: String,
    pub is_private: bool,
    pub language: Option<String>,
    pub last_activity: Option<i64>,
    pub api_created_at: Option<i64>,
    pub api_updated_at: Option<i64>,
    /// Timestamp of the last successful sync, per resource type; advanced
    /// only when that resource's sync completes successfully.
    pub last_issues_sync_success: Option<i64>,
    pub last_pull_requests_sync_success: Option<i64>,
    pub last_workflows_sync_success: Option<i64>,
    /// Outcome of the most recent sync attempt, per resource type.
    pub last_issues_sync_status: Option<SyncOutcome>,
    pub last_pull_requests_sync_status: Option<SyncOutcome>,
    pub last_workflows_sync_status: Option<SyncOutcome>,
    pub created_at: i64,
    pub updated_at: i64,
}

impl Repository {
    /// The last-success cutoff of one resource collection.
    pub open spec fn spec_cursor(&self, kind: ResourceKind) -> Option<i64> {
        match kind {
            ResourceKind::Issues => self.last_issues_sync_success,
            ResourceKind::PullRequests => self.last_pull_requests_sync_success,
            ResourceKind::WorkflowRuns => self.last_workflows_sync_success,
        }
    }

    /// The recorded outcome of the most recent attempt on one resource
    /// collection.
    pub open spec fn spec_status(&self, kind: ResourceKind) -> Option<SyncOutcome> {
        match kind {
            ResourceKind::Issues => self.last_issues_sync_status,
            ResourceKind::PullRequests => self.last_pull_requests_sync_status,
            ResourceKind::WorkflowRuns => self.last_workflows_sync_status,
        }
    }

    #[verifier::when_used_as_spec(spec_cursor)]
    pub fn cursor(&self, kind: ResourceKind) -> (r: Option<i64>)
        ensures
            r == self.spec_cursor(kind),
    {
        match kind {
            ResourceKind::Issues => self.last_issues_sync_success,
            ResourceKind::PullRequests => self.last_pull_requests_sync_success,
            ResourceKind::WorkflowRuns => self.last_workflows_sync_success,
        }
    }

    #[verifier::when_used_as_spec(spec_status)]
    pub fn status(&self, kind: ResourceKind) -> (r: Option<SyncOutcome>)
        ensures
            r == self.spec_status(kind),
    {
        match kind {
            ResourceKind::Issues => self.last_issues_sync_status,
            ResourceKind::PullRequests => self.last_pull_requests_sync_status,
            ResourceKind::WorkflowRuns => self.last_workflows_sync_status,
        }
    }
}

impl Clone for GitProvider {
    /// The copy equals the original.
    fn clone(&self) -> (res: Self)
        ensures
            res == *self,
    {
        GitProvider {
            id: self.id,
            name: self.name.clone(),
            provider_type: self.provider_type.clone(),
            base_url: self.base_url.clone(),
            api_base_url: self.api_base_url.clone(),
            token: clone_opt_string(&self.token),
            token_valid: self.token_valid,
            is_initialized: self.is_initialized,
            created_at: self.created_at,
            updated_at: self.updated_at,
        }
    }
}

impl Clone for Repository {
    /// The copy equals the original.
    fn clone(&self) -> (res: Self)
        ensures
            res == *self,
    {
        Repository {
            id: self.id,
            api_id: self.api_id.clone(),
            name: self.name.clone(),
            full_name: self.full_name.clone(),
            web_url: self.web_url.clone(),
            api_base_url: self.api_base_url.clone(),
            description: clone_opt_string(&self.description),
            provider_id: self.provider_id,
            provider_name: self.provider_name.clone(),
            provider_type: self.provider_type.clone(),
            is_private: self.is_private,
            language: clone_opt_string(&self.language),
            last_activity: self.last_activity,
            api_created_at: self.api_created_at,
            api_updated_at: self.api_updated_at,
            last_issues_sync_success: self.last_issues_sync_success,
            last_pull_requests_sync_success: self.last_pull_requests_sync_success,
            last_workflows_sync_success: self.last_workflows_sync_success,
            last_issues_sync_status: self.last_issues_sync_status,
            last_pull_requests_sync_status: self.last_pull_requests_sync_status,
            last_workflows_sync_status: self.last_workflows_sync_status,
            created_at: self.created_at,
            updated_at: self.updated_at,
        }
    }
}

/// A stored issue row.  `state_id` is the local identifier the reconciler
/// resolved from the remote's symbolic state code.  `created_at` is the
/// locally-owned first-recorded timestamp that every upsert preserves;
/// `updated_at` is refreshed on every upsert.
#[derive(Debug)]
pub struct IssueRow {
    pub id: i64,
    pub api_id: u64,
    pub repository_id: i64,
    pub number: u32,
    pub title: String,
    pub author: String,
    pub state_id: i64,
    pub labels: Vec<String>,
    pub assigned_to_me: bool,
    pub url: String,
    pub closed_at: Option<String>,
    pub api_created_at: String,
    pub api_updated_at: String,
    pub created_at: i64,
    pub updated_at: i64,
}

/// A stored pull-request row; same bookkeeping discipline as [`IssueRow`].
#[derive(Debug)]
pub struct PullRequestRow {
    pub id: i64,
    pub api_id: u64,
    pub repository_id: i64,
    pub number: u32,
    pub title: String,
    pub author: String,
    pub state_id: i64,
    pub draft: bool,
    pub assigned_to_me: bool,
    pub url: String,
    pub merged_at: Option<String>,
    pub closed_at: Option<String>,
    pub api_created_at: String,
    pub api_updated_at: String,
    pub created_at: i64,
    pub updated_at: i64,
}

/// A stored workflow-run row, keyed by `(repository_id, api_id)`.
#[derive(Debug)]
pub struct WorkflowRow {
    pub id: i64,
    pub api_id: u64,
    pub repository_id: i64,
    pub name: String,
    pub status_id: i64,
    pub conclusion_id: Option<i64>,
    pub url: String,
    pub api_created_at: String,
    pub api_updated_at: String,
    pub created_at: i64,
    pub updated_at: i64,
}

/// Query-facing view of an issue: the stored row joined with its repository
/// name and provider kind code, the state identifier resolved back to its
/// symbolic code.
#[derive(Debug)]
pub struct Issue {
    pub id: i64,
    pub api_id: u64,
    pub repository_id: i64,
    pub number: u32,
    pub title: String,
    pub repository: String,
    pub provider: String,
    pub assigned_to_me: bool,
    pub author: String,
    pub state: String,
    pub labels: Vec<String>,
    pub url: String,
    pub closed_at: Option<String>,
    pub api_created_at: String,
    pub api_updated_at: String,
    pub created_at: i64,
    pub updated_at: i64,
}

/// Query-facing view of a pull request.
#[derive(Debug)]
pub struct PullRequest {
    pub id: i64,
    pub api_id: u64,
    pub repository_id: i64,
    pub number: u32,
    pub title: String,
    pub repository: String,
    pub provider: String,
    pub assigned_to_me: bool,
    pub author: String,
    pub state: String,
    pub draft: bool,
    pub url: String,
    pub merged_at: Option<String>,
    pub closed_at: Option<String>,
    pub api_created_at: String,
    pub api_updated_at: String,
    pub created_at: i64,
    pub updated_at: i64,
}

/// Query-facing view of a workflow run.
#[derive(Debug)]
pub struct WorkflowRun {
    pub id: i64,
    pub api_id: u64,
    pub repository_id: i64,
    pub name: String,
    pub repository: String,
    pub provider: String,
    pub status: String,
    pub conclusion: Option<String>,
    pub url: String,
    pub api_created_at: String,
    pub api_updated_at: String,
    pub created_at: i64,
    pub updated_at: i64,
}

/// One lifecycle record of a sync campaign.
#[derive(Debug)]
pub struct SyncHistory {
    pub id: i64,
    pub sync_type: ScopeKind,
    pub target_id: Option<i64>,
    pub target_name: String,
    pub status: HistoryStatus,
    pub error_message: Option<String>,
    pub items_synced: i32,
    pub repositories_synced: i32,
    pub errors_count: i32,
    pub started_at: i64,
    pub completed_at: Option<i64>,
    pub duration_seconds: Option<i64>,
    pub created_at: i64,
    pub updated_at: i64,
}

/// Filters of an issue query; an empty string is no constraint.
#[derive(Debug)]
pub struct IssueFilters {
    pub state: Option<String>,
    pub assigned: Option<String>,
    pub provider: Option<String>,
    pub repository: Option<String>,
    pub search: Option<String>,
}

/// Filters of a pull-request query.
#[derive(Debug)]
pub struct PullRequestFilters {
    pub state: Option<String>,
    pub assigned: Option<String>,
    pub provider: Option<String>,
    pub repository: Option<String>,
    pub search: Option<String>,
}

/// Filters of a workflow-run query.
#[derive(Debug)]
pub struct WorkflowFilters {
    pub status: Option<String>,
    pub provider: Option<String>,
    pub repository: Option<String>,
    pub search: Option<String>,
}

/// The page a query caller asks for.
#[derive(Clone, Copy, PartialEq, Eq, Structural, Debug)]
pub struct PaginationParams {
    pub page: u32,
    pub per_page: u32,
}

/// The page a query answered with.
#[derive(Clone, Copy, PartialEq, Eq, Structural, Debug)]
pub struct PaginationInfo {
    pub page: u32,
    pub per_page: u32,
    pub total: u32,
    pub total_pages: u32,
}

/// One page of query results.
#[derive(Debug)]
pub struct PaginatedResponse<T> {
    pub data: Vec<T>,
    pub pagination: PaginationInfo,
}

/// Aggregate counts over the mirrored issues.
#[derive(Clone, Copy, PartialEq, Eq, Structural, Debug)]
pub struct IssueStats {
    pub total: u32,
    pub open: u32,
    pub closed: u32,
}

/// Aggregate counts over the mirrored pull requests.
#[derive(Clone, Copy, PartialEq, Eq, Structural, Debug)]
pub struct PullRequestStats {
    pub total: u32,
    pub open: u32,
    pub closed: u32,
    pub merged: u32,
}

/// Aggregate counts over the mirrored workflow runs.
#[derive(Clone, Copy, PartialEq, Eq, Structural, Debug)]
pub struct WorkflowStats {
    pub total: u32,
    pub success: u32,
    pub failure: u32,
    pub in_progress: u32,
    pub cancelled: u32,
}

/// How the periodic scheduler runs campaigns.
#[derive(Clone, Copy, PartialEq, Eq, Structural, Debug)]
pub struct SyncSettings {
    pub sync_interval_minutes: u64,
    pub auto_sync_enabled: bool,
}

impl Default for SyncSettings {
    /// Auto-sync every thirty minutes unless reconfigured.
    fn default() -> (r: Self)
        ensures
            r.sync_interval_minutes == 30,
            r.auto_sync_enabled,
    {
        SyncSettings { sync_interval_minutes: 30, auto_sync_enabled: true }
    }
}

impl Clone for SyncHistory {
    /// The copy equals the original.
    fn clone(&self) -> (res: Self)
        ensures
            res == *self,
    {
        SyncHistory {
            id: self.id,
            sync_type: self.sync_type,
            target_id: self.target_id,
            target_name: self.target_name.clone(),
            status: self.status,
            error_message: clone_opt_string(&self.error_message),
            items_synced: self.items_synced,
            repositories_synced: self.repositories_synced,
            errors_count: self.errors_count,
            started_at: self.started_at,
            completed_at: self.completed_at,
            duration_seconds: self.duration_seconds,
            created_at: self.created_at,
            updated_at: self.updated_at,
        }
    }
}

} // verus!
