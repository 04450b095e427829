//! What a provider client receives and what it hands on: the raw shapes of
//! the two remote APIs, and the normalized intermediate records that the
//! reconciler consumes.

use vstd::prelude::*;

verus! {

/// A user as the GitHub-shaped API reports it.
#[derive(Debug)]
pub struct GitHubUser {
    pub login: String,
}

/// A label as the GitHub-shaped API reports it.
#[derive(Debug)]
pub struct GitHubLabel {
    pub name: String,
}

/// An item of the GitHub-shaped issues collection.  That endpoint conflates
/// issues and pull requests; `pull_request` is true when the item is really
/// a pull request and must be excluded before reconciliation.
#[derive(Debug)]
pub struct GitHubIssue {
    pub id: u64,
    pub number: u32,
    pub title: String,
    pub user: GitHubUser,
    pub state: String,
    pub labels: Vec<GitHubLabel>,
    pub html_url: String,
    pub closed_at: Option<String>,
    pub created_at: String,
    pub updated_at: String,
    pub assignees: Vec<GitHubUser>,
    pub pull_request: bool,
}

/// A pull request as the GitHub-shaped API reports it.
#[derive(Debug)]
pub struct GitHubPullRequest {
    pub id: u64,
    pub number: u32,
    pub title: String,
    pub user: GitHubUser,
    pub state: String,
    pub draft: bool,
    pub html_url: String,
    pub merged_at: Option<String>,
    pub closed_at: Option<String>,
    pub created_at: String,
    pub updated_at: String,
    pub assignees: Vec<GitHubUser>,
}

/// A workflow run as the GitHub-shaped API reports it.
#[derive(Debug)]
pub struct GitHubWorkflowRun {
    pub id: u64,
    pub name: String,
    pub status: String,
    pub conclusion: Option<String>,
    pub html_url: String,
    pub created_at: String,
    pub updated_at: String,
}

/// A user as the GitLab-shaped API reports it.
#[derive(Debug)]
pub struct GitLabUser {
    pub username: String,
}

/// An issue as the GitLab-shaped API reports it.
#[derive(Debug)]
pub struct GitLabIssue {
    pub id: u64,
    pub iid: u32,
    pub title: String,
    pub author: GitLabUser,
    pub state: String,
    pub labels: Vec<String>,
    pub web_url: String,
    pub closed_at: Option<String>,
    pub created_at: String,
    pub updated_at: String,
    pub assignees: Vec<GitLabUser>,
}

/// A merge request as the GitLab-shaped API reports it.
#[derive(Debug)]
pub struct GitLabMergeRequest {
    pub id: u64,
    pub iid: u32,
    pub title: String,
    pub author: GitLabUser,
    pub state: String,
    pub draft: bool,
    pub web_url: String,
    pub merged_at: Option<String>,
    pub closed_at: Option<String>,
    pub created_at: String,
    pub updated_at: String,
    pub assignees: Vec<GitLabUser>,
}

/// A pipeline as the GitLab-shaped API reports it; it stands in for a
/// workflow run.
#[derive(Debug)]
pub struct GitLabPipeline {
    pub id: u64,
    pub status: String,
    pub web_url: String,
    pub created_at: String,
    pub updated_at: String,
}

/// A normalized issue, independent of which provider kind reported it.
#[derive(Debug)]
pub struct IssueRecord {
    pub api_id: u64,
    pub number: u32,
    pub title: String,
    pub author: String,
    pub state: String,
    pub labels: Vec<String>,
    pub assigned_to_me: bool,
    pub url: String,
    pub closed_at: Option<String>,
    pub created_at: String,
    pub updated_at: String,
}

/// A normalized pull request.
#[derive(Debug)]
pub struct PullRequestRecord {
    pub api_id: u64,
    pub number: u32,
    pub title: String,
    pub author: String,
    pub state: String,
    pub draft: bool,
    pub assigned_to_me: bool,
    pub url: String,
    pub merged_at: Option<String>,
    pub closed_at: Option<String>,
    pub created_at: String,
    pub updated_at: String,
}

/// A normalized workflow run.
#[derive(Debug)]
pub struct WorkflowRecord {
    pub api_id: u64,
    pub name: String,
    pub status: String,
    pub conclusion: Option<String>,
    pub url: String,
    pub created_at: String,
    pub updated_at: String,
}

} // verus!
