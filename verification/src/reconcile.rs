//! The upsert reconciler: normalizes what a provider client fetched and
//! merges it into the local tables, resolving symbolic codes through the
//! lookup tables and preserving each row's locally-owned first-recorded
//! timestamp.

use vstd::prelude::*;
use vstd::string::StringExecFns;
use crate::domain::{IssueRow, PullRequestRow, WorkflowRow, SyncError};
use crate::records::{
    GitHubIssue, GitHubPullRequest, GitHubWorkflowRun, GitHubUser, GitHubLabel, GitLabIssue,
    GitLabMergeRequest, GitLabPipeline, GitLabUser, IssueRecord, PullRequestRecord, WorkflowRecord,
};
use crate::lookup::{
    spec_issue_state_id, spec_pr_state_id, spec_workflow_status_id_or_default,
    spec_workflow_conclusion_id, issue_state_id, pr_state_id, workflow_status_id,
    workflow_conclusion_id, WF_STATUS_IN_PROGRESS,
};
use crate::sequtil::lemma_first_where_props;
use crate::store::{Database, by_issue_key, by_pr_key, by_workflow_key};
use crate::strutil::{str_eq, clone_vec_string, clone_opt_string, dec_u64, spec_decimal};

verus! {

/// The mathematical content of a normalized issue record.
pub struct IssueRecordView {
    pub api_id: u64,
    pub number: u32,
    pub title: Seq<char>,
    pub author: Seq<char>,
    pub state: Seq<char>,
    pub labels: Seq<Seq<char>>,
    pub assigned_to_me: bool,
    pub url: Seq<char>,
    pub closed_at: Option<Seq<char>>,
    pub created_at: Seq<char>,
    pub updated_at: Seq<char>,
}

impl View for IssueRecord {
    type V = IssueRecordView;

    open spec fn view(&self) -> IssueRecordView {
        IssueRecordView {
            api_id: self.api_id,
            number: self.number,
            title: self.title@,
            author: self.author@,
            state: self.state@,
            labels: self.labels.deep_view(),
            assigned_to_me: self.assigned_to_me,
            url: self.url@,
            closed_at: self.closed_at.deep_view(),
            created_at: self.created_at@,
            updated_at: self.updated_at@,
        }
    }
}

/// The mathematical content of a normalized pull-request record.
pub struct PullRequestRecordView {
    pub api_id: u64,
    pub number: u32,
    pub title: Seq<char>,
    pub author: Seq<char>,
    pub state: Seq<char>,
    pub draft: bool,
    pub assigned_to_me: bool,
    pub url: Seq<char>,
    pub merged_at: Option<Seq<char>>,
    pub closed_at: Option<Seq<char>>,
    pub created_at: Seq<char>,
    pub updated_at: Seq<char>,
}

impl View for PullRequestRecord {
    type V = PullRequestRecordView;

    open spec fn view(&self) -> PullRequestRecordView {
        PullRequestRecordView {
            api_id: self.api_id,
            number: self.number,
            title: self.title@,
            author: self.author@,
            state: self.state@,
            draft: self.draft,
            assigned_to_me: self.assigned_to_me,
            url: self.url@,
            merged_at: self.merged_at.deep_view(),
            closed_at: self.closed_at.deep_view(),
            created_at: self.created_at@,
            updated_at: self.updated_at@,
        }
    }
}

/// The mathematical content of a normalized workflow record.
pub struct WorkflowRecordView {
    pub api_id: u64,
    pub name: Seq<char>,
    pub status: Seq<char>,
    pub conclusion: Option<Seq<char>>,
    pub url: Seq<char>,
    pub created_at: Seq<char>,
    pub updated_at: Seq<char>,
}

impl View for WorkflowRecord {
    type V = WorkflowRecordView;

    open spec fn view(&self) -> WorkflowRecordView {
        WorkflowRecordView {
            api_id: self.api_id,
            name: self.name@,
            status: self.status@,
            conclusion: self.conclusion.deep_view(),
            url: self.url@,
            created_at: self.created_at@,
            updated_at: self.updated_at@,
        }
    }
}

/// The mathematical content of a stored issue row.
pub struct IssueRowView {
    pub id: i64,
    pub api_id: u64,
    pub repository_id: i64,
    pub number: u32,
    pub title: Seq<char>,
    pub author: Seq<char>,
    pub state_id: i64,
    pub labels: Seq<Seq<char>>,
    pub assigned_to_me: bool,
    pub url: Seq<char>,
    pub closed_at: Option<Seq<char>>,
    pub api_created_at: Seq<char>,
    pub api_updated_at: Seq<char>,
    pub created_at: i64,
    pub updated_at: i64,
}

impl View for IssueRow {
    type V = IssueRowView;

    open spec fn view(&self) -> IssueRowView {
        IssueRowView {
            id: self.id,
            api_id: self.api_id,
            repository_id: self.repository_id,
            number: self.number,
            title: self.title@,
            author: self.author@,
            state_id: self.state_id,
            labels: self.labels.deep_view(),
            assigned_to_me: self.assigned_to_me,
            url: self.url@,
            closed_at: self.closed_at.deep_view(),
            api_created_at: self.api_created_at@,
            api_updated_at: self.api_updated_at@,
            created_at: self.created_at,
            updated_at: self.updated_at,
        }
    }
}

/// The mathematical content of a stored pull-request row.
pub struct PullRequestRowView {
    pub id: i64,
    pub api_id: u64,
    pub repository_id: i64,
    pub number: u32,
    pub title: Seq<char>,
    pub author: Seq<char>,
    pub state_id: i64,
    pub draft: bool,
    pub assigned_to_me: bool,
    pub url: Seq<char>,
    pub merged_at: Option<Seq<char>>,
    pub closed_at: Option<Seq<char>>,
    pub api_created_at: Seq<char>,
    pub api_updated_at: Seq<char>,
    pub created_at: i64,
    pub updated_at: i64,
}

impl View for PullRequestRow {
    type V = PullRequestRowView;

    open spec fn view(&self) -> PullRequestRowView {
        PullRequestRowView {
            id: self.id,
            api_id: self.api_id,
            repository_id: self.repository_id,
            number: self.number,
            title: self.title@,
            author: self.author@,
            state_id: self.state_id,
            draft: self.draft,
            assigned_to_me: self.assigned_to_me,
            url: self.url@,
            merged_at: self.merged_at.deep_view(),
            closed_at: self.closed_at.deep_view(),
            api_created_at: self.api_created_at@,
            api_updated_at: self.api_updated_at@,
            created_at: self.created_at,
            updated_at: self.updated_at,
        }
    }
}

/// The mathematical content of a stored workflow row.
pub struct WorkflowRowView {
    pub id: i64,
    pub api_id: u64,
    pub repository_id: i64,
    pub name: Seq<char>,
    pub status_id: i64,
    pub conclusion_id: Option<i64>,
    pub url: Seq<char>,
    pub api_created_at: Seq<char>,
    pub api_updated_at: Seq<char>,
    pub created_at: i64,
    pub updated_at: i64,
}

impl View for WorkflowRow {
    type V = WorkflowRowView;

    open spec fn view(&self) -> WorkflowRowView {
        WorkflowRowView {
            id: self.id,
            api_id: self.api_id,
            repository_id: self.repository_id,
            name: self.name@,
            status_id: self.status_id,
            conclusion_id: self.conclusion_id,
            url: self.url@,
            api_created_at: self.api_created_at@,
            api_updated_at: self.api_updated_at@,
            created_at: self.created_at,
            updated_at: self.updated_at,
        }
    }
}

/// Whether some assignee of a GitHub-shaped item is the local user.
pub open spec fn spec_assigned_me_github(assignees: Seq<GitHubUser>) -> bool {
    exists|i: int| 0 <= i < assignees.len() && (#[trigger] assignees[i]).login@ == "me"@
}

/// Whether some assignee of a GitLab-shaped item is the local user.
pub open spec fn spec_assigned_me_gitlab(assignees: Seq<GitLabUser>) -> bool {
    exists|i: int| 0 <= i < assignees.len() && (#[trigger] assignees[i]).username@ == "me"@
}

/// The normalized record of a GitHub-shaped issue.
pub open spec fn github_issue_record(g: GitHubIssue) -> IssueRecordView {
    IssueRecordView {
        api_id: g.id,
        number: g.number,
        title: g.title@,
        author: g.user.login@,
        state: g.state@,
        labels: g.labels@.map(|_i: int, l: GitHubLabel| l.name@),
        assigned_to_me: spec_assigned_me_github(g.assignees@),
        url: g.html_url@,
        closed_at: g.closed_at.deep_view(),
        created_at: g.created_at@,
        updated_at: g.updated_at@,
    }
}

/// The normalized record of a GitLab-shaped issue.
pub open spec fn gitlab_issue_record(g: GitLabIssue) -> IssueRecordView {
    IssueRecordView {
        api_id: g.id,
        number: g.iid,
        title: g.title@,
        author: g.author.username@,
        state: g.state@,
        labels: g.labels.deep_view(),
        assigned_to_me: spec_assigned_me_gitlab(g.assignees@),
        url: g.web_url@,
        closed_at: g.closed_at.deep_view(),
        created_at: g.created_at@,
        updated_at: g.updated_at@,
    }
}

/// The normalized record of a GitHub-shaped pull request.
pub open spec fn github_pr_record(g: GitHubPullRequest) -> PullRequestRecordView {
    PullRequestRecordView {
        api_id: g.id,
        number: g.number,
        title: g.title@,
        author: g.user.login@,
        state: g.state@,
        draft: g.draft,
        assigned_to_me: spec_assigned_me_github(g.assignees@),
        url: g.html_url@,
        merged_at: g.merged_at.deep_view(),
        closed_at: g.closed_at.deep_view(),
        created_at: g.created_at@,
        updated_at: g.updated_at@,
    }
}

/// The normalized record of a GitLab-shaped merge request.
pub open spec fn gitlab_mr_record(g: GitLabMergeRequest) -> PullRequestRecordView {
    PullRequestRecordView {
        api_id: g.id,
        number: g.iid,
        title: g.title@,
        author: g.author.username@,
        state: g.state@,
        draft: g.draft,
        assigned_to_me: spec_assigned_me_gitlab(g.assignees@),
        url: g.web_url@,
        merged_at: g.merged_at.deep_view(),
        closed_at: g.closed_at.deep_view(),
        created_at: g.created_at@,
        updated_at: g.updated_at@,
    }
}

/// The normalized record of a GitHub-shaped workflow run.
pub open spec fn github_run_record(g: GitHubWorkflowRun) -> WorkflowRecordView {
    WorkflowRecordView {
        api_id: g.id,
        name: g.name@,
        status: g.status@,
        conclusion: g.conclusion.deep_view(),
        url: g.html_url@,
        created_at: g.created_at@,
        updated_at: g.updated_at@,
    }
}

/// The normalized record of a GitLab-shaped pipeline; the run is named
/// after the pipeline number and carries no separate conclusion.
pub open spec fn gitlab_pipeline_record(g: GitLabPipeline) -> WorkflowRecordView {
    WorkflowRecordView {
        api_id: g.id,
        name: "Pipeline #"@ + spec_decimal(g.id as nat),
        status: g.status@,
        conclusion: None,
        url: g.web_url@,
        created_at: g.created_at@,
        updated_at: g.updated_at@,
    }
}

/// The row an upsert stores: the record's fields under the given
/// identifiers and timestamps.
pub open spec fn issue_row_merged(
    rec: IssueRecordView,
    repository_id: i64,
    state_id: i64,
    id: i64,
    created_at: i64,
    now: i64,
) -> IssueRowView {
    IssueRowView {
        id,
        api_id: rec.api_id,
        repository_id,
        number: rec.number,
        title: rec.title,
        author: rec.author,
        state_id,
        labels: rec.labels,
        assigned_to_me: rec.assigned_to_me,
        url: rec.url,
        closed_at: rec.closed_at,
        api_created_at: rec.created_at,
        api_updated_at: rec.updated_at,
        created_at,
        updated_at: now,
    }
}

/// The pull-request row an upsert stores.
pub open spec fn pr_row_merged(
    rec: PullRequestRecordView,
    repository_id: i64,
    state_id: i64,
    id: i64,
    created_at: i64,
    now: i64,
) -> PullRequestRowView {
    PullRequestRowView {
        id,
        api_id: rec.api_id,
        repository_id,
        number: rec.number,
        title: rec.title,
        author: rec.author,
        state_id,
        draft: rec.draft,
        assigned_to_me: rec.assigned_to_me,
        url: rec.url,
        merged_at: rec.merged_at,
        closed_at: rec.closed_at,
        api_created_at: rec.created_at,
        api_updated_at: rec.updated_at,
        created_at,
        updated_at: now,
    }
}

/// The workflow row an upsert stores.  The status falls back to
/// in-progress for an unrecognized code; an unknown conclusion resolves to
/// none.
pub open spec fn workflow_row_merged(
    rec: WorkflowRecordView,
    repository_id: i64,
    id: i64,
    created_at: i64,
    now: i64,
) -> WorkflowRowView {
    WorkflowRowView {
        id,
        api_id: rec.api_id,
        repository_id,
        name: rec.name,
        status_id: spec_workflow_status_id_or_default(rec.status),
        conclusion_id: match rec.conclusion {
            Some(c) => spec_workflow_conclusion_id(c),
            None => None,
        },
        url: rec.url,
        api_created_at: rec.created_at,
        api_updated_at: rec.updated_at,
        created_at,
        updated_at: now,
    }
}


/// The full effect of one issue upsert: nothing but the issue table and
/// its identifier counter moves, and the result tells exactly how.
pub open spec fn issue_upsert_outcome(
    pre: Database,
    post: Database,
    rec: IssueRecordView,
    repository_id: i64,
    now: i64,
    r: Result<(), SyncError>,
) -> bool {
    &&& post == (Database { issues: post.issues, next_issue_id: post.next_issue_id, ..pre })
    &&& match r {
        Ok(_) => {
            &&& spec_issue_state_id(rec.state) is Some
            &&& ({
                let sid = spec_issue_state_id(rec.state)->0;
                match pre.spec_find_issue(repository_id, rec.number) {
                    Some(k) => {
                        &&& post.issues@.len() == pre.issues@.len()
                        &&& post.issues@[k]@ == issue_row_merged(
                            rec,
                            repository_id,
                            sid,
                            pre.issues@[k].id,
                            pre.issues@[k].created_at,
                            now,
                        )
                        &&& forall|i: int|
                            0 <= i < pre.issues@.len() && i != k ==> post.issues@[i]
                                == pre.issues@[i]
                        &&& post.next_issue_id == pre.next_issue_id
                    },
                    None => {
                        &&& post.issues@.len() == pre.issues@.len() + 1
                        &&& post.issues@.subrange(0, pre.issues@.len() as int) == pre.issues@
                        &&& post.issues@.last()@ == issue_row_merged(
                            rec,
                            repository_id,
                            sid,
                            pre.next_issue_id,
                            now,
                            now,
                        )
                        &&& post.next_issue_id == pre.next_issue_id + 1
                    },
                }
            })
        },
        Err(e) => {
            &&& post == pre
            &&& e == SyncError::Persistence
            &&& (spec_issue_state_id(rec.state) is None || (pre.spec_find_issue(
                repository_id,
                rec.number,
            ) is None && pre.next_issue_id == i64::MAX))
        },
    }
}

/// The full effect of one pull-request upsert.
pub open spec fn pr_upsert_outcome(
    pre: Database,
    post: Database,
    rec: PullRequestRecordView,
    repository_id: i64,
    now: i64,
    r: Result<(), SyncError>,
) -> bool {
    &&& post == (Database {
        pull_requests: post.pull_requests,
        next_pull_request_id: post.next_pull_request_id,
        ..pre
    })
    &&& match r {
        Ok(_) => {
            &&& spec_pr_state_id(rec.state) is Some
            &&& ({
                let sid = spec_pr_state_id(rec.state)->0;
                match pre.spec_find_pull_request(repository_id, rec.number) {
                    Some(k) => {
                        &&& post.pull_requests@.len() == pre.pull_requests@.len()
                        &&& post.pull_requests@[k]@ == pr_row_merged(
                            rec,
                            repository_id,
                            sid,
                            pre.pull_requests@[k].id,
                            pre.pull_requests@[k].created_at,
                            now,
                        )
                        &&& forall|i: int|
                            0 <= i < pre.pull_requests@.len() && i != k ==> post.pull_requests@[i]
                                == pre.pull_requests@[i]
                        &&& post.next_pull_request_id == pre.next_pull_request_id
                    },
                    None => {
                        &&& post.pull_requests@.len() == pre.pull_requests@.len() + 1
                        &&& post.pull_requests@.subrange(0, pre.pull_requests@.len() as int)
                            == pre.pull_requests@
                        &&& post.pull_requests@.last()@ == pr_row_merged(
                            rec,
                            repository_id,
                            sid,
                            pre.next_pull_request_id,
                            now,
                            now,
                        )
                        &&& post.next_pull_request_id == pre.next_pull_request_id + 1
                    },
                }
            })
        },
        Err(e) => {
            &&& post == pre
            &&& e == SyncError::Persistence
            &&& (spec_pr_state_id(rec.state) is None || (pre.spec_find_pull_request(
                repository_id,
                rec.number,
            ) is None && pre.next_pull_request_id == i64::MAX))
        },
    }
}

/// The full effect of one workflow upsert.
pub open spec fn workflow_upsert_outcome(
    pre: Database,
    post: Database,
    rec: WorkflowRecordView,
    repository_id: i64,
    now: i64,
    r: Result<(), SyncError>,
) -> bool {
    &&& post == (Database {
        workflows: post.workflows,
        next_workflow_id: post.next_workflow_id,
        ..pre
    })
    &&& match r {
        Ok(_) => {
            match pre.spec_find_workflow(repository_id, rec.api_id) {
                Some(k) => {
                    &&& post.workflows@.len() == pre.workflows@.len()
                    &&& post.workflows@[k]@ == workflow_row_merged(
                        rec,
                        repository_id,
                        pre.workflows@[k].id,
                        pre.workflows@[k].created_at,
                        now,
                    )
                    &&& forall|i: int|
                        0 <= i < pre.workflows@.len() && i != k ==> post.workflows@[i]
                            == pre.workflows@[i]
                    &&& post.next_workflow_id == pre.next_workflow_id
                },
                None => {
                    &&& post.workflows@.len() == pre.workflows@.len() + 1
                    &&& post.workflows@.subrange(0, pre.workflows@.len() as int) == pre.workflows@
                    &&& post.workflows@.last()@ == workflow_row_merged(
                        rec,
                        repository_id,
                        pre.next_workflow_id,
                        now,
                        now,
                    )
                    &&& post.next_workflow_id == pre.next_workflow_id + 1
                },
            }
        },
        Err(e) => {
            &&& post == pre
            &&& e == SyncError::Persistence
            &&& pre.spec_find_workflow(repository_id, rec.api_id) is None
            &&& pre.next_workflow_id == i64::MAX
        },
    }
}

fn assigned_me_github(assignees: &Vec<GitHubUser>) -> (b: bool)
    ensures
        b == spec_assigned_me_github(assignees@),
{
    let mut i: usize = 0;
    while i < assignees.len()
        invariant
            i <= assignees@.len(),
            !spec_assigned_me_github(assignees@.subrange(0, i as int)),
        decreases assignees@.len() - i,
    {
        if str_eq(assignees[i].login.as_str(), "me") {
            assert(spec_assigned_me_github(assignees@));
            return true;
        }
        assert(assignees@.subrange(0, i + 1) =~= assignees@.subrange(0, i as int).push(
            assignees@[i as int],
        ));
        assert(!spec_assigned_me_github(assignees@.subrange(0, i + 1))) by {
            let pre = assignees@.subrange(0, i + 1);
            assert forall|t: int|
                0 <= t < pre.len() implies (#[trigger] pre[t]).login@ != "me"@ by {
                if t < i {
                    assert(pre[t] == assignees@.subrange(0, i as int)[t]);
                }
            }
        }
        i = i + 1;
    }
    assert(assignees@.subrange(0, assignees@.len() as int) =~= assignees@);
    false
}

fn assigned_me_gitlab(assignees: &Vec<GitLabUser>) -> (b: bool)
    ensures
        b == spec_assigned_me_gitlab(assignees@),
{
    let mut i: usize = 0;
    while i < assignees.len()
        invariant
            i <= assignees@.len(),
            !spec_assigned_me_gitlab(assignees@.subrange(0, i as int)),
        decreases assignees@.len() - i,
    {
        if str_eq(assignees[i].username.as_str(), "me") {
            assert(spec_assigned_me_gitlab(assignees@));
            return true;
        }
        assert(assignees@.subrange(0, i + 1) =~= assignees@.subrange(0, i as int).push(
            assignees@[i as int],
        ));
        assert(!spec_assigned_me_gitlab(assignees@.subrange(0, i + 1))) by {
            let pre = assignees@.subrange(0, i + 1);
            assert forall|t: int|
                0 <= t < pre.len() implies (#[trigger] pre[t]).username@ != "me"@ by {
                if t < i {
                    assert(pre[t] == assignees@.subrange(0, i as int)[t]);
                }
            }
        }
        i = i + 1;
    }
    assert(assignees@.subrange(0, assignees@.len() as int) =~= assignees@);
    false
}

fn label_names(labels: &Vec<GitHubLabel>) -> (r: Vec<String>)
    ensures
        r.deep_view() == labels@.map(|_i: int, l: GitHubLabel| l.name@),
{
    let mut out: Vec<String> = Vec::new();
    let mut i: usize = 0;
    while i < labels.len()
        invariant
            i <= labels@.len(),
            out@.len() == i,
            forall|t: int| 0 <= t < i ==> (#[trigger] out@[t])@ == labels@[t].name@,
        decreases labels@.len() - i,
    {
        out.push(labels[i].name.clone());
        i = i + 1;
    }
    assert(out.deep_view() =~= labels@.map(|_i: int, l: GitHubLabel| l.name@));
    out
}

/// Normalizes a GitHub-shaped issue.
pub fn normalize_github_issue(g: &GitHubIssue) -> (r: IssueRecord)
    ensures
        r@ == github_issue_record(*g),
{
    let r = IssueRecord {
        api_id: g.id,
        number: g.number,
        title: g.title.clone(),
        author: g.user.login.clone(),
        state: g.state.clone(),
        labels: label_names(&g.labels),
        assigned_to_me: assigned_me_github(&g.assignees),
        url: g.html_url.clone(),
        closed_at: clone_opt_string(&g.closed_at),
        created_at: g.created_at.clone(),
        updated_at: g.updated_at.clone(),
    };
    r
}

/// Normalizes a GitLab-shaped issue.
pub fn normalize_gitlab_issue(g: &GitLabIssue) -> (r: IssueRecord)
    ensures
        r@ == gitlab_issue_record(*g),
{
    IssueRecord {
        api_id: g.id,
        number: g.iid,
        title: g.title.clone(),
        author: g.author.username.clone(),
        state: g.state.clone(),
        labels: clone_vec_string(&g.labels),
        assigned_to_me: assigned_me_gitlab(&g.assignees),
        url: g.web_url.clone(),
        closed_at: clone_opt_string(&g.closed_at),
        created_at: g.created_at.clone(),
        updated_at: g.updated_at.clone(),
    }
}

/// Normalizes a GitHub-shaped pull request.
pub fn normalize_github_pr(g: &GitHubPullRequest) -> (r: PullRequestRecord)
    ensures
        r@ == github_pr_record(*g),
{
    PullRequestRecord {
        api_id: g.id,
        number: g.number,
        title: g.title.clone(),
        author: g.user.login.clone(),
        state: g.state.clone(),
        draft: g.draft,
        assigned_to_me: assigned_me_github(&g.assignees),
        url: g.html_url.clone(),
        merged_at: clone_opt_string(&g.merged_at),
        closed_at: clone_opt_string(&g.closed_at),
        created_at: g.created_at.clone(),
        updated_at: g.updated_at.clone(),
    }
}

/// Normalizes a GitLab-shaped merge request.
pub fn normalize_gitlab_mr(g: &GitLabMergeRequest) -> (r: PullRequestRecord)
    ensures
        r@ == gitlab_mr_record(*g),
{
    PullRequestRecord {
        api_id: g.id,
        number: g.iid,
        title: g.title.clone(),
        author: g.author.username.clone(),
        state: g.state.clone(),
        draft: g.draft,
        assigned_to_me: assigned_me_gitlab(&g.assignees),
        url: g.web_url.clone(),
        merged_at: clone_opt_string(&g.merged_at),
        closed_at: clone_opt_string(&g.closed_at),
        created_at: g.created_at.clone(),
        updated_at: g.updated_at.clone(),
    }
}

/// Normalizes a GitHub-shaped workflow run.
pub fn normalize_github_run(g: &GitHubWorkflowRun) -> (r: WorkflowRecord)
    ensures
        r@ == github_run_record(*g),
{
    WorkflowRecord {
        api_id: g.id,
        name: g.name.clone(),
        status: g.status.clone(),
        conclusion: clone_opt_string(&g.conclusion),
        url: g.html_url.clone(),
        created_at: g.created_at.clone(),
        updated_at: g.updated_at.clone(),
    }
}

/// Normalizes a GitLab-shaped pipeline into a workflow record.
pub fn normalize_gitlab_pipeline(g: &GitLabPipeline) -> (r: WorkflowRecord)
    ensures
        r@ == gitlab_pipeline_record(*g),
{
    let mut name = String::from_str("Pipeline #");
    let digits = dec_u64(g.id);
    name.append(digits.as_str());
    WorkflowRecord {
        api_id: g.id,
        name,
        status: g.status.clone(),
        conclusion: None,
        url: g.web_url.clone(),
        created_at: g.created_at.clone(),
        updated_at: g.updated_at.clone(),
    }
}

impl Database {
    /// Merges one normalized issue into the store.  A row with the same
    /// repository and remote number is overwritten in place, keeping its
    /// local identifier and first-recorded timestamp; otherwise a fresh
    /// row is appended with both bookkeeping timestamps at `now`.  An
    /// unresolvable state code fails without touching the store.
    pub fn upsert_issue(&mut self, rec: &IssueRecord, repository_id: i64, now: i64) -> (r: Result<
        (),
        SyncError,
    >)
        requires
            old(self).wf(),
        ensures
            final(self).wf(),
            issue_upsert_outcome(
                *old(self),
                *final(self),
                rec@,
                repository_id,
                now,
                r,
            ),
    {
        let sid = match issue_state_id(rec.state.as_str()) {
            Some(sid) => sid,
            None => {
                return Err(SyncError::Persistence);
            },
        };
        match self.find_issue(repository_id, rec.number) {
            Some(k) => {
                proof {
                    lemma_first_where_props(
                        self.issues@,
                        by_issue_key(repository_id, rec.number),
                        0,
                    );
                }
                let merged = IssueRow {
                    id: self.issues[k].id,
                    api_id: rec.api_id,
                    repository_id,
                    number: rec.number,
                    title: rec.title.clone(),
                    author: rec.author.clone(),
                    state_id: sid,
                    labels: clone_vec_string(&rec.labels),
                    assigned_to_me: rec.assigned_to_me,
                    url: rec.url.clone(),
                    closed_at: clone_opt_string(&rec.closed_at),
                    api_created_at: rec.created_at.clone(),
                    api_updated_at: rec.updated_at.clone(),
                    created_at: self.issues[k].created_at,
                    updated_at: now,
                };
                vstd::pervasive::VecAdditionalExecFns::set(&mut self.issues, k, merged);
                proof {
                    assert(by_issue_key(repository_id, rec.number)(old(self).issues@[k as int]));
                    assert forall|i: int|
                        0 <= i < self.issues@.len() implies 0 < (#[trigger] self.issues@[i]).id
                        < self.next_issue_id by {
                        assert(self.issues@[i].id == old(self).issues@[i].id);
                    }
                    assert forall|i: int, j: int|
                        0 <= i < j < self.issues@.len() implies (#[trigger] self.issues@[i]).id
                        != (#[trigger] self.issues@[j]).id by {
                        assert(self.issues@[i].id == old(self).issues@[i].id);
                        assert(self.issues@[j].id == old(self).issues@[j].id);
                    }
                    assert forall|i: int, j: int|
                        0 <= i < j < self.issues@.len() implies !((
                    #[trigger] self.issues@[i]).repository_id == (
                    #[trigger] self.issues@[j]).repository_id && self.issues@[i].number
                        == self.issues@[j].number) by {
                        assert(self.issues@[i].repository_id == old(self).issues@[i].repository_id
                            && self.issues@[i].number == old(self).issues@[i].number);
                        assert(self.issues@[j].repository_id == old(self).issues@[j].repository_id
                            && self.issues@[j].number == old(self).issues@[j].number);
                    }
                }
                Ok(())
            },
            None => {
                if self.next_issue_id == i64::MAX {
                    return Err(SyncError::Persistence);
                }
                let id = self.next_issue_id;
                let fresh = IssueRow {
                    id,
                    api_id: rec.api_id,
                    repository_id,
                    number: rec.number,
                    title: rec.title.clone(),
                    author: rec.author.clone(),
                    state_id: sid,
                    labels: clone_vec_string(&rec.labels),
                    assigned_to_me: rec.assigned_to_me,
                    url: rec.url.clone(),
                    closed_at: clone_opt_string(&rec.closed_at),
                    api_created_at: rec.created_at.clone(),
                    api_updated_at: rec.updated_at.clone(),
                    created_at: now,
                    updated_at: now,
                };
                self.issues.push(fresh);
                self.next_issue_id = id + 1;
                proof {
                    lemma_first_where_props(
                        old(self).issues@,
                        by_issue_key(repository_id, rec.number),
                        0,
                    );
                    assert(self.issues@.subrange(0, old(self).issues@.len() as int) =~= old(
                        self,
                    ).issues@);
                    assert forall|i: int|
                        0 <= i < self.issues@.len() implies 0 < (#[trigger] self.issues@[i]).id
                        < self.next_issue_id by {
                        if i < self.issues@.len() - 1 {
                            assert(self.issues@[i] == old(self).issues@[i]);
                        }
                    }
                    assert forall|i: int, j: int|
                        0 <= i < j < self.issues@.len() implies (#[trigger] self.issues@[i]).id
                        != (#[trigger] self.issues@[j]).id by {
                        if j == self.issues@.len() - 1 {
                            assert(self.issues@[i] == old(self).issues@[i]);
                        }
                    }
                    assert forall|i: int, j: int|
                        0 <= i < j < self.issues@.len() implies !((
                    #[trigger] self.issues@[i]).repository_id == (
                    #[trigger] self.issues@[j]).repository_id && self.issues@[i].number
                        == self.issues@[j].number) by {
                        if j == self.issues@.len() - 1 {
                            assert(self.issues@[i] == old(self).issues@[i]);
                            assert(!by_issue_key(repository_id, rec.number)(old(self).issues@[i]));
                        }
                    }
                }
                Ok(())
            },
        }
    }
    /// Merges one normalized pull request into the store.  A row with the same
    /// repository and remote number is overwritten in place, keeping its
    /// local identifier and first-recorded timestamp; otherwise a fresh
    /// row is appended with both bookkeeping timestamps at `now`.  An
    /// unresolvable state code fails without touching the store.
    pub fn upsert_pull_request(&mut self, rec: &PullRequestRecord, repository_id: i64, now: i64) -> (r: Result<
        (),
        SyncError,
    >)
        requires
            old(self).wf(),
        ensures
            final(self).wf(),
            pr_upsert_outcome(
                *old(self),
                *final(self),
                rec@,
                repository_id,
                now,
                r,
            ),
    {
        let sid = match pr_state_id(rec.state.as_str()) {
            Some(sid) => sid,
            None => {
                return Err(SyncError::Persistence);
            },
        };
        match self.find_pull_request(repository_id, rec.number) {
            Some(k) => {
                proof {
                    lemma_first_where_props(
                        self.pull_requests@,
                        by_pr_key(repository_id, rec.number),
                        0,
                    );
                }
                let merged = PullRequestRow {
                    id: self.pull_requests[k].id,
                    api_id: rec.api_id,
                    repository_id,
                    number: rec.number,
                    title: rec.title.clone(),
                    author: rec.author.clone(),
                    state_id: sid,
                    draft: rec.draft,
                    assigned_to_me: rec.assigned_to_me,
                    url: rec.url.clone(),
                    merged_at: clone_opt_string(&rec.merged_at),
                    closed_at: clone_opt_string(&rec.closed_at),
                    api_created_at: rec.created_at.clone(),
                    api_updated_at: rec.updated_at.clone(),
                    created_at: self.pull_requests[k].created_at,
                    updated_at: now,
                };
                vstd::pervasive::VecAdditionalExecFns::set(&mut self.pull_requests, k, merged);
                proof {
                    assert(by_pr_key(repository_id, rec.number)(old(self).pull_requests@[k as int]));
                    assert forall|i: int|
                        0 <= i < self.pull_requests@.len() implies 0 < (#[trigger] self.pull_requests@[i]).id
                        < self.next_pull_request_id by {
                        assert(self.pull_requests@[i].id == old(self).pull_requests@[i].id);
                    }
                    assert forall|i: int, j: int|
                        0 <= i < j < self.pull_requests@.len() implies (#[trigger] self.pull_requests@[i]).id
                        != (#[trigger] self.pull_requests@[j]).id by {
                        assert(self.pull_requests@[i].id == old(self).pull_requests@[i].id);
                        assert(self.pull_requests@[j].id == old(self).pull_requests@[j].id);
                    }
                    assert forall|i: int, j: int|
                        0 <= i < j < self.pull_requests@.len() implies !((
                    #[trigger] self.pull_requests@[i]).repository_id == (
                    #[trigger] self.pull_requests@[j]).repository_id && self.pull_requests@[i].number
                        == self.pull_requests@[j].number) by {
                        assert(self.pull_requests@[i].repository_id == old(self).pull_requests@[i].repository_id
                            && self.pull_requests@[i].number == old(self).pull_requests@[i].number);
                        assert(self.pull_requests@[j].repository_id == old(self).pull_requests@[j].repository_id
                            && self.pull_requests@[j].number == old(self).pull_requests@[j].number);
                    }
                }
                Ok(())
            },
            None => {
                if self.next_pull_request_id == i64::MAX {
                    return Err(SyncError::Persistence);
                }
                let id = self.next_pull_request_id;
                let fresh = PullRequestRow {
                    id,
                    api_id: rec.api_id,
                    repository_id,
                    number: rec.number,
                    title: rec.title.clone(),
                    author: rec.author.clone(),
                    state_id: sid,
                    draft: rec.draft,
                    assigned_to_me: rec.assigned_to_me,
                    url: rec.url.clone(),
                    merged_at: clone_opt_string(&rec.merged_at),
                    closed_at: clone_opt_string(&rec.closed_at),
                    api_created_at: rec.created_at.clone(),
                    api_updated_at: rec.updated_at.clone(),
                    created_at: now,
                    updated_at: now,
                };
                self.pull_requests.push(fresh);
                self.next_pull_request_id = id + 1;
                proof {
                    lemma_first_where_props(
                        old(self).pull_requests@,
                        by_pr_key(repository_id, rec.number),
                        0,
                    );
                    assert(self.pull_requests@.subrange(
                        0,
                        old(self).pull_requests@.len() as int,
                    ) =~= old(self).pull_requests@);
                    assert forall|i: int|
                        0 <= i < self.pull_requests@.len() implies 0 < (#[trigger] self.pull_requests@[i]).id
                        < self.next_pull_request_id by {
                        if i < self.pull_requests@.len() - 1 {
                            assert(self.pull_requests@[i] == old(self).pull_requests@[i]);
                        }
                    }
                    assert forall|i: int, j: int|
                        0 <= i < j < self.pull_requests@.len() implies (#[trigger] self.pull_requests@[i]).id
                        != (#[trigger] self.pull_requests@[j]).id by {
                        if j == self.pull_requests@.len() - 1 {
                            assert(self.pull_requests@[i] == old(self).pull_requests@[i]);
                        }
                    }
                    assert forall|i: int, j: int|
                        0 <= i < j < self.pull_requests@.len() implies !((
                    #[trigger] self.pull_requests@[i]).repository_id == (
                    #[trigger] self.pull_requests@[j]).repository_id && self.pull_requests@[i].number
                        == self.pull_requests@[j].number) by {
                        if j == self.pull_requests@.len() - 1 {
                            assert(self.pull_requests@[i] == old(self).pull_requests@[i]);
                            assert(!by_pr_key(repository_id, rec.number)(old(self).pull_requests@[i]));
                        }
                    }
                }
                Ok(())
            },
        }
    }
    /// Merges one normalized workflow run into the store, keyed by the
    /// remote run identifier.  The status code falls back to in-progress
    /// when unrecognized, so only an exhausted identifier space can fail.
    pub fn upsert_workflow(&mut self, rec: &WorkflowRecord, repository_id: i64, now: i64) -> (r:
        Result<(), SyncError>)
        requires
            old(self).wf(),
        ensures
            final(self).wf(),
            workflow_upsert_outcome(
                *old(self),
                *final(self),
                rec@,
                repository_id,
                now,
                r,
            ),
    {
        let sid = match workflow_status_id(rec.status.as_str()) {
            Some(sid) => sid,
            None => WF_STATUS_IN_PROGRESS,
        };
        let cid: Option<i64> = match &rec.conclusion {
            Some(c) => workflow_conclusion_id(c.as_str()),
            None => None,
        };
        match self.find_workflow(repository_id, rec.api_id) {
            Some(k) => {
                proof {
                    lemma_first_where_props(
                        self.workflows@,
                        by_workflow_key(repository_id, rec.api_id),
                        0,
                    );
                }
                let merged = WorkflowRow {
                    id: self.workflows[k].id,
                    api_id: rec.api_id,
                    repository_id,
                    name: rec.name.clone(),
                    status_id: sid,
                    conclusion_id: cid,
                    url: rec.url.clone(),
                    api_created_at: rec.created_at.clone(),
                    api_updated_at: rec.updated_at.clone(),
                    created_at: self.workflows[k].created_at,
                    updated_at: now,
                };
                vstd::pervasive::VecAdditionalExecFns::set(&mut self.workflows, k, merged);
                proof {
                    assert(by_workflow_key(repository_id, rec.api_id)(
                        old(self).workflows@[k as int],
                    ));
                    assert forall|i: int|
                        0 <= i < self.workflows@.len() implies 0 < (
                    #[trigger] self.workflows@[i]).id < self.next_workflow_id by {
                        assert(self.workflows@[i].id == old(self).workflows@[i].id);
                    }
                    assert forall|i: int, j: int|
                        0 <= i < j < self.workflows@.len() implies (
                    #[trigger] self.workflows@[i]).id != (#[trigger] self.workflows@[j]).id by {
                        assert(self.workflows@[i].id == old(self).workflows@[i].id);
                        assert(self.workflows@[j].id == old(self).workflows@[j].id);
                    }
                    assert forall|i: int, j: int|
                        0 <= i < j < self.workflows@.len() implies !((
                    #[trigger] self.workflows@[i]).repository_id == (
                    #[trigger] self.workflows@[j]).repository_id && self.workflows@[i].api_id
                        == self.workflows@[j].api_id) by {
                        assert(self.workflows@[i].repository_id == old(
                            self,
                        ).workflows@[i].repository_id && self.workflows@[i].api_id == old(
                            self,
                        ).workflows@[i].api_id);
                        assert(self.workflows@[j].repository_id == old(
                            self,
                        ).workflows@[j].repository_id && self.workflows@[j].api_id == old(
                            self,
                        ).workflows@[j].api_id);
                    }
                }
                Ok(())
            },
            None => {
                if self.next_workflow_id == i64::MAX {
                    return Err(SyncError::Persistence);
                }
                let id = self.next_workflow_id;
                let fresh = WorkflowRow {
                    id,
                    api_id: rec.api_id,
                    repository_id,
                    name: rec.name.clone(),
                    status_id: sid,
                    conclusion_id: cid,
                    url: rec.url.clone(),
                    api_created_at: rec.created_at.clone(),
                    api_updated_at: rec.updated_at.clone(),
                    created_at: now,
                    updated_at: now,
                };
                self.workflows.push(fresh);
                self.next_workflow_id = id + 1;
                proof {
                    lemma_first_where_props(
                        old(self).workflows@,
                        by_workflow_key(repository_id, rec.api_id),
                        0,
                    );
                    assert(self.workflows@.subrange(0, old(self).workflows@.len() as int) =~= old(
                        self,
                    ).workflows@);
                    assert forall|i: int|
                        0 <= i < self.workflows@.len() implies 0 < (
                    #[trigger] self.workflows@[i]).id < self.next_workflow_id by {
                        if i < self.workflows@.len() - 1 {
                            assert(self.workflows@[i] == old(self).workflows@[i]);
                        }
                    }
                    assert forall|i: int, j: int|
                        0 <= i < j < self.workflows@.len() implies (
                    #[trigger] self.workflows@[i]).id != (#[trigger] self.workflows@[j]).id by {
                        if j == self.workflows@.len() - 1 {
                            assert(self.workflows@[i] == old(self).workflows@[i]);
                        }
                    }
                    assert forall|i: int, j: int|
                        0 <= i < j < self.workflows@.len() implies !((
                    #[trigger] self.workflows@[i]).repository_id == (
                    #[trigger] self.workflows@[j]).repository_id && self.workflows@[i].api_id
                        == self.workflows@[j].api_id) by {
                        if j == self.workflows@.len() - 1 {
                            assert(self.workflows@[i] == old(self).workflows@[i]);
                            assert(!by_workflow_key(repository_id, rec.api_id)(
                                old(self).workflows@[i],
                            ));
                        }
                    }
                }
                Ok(())
            },
        }
    }


    /// Merges a GitHub-shaped issue: normalization followed by the upsert.
    pub fn upsert_issue_from_github(
        &mut self,
        github_issue: &GitHubIssue,
        repository_id: i64,
        now: i64,
    ) -> (r: Result<(), SyncError>)
        requires
            old(self).wf(),
        ensures
            final(self).wf(),
            issue_upsert_outcome(
                *old(self),
                *final(self),
                github_issue_record(*github_issue),
                repository_id,
                now,
                r,
            ),
    {
        let rec = normalize_github_issue(github_issue);
        self.upsert_issue(&rec, repository_id, now)
    }

    /// Merges a GitLab-shaped issue.
    pub fn upsert_issue_from_gitlab(
        &mut self,
        gitlab_issue: &GitLabIssue,
        repository_id: i64,
        now: i64,
    ) -> (r: Result<(), SyncError>)
        requires
            old(self).wf(),
        ensures
            final(self).wf(),
            issue_upsert_outcome(
                *old(self),
                *final(self),
                gitlab_issue_record(*gitlab_issue),
                repository_id,
                now,
                r,
            ),
    {
        let rec = normalize_gitlab_issue(gitlab_issue);
        self.upsert_issue(&rec, repository_id, now)
    }

    /// Merges a GitHub-shaped pull request.
    pub fn upsert_pr_from_github(
        &mut self,
        github_pr: &GitHubPullRequest,
        repository_id: i64,
        now: i64,
    ) -> (r: Result<(), SyncError>)
        requires
            old(self).wf(),
        ensures
            final(self).wf(),
            pr_upsert_outcome(
                *old(self),
                *final(self),
                github_pr_record(*github_pr),
                repository_id,
                now,
                r,
            ),
    {
        let rec = normalize_github_pr(github_pr);
        self.upsert_pull_request(&rec, repository_id, now)
    }

    /// Merges a GitLab-shaped merge request.
    pub fn upsert_mr_from_gitlab(
        &mut self,
        gitlab_mr: &GitLabMergeRequest,
        repository_id: i64,
        now: i64,
    ) -> (r: Result<(), SyncError>)
        requires
            old(self).wf(),
        ensures
            final(self).wf(),
            pr_upsert_outcome(
                *old(self),
                *final(self),
                gitlab_mr_record(*gitlab_mr),
                repository_id,
                now,
                r,
            ),
    {
        let rec = normalize_gitlab_mr(gitlab_mr);
        self.upsert_pull_request(&rec, repository_id, now)
    }

    /// Merges a GitHub-shaped workflow run.
    pub fn upsert_workflow_from_github(
        &mut self,
        github_workflow: &GitHubWorkflowRun,
        repository_id: i64,
        now: i64,
    ) -> (r: Result<(), SyncError>)
        requires
            old(self).wf(),
        ensures
            final(self).wf(),
            workflow_upsert_outcome(
                *old(self),
                *final(self),
                github_run_record(*github_workflow),
                repository_id,
                now,
                r,
            ),
    {
        let rec = normalize_github_run(github_workflow);
        self.upsert_workflow(&rec, repository_id, now)
    }

    /// Merges a GitLab-shaped pipeline as a workflow run.
    pub fn upsert_pipeline_from_gitlab(
        &mut self,
        gitlab_pipeline: &GitLabPipeline,
        repository_id: i64,
        now: i64,
    ) -> (r: Result<(), SyncError>)
        requires
            old(self).wf(),
        ensures
            final(self).wf(),
            workflow_upsert_outcome(
                *old(self),
                *final(self),
                gitlab_pipeline_record(*gitlab_pipeline),
                repository_id,
                now,
                r,
            ),
    {
        let rec = normalize_gitlab_pipeline(gitlab_pipeline);
        self.upsert_workflow(&rec, repository_id, now)
    }
}

/// One stored row refreshed: equal to `a` in every field except the
/// last-updated bookkeeping timestamp, which moves to `now`.
pub open spec fn issue_row_refreshed(a: IssueRowView, b: IssueRowView, now: i64) -> bool {
    b == (IssueRowView { updated_at: now, ..a })
}

/// Law: reconciliation is idempotent.  Re-applying the same remote record
/// converges: after a second successful upsert of the same record the
/// issue table has the same rows, each row's first-recorded timestamp is
/// unchanged, and at most the matched row's last-updated bookkeeping
/// timestamp is refreshed.
pub proof fn lemma_upsert_issue_idempotent(
    d0: Database,
    d1: Database,
    d2: Database,
    rec: IssueRecordView,
    repository_id: i64,
    t1: i64,
    t2: i64,
)
    requires
        d0.wf(),
        d1.wf(),
        issue_upsert_outcome(d0, d1, rec, repository_id, t1, Ok(())),
        issue_upsert_outcome(d1, d2, rec, repository_id, t2, Ok(())),
    ensures
        d2.issues@.len() == d1.issues@.len(),
        forall|i: int|
            0 <= i < d1.issues@.len() ==> (#[trigger] d2.issues@[i]).created_at
                == d1.issues@[i].created_at,
        forall|i: int|
            0 <= i < d1.issues@.len() ==> d2.issues@[i] == d1.issues@[i] || issue_row_refreshed(
                d1.issues@[i]@,
                (#[trigger] d2.issues@[i])@,
                t2,
            ),
{
    let sid = spec_issue_state_id(rec.state)->0;
    let key = by_issue_key(repository_id, rec.number);
    let k1: int = match d0.spec_find_issue(repository_id, rec.number) {
        Some(k) => k,
        None => d1.issues@.len() - 1,
    };
    if d0.spec_find_issue(repository_id, rec.number) is Some {
        lemma_first_where_props(d0.issues@, key, 0);
    }
    assert(0 <= k1 < d1.issues@.len());
    assert(d1.issues@[k1]@.repository_id == repository_id && d1.issues@[k1]@.number
        == rec.number);
    assert(key(d1.issues@[k1]));
    match d1.spec_find_issue(repository_id, rec.number) {
        None => {
            lemma_first_where_props(d1.issues@, key, 0);
            assert(false);
        },
        Some(k2) => {
            lemma_first_where_props(d1.issues@, key, 0);
            assert(key(d1.issues@[k2]));
            assert(k1 == k2) by {
                if k1 < k2 {
                    assert(!(d1.issues@[k1].repository_id == d1.issues@[k2].repository_id
                        && d1.issues@[k1].number == d1.issues@[k2].number));
                } else if k2 < k1 {
                    assert(!(d1.issues@[k2].repository_id == d1.issues@[k1].repository_id
                        && d1.issues@[k2].number == d1.issues@[k1].number));
                }
            }
            assert(d2.issues@[k2]@ == issue_row_merged(
                rec,
                repository_id,
                sid,
                d1.issues@[k2].id,
                d1.issues@[k2].created_at,
                t2,
            ));
            assert(issue_row_refreshed(d1.issues@[k2]@, d2.issues@[k2]@, t2));
        },
    }
}


/// One stored row refreshed: equal to `a` in every field except the
/// last-updated bookkeeping timestamp, which moves to `now`.
pub open spec fn pr_row_refreshed(a: PullRequestRowView, b: PullRequestRowView, now: i64) -> bool {
    b == (PullRequestRowView { updated_at: now, ..a })
}

/// Law: pull-request reconciliation is idempotent, as for issues: after a
/// second successful upsert of the same record the
/// pull-request table has the same rows, each row's first-recorded timestamp is
/// unchanged, and at most the matched row's last-updated bookkeeping
/// timestamp is refreshed.
pub proof fn lemma_upsert_pr_idempotent(
    d0: Database,
    d1: Database,
    d2: Database,
    rec: PullRequestRecordView,
    repository_id: i64,
    t1: i64,
    t2: i64,
)
    requires
        d0.wf(),
        d1.wf(),
        pr_upsert_outcome(d0, d1, rec, repository_id, t1, Ok(())),
        pr_upsert_outcome(d1, d2, rec, repository_id, t2, Ok(())),
    ensures
        d2.pull_requests@.len() == d1.pull_requests@.len(),
        forall|i: int|
            0 <= i < d1.pull_requests@.len() ==> (#[trigger] d2.pull_requests@[i]).created_at
                == d1.pull_requests@[i].created_at,
        forall|i: int|
            0 <= i < d1.pull_requests@.len() ==> d2.pull_requests@[i] == d1.pull_requests@[i] || pr_row_refreshed(
                d1.pull_requests@[i]@,
                (#[trigger] d2.pull_requests@[i])@,
                t2,
            ),
{
    let sid = spec_pr_state_id(rec.state)->0;
    let key = by_pr_key(repository_id, rec.number);
    let k1: int = match d0.spec_find_pull_request(repository_id, rec.number) {
        Some(k) => k,
        None => d1.pull_requests@.len() - 1,
    };
    if d0.spec_find_pull_request(repository_id, rec.number) is Some {
        lemma_first_where_props(d0.pull_requests@, key, 0);
    }
    assert(0 <= k1 < d1.pull_requests@.len());
    assert(d1.pull_requests@[k1]@.repository_id == repository_id && d1.pull_requests@[k1]@.number
        == rec.number);
    assert(key(d1.pull_requests@[k1]));
    match d1.spec_find_pull_request(repository_id, rec.number) {
        None => {
            lemma_first_where_props(d1.pull_requests@, key, 0);
            assert(false);
        },
        Some(k2) => {
            lemma_first_where_props(d1.pull_requests@, key, 0);
            assert(key(d1.pull_requests@[k2]));
            assert(k1 == k2) by {
                if k1 < k2 {
                    assert(!(d1.pull_requests@[k1].repository_id == d1.pull_requests@[k2].repository_id
                        && d1.pull_requests@[k1].number == d1.pull_requests@[k2].number));
                } else if k2 < k1 {
                    assert(!(d1.pull_requests@[k2].repository_id == d1.pull_requests@[k1].repository_id
                        && d1.pull_requests@[k2].number == d1.pull_requests@[k1].number));
                }
            }
            assert(d2.pull_requests@[k2]@ == pr_row_merged(
                rec,
                repository_id,
                sid,
                d1.pull_requests@[k2].id,
                d1.pull_requests@[k2].created_at,
                t2,
            ));
            assert(pr_row_refreshed(d1.pull_requests@[k2]@, d2.pull_requests@[k2]@, t2));
        },
    }
}


/// One stored row refreshed: equal to `a` in every field except the
/// last-updated bookkeeping timestamp, which moves to `now`.
pub open spec fn workflow_row_refreshed(a: WorkflowRowView, b: WorkflowRowView, now: i64) -> bool {
    b == (WorkflowRowView { updated_at: now, ..a })
}

/// Law: workflow reconciliation is idempotent, as for issues: after a
/// second successful upsert of the same record the
/// workflow table has the same rows, each row's first-recorded timestamp is
/// unchanged, and at most the matched row's last-updated bookkeeping
/// timestamp is refreshed.
pub proof fn lemma_upsert_workflow_idempotent(
    d0: Database,
    d1: Database,
    d2: Database,
    rec: WorkflowRecordView,
    repository_id: i64,
    t1: i64,
    t2: i64,
)
    requires
        d0.wf(),
        d1.wf(),
        workflow_upsert_outcome(d0, d1, rec, repository_id, t1, Ok(())),
        workflow_upsert_outcome(d1, d2, rec, repository_id, t2, Ok(())),
    ensures
        d2.workflows@.len() == d1.workflows@.len(),
        forall|i: int|
            0 <= i < d1.workflows@.len() ==> (#[trigger] d2.workflows@[i]).created_at
                == d1.workflows@[i].created_at,
        forall|i: int|
            0 <= i < d1.workflows@.len() ==> d2.workflows@[i] == d1.workflows@[i] || workflow_row_refreshed(
                d1.workflows@[i]@,
                (#[trigger] d2.workflows@[i])@,
                t2,
            ),
{
    let key = by_workflow_key(repository_id, rec.api_id);
    let k1: int = match d0.spec_find_workflow(repository_id, rec.api_id) {
        Some(k) => k,
        None => d1.workflows@.len() - 1,
    };
    if d0.spec_find_workflow(repository_id, rec.api_id) is Some {
        lemma_first_where_props(d0.workflows@, key, 0);
    }
    assert(0 <= k1 < d1.workflows@.len());
    assert(d1.workflows@[k1]@.repository_id == repository_id && d1.workflows@[k1]@.api_id
        == rec.api_id);
    assert(key(d1.workflows@[k1]));
    match d1.spec_find_workflow(repository_id, rec.api_id) {
        None => {
            lemma_first_where_props(d1.workflows@, key, 0);
            assert(false);
        },
        Some(k2) => {
            lemma_first_where_props(d1.workflows@, key, 0);
            assert(key(d1.workflows@[k2]));
            assert(k1 == k2) by {
                if k1 < k2 {
                    assert(!(d1.workflows@[k1].repository_id == d1.workflows@[k2].repository_id
                        && d1.workflows@[k1].api_id == d1.workflows@[k2].api_id));
                } else if k2 < k1 {
                    assert(!(d1.workflows@[k2].repository_id == d1.workflows@[k1].repository_id
                        && d1.workflows@[k2].api_id == d1.workflows@[k1].api_id));
                }
            }
            assert(d2.workflows@[k2]@ == workflow_row_merged(
                rec,
                repository_id,
                d1.workflows@[k2].id,
                d1.workflows@[k2].created_at,
                t2,
            ));
            assert(workflow_row_refreshed(d1.workflows@[k2]@, d2.workflows@[k2]@, t2));
        },
    }
}


} // verus!
