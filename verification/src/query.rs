//! The read side of the mirror: filtered, paginated queries over the
//! mirrored tables and their combined counts.

use vstd::prelude::*;
use vstd::string::StringExecFns;
use crate::domain::{
    Issue, IssueRow, IssueFilters, PaginationParams, PaginationInfo, PaginatedResponse, SyncError,
    PullRequest, PullRequestRow, PullRequestFilters, WorkflowRun, WorkflowRow, WorkflowFilters,
};
use crate::lookup::{
    spec_issue_state_code, spec_pr_state_code, spec_workflow_status_code,
    spec_workflow_conclusion_code, WF_STATUS_COMPLETED, WF_STATUS_IN_PROGRESS, WF_STATUS_QUEUED,
    WF_STATUS_REQUESTED, WF_STATUS_WAITING, WF_STATUS_CANCELLED, WF_CONCLUSION_SUCCESS,
    WF_CONCLUSION_FAILURE, WF_CONCLUSION_CANCELLED, WF_CONCLUSION_TIMED_OUT,
};
use crate::lookup::{issue_state_code, pr_state_code, workflow_status_code, workflow_conclusion_code};
use crate::sequtil::{first_where, lemma_filter_push, lemma_first_where_props};
use crate::store::{Database, by_provider_id, by_repository_id};
use crate::strutil::{contains_sub_ci, contains_ci, str_eq, clone_vec_string, clone_opt_string};

verus! {

/// The number of pages that a total of `total` rows fills at `per_page`
/// rows per page; a total too large to compute with collapses to one page.
pub open spec fn spec_total_pages(total: u32, per_page: u32) -> u32
    recommends
        per_page > 0,
{
    if total + per_page > u32::MAX {
        1u32
    } else {
        (((total + per_page - 1) as int) / (per_page as int)) as u32
    }
}

/// The row offset that a page number stands for; a page of zero or an
/// offset beyond `u32` yields none.
pub open spec fn spec_offset(page: u32, per_page: u32) -> Option<u32> {
    if page < 1 {
        None
    } else if (page - 1) * per_page > u32::MAX {
        None
    } else {
        Some(((page - 1) * per_page) as u32)
    }
}

/// The window of `s` that one result page shows.
pub open spec fn page_slice<A>(s: Seq<A>, offset: u32, per_page: u32) -> Seq<A> {
    if offset >= s.len() {
        Seq::<A>::empty()
    } else if offset + per_page <= s.len() {
        s.subrange(offset as int, offset as int + per_page as int)
    } else {
        s.subrange(offset as int, s.len() as int)
    }
}

/// The page number a query runs with: the caller's, or the first page.
pub open spec fn spec_page_of(p: Option<PaginationParams>) -> u32 {
    match p {
        Some(pp) => pp.page,
        None => 1u32,
    }
}

/// The page size a query runs with: the caller's, or twenty rows.
pub open spec fn spec_per_page_of(p: Option<PaginationParams>) -> u32 {
    match p {
        Some(pp) => pp.per_page,
        None => 20u32,
    }
}

/// A total clamped into `u32`.
pub open spec fn spec_total_of(len: nat) -> u32 {
    if len > u32::MAX {
        u32::MAX
    } else {
        len as u32
    }
}

/// The repository a mirrored row joins to, resolved by identifier.
pub open spec fn joined_repo(db: Database, repository_id: i64) -> Option<
    crate::domain::Repository,
> {
    match first_where(db.repositories@, by_repository_id(repository_id), 0) {
        Some(k) => Some(db.repositories@[k]),
        None => None,
    }
}

/// The provider a repository joins to, resolved by identifier.
pub open spec fn joined_provider(db: Database, provider_id: i64) -> Option<
    crate::domain::GitProvider,
> {
    match first_where(db.providers@, by_provider_id(provider_id), 0) {
        Some(k) => Some(db.providers@[k]),
        None => None,
    }
}


/// The reporting order of two issue rows: newer first-recorded timestamp
/// first, ties broken by the (unique) local identifier, so the order is
/// total and, on a well-formed store, strict.
pub open spec fn issue_key_ge(a: IssueRow, b: IssueRow) -> bool {
    a.created_at > b.created_at || (a.created_at == b.created_at && a.id >= b.id)
}

/// Whether a row sequence is ordered by first-recorded timestamp
/// descending, ties by identifier descending.
pub open spec fn issues_sorted_desc(s: Seq<IssueRow>) -> bool {
    forall|i: int, j: int|
        0 <= i < j < s.len() ==> issue_key_ge(#[trigger] s[i], #[trigger] s[j])
}

/// Whether a returned issue page is ordered by first-recorded timestamp
/// descending, ties by identifier descending.
pub open spec fn issue_page_sorted_desc(s: Seq<Issue>) -> bool {
    forall|i: int, j: int|
        0 <= i < j < s.len() ==> (#[trigger] s[i]).created_at > (#[trigger] s[j]).created_at || (
        s[i].created_at == s[j].created_at && s[i].id >= s[j].id)
}

/// As [`issue_key_ge`], over pull-request rows.
pub open spec fn pr_key_ge(a: PullRequestRow, b: PullRequestRow) -> bool {
    a.created_at > b.created_at || (a.created_at == b.created_at && a.id >= b.id)
}

/// As [`issues_sorted_desc`], over pull-request rows.
pub open spec fn prs_sorted_desc(s: Seq<PullRequestRow>) -> bool {
    forall|i: int, j: int| 0 <= i < j < s.len() ==> pr_key_ge(#[trigger] s[i], #[trigger] s[j])
}

/// As [`issue_page_sorted_desc`], over a pull-request page.
pub open spec fn pr_page_sorted_desc(s: Seq<PullRequest>) -> bool {
    forall|i: int, j: int|
        0 <= i < j < s.len() ==> (#[trigger] s[i]).created_at > (#[trigger] s[j]).created_at || (
        s[i].created_at == s[j].created_at && s[i].id >= s[j].id)
}

/// As [`issue_key_ge`], over workflow rows.
pub open spec fn workflow_key_ge(a: WorkflowRow, b: WorkflowRow) -> bool {
    a.created_at > b.created_at || (a.created_at == b.created_at && a.id >= b.id)
}

/// As [`issues_sorted_desc`], over workflow rows.
pub open spec fn workflows_sorted_desc(s: Seq<WorkflowRow>) -> bool {
    forall|i: int, j: int|
        0 <= i < j < s.len() ==> workflow_key_ge(#[trigger] s[i], #[trigger] s[j])
}

/// As [`issue_page_sorted_desc`], over a workflow page.
pub open spec fn workflow_page_sorted_desc(s: Seq<WorkflowRun>) -> bool {
    forall|i: int, j: int|
        0 <= i < j < s.len() ==> (#[trigger] s[i]).created_at > (#[trigger] s[j]).created_at || (
        s[i].created_at == s[j].created_at && s[i].id >= s[j].id)
}

/// Whether an issue row survives the relational join to its repository and
/// provider.
pub open spec fn issue_joinable(db: Database, row: IssueRow) -> bool {
    match joined_repo(db, row.repository_id) {
        Some(rep) => joined_provider(db, rep.provider_id) is Some,
        None => false,
    }
}

/// Whether an issue row passes the caller's filters: state code, assignee
/// (`"me"` selects rows assigned to the local user, any other value matches
/// the author), provider kind code, repository name, and a
/// case-insensitive search over title and author.  An empty filter string
/// is no constraint.
pub open spec fn issue_matches(db: Database, f: Option<IssueFilters>, row: IssueRow) -> bool {
    &&& issue_joinable(db, row)
    &&& match f {
        None => true,
        Some(ff) => {
            &&& (match ff.state {
                Some(s) => s@.len() == 0 || spec_issue_state_code(row.state_id) == s@,
                None => true,
            })
            &&& (match ff.assigned {
                Some(a) => a@.len() == 0 || (if a@ == "me"@ {
                    row.assigned_to_me
                } else {
                    row.author@ == a@
                }),
                None => true,
            })
            &&& (match ff.provider {
                Some(p) => p@.len() == 0 || (joined_provider(
                    db,
                    joined_repo(db, row.repository_id)->0.provider_id,
                )->0.provider_type@ == p@),
                None => true,
            })
            &&& (match ff.repository {
                Some(rn) => rn@.len() == 0 || joined_repo(db, row.repository_id)->0.name@ == rn@,
                None => true,
            })
            &&& (match ff.search {
                Some(s) => s@.len() == 0 || contains_sub_ci(row.title@, s@) || contains_sub_ci(
                    row.author@,
                    s@,
                ),
                None => true,
            })
        },
    }
}

/// The issue filter as a predicate value.
pub open spec fn issue_pred(db: Database, f: Option<IssueFilters>) -> spec_fn(IssueRow) -> bool {
    |row: IssueRow| issue_matches(db, f, row)
}

/// What one returned issue holds: the row's fields, its repository's name,
/// its provider's kind code, and the state identifier resolved back to its
/// symbolic code.
pub open spec fn issue_view_ok(db: Database, row: IssueRow, v: Issue) -> bool {
    &&& v.id == row.id
    &&& v.api_id == row.api_id
    &&& v.repository_id == row.repository_id
    &&& v.number == row.number
    &&& v.title == row.title
    &&& joined_repo(db, row.repository_id) is Some
    &&& v.repository == joined_repo(db, row.repository_id)->0.name
    &&& joined_provider(db, joined_repo(db, row.repository_id)->0.provider_id) is Some
    &&& v.provider == joined_provider(
        db,
        joined_repo(db, row.repository_id)->0.provider_id,
    )->0.provider_type
    &&& v.assigned_to_me == row.assigned_to_me
    &&& v.author == row.author
    &&& v.state@ == spec_issue_state_code(row.state_id)
    &&& v.labels@ == row.labels@
    &&& v.url == row.url
    &&& v.closed_at == row.closed_at
    &&& v.api_created_at == row.api_created_at
    &&& v.api_updated_at == row.api_updated_at
    &&& v.created_at == row.created_at
    &&& v.updated_at == row.updated_at
}

/// A whole returned page of issues views its slice of rows one for one.
pub open spec fn issue_views_ok(db: Database, rows: Seq<IssueRow>, out: Seq<Issue>) -> bool {
    &&& out.len() == rows.len()
    &&& forall|i: int| 0 <= i < rows.len() ==> issue_view_ok(db, rows[i], #[trigger] out[i])
}


/// Whether a pull-request row survives the join to its repository and
/// provider.
pub open spec fn pr_joinable(db: Database, row: PullRequestRow) -> bool {
    match joined_repo(db, row.repository_id) {
        Some(rep) => joined_provider(db, rep.provider_id) is Some,
        None => false,
    }
}

/// Whether a workflow row survives the join to its repository and provider.
pub open spec fn workflow_joinable(db: Database, row: WorkflowRow) -> bool {
    match joined_repo(db, row.repository_id) {
        Some(rep) => joined_provider(db, rep.provider_id) is Some,
        None => false,
    }
}

/// Whether a pull-request row passes the caller's filters: a state code
/// other than `"all"` must match, `"me"` as assignee selects rows assigned
/// to the local user, provider and repository match by name, and the
/// search looks through title and author case-insensitively.
pub open spec fn pr_matches(db: Database, f: Option<PullRequestFilters>, row: PullRequestRow) -> bool {
    &&& pr_joinable(db, row)
    &&& match f {
        None => true,
        Some(ff) => {
            &&& (match ff.state {
                Some(s) => s@ == "all"@ || spec_pr_state_code(row.state_id) == s@,
                None => true,
            })
            &&& (match ff.assigned {
                Some(a) => a@ != "me"@ || row.assigned_to_me,
                None => true,
            })
            &&& (match ff.provider {
                Some(p) => joined_provider(
                    db,
                    joined_repo(db, row.repository_id)->0.provider_id,
                )->0.name@ == p@,
                None => true,
            })
            &&& (match ff.repository {
                Some(rn) => joined_repo(db, row.repository_id)->0.name@ == rn@,
                None => true,
            })
            &&& (match ff.search {
                Some(s) => contains_sub_ci(row.title@, s@) || contains_sub_ci(row.author@, s@),
                None => true,
            })
        },
    }
}

/// The pull-request filter as a predicate value.
pub open spec fn pr_pred(db: Database, f: Option<PullRequestFilters>) -> spec_fn(
    PullRequestRow,
) -> bool {
    |row: PullRequestRow| pr_matches(db, f, row)
}

/// Whether a workflow row passes the caller's filters.  A status filter
/// other than `"all"` selects by family: `"in_progress"` covers the
/// queued, requested and waiting statuses too; `"success"` and
/// `"failure"` ask for a completed run with the matching conclusion
/// (timed-out counts as failure); `"cancelled"` covers both the cancelled
/// status and a completed run with a cancelled conclusion; any other code
/// selects nothing in particular.  Provider and repository match by name;
/// the search looks through the run's name.
pub open spec fn workflow_matches(db: Database, f: Option<WorkflowFilters>, row: WorkflowRow) -> bool {
    &&& workflow_joinable(db, row)
    &&& match f {
        None => true,
        Some(ff) => {
            &&& (match ff.status {
                Some(st) => workflow_status_filter_matches(st@, row),
                None => true,
            })
            &&& (match ff.provider {
                Some(p) => joined_provider(
                    db,
                    joined_repo(db, row.repository_id)->0.provider_id,
                )->0.name@ == p@,
                None => true,
            })
            &&& (match ff.repository {
                Some(rn) => joined_repo(db, row.repository_id)->0.name@ == rn@,
                None => true,
            })
            &&& (match ff.search {
                Some(s) => contains_sub_ci(row.name@, s@),
                None => true,
            })
        },
    }
}

/// The grouped semantics of one workflow status filter code.
pub open spec fn workflow_status_filter_matches(st: Seq<char>, row: WorkflowRow) -> bool {
    if st == "all"@ {
        true
    } else if st == "in_progress"@ {
        row.status_id == WF_STATUS_IN_PROGRESS || row.status_id == WF_STATUS_QUEUED
            || row.status_id == WF_STATUS_REQUESTED || row.status_id == WF_STATUS_WAITING
    } else if st == "success"@ {
        row.status_id == WF_STATUS_COMPLETED && row.conclusion_id == Some(WF_CONCLUSION_SUCCESS)
    } else if st == "failure"@ {
        row.status_id == WF_STATUS_COMPLETED && (row.conclusion_id == Some(WF_CONCLUSION_FAILURE)
            || row.conclusion_id == Some(WF_CONCLUSION_TIMED_OUT))
    } else if st == "cancelled"@ {
        row.status_id == WF_STATUS_CANCELLED || (row.status_id == WF_STATUS_COMPLETED
            && row.conclusion_id == Some(WF_CONCLUSION_CANCELLED))
    } else {
        true
    }
}

/// The workflow filter as a predicate value.
pub open spec fn workflow_pred(db: Database, f: Option<WorkflowFilters>) -> spec_fn(
    WorkflowRow,
) -> bool {
    |row: WorkflowRow| workflow_matches(db, f, row)
}

/// What one returned pull request holds.
pub open spec fn pr_view_ok(db: Database, row: PullRequestRow, v: PullRequest) -> bool {
    &&& v.id == row.id
    &&& v.api_id == row.api_id
    &&& v.repository_id == row.repository_id
    &&& v.number == row.number
    &&& v.title == row.title
    &&& joined_repo(db, row.repository_id) is Some
    &&& v.repository == joined_repo(db, row.repository_id)->0.name
    &&& joined_provider(db, joined_repo(db, row.repository_id)->0.provider_id) is Some
    &&& v.provider == joined_provider(
        db,
        joined_repo(db, row.repository_id)->0.provider_id,
    )->0.name
    &&& v.assigned_to_me == row.assigned_to_me
    &&& v.author == row.author
    &&& v.state@ == spec_pr_state_code(row.state_id)
    &&& v.draft == row.draft
    &&& v.url == row.url
    &&& v.merged_at == row.merged_at
    &&& v.closed_at == row.closed_at
    &&& v.api_created_at == row.api_created_at
    &&& v.api_updated_at == row.api_updated_at
    &&& v.created_at == row.created_at
    &&& v.updated_at == row.updated_at
}

/// A whole returned page of pull requests views its slice of rows one for
/// one.
pub open spec fn pr_views_ok(db: Database, rows: Seq<PullRequestRow>, out: Seq<PullRequest>) -> bool {
    &&& out.len() == rows.len()
    &&& forall|i: int| 0 <= i < rows.len() ==> pr_view_ok(db, rows[i], #[trigger] out[i])
}

/// What one returned workflow run holds.
pub open spec fn workflow_view_ok(db: Database, row: WorkflowRow, v: WorkflowRun) -> bool {
    &&& v.id == row.id
    &&& v.api_id == row.api_id
    &&& v.repository_id == row.repository_id
    &&& v.name == row.name
    &&& joined_repo(db, row.repository_id) is Some
    &&& v.repository == joined_repo(db, row.repository_id)->0.name
    &&& joined_provider(db, joined_repo(db, row.repository_id)->0.provider_id) is Some
    &&& v.provider == joined_provider(
        db,
        joined_repo(db, row.repository_id)->0.provider_id,
    )->0.name
    &&& v.status@ == spec_workflow_status_code(row.status_id)
    &&& (match (v.conclusion, row.conclusion_id) {
        (Some(c), Some(cid)) => c@ == spec_workflow_conclusion_code(cid),
        (None, None) => true,
        _ => false,
    })
    &&& v.url == row.url
    &&& v.api_created_at == row.api_created_at
    &&& v.api_updated_at == row.api_updated_at
    &&& v.created_at == row.created_at
    &&& v.updated_at == row.updated_at
}

/// A whole returned page of workflow runs views its slice of rows one for
/// one.
pub open spec fn workflow_views_ok(db: Database, rows: Seq<WorkflowRow>, out: Seq<WorkflowRun>) -> bool {
    &&& out.len() == rows.len()
    &&& forall|i: int| 0 <= i < rows.len() ==> workflow_view_ok(db, rows[i], #[trigger] out[i])
}

/// Key predicate: an issue row with this local identifier.
pub open spec fn by_issue_row_id(id: i64) -> spec_fn(IssueRow) -> bool {
    |r: IssueRow| r.id == id
}

/// Key predicate: a pull-request row with this local identifier.
pub open spec fn by_pr_row_id(id: i64) -> spec_fn(PullRequestRow) -> bool {
    |r: PullRequestRow| r.id == id
}

/// Key predicate: a workflow row with this local identifier.
pub open spec fn by_workflow_row_id(id: i64) -> spec_fn(WorkflowRow) -> bool {
    |r: WorkflowRow| r.id == id
}

/// Count predicate: an issue row in this state.
pub open spec fn issue_state_is(state_id: i64) -> spec_fn(IssueRow) -> bool {
    |r: IssueRow| r.state_id == state_id
}

/// Count predicate of the pull-request statistics: the join and the
/// caller's provider and repository name filters; the other filter fields
/// play no part in the counts.
pub open spec fn pr_stats_pred(db: Database, f: Option<PullRequestFilters>) -> spec_fn(
    PullRequestRow,
) -> bool {
    |row: PullRequestRow|
        {
            &&& pr_joinable(db, row)
            &&& match f {
                None => true,
                Some(ff) => {
                    &&& (match ff.provider {
                        Some(p) => joined_provider(
                            db,
                            joined_repo(db, row.repository_id)->0.provider_id,
                        )->0.name@ == p@,
                        None => true,
                    })
                    &&& (match ff.repository {
                        Some(rn) => joined_repo(db, row.repository_id)->0.name@ == rn@,
                        None => true,
                    })
                },
            }
        }
}

/// Count predicate: a pull-request row in this state that also passes the
/// statistics filter.
pub open spec fn pr_stats_state_pred(
    db: Database,
    f: Option<PullRequestFilters>,
    state_id: i64,
) -> spec_fn(PullRequestRow) -> bool {
    |row: PullRequestRow| pr_stats_pred(db, f)(row) && row.state_id == state_id
}

/// Count predicate of the workflow statistics.
pub open spec fn workflow_stats_pred(db: Database, f: Option<WorkflowFilters>) -> spec_fn(
    WorkflowRow,
) -> bool {
    |row: WorkflowRow|
        {
            &&& workflow_joinable(db, row)
            &&& match f {
                None => true,
                Some(ff) => {
                    &&& (match ff.provider {
                        Some(p) => joined_provider(
                            db,
                            joined_repo(db, row.repository_id)->0.provider_id,
                        )->0.name@ == p@,
                        None => true,
                    })
                    &&& (match ff.repository {
                        Some(rn) => joined_repo(db, row.repository_id)->0.name@ == rn@,
                        None => true,
                    })
                },
            }
        }
}

/// Count predicate: a workflow row with this status that also passes the
/// statistics filter.
pub open spec fn workflow_stats_status_pred(
    db: Database,
    f: Option<WorkflowFilters>,
    status_id: i64,
) -> spec_fn(WorkflowRow) -> bool {
    |row: WorkflowRow| workflow_stats_pred(db, f)(row) && row.status_id == status_id
}


/// Clamps a machine count into `u32`.
fn clamp_u32(n: usize) -> (r: u32)
    ensures
        r == spec_total_of(n as nat),
{
    if n > (u32::MAX as usize) {
        u32::MAX
    } else {
        n as u32
    }
}

impl Database {

    /// Checks one pull-request row against the caller's filters.
    fn pr_matches_exec(&self, f: &Option<PullRequestFilters>, i: usize) -> (b: bool)
        requires
            i < self.pull_requests@.len(),
        ensures
            b == pr_matches(*self, *f, self.pull_requests@[i as int]),
    {
        let row = &self.pull_requests[i];
        let rep_idx = match self.find_repository(row.repository_id) {
            Some(k) => k,
            None => {
                return false;
            },
        };
        proof {
            lemma_first_where_props(self.repositories@, by_repository_id(row.repository_id), 0);
        }
        let prov_idx = match self.find_provider(self.repositories[rep_idx].provider_id) {
            Some(k) => k,
            None => {
                return false;
            },
        };
        proof {
            lemma_first_where_props(
                self.providers@,
                by_provider_id(self.repositories@[rep_idx as int].provider_id),
                0,
            );
        }
        match f {
            None => true,
            Some(ff) => {
                let state_ok = match &ff.state {
                    Some(s) => {
                        if str_eq(s.as_str(), "all") {
                            true
                        } else {
                            let code = pr_state_code(row.state_id);
                            str_eq(code.as_str(), s.as_str())
                        }
                    },
                    None => true,
                };
                let assigned_ok = match &ff.assigned {
                    Some(a) => !str_eq(a.as_str(), "me") || row.assigned_to_me,
                    None => true,
                };
                let provider_ok = match &ff.provider {
                    Some(p) => str_eq(self.providers[prov_idx].name.as_str(), p.as_str()),
                    None => true,
                };
                let repository_ok = match &ff.repository {
                    Some(rn) => str_eq(self.repositories[rep_idx].name.as_str(), rn.as_str()),
                    None => true,
                };
                let search_ok = match &ff.search {
                    Some(s) => contains_ci(row.title.as_str(), s.as_str()) || contains_ci(
                        row.author.as_str(),
                        s.as_str(),
                    ),
                    None => true,
                };
                state_ok && assigned_ok && provider_ok && repository_ok && search_ok
            },
        }
    }

    /// Builds the caller-facing view of one pull-request row.
    fn make_pr_view(&self, i: usize) -> (v: PullRequest)
        requires
            i < self.pull_requests@.len(),
            pr_joinable(*self, self.pull_requests@[i as int]),
        ensures
            pr_view_ok(*self, self.pull_requests@[i as int], v),
    {
        let row = &self.pull_requests[i];
        let rep_idx = match self.find_repository(row.repository_id) {
            Some(k) => k,
            None => {
                proof {
                    assert(false);
                }
                unreached()
            },
        };
        proof {
            lemma_first_where_props(self.repositories@, by_repository_id(row.repository_id), 0);
        }
        let prov_idx = match self.find_provider(self.repositories[rep_idx].provider_id) {
            Some(k) => k,
            None => {
                proof {
                    assert(false);
                }
                unreached()
            },
        };
        proof {
            lemma_first_where_props(
                self.providers@,
                by_provider_id(self.repositories@[rep_idx as int].provider_id),
                0,
            );
        }
        PullRequest {
            id: row.id,
            api_id: row.api_id,
            repository_id: row.repository_id,
            number: row.number,
            title: row.title.clone(),
            repository: self.repositories[rep_idx].name.clone(),
            provider: self.providers[prov_idx].name.clone(),
            assigned_to_me: row.assigned_to_me,
            author: row.author.clone(),
            state: pr_state_code(row.state_id),
            draft: row.draft,
            url: row.url.clone(),
            merged_at: clone_opt_string(&row.merged_at),
            closed_at: clone_opt_string(&row.closed_at),
            api_created_at: row.api_created_at.clone(),
            api_updated_at: row.api_updated_at.clone(),
            created_at: row.created_at,
            updated_at: row.updated_at,
        }
    }

    /// Checks one workflow row against the caller's filters.
    fn workflow_matches_exec(&self, f: &Option<WorkflowFilters>, i: usize) -> (b: bool)
        requires
            i < self.workflows@.len(),
        ensures
            b == workflow_matches(*self, *f, self.workflows@[i as int]),
    {
        let row = &self.workflows[i];
        let rep_idx = match self.find_repository(row.repository_id) {
            Some(k) => k,
            None => {
                return false;
            },
        };
        proof {
            lemma_first_where_props(self.repositories@, by_repository_id(row.repository_id), 0);
        }
        let prov_idx = match self.find_provider(self.repositories[rep_idx].provider_id) {
            Some(k) => k,
            None => {
                return false;
            },
        };
        proof {
            lemma_first_where_props(
                self.providers@,
                by_provider_id(self.repositories@[rep_idx as int].provider_id),
                0,
            );
        }
        match f {
            None => true,
            Some(ff) => {
                let status_ok = match &ff.status {
                    Some(st) => self.workflow_status_filter_exec(st.as_str(), i),
                    None => true,
                };
                let provider_ok = match &ff.provider {
                    Some(p) => str_eq(self.providers[prov_idx].name.as_str(), p.as_str()),
                    None => true,
                };
                let repository_ok = match &ff.repository {
                    Some(rn) => str_eq(self.repositories[rep_idx].name.as_str(), rn.as_str()),
                    None => true,
                };
                let search_ok = match &ff.search {
                    Some(s) => contains_ci(row.name.as_str(), s.as_str()),
                    None => true,
                };
                status_ok && provider_ok && repository_ok && search_ok
            },
        }
    }

    /// Checks one workflow row against a grouped status filter code.
    fn workflow_status_filter_exec(&self, st: &str, i: usize) -> (b: bool)
        requires
            i < self.workflows@.len(),
        ensures
            b == workflow_status_filter_matches(st@, self.workflows@[i as int]),
    {
        let row = &self.workflows[i];
        if str_eq(st, "all") {
            true
        } else if str_eq(st, "in_progress") {
            row.status_id == WF_STATUS_IN_PROGRESS || row.status_id == WF_STATUS_QUEUED
                || row.status_id == WF_STATUS_REQUESTED || row.status_id == WF_STATUS_WAITING
        } else if str_eq(st, "success") {
            row.status_id == WF_STATUS_COMPLETED && row.conclusion_id == Some(
                WF_CONCLUSION_SUCCESS,
            )
        } else if str_eq(st, "failure") {
            row.status_id == WF_STATUS_COMPLETED && (row.conclusion_id == Some(
                WF_CONCLUSION_FAILURE,
            ) || row.conclusion_id == Some(WF_CONCLUSION_TIMED_OUT))
        } else if str_eq(st, "cancelled") {
            row.status_id == WF_STATUS_CANCELLED || (row.status_id == WF_STATUS_COMPLETED
                && row.conclusion_id == Some(WF_CONCLUSION_CANCELLED))
        } else {
            true
        }
    }

    /// Builds the caller-facing view of one workflow row.
    fn make_workflow_view(&self, i: usize) -> (v: WorkflowRun)
        requires
            i < self.workflows@.len(),
            workflow_joinable(*self, self.workflows@[i as int]),
        ensures
            workflow_view_ok(*self, self.workflows@[i as int], v),
    {
        let row = &self.workflows[i];
        let rep_idx = match self.find_repository(row.repository_id) {
            Some(k) => k,
            None => {
                proof {
                    assert(false);
                }
                unreached()
            },
        };
        proof {
            lemma_first_where_props(self.repositories@, by_repository_id(row.repository_id), 0);
        }
        let prov_idx = match self.find_provider(self.repositories[rep_idx].provider_id) {
            Some(k) => k,
            None => {
                proof {
                    assert(false);
                }
                unreached()
            },
        };
        proof {
            lemma_first_where_props(
                self.providers@,
                by_provider_id(self.repositories@[rep_idx as int].provider_id),
                0,
            );
        }
        let conclusion: Option<String> = match &row.conclusion_id {
            Some(cid) => Some(workflow_conclusion_code(*cid)),
            None => None,
        };
        WorkflowRun {
            id: row.id,
            api_id: row.api_id,
            repository_id: row.repository_id,
            name: row.name.clone(),
            repository: self.repositories[rep_idx].name.clone(),
            provider: self.providers[prov_idx].name.clone(),
            status: workflow_status_code(row.status_id),
            conclusion,
            url: row.url.clone(),
            api_created_at: row.api_created_at.clone(),
            api_updated_at: row.api_updated_at.clone(),
            created_at: row.created_at,
            updated_at: row.updated_at,
        }
    }

    /// Checks one issue row against the caller's filters.
    fn issue_matches_exec(&self, f: &Option<IssueFilters>, i: usize) -> (b: bool)
        requires
            i < self.issues@.len(),
        ensures
            b == issue_matches(*self, *f, self.issues@[i as int]),
    {
        let row = &self.issues[i];
        let rep_idx = match self.find_repository(row.repository_id) {
            Some(k) => k,
            None => {
                return false;
            },
        };
        proof {
            lemma_first_where_props(self.repositories@, by_repository_id(row.repository_id), 0);
        }
        let prov_idx = match self.find_provider(self.repositories[rep_idx].provider_id) {
            Some(k) => k,
            None => {
                return false;
            },
        };
        proof {
            lemma_first_where_props(
                self.providers@,
                by_provider_id(self.repositories@[rep_idx as int].provider_id),
                0,
            );
        }
        match f {
            None => true,
            Some(ff) => {
                let state_ok = match &ff.state {
                    Some(s) => {
                        if s.as_str().is_empty() {
                            true
                        } else {
                            let code = issue_state_code(row.state_id);
                            str_eq(code.as_str(), s.as_str())
                        }
                    },
                    None => true,
                };
                let assigned_ok = match &ff.assigned {
                    Some(a) => {
                        if a.as_str().is_empty() {
                            true
                        } else if str_eq(a.as_str(), "me") {
                            row.assigned_to_me
                        } else {
                            str_eq(row.author.as_str(), a.as_str())
                        }
                    },
                    None => true,
                };
                let provider_ok = match &ff.provider {
                    Some(p) => {
                        if p.as_str().is_empty() {
                            true
                        } else {
                            str_eq(self.providers[prov_idx].provider_type.as_str(), p.as_str())
                        }
                    },
                    None => true,
                };
                let repository_ok = match &ff.repository {
                    Some(rn) => {
                        if rn.as_str().is_empty() {
                            true
                        } else {
                            str_eq(self.repositories[rep_idx].name.as_str(), rn.as_str())
                        }
                    },
                    None => true,
                };
                let search_ok = match &ff.search {
                    Some(s) => {
                        if s.as_str().is_empty() {
                            true
                        } else {
                            contains_ci(row.title.as_str(), s.as_str()) || contains_ci(
                                row.author.as_str(),
                                s.as_str(),
                            )
                        }
                    },
                    None => true,
                };
                state_ok && assigned_ok && provider_ok && repository_ok && search_ok
            },
        }
    }

    /// Builds the caller-facing view of one issue row.
    fn make_issue_view(&self, i: usize) -> (v: Issue)
        requires
            i < self.issues@.len(),
            issue_joinable(*self, self.issues@[i as int]),
        ensures
            issue_view_ok(*self, self.issues@[i as int], v),
    {
        let row = &self.issues[i];
        let rep_idx = match self.find_repository(row.repository_id) {
            Some(k) => k,
            None => {
                proof {
                    assert(false);
                }
                unreached()
            },
        };
        proof {
            lemma_first_where_props(self.repositories@, by_repository_id(row.repository_id), 0);
        }
        let prov_idx = match self.find_provider(self.repositories[rep_idx].provider_id) {
            Some(k) => k,
            None => {
                proof {
                    assert(false);
                }
                unreached()
            },
        };
        proof {
            lemma_first_where_props(
                self.providers@,
                by_provider_id(self.repositories@[rep_idx as int].provider_id),
                0,
            );
        }
        Issue {
            id: row.id,
            api_id: row.api_id,
            repository_id: row.repository_id,
            number: row.number,
            title: row.title.clone(),
            repository: self.repositories[rep_idx].name.clone(),
            provider: self.providers[prov_idx].provider_type.clone(),
            assigned_to_me: row.assigned_to_me,
            author: row.author.clone(),
            state: issue_state_code(row.state_id),
            labels: clone_vec_string(&row.labels),
            url: row.url.clone(),
            closed_at: clone_opt_string(&row.closed_at),
            api_created_at: row.api_created_at.clone(),
            api_updated_at: row.api_updated_at.clone(),
            created_at: row.created_at,
            updated_at: row.updated_at,
        }
    }

    /// The filtered issues, newest first, one page at a time.  The page's
    /// rows view the matching rows in reverse insertion order; the
    /// pagination block reports the requested page, the page size, the
    /// total of matching rows and the page count, with a page size of zero
    /// or an unrepresentable offset yielding an empty page, as the caller
    /// asked for it.
    pub fn get_issues(
        &self,
        filters: &Option<IssueFilters>,
        pagination: &Option<PaginationParams>,
    ) -> (r: Result<PaginatedResponse<Issue>, SyncError>)
        ensures
            match r {
                Ok(resp) => ({
                    let matching = self.issues@.filter(issue_pred(*self, *filters));
                    let page = spec_page_of(*pagination);
                    let per_page = spec_per_page_of(*pagination);
                    &&& resp.pagination.page == page
                    &&& resp.pagination.per_page == per_page
                    &&& resp.pagination.total == spec_total_of(matching.len())
                    &&& (per_page == 0 ==> resp.data@.len() == 0 && resp.pagination.total_pages
                        == 0)
                    &&& (per_page > 0 ==> resp.pagination.total_pages == spec_total_pages(
                        resp.pagination.total,
                        per_page,
                    ))
                    &&& (per_page > 0 ==> match spec_offset(page, per_page) {
                        Some(off) => exists|full: Seq<IssueRow>|
                            {
                                &&& #[trigger] issues_sorted_desc(full)
                                &&& full.to_multiset() == matching.to_multiset()
                                &&& issue_views_ok(
                                    *self,
                                    page_slice(full, off, per_page),
                                    resp.data@,
                                )
                            },
                        None => resp.data@.len() == 0,
                    })
                    &&& issue_page_sorted_desc(resp.data@)
                }),
                Err(_) => false,
            },
    {
        let ghost pred = issue_pred(*self, *filters);
        let ghost filtered = self.issues@.filter(pred);

        // Gather the indices of the matching rows, in insertion order.
        let mut idxs: Vec<usize> = Vec::new();
        let mut i: usize = 0;
        while i < self.issues.len()
            invariant
                pred == issue_pred(*self, *filters),
                i <= self.issues@.len(),
                idxs@.len() == self.issues@.subrange(0, i as int).filter(pred).len(),
                forall|k: int|
                    0 <= k < idxs@.len() ==> (#[trigger] idxs@[k]) < i && self.issues@[
                        idxs@[k] as int
                    ] == self.issues@.subrange(0, i as int).filter(pred)[k],
            decreases self.issues@.len() - i,
        {
            proof {
                assert(self.issues@.subrange(0, i + 1) =~= self.issues@.subrange(0, i as int).push(
                    self.issues@[i as int],
                ));
                lemma_filter_push(self.issues@.subrange(0, i as int), self.issues@[i as int], pred);
            }
            if self.issue_matches_exec(filters, i) {
                idxs.push(i);
            }
            i = i + 1;
        }
        proof {
            assert(self.issues@.subrange(0, self.issues@.len() as int) =~= self.issues@);
        }

        // Pagination arithmetic, on the clamped total.
        let total_usize = idxs.len();
        let total: u32 = if total_usize > (u32::MAX as usize) {
            u32::MAX
        } else {
            total_usize as u32
        };
        let (page, per_page) = match pagination {
            Some(p) => (p.page, p.per_page),
            None => (1u32, 20u32),
        };
        if per_page == 0 {
            return Ok(
                PaginatedResponse {
                    data: Vec::new(),
                    pagination: PaginationInfo { page, per_page, total, total_pages: 0 },
                },
            );
        }
        let total_pages: u32 = if total > u32::MAX - per_page {
            1
        } else {
            (total + per_page - 1) / per_page
        };
        let offset_opt: Option<u32> = match page.checked_sub(1) {
            Some(pm) => pm.checked_mul(per_page),
            None => None,
        };
        let offset: u32 = match offset_opt {
            Some(o) => o,
            None => {
                return Ok(
                    PaginatedResponse {
                        data: Vec::new(),
                        pagination: PaginationInfo { page, per_page, total, total_pages },
                    },
                );
            },
        };
        // Order the matching rows for reporting: newest first, ties by
        // identifier.
        let mut sidx: Vec<usize> = Vec::new();
        let ghost mut selected: Seq<IssueRow> = Seq::empty();
        proof {
            assert(selected =~= filtered.subrange(0, 0));
        }
        let mut t: usize = 0;
        while t < idxs.len()
            invariant
                pred == issue_pred(*self, *filters),
                filtered == self.issues@.filter(pred),
                t <= idxs@.len(),
                idxs@.len() == filtered.len(),
                forall|q: int|
                    0 <= q < idxs@.len() ==> (#[trigger] idxs@[q]) < self.issues@.len()
                        && self.issues@[idxs@[q] as int] == filtered[q],
                sidx@.len() == t,
                selected.len() == t,
                forall|q: int| 0 <= q < t ==> (#[trigger] sidx@[q]) < self.issues@.len(),
                forall|q: int|
                    0 <= q < t ==> #[trigger] selected[q] == self.issues@[sidx@[q] as int],
                selected.to_multiset() == filtered.subrange(0, t as int).to_multiset(),
                issues_sorted_desc(selected),
            decreases idxs@.len() - t,
        {
            let idx = idxs[t];
            let mut j: usize = 0;
            while j < sidx.len() && (self.issues[sidx[j]].created_at > self.issues[idx].created_at
                || (self.issues[sidx[j]].created_at == self.issues[idx].created_at
                    && self.issues[sidx[j]].id >= self.issues[idx].id))
                invariant
                    idx < self.issues@.len(),
                    j <= sidx@.len(),
                    sidx@.len() == selected.len(),
                    forall|q: int| 0 <= q < sidx@.len() ==> (#[trigger] sidx@[q])
                        < self.issues@.len(),
                    forall|q: int|
                        0 <= q < sidx@.len() ==> #[trigger] selected[q] == self.issues@[
                            sidx@[q] as int
                        ],
                    forall|q: int|
                        0 <= q < j ==> issue_key_ge(
                            #[trigger] selected[q],
                            self.issues@[idx as int],
                        ),
                decreases sidx@.len() - j,
            {
                j = j + 1;
            }
            let ghost prev = selected;
            let ghost prev_sidx = sidx@;
            sidx.insert(j, idx);
            proof {
                broadcast use vstd::seq_lib::group_to_multiset_ensures;

                let row = self.issues@[idx as int];
                selected = prev.insert(j as int, row);
                prev.insert_ensures(j as int, row);
                prev_sidx.insert_ensures(j as int, idx);
                assert(sidx@ == prev_sidx.insert(j as int, idx));
                assert(selected.to_multiset() == prev.to_multiset().insert(row));
                assert(row == filtered[t as int]);
                assert(filtered.subrange(0, t + 1) =~= filtered.subrange(0, t as int).push(
                    filtered[t as int],
                ));
                assert forall|q: int|
                    0 <= q < selected.len() implies #[trigger] selected[q] == self.issues@[
                    sidx@[q] as int
                ] by {
                    if q < j {
                        assert(selected[q] == prev[q] && sidx@[q] == prev_sidx[q]);
                    } else if q > j {
                        assert(selected[q] == prev[q - 1] && sidx@[q] == prev_sidx[q - 1]);
                    }
                }
                assert forall|q: int|
                    0 <= q < sidx@.len() implies (#[trigger] sidx@[q]) < self.issues@.len() by {
                    if q < j {
                        assert(sidx@[q] == prev_sidx[q]);
                    } else if q > j {
                        assert(sidx@[q] == prev_sidx[q - 1]);
                    }
                }
                if (j as int) < prev.len() {
                    assert(issue_key_ge(row, prev[j as int]));
                }
                assert forall|a: int, b: int|
                    0 <= a < b < selected.len() implies issue_key_ge(
                    selected[a],
                    selected[b],
                ) by {
                    if b < j {
                        assert(selected[a] == prev[a] && selected[b] == prev[b]);
                    } else if b == j {
                        assert(selected[a] == prev[a]);
                        assert(issue_key_ge(prev[a], row));
                    } else {
                        assert(selected[b] == prev[b - 1]);
                        if a < j {
                            assert(selected[a] == prev[a]);
                            if j < prev.len() {
                                assert(issue_key_ge(prev[a], prev[b - 1]));
                            }
                        } else if a == j {
                            assert(issue_key_ge(row, prev[j as int]));
                            assert(issue_key_ge(prev[j as int], prev[b - 1]) || j as int == b
                                - 1);
                        } else {
                            assert(selected[a] == prev[a - 1]);
                            assert(issue_key_ge(prev[a - 1], prev[b - 1]));
                        }
                    }
                }
            }
            t = t + 1;
        }
        proof {
            assert(filtered.subrange(0, filtered.len() as int) =~= filtered);
        }

        // Build the requested window, newest rows first.
        let mut data: Vec<Issue> = Vec::new();
        let n = idxs.len();
        let mut k: usize = offset as usize;
        let end: usize = if (offset as usize) >= n {
            offset as usize
        } else if n - (offset as usize) > (per_page as usize) {
            (offset as usize) + (per_page as usize)
        } else {
            n
        };
        while k < end
            invariant
                pred == issue_pred(*self, *filters),
                filtered == self.issues@.filter(pred),
                n == idxs@.len(),
                n == filtered.len(),
                sidx@.len() == n,
                selected.len() == n,
                forall|q: int| 0 <= q < n ==> (#[trigger] sidx@[q]) < self.issues@.len(),
                forall|q: int|
                    0 <= q < n ==> #[trigger] selected[q] == self.issues@[sidx@[q] as int],
                selected.to_multiset() == filtered.to_multiset(),
                issues_sorted_desc(selected),
                offset as usize <= k <= end,
                end <= n || end == offset as usize,
                end as int == if offset as int >= n as int {
                    offset as int
                } else if offset as int + per_page as int <= n as int {
                    offset as int + per_page as int
                } else {
                    n as int
                },
                data@.len() == k - offset as usize,
                forall|t: int|
                    0 <= t < data@.len() ==> issue_view_ok(
                        *self,
                        selected[offset as int + t],
                        #[trigger] data@[t],
                    ),
            decreases end - k,
        {
            let row_idx = sidx[k];
            proof {
                broadcast use vstd::seq_lib::group_to_multiset_ensures;

                assert(selected[k as int] == self.issues@[row_idx as int]);
                assert(selected.contains(selected[k as int]));
                assert(filtered.to_multiset().count(selected[k as int]) > 0);
                assert(filtered.contains(selected[k as int]));
                let w = choose|w: int|
                    0 <= w < filtered.len() && filtered[w] == selected[k as int];
                self.issues@.lemma_filter_pred(pred, w);
                assert(pred(self.issues@[row_idx as int]));
            }
            let v = self.make_issue_view(row_idx);
            data.push(v);
            k = k + 1;
        }
        proof {
            let off = offset;
            let slice = page_slice(selected, off, per_page);
            assert(selected.len() == n);
            if off >= selected.len() {
                assert(data@.len() == 0);
                assert(slice.len() == 0);
            } else if off + per_page <= selected.len() {
                assert(slice =~= selected.subrange(off as int, off as int + per_page as int));
                assert forall|t: int| 0 <= t < data@.len() implies issue_view_ok(
                    *self,
                    slice[t],
                    #[trigger] data@[t],
                ) by {
                    assert(slice[t] == selected[off as int + t]);
                }
            } else {
                assert(slice =~= selected.subrange(off as int, selected.len() as int));
                assert forall|t: int| 0 <= t < data@.len() implies issue_view_ok(
                    *self,
                    slice[t],
                    #[trigger] data@[t],
                ) by {
                    assert(slice[t] == selected[off as int + t]);
                }
            }
            assert forall|t1: int, t2: int|
                0 <= t1 < t2 < data@.len() implies (#[trigger] data@[t1]).created_at > (
            #[trigger] data@[t2]).created_at || (data@[t1].created_at == data@[t2].created_at
                && data@[t1].id >= data@[t2].id) by {
                assert(issue_view_ok(*self, selected[off as int + t1], data@[t1]));
                assert(issue_view_ok(*self, selected[off as int + t2], data@[t2]));
                assert(off as int + t2 < n as int);
                assert(issue_key_ge(selected[off as int + t1], selected[off as int + t2]));
            }
        }
        Ok(
            PaginatedResponse {
                data,
                pagination: PaginationInfo { page, per_page, total, total_pages },
            },
        )
    }
    /// The filtered pull requests, newest first, one page at a time.  The page's
    /// rows view the matching rows in reverse insertion order; the
    /// pagination block reports the requested page, the page size, the
    /// total of matching rows and the page count, with a page size of zero
    /// or an unrepresentable offset yielding an empty page, as the caller
    /// asked for it.
    pub fn get_pull_requests(
        &self,
        filters: &Option<PullRequestFilters>,
        pagination: &Option<PaginationParams>,
    ) -> (r: Result<PaginatedResponse<PullRequest>, SyncError>)
        ensures
            match r {
                Ok(resp) => ({
                    let matching = self.pull_requests@.filter(pr_pred(*self, *filters));
                    let page = spec_page_of(*pagination);
                    let per_page = spec_per_page_of(*pagination);
                    &&& resp.pagination.page == page
                    &&& resp.pagination.per_page == per_page
                    &&& resp.pagination.total == spec_total_of(matching.len())
                    &&& (per_page == 0 ==> resp.data@.len() == 0 && resp.pagination.total_pages
                        == 0)
                    &&& (per_page > 0 ==> resp.pagination.total_pages == spec_total_pages(
                        resp.pagination.total,
                        per_page,
                    ))
                    &&& (per_page > 0 ==> match spec_offset(page, per_page) {
                        Some(off) => exists|full: Seq<PullRequestRow>|
                            {
                                &&& #[trigger] prs_sorted_desc(full)
                                &&& full.to_multiset() == matching.to_multiset()
                                &&& pr_views_ok(
                                    *self,
                                    page_slice(full, off, per_page),
                                    resp.data@,
                                )
                            },
                        None => resp.data@.len() == 0,
                    })
                    &&& pr_page_sorted_desc(resp.data@)
                }),
                Err(_) => false,
            },
    {
        let ghost pred = pr_pred(*self, *filters);
        let ghost filtered = self.pull_requests@.filter(pred);

        // Gather the indices of the matching rows, in insertion order.
        let mut idxs: Vec<usize> = Vec::new();
        let mut i: usize = 0;
        while i < self.pull_requests.len()
            invariant
                pred == pr_pred(*self, *filters),
                i <= self.pull_requests@.len(),
                idxs@.len() == self.pull_requests@.subrange(0, i as int).filter(pred).len(),
                forall|k: int|
                    0 <= k < idxs@.len() ==> (#[trigger] idxs@[k]) < i && self.pull_requests@[
                        idxs@[k] as int
                    ] == self.pull_requests@.subrange(0, i as int).filter(pred)[k],
            decreases self.pull_requests@.len() - i,
        {
            proof {
                assert(self.pull_requests@.subrange(0, i + 1) =~= self.pull_requests@.subrange(0, i as int).push(
                    self.pull_requests@[i as int],
                ));
                lemma_filter_push(self.pull_requests@.subrange(0, i as int), self.pull_requests@[i as int], pred);
            }
            if self.pr_matches_exec(filters, i) {
                idxs.push(i);
            }
            i = i + 1;
        }
        proof {
            assert(self.pull_requests@.subrange(0, self.pull_requests@.len() as int) =~= self.pull_requests@);
        }

        // Pagination arithmetic, on the clamped total.
        let total_usize = idxs.len();
        let total: u32 = if total_usize > (u32::MAX as usize) {
            u32::MAX
        } else {
            total_usize as u32
        };
        let (page, per_page) = match pagination {
            Some(p) => (p.page, p.per_page),
            None => (1u32, 20u32),
        };
        if per_page == 0 {
            return Ok(
                PaginatedResponse {
                    data: Vec::new(),
                    pagination: PaginationInfo { page, per_page, total, total_pages: 0 },
                },
            );
        }
        let total_pages: u32 = if total > u32::MAX - per_page {
            1
        } else {
            (total + per_page - 1) / per_page
        };
        let offset_opt: Option<u32> = match page.checked_sub(1) {
            Some(pm) => pm.checked_mul(per_page),
            None => None,
        };
        let offset: u32 = match offset_opt {
            Some(o) => o,
            None => {
                return Ok(
                    PaginatedResponse {
                        data: Vec::new(),
                        pagination: PaginationInfo { page, per_page, total, total_pages },
                    },
                );
            },
        };
        // Order the matching rows for reporting: newest first, ties by
        // identifier.
        let mut sidx: Vec<usize> = Vec::new();
        let ghost mut selected: Seq<PullRequestRow> = Seq::empty();
        proof {
            assert(selected =~= filtered.subrange(0, 0));
        }
        let mut t: usize = 0;
        while t < idxs.len()
            invariant
                pred == pr_pred(*self, *filters),
                filtered == self.pull_requests@.filter(pred),
                t <= idxs@.len(),
                idxs@.len() == filtered.len(),
                forall|q: int|
                    0 <= q < idxs@.len() ==> (#[trigger] idxs@[q]) < self.pull_requests@.len()
                        && self.pull_requests@[idxs@[q] as int] == filtered[q],
                sidx@.len() == t,
                selected.len() == t,
                forall|q: int| 0 <= q < t ==> (#[trigger] sidx@[q]) < self.pull_requests@.len(),
                forall|q: int|
                    0 <= q < t ==> #[trigger] selected[q] == self.pull_requests@[sidx@[q] as int],
                selected.to_multiset() == filtered.subrange(0, t as int).to_multiset(),
                prs_sorted_desc(selected),
            decreases idxs@.len() - t,
        {
            let idx = idxs[t];
            let mut j: usize = 0;
            while j < sidx.len() && (self.pull_requests[sidx[j]].created_at > self.pull_requests[idx].created_at
                || (self.pull_requests[sidx[j]].created_at == self.pull_requests[idx].created_at
                    && self.pull_requests[sidx[j]].id >= self.pull_requests[idx].id))
                invariant
                    idx < self.pull_requests@.len(),
                    j <= sidx@.len(),
                    sidx@.len() == selected.len(),
                    forall|q: int| 0 <= q < sidx@.len() ==> (#[trigger] sidx@[q])
                        < self.pull_requests@.len(),
                    forall|q: int|
                        0 <= q < sidx@.len() ==> #[trigger] selected[q] == self.pull_requests@[
                            sidx@[q] as int
                        ],
                    forall|q: int|
                        0 <= q < j ==> pr_key_ge(
                            #[trigger] selected[q],
                            self.pull_requests@[idx as int],
                        ),
                decreases sidx@.len() - j,
            {
                j = j + 1;
            }
            let ghost prev = selected;
            let ghost prev_sidx = sidx@;
            sidx.insert(j, idx);
            proof {
                broadcast use vstd::seq_lib::group_to_multiset_ensures;

                let row = self.pull_requests@[idx as int];
                selected = prev.insert(j as int, row);
                prev.insert_ensures(j as int, row);
                prev_sidx.insert_ensures(j as int, idx);
                assert(sidx@ == prev_sidx.insert(j as int, idx));
                assert(selected.to_multiset() == prev.to_multiset().insert(row));
                assert(row == filtered[t as int]);
                assert(filtered.subrange(0, t + 1) =~= filtered.subrange(0, t as int).push(
                    filtered[t as int],
                ));
                assert forall|q: int|
                    0 <= q < selected.len() implies #[trigger] selected[q] == self.pull_requests@[
                    sidx@[q] as int
                ] by {
                    if q < j {
                        assert(selected[q] == prev[q] && sidx@[q] == prev_sidx[q]);
                    } else if q > j {
                        assert(selected[q] == prev[q - 1] && sidx@[q] == prev_sidx[q - 1]);
                    }
                }
                assert forall|q: int|
                    0 <= q < sidx@.len() implies (#[trigger] sidx@[q]) < self.pull_requests@.len() by {
                    if q < j {
                        assert(sidx@[q] == prev_sidx[q]);
                    } else if q > j {
                        assert(sidx@[q] == prev_sidx[q - 1]);
                    }
                }
                if (j as int) < prev.len() {
                    assert(pr_key_ge(row, prev[j as int]));
                }
                assert forall|a: int, b: int|
                    0 <= a < b < selected.len() implies pr_key_ge(
                    selected[a],
                    selected[b],
                ) by {
                    if b < j {
                        assert(selected[a] == prev[a] && selected[b] == prev[b]);
                    } else if b == j {
                        assert(selected[a] == prev[a]);
                        assert(pr_key_ge(prev[a], row));
                    } else {
                        assert(selected[b] == prev[b - 1]);
                        if a < j {
                            assert(selected[a] == prev[a]);
                            if j < prev.len() {
                                assert(pr_key_ge(prev[a], prev[b - 1]));
                            }
                        } else if a == j {
                            assert(pr_key_ge(row, prev[j as int]));
                            assert(pr_key_ge(prev[j as int], prev[b - 1]) || j as int == b
                                - 1);
                        } else {
                            assert(selected[a] == prev[a - 1]);
                            assert(pr_key_ge(prev[a - 1], prev[b - 1]));
                        }
                    }
                }
            }
            t = t + 1;
        }
        proof {
            assert(filtered.subrange(0, filtered.len() as int) =~= filtered);
        }

        // Build the requested window, newest rows first.
        let mut data: Vec<PullRequest> = Vec::new();
        let n = idxs.len();
        let mut k: usize = offset as usize;
        let end: usize = if (offset as usize) >= n {
            offset as usize
        } else if n - (offset as usize) > (per_page as usize) {
            (offset as usize) + (per_page as usize)
        } else {
            n
        };
        while k < end
            invariant
                pred == pr_pred(*self, *filters),
                filtered == self.pull_requests@.filter(pred),
                n == idxs@.len(),
                n == filtered.len(),
                sidx@.len() == n,
                selected.len() == n,
                forall|q: int| 0 <= q < n ==> (#[trigger] sidx@[q]) < self.pull_requests@.len(),
                forall|q: int|
                    0 <= q < n ==> #[trigger] selected[q] == self.pull_requests@[sidx@[q] as int],
                selected.to_multiset() == filtered.to_multiset(),
                prs_sorted_desc(selected),
                offset as usize <= k <= end,
                end <= n || end == offset as usize,
                end as int == if offset as int >= n as int {
                    offset as int
                } else if offset as int + per_page as int <= n as int {
                    offset as int + per_page as int
                } else {
                    n as int
                },
                data@.len() == k - offset as usize,
                forall|t: int|
                    0 <= t < data@.len() ==> pr_view_ok(
                        *self,
                        selected[offset as int + t],
                        #[trigger] data@[t],
                    ),
            decreases end - k,
        {
            let row_idx = sidx[k];
            proof {
                broadcast use vstd::seq_lib::group_to_multiset_ensures;

                assert(selected[k as int] == self.pull_requests@[row_idx as int]);
                assert(selected.contains(selected[k as int]));
                assert(filtered.to_multiset().count(selected[k as int]) > 0);
                assert(filtered.contains(selected[k as int]));
                let w = choose|w: int|
                    0 <= w < filtered.len() && filtered[w] == selected[k as int];
                self.pull_requests@.lemma_filter_pred(pred, w);
                assert(pred(self.pull_requests@[row_idx as int]));
            }
            let v = self.make_pr_view(row_idx);
            data.push(v);
            k = k + 1;
        }
        proof {
            let off = offset;
            let slice = page_slice(selected, off, per_page);
            assert(selected.len() == n);
            if off >= selected.len() {
                assert(data@.len() == 0);
                assert(slice.len() == 0);
            } else if off + per_page <= selected.len() {
                assert(slice =~= selected.subrange(off as int, off as int + per_page as int));
                assert forall|t: int| 0 <= t < data@.len() implies pr_view_ok(
                    *self,
                    slice[t],
                    #[trigger] data@[t],
                ) by {
                    assert(slice[t] == selected[off as int + t]);
                }
            } else {
                assert(slice =~= selected.subrange(off as int, selected.len() as int));
                assert forall|t: int| 0 <= t < data@.len() implies pr_view_ok(
                    *self,
                    slice[t],
                    #[trigger] data@[t],
                ) by {
                    assert(slice[t] == selected[off as int + t]);
                }
            }
            assert forall|t1: int, t2: int|
                0 <= t1 < t2 < data@.len() implies (#[trigger] data@[t1]).created_at > (
            #[trigger] data@[t2]).created_at || (data@[t1].created_at == data@[t2].created_at
                && data@[t1].id >= data@[t2].id) by {
                assert(pr_view_ok(*self, selected[off as int + t1], data@[t1]));
                assert(pr_view_ok(*self, selected[off as int + t2], data@[t2]));
                assert(off as int + t2 < n as int);
                assert(pr_key_ge(selected[off as int + t1], selected[off as int + t2]));
            }
        }
        Ok(
            PaginatedResponse {
                data,
                pagination: PaginationInfo { page, per_page, total, total_pages },
            },
        )
    }
    /// The filtered workflow runs, newest first, one page at a time.  The page's
    /// rows view the matching rows in reverse insertion order; the
    /// pagination block reports the requested page, the page size, the
    /// total of matching rows and the page count, with a page size of zero
    /// or an unrepresentable offset yielding an empty page, as the caller
    /// asked for it.
    pub fn get_workflows(
        &self,
        filters: &Option<WorkflowFilters>,
        pagination: &Option<PaginationParams>,
    ) -> (r: Result<PaginatedResponse<WorkflowRun>, SyncError>)
        ensures
            match r {
                Ok(resp) => ({
                    let matching = self.workflows@.filter(workflow_pred(*self, *filters));
                    let page = spec_page_of(*pagination);
                    let per_page = spec_per_page_of(*pagination);
                    &&& resp.pagination.page == page
                    &&& resp.pagination.per_page == per_page
                    &&& resp.pagination.total == spec_total_of(matching.len())
                    &&& (per_page == 0 ==> resp.data@.len() == 0 && resp.pagination.total_pages
                        == 0)
                    &&& (per_page > 0 ==> resp.pagination.total_pages == spec_total_pages(
                        resp.pagination.total,
                        per_page,
                    ))
                    &&& (per_page > 0 ==> match spec_offset(page, per_page) {
                        Some(off) => exists|full: Seq<WorkflowRow>|
                            {
                                &&& #[trigger] workflows_sorted_desc(full)
                                &&& full.to_multiset() == matching.to_multiset()
                                &&& workflow_views_ok(
                                    *self,
                                    page_slice(full, off, per_page),
                                    resp.data@,
                                )
                            },
                        None => resp.data@.len() == 0,
                    })
                    &&& workflow_page_sorted_desc(resp.data@)
                }),
                Err(_) => false,
            },
    {
        let ghost pred = workflow_pred(*self, *filters);
        let ghost filtered = self.workflows@.filter(pred);

        // Gather the indices of the matching rows, in insertion order.
        let mut idxs: Vec<usize> = Vec::new();
        let mut i: usize = 0;
        while i < self.workflows.len()
            invariant
                pred == workflow_pred(*self, *filters),
                i <= self.workflows@.len(),
                idxs@.len() == self.workflows@.subrange(0, i as int).filter(pred).len(),
                forall|k: int|
                    0 <= k < idxs@.len() ==> (#[trigger] idxs@[k]) < i && self.workflows@[
                        idxs@[k] as int
                    ] == self.workflows@.subrange(0, i as int).filter(pred)[k],
            decreases self.workflows@.len() - i,
        {
            proof {
                assert(self.workflows@.subrange(0, i + 1) =~= self.workflows@.subrange(0, i as int).push(
                    self.workflows@[i as int],
                ));
                lemma_filter_push(self.workflows@.subrange(0, i as int), self.workflows@[i as int], pred);
            }
            if self.workflow_matches_exec(filters, i) {
                idxs.push(i);
            }
            i = i + 1;
        }
        proof {
            assert(self.workflows@.subrange(0, self.workflows@.len() as int) =~= self.workflows@);
        }

        // Pagination arithmetic, on the clamped total.
        let total_usize = idxs.len();
        let total: u32 = if total_usize > (u32::MAX as usize) {
            u32::MAX
        } else {
            total_usize as u32
        };
        let (page, per_page) = match pagination {
            Some(p) => (p.page, p.per_page),
            None => (1u32, 20u32),
        };
        if per_page == 0 {
            return Ok(
                PaginatedResponse {
                    data: Vec::new(),
                    pagination: PaginationInfo { page, per_page, total, total_pages: 0 },
                },
            );
        }
        let total_pages: u32 = if total > u32::MAX - per_page {
            1
        } else {
            (total + per_page - 1) / per_page
        };
        let offset_opt: Option<u32> = match page.checked_sub(1) {
            Some(pm) => pm.checked_mul(per_page),
            None => None,
        };
        let offset: u32 = match offset_opt {
            Some(o) => o,
            None => {
                return Ok(
                    PaginatedResponse {
                        data: Vec::new(),
                        pagination: PaginationInfo { page, per_page, total, total_pages },
                    },
                );
            },
        };
        // Order the matching rows for reporting: newest first, ties by
        // identifier.
        let mut sidx: Vec<usize> = Vec::new();
        let ghost mut selected: Seq<WorkflowRow> = Seq::empty();
        proof {
            assert(selected =~= filtered.subrange(0, 0));
        }
        let mut t: usize = 0;
        while t < idxs.len()
            invariant
                pred == workflow_pred(*self, *filters),
                filtered == self.workflows@.filter(pred),
                t <= idxs@.len(),
                idxs@.len() == filtered.len(),
                forall|q: int|
                    0 <= q < idxs@.len() ==> (#[trigger] idxs@[q]) < self.workflows@.len()
                        && self.workflows@[idxs@[q] as int] == filtered[q],
                sidx@.len() == t,
                selected.len() == t,
                forall|q: int| 0 <= q < t ==> (#[trigger] sidx@[q]) < self.workflows@.len(),
                forall|q: int|
                    0 <= q < t ==> #[trigger] selected[q] == self.workflows@[sidx@[q] as int],
                selected.to_multiset() == filtered.subrange(0, t as int).to_multiset(),
                workflows_sorted_desc(selected),
            decreases idxs@.len() - t,
        {
            let idx = idxs[t];
            let mut j: usize = 0;
            while j < sidx.len() && (self.workflows[sidx[j]].created_at > self.workflows[idx].created_at
                || (self.workflows[sidx[j]].created_at == self.workflows[idx].created_at
                    && self.workflows[sidx[j]].id >= self.workflows[idx].id))
                invariant
                    idx < self.workflows@.len(),
                    j <= sidx@.len(),
                    sidx@.len() == selected.len(),
                    forall|q: int| 0 <= q < sidx@.len() ==> (#[trigger] sidx@[q])
                        < self.workflows@.len(),
                    forall|q: int|
                        0 <= q < sidx@.len() ==> #[trigger] selected[q] == self.workflows@[
                            sidx@[q] as int
                        ],
                    forall|q: int|
                        0 <= q < j ==> workflow_key_ge(
                            #[trigger] selected[q],
                            self.workflows@[idx as int],
                        ),
                decreases sidx@.len() - j,
            {
                j = j + 1;
            }
            let ghost prev = selected;
            let ghost prev_sidx = sidx@;
            sidx.insert(j, idx);
            proof {
                broadcast use vstd::seq_lib::group_to_multiset_ensures;

                let row = self.workflows@[idx as int];
                selected = prev.insert(j as int, row);
                prev.insert_ensures(j as int, row);
                prev_sidx.insert_ensures(j as int, idx);
                assert(sidx@ == prev_sidx.insert(j as int, idx));
                assert(selected.to_multiset() == prev.to_multiset().insert(row));
                assert(row == filtered[t as int]);
                assert(filtered.subrange(0, t + 1) =~= filtered.subrange(0, t as int).push(
                    filtered[t as int],
                ));
                assert forall|q: int|
                    0 <= q < selected.len() implies #[trigger] selected[q] == self.workflows@[
                    sidx@[q] as int
                ] by {
                    if q < j {
                        assert(selected[q] == prev[q] && sidx@[q] == prev_sidx[q]);
                    } else if q > j {
                        assert(selected[q] == prev[q - 1] && sidx@[q] == prev_sidx[q - 1]);
                    }
                }
                assert forall|q: int|
                    0 <= q < sidx@.len() implies (#[trigger] sidx@[q]) < self.workflows@.len() by {
                    if q < j {
                        assert(sidx@[q] == prev_sidx[q]);
                    } else if q > j {
                        assert(sidx@[q] == prev_sidx[q - 1]);
                    }
                }
                if (j as int) < prev.len() {
                    assert(workflow_key_ge(row, prev[j as int]));
                }
                assert forall|a: int, b: int|
                    0 <= a < b < selected.len() implies workflow_key_ge(
                    selected[a],
                    selected[b],
                ) by {
                    if b < j {
                        assert(selected[a] == prev[a] && selected[b] == prev[b]);
                    } else if b == j {
                        assert(selected[a] == prev[a]);
                        assert(workflow_key_ge(prev[a], row));
                    } else {
                        assert(selected[b] == prev[b - 1]);
                        if a < j {
                            assert(selected[a] == prev[a]);
                            if j < prev.len() {
                                assert(workflow_key_ge(prev[a], prev[b - 1]));
                            }
                        } else if a == j {
                            assert(workflow_key_ge(row, prev[j as int]));
                            assert(workflow_key_ge(prev[j as int], prev[b - 1]) || j as int == b
                                - 1);
                        } else {
                            assert(selected[a] == prev[a - 1]);
                            assert(workflow_key_ge(prev[a - 1], prev[b - 1]));
                        }
                    }
                }
            }
            t = t + 1;
        }
        proof {
            assert(filtered.subrange(0, filtered.len() as int) =~= filtered);
        }

        // Build the requested window, newest rows first.
        let mut data: Vec<WorkflowRun> = Vec::new();
        let n = idxs.len();
        let mut k: usize = offset as usize;
        let end: usize = if (offset as usize) >= n {
            offset as usize
        } else if n - (offset as usize) > (per_page as usize) {
            (offset as usize) + (per_page as usize)
        } else {
            n
        };
        while k < end
            invariant
                pred == workflow_pred(*self, *filters),
                filtered == self.workflows@.filter(pred),
                n == idxs@.len(),
                n == filtered.len(),
                sidx@.len() == n,
                selected.len() == n,
                forall|q: int| 0 <= q < n ==> (#[trigger] sidx@[q]) < self.workflows@.len(),
                forall|q: int|
                    0 <= q < n ==> #[trigger] selected[q] == self.workflows@[sidx@[q] as int],
                selected.to_multiset() == filtered.to_multiset(),
                workflows_sorted_desc(selected),
                offset as usize <= k <= end,
                end <= n || end == offset as usize,
                end as int == if offset as int >= n as int {
                    offset as int
                } else if offset as int + per_page as int <= n as int {
                    offset as int + per_page as int
                } else {
                    n as int
                },
                data@.len() == k - offset as usize,
                forall|t: int|
                    0 <= t < data@.len() ==> workflow_view_ok(
                        *self,
                        selected[offset as int + t],
                        #[trigger] data@[t],
                    ),
            decreases end - k,
        {
            let row_idx = sidx[k];
            proof {
                broadcast use vstd::seq_lib::group_to_multiset_ensures;

                assert(selected[k as int] == self.workflows@[row_idx as int]);
                assert(selected.contains(selected[k as int]));
                assert(filtered.to_multiset().count(selected[k as int]) > 0);
                assert(filtered.contains(selected[k as int]));
                let w = choose|w: int|
                    0 <= w < filtered.len() && filtered[w] == selected[k as int];
                self.workflows@.lemma_filter_pred(pred, w);
                assert(pred(self.workflows@[row_idx as int]));
            }
            let v = self.make_workflow_view(row_idx);
            data.push(v);
            k = k + 1;
        }
        proof {
            let off = offset;
            let slice = page_slice(selected, off, per_page);
            assert(selected.len() == n);
            if off >= selected.len() {
                assert(data@.len() == 0);
                assert(slice.len() == 0);
            } else if off + per_page <= selected.len() {
                assert(slice =~= selected.subrange(off as int, off as int + per_page as int));
                assert forall|t: int| 0 <= t < data@.len() implies workflow_view_ok(
                    *self,
                    slice[t],
                    #[trigger] data@[t],
                ) by {
                    assert(slice[t] == selected[off as int + t]);
                }
            } else {
                assert(slice =~= selected.subrange(off as int, selected.len() as int));
                assert forall|t: int| 0 <= t < data@.len() implies workflow_view_ok(
                    *self,
                    slice[t],
                    #[trigger] data@[t],
                ) by {
                    assert(slice[t] == selected[off as int + t]);
                }
            }
            assert forall|t1: int, t2: int|
                0 <= t1 < t2 < data@.len() implies (#[trigger] data@[t1]).created_at > (
            #[trigger] data@[t2]).created_at || (data@[t1].created_at == data@[t2].created_at
                && data@[t1].id >= data@[t2].id) by {
                assert(workflow_view_ok(*self, selected[off as int + t1], data@[t1]));
                assert(workflow_view_ok(*self, selected[off as int + t2], data@[t2]));
                assert(off as int + t2 < n as int);
                assert(workflow_key_ge(selected[off as int + t1], selected[off as int + t2]));
            }
        }
        Ok(
            PaginatedResponse {
                data,
                pagination: PaginationInfo { page, per_page, total, total_pages },
            },
        )
    }
    fn find_issue_by_id(&self, id: i64) -> (r: Option<usize>)
        ensures
            match r {
                Some(i) => first_where(self.issues@, by_issue_row_id(id), 0) == Some(i as int),
                None => first_where(self.issues@, by_issue_row_id(id), 0) is None,
            },
    {
        let ghost p = by_issue_row_id(id);
        let mut i: usize = 0;
        while i < self.issues.len()
            invariant
                p == by_issue_row_id(id),
                i <= self.issues@.len(),
                first_where(self.issues@, p, 0) == first_where(self.issues@, p, i as int),
            decreases self.issues@.len() - i,
        {
            if self.issues[i].id == id {
                proof {
                    assert(p(self.issues@[i as int]));
                    assert(first_where(self.issues@, p, i as int) == Some(i as int));
                }
                return Some(i);
            }
            proof {
                assert(!p(self.issues@[i as int]));
                assert(first_where(self.issues@, p, i as int) == first_where(
                    self.issues@,
                    p,
                    i as int + 1,
                ));
            }
            i = i + 1;
        }
        proof {
            assert(first_where(self.issues@, p, i as int) is None);
        }
        None
    }

    fn find_pr_by_id(&self, id: i64) -> (r: Option<usize>)
        ensures
            match r {
                Some(i) => first_where(self.pull_requests@, by_pr_row_id(id), 0) == Some(i as int),
                None => first_where(self.pull_requests@, by_pr_row_id(id), 0) is None,
            },
    {
        let ghost p = by_pr_row_id(id);
        let mut i: usize = 0;
        while i < self.pull_requests.len()
            invariant
                p == by_pr_row_id(id),
                i <= self.pull_requests@.len(),
                first_where(self.pull_requests@, p, 0) == first_where(
                    self.pull_requests@,
                    p,
                    i as int,
                ),
            decreases self.pull_requests@.len() - i,
        {
            if self.pull_requests[i].id == id {
                proof {
                    assert(p(self.pull_requests@[i as int]));
                    assert(first_where(self.pull_requests@, p, i as int) == Some(i as int));
                }
                return Some(i);
            }
            proof {
                assert(!p(self.pull_requests@[i as int]));
                assert(first_where(self.pull_requests@, p, i as int) == first_where(
                    self.pull_requests@,
                    p,
                    i as int + 1,
                ));
            }
            i = i + 1;
        }
        proof {
            assert(first_where(self.pull_requests@, p, i as int) is None);
        }
        None
    }

    fn find_workflow_by_id(&self, id: i64) -> (r: Option<usize>)
        ensures
            match r {
                Some(i) => first_where(self.workflows@, by_workflow_row_id(id), 0) == Some(
                    i as int,
                ),
                None => first_where(self.workflows@, by_workflow_row_id(id), 0) is None,
            },
    {
        let ghost p = by_workflow_row_id(id);
        let mut i: usize = 0;
        while i < self.workflows.len()
            invariant
                p == by_workflow_row_id(id),
                i <= self.workflows@.len(),
                first_where(self.workflows@, p, 0) == first_where(self.workflows@, p, i as int),
            decreases self.workflows@.len() - i,
        {
            if self.workflows[i].id == id {
                proof {
                    assert(p(self.workflows@[i as int]));
                    assert(first_where(self.workflows@, p, i as int) == Some(i as int));
                }
                return Some(i);
            }
            proof {
                assert(!p(self.workflows@[i as int]));
                assert(first_where(self.workflows@, p, i as int) == first_where(
                    self.workflows@,
                    p,
                    i as int + 1,
                ));
            }
            i = i + 1;
        }
        proof {
            assert(first_where(self.workflows@, p, i as int) is None);
        }
        None
    }

    /// One issue by its local identifier, joined like a page row; a
    /// missing row, or one whose repository or provider is gone, is not
    /// found.
    pub fn get_issue(&self, issue_id: i64) -> (r: Result<Issue, SyncError>)
        ensures
            ({
                let f = first_where(self.issues@, by_issue_row_id(issue_id), 0);
                match r {
                    Ok(v) => f is Some && issue_joinable(*self, self.issues@[f->0])
                        && issue_view_ok(*self, self.issues@[f->0], v),
                    Err(e) => e == SyncError::NotFound && (f is None || !issue_joinable(
                        *self,
                        self.issues@[f->0],
                    )),
                }
            }),
    {
        let i = match self.find_issue_by_id(issue_id) {
            Some(i) => i,
            None => {
                return Err(SyncError::NotFound);
            },
        };
        proof {
            lemma_first_where_props(self.issues@, by_issue_row_id(issue_id), 0);
        }
        let row_rid = self.issues[i].repository_id;
        let joinable = match self.find_repository(row_rid) {
            Some(k) => {
                proof {
                    lemma_first_where_props(self.repositories@, by_repository_id(row_rid), 0);
                }
                self.find_provider(self.repositories[k].provider_id).is_some()
            },
            None => false,
        };
        if joinable {
            Ok(self.make_issue_view(i))
        } else {
            Err(SyncError::NotFound)
        }
    }

    /// One pull request by its local identifier.
    pub fn get_pull_request(&self, pr_id: i64) -> (r: Result<PullRequest, SyncError>)
        ensures
            ({
                let f = first_where(self.pull_requests@, by_pr_row_id(pr_id), 0);
                match r {
                    Ok(v) => f is Some && pr_joinable(*self, self.pull_requests@[f->0])
                        && pr_view_ok(*self, self.pull_requests@[f->0], v),
                    Err(e) => e == SyncError::NotFound && (f is None || !pr_joinable(
                        *self,
                        self.pull_requests@[f->0],
                    )),
                }
            }),
    {
        let i = match self.find_pr_by_id(pr_id) {
            Some(i) => i,
            None => {
                return Err(SyncError::NotFound);
            },
        };
        proof {
            lemma_first_where_props(self.pull_requests@, by_pr_row_id(pr_id), 0);
        }
        let row_rid = self.pull_requests[i].repository_id;
        let joinable = match self.find_repository(row_rid) {
            Some(k) => {
                proof {
                    lemma_first_where_props(self.repositories@, by_repository_id(row_rid), 0);
                }
                self.find_provider(self.repositories[k].provider_id).is_some()
            },
            None => false,
        };
        if joinable {
            Ok(self.make_pr_view(i))
        } else {
            Err(SyncError::NotFound)
        }
    }

    /// One workflow run by its local identifier.
    pub fn get_workflow(&self, workflow_id: i64) -> (r: Result<WorkflowRun, SyncError>)
        ensures
            ({
                let f = first_where(self.workflows@, by_workflow_row_id(workflow_id), 0);
                match r {
                    Ok(v) => f is Some && workflow_joinable(*self, self.workflows@[f->0])
                        && workflow_view_ok(*self, self.workflows@[f->0], v),
                    Err(e) => e == SyncError::NotFound && (f is None || !workflow_joinable(
                        *self,
                        self.workflows@[f->0],
                    )),
                }
            }),
    {
        let i = match self.find_workflow_by_id(workflow_id) {
            Some(i) => i,
            None => {
                return Err(SyncError::NotFound);
            },
        };
        proof {
            lemma_first_where_props(self.workflows@, by_workflow_row_id(workflow_id), 0);
        }
        let row_rid = self.workflows[i].repository_id;
        let joinable = match self.find_repository(row_rid) {
            Some(k) => {
                proof {
                    lemma_first_where_props(self.repositories@, by_repository_id(row_rid), 0);
                }
                self.find_provider(self.repositories[k].provider_id).is_some()
            },
            None => false,
        };
        if joinable {
            Ok(self.make_workflow_view(i))
        } else {
            Err(SyncError::NotFound)
        }
    }

    /// Aggregate issue counts over the whole mirror: every stored row, and
    /// the open and closed rows among them.  The filters play no part in
    /// these counts.
    pub fn get_issue_stats(&self, _filters: &Option<IssueFilters>) -> (r: Result<
        crate::domain::IssueStats,
        SyncError,
    >)
        ensures
            match r {
                Ok(st) => {
                    &&& st.total == spec_total_of(self.issues@.len())
                    &&& st.open == spec_total_of(
                        self.issues@.filter(
                            issue_state_is(crate::lookup::ISSUE_STATE_OPEN),
                        ).len(),
                    )
                    &&& st.closed == spec_total_of(
                        self.issues@.filter(
                            issue_state_is(crate::lookup::ISSUE_STATE_CLOSED),
                        ).len(),
                    )
                },
                Err(_) => false,
            },
    {
        let ghost p_open = issue_state_is(crate::lookup::ISSUE_STATE_OPEN);
        let ghost p_closed = issue_state_is(crate::lookup::ISSUE_STATE_CLOSED);
        let mut open_count: usize = 0;
        let mut closed_count: usize = 0;
        let mut i: usize = 0;
        while i < self.issues.len()
            invariant
                p_open == issue_state_is(crate::lookup::ISSUE_STATE_OPEN),
                p_closed == issue_state_is(crate::lookup::ISSUE_STATE_CLOSED),
                i <= self.issues@.len(),
                open_count == self.issues@.subrange(0, i as int).filter(p_open).len(),
                closed_count == self.issues@.subrange(0, i as int).filter(p_closed).len(),
            decreases self.issues@.len() - i,
        {
            proof {
                assert(self.issues@.subrange(0, i + 1) =~= self.issues@.subrange(0, i as int).push(
                    self.issues@[i as int],
                ));
                lemma_filter_push(
                    self.issues@.subrange(0, i as int),
                    self.issues@[i as int],
                    p_open,
                );
                lemma_filter_push(
                    self.issues@.subrange(0, i as int),
                    self.issues@[i as int],
                    p_closed,
                );
            }
            if self.issues[i].state_id == crate::lookup::ISSUE_STATE_OPEN {
                open_count = open_count + 1;
            } else if self.issues[i].state_id == crate::lookup::ISSUE_STATE_CLOSED {
                closed_count = closed_count + 1;
            }
            i = i + 1;
        }
        proof {
            assert(self.issues@.subrange(0, self.issues@.len() as int) =~= self.issues@);
        }
        Ok(
            crate::domain::IssueStats {
                total: clamp_u32(self.issues.len()),
                open: clamp_u32(open_count),
                closed: clamp_u32(closed_count),
            },
        )
    }

    /// Aggregate pull-request counts under the caller's provider and
    /// repository filters: every matching row, and the open, closed and
    /// merged rows among them.
    pub fn get_pull_request_stats(&self, filters: &Option<PullRequestFilters>) -> (r: Result<
        crate::domain::PullRequestStats,
        SyncError,
    >)
        ensures
            match r {
                Ok(st) => {
                    &&& st.total == spec_total_of(
                        self.pull_requests@.filter(pr_stats_pred(*self, *filters)).len(),
                    )
                    &&& st.open == spec_total_of(
                        self.pull_requests@.filter(
                            pr_stats_state_pred(*self, *filters, crate::lookup::PR_STATE_OPEN),
                        ).len(),
                    )
                    &&& st.closed == spec_total_of(
                        self.pull_requests@.filter(
                            pr_stats_state_pred(*self, *filters, crate::lookup::PR_STATE_CLOSED),
                        ).len(),
                    )
                    &&& st.merged == spec_total_of(
                        self.pull_requests@.filter(
                            pr_stats_state_pred(*self, *filters, crate::lookup::PR_STATE_MERGED),
                        ).len(),
                    )
                },
                Err(_) => false,
            },
    {
        let ghost p_all = pr_stats_pred(*self, *filters);
        let ghost p_open = pr_stats_state_pred(*self, *filters, crate::lookup::PR_STATE_OPEN);
        let ghost p_closed = pr_stats_state_pred(*self, *filters, crate::lookup::PR_STATE_CLOSED);
        let ghost p_merged = pr_stats_state_pred(*self, *filters, crate::lookup::PR_STATE_MERGED);
        let mut total_count: usize = 0;
        let mut open_count: usize = 0;
        let mut closed_count: usize = 0;
        let mut merged_count: usize = 0;
        let mut i: usize = 0;
        while i < self.pull_requests.len()
            invariant
                p_all == pr_stats_pred(*self, *filters),
                p_open == pr_stats_state_pred(*self, *filters, crate::lookup::PR_STATE_OPEN),
                p_closed == pr_stats_state_pred(*self, *filters, crate::lookup::PR_STATE_CLOSED),
                p_merged == pr_stats_state_pred(*self, *filters, crate::lookup::PR_STATE_MERGED),
                i <= self.pull_requests@.len(),
                total_count == self.pull_requests@.subrange(0, i as int).filter(p_all).len(),
                open_count == self.pull_requests@.subrange(0, i as int).filter(p_open).len(),
                closed_count == self.pull_requests@.subrange(0, i as int).filter(p_closed).len(),
                merged_count == self.pull_requests@.subrange(0, i as int).filter(p_merged).len(),
            decreases self.pull_requests@.len() - i,
        {
            proof {
                assert(self.pull_requests@.subrange(0, i + 1) =~= self.pull_requests@.subrange(
                    0,
                    i as int,
                ).push(self.pull_requests@[i as int]));
                lemma_filter_push(
                    self.pull_requests@.subrange(0, i as int),
                    self.pull_requests@[i as int],
                    p_all,
                );
                lemma_filter_push(
                    self.pull_requests@.subrange(0, i as int),
                    self.pull_requests@[i as int],
                    p_open,
                );
                lemma_filter_push(
                    self.pull_requests@.subrange(0, i as int),
                    self.pull_requests@[i as int],
                    p_closed,
                );
                lemma_filter_push(
                    self.pull_requests@.subrange(0, i as int),
                    self.pull_requests@[i as int],
                    p_merged,
                );
            }
            if self.pr_stats_matches_exec(filters, i) {
                total_count = total_count + 1;
                if self.pull_requests[i].state_id == crate::lookup::PR_STATE_OPEN {
                    open_count = open_count + 1;
                } else if self.pull_requests[i].state_id == crate::lookup::PR_STATE_CLOSED {
                    closed_count = closed_count + 1;
                } else if self.pull_requests[i].state_id == crate::lookup::PR_STATE_MERGED {
                    merged_count = merged_count + 1;
                }
            }
            i = i + 1;
        }
        proof {
            assert(self.pull_requests@.subrange(0, self.pull_requests@.len() as int)
                =~= self.pull_requests@);
        }
        Ok(
            crate::domain::PullRequestStats {
                total: clamp_u32(total_count),
                open: clamp_u32(open_count),
                closed: clamp_u32(closed_count),
                merged: clamp_u32(merged_count),
            },
        )
    }

    /// Checks one pull-request row against the statistics filter.
    fn pr_stats_matches_exec(&self, f: &Option<PullRequestFilters>, i: usize) -> (b: bool)
        requires
            i < self.pull_requests@.len(),
        ensures
            b == pr_stats_pred(*self, *f)(self.pull_requests@[i as int]),
    {
        let row = &self.pull_requests[i];
        let rep_idx = match self.find_repository(row.repository_id) {
            Some(k) => k,
            None => {
                return false;
            },
        };
        proof {
            lemma_first_where_props(self.repositories@, by_repository_id(row.repository_id), 0);
        }
        let prov_idx = match self.find_provider(self.repositories[rep_idx].provider_id) {
            Some(k) => k,
            None => {
                return false;
            },
        };
        proof {
            lemma_first_where_props(
                self.providers@,
                by_provider_id(self.repositories@[rep_idx as int].provider_id),
                0,
            );
        }
        let provider_ok = match f {
            Some(ff) => match &ff.provider {
                Some(p) => str_eq(self.providers[prov_idx].name.as_str(), p.as_str()),
                None => true,
            },
            None => true,
        };
        let repository_ok = match f {
            Some(ff) => match &ff.repository {
                Some(rn) => str_eq(self.repositories[rep_idx].name.as_str(), rn.as_str()),
                None => true,
            },
            None => true,
        };
        provider_ok && repository_ok
    }

    /// Aggregate workflow counts under the caller's provider and
    /// repository filters: every matching row, and those whose status is
    /// exactly success, failure, in-progress or cancelled.
    pub fn get_workflow_stats(&self, filters: &Option<WorkflowFilters>) -> (r: Result<
        crate::domain::WorkflowStats,
        SyncError,
    >)
        ensures
            match r {
                Ok(st) => {
                    &&& st.total == spec_total_of(
                        self.workflows@.filter(workflow_stats_pred(*self, *filters)).len(),
                    )
                    &&& st.success == spec_total_of(
                        self.workflows@.filter(
                            workflow_stats_status_pred(
                                *self,
                                *filters,
                                crate::lookup::WF_STATUS_SUCCESS,
                            ),
                        ).len(),
                    )
                    &&& st.failure == spec_total_of(
                        self.workflows@.filter(
                            workflow_stats_status_pred(
                                *self,
                                *filters,
                                crate::lookup::WF_STATUS_FAILURE,
                            ),
                        ).len(),
                    )
                    &&& st.in_progress == spec_total_of(
                        self.workflows@.filter(
                            workflow_stats_status_pred(*self, *filters, WF_STATUS_IN_PROGRESS),
                        ).len(),
                    )
                    &&& st.cancelled == spec_total_of(
                        self.workflows@.filter(
                            workflow_stats_status_pred(*self, *filters, WF_STATUS_CANCELLED),
                        ).len(),
                    )
                },
                Err(_) => false,
            },
    {
        let ghost p_all = workflow_stats_pred(*self, *filters);
        let ghost p_s = workflow_stats_status_pred(
            *self,
            *filters,
            crate::lookup::WF_STATUS_SUCCESS,
        );
        let ghost p_f = workflow_stats_status_pred(
            *self,
            *filters,
            crate::lookup::WF_STATUS_FAILURE,
        );
        let ghost p_i = workflow_stats_status_pred(*self, *filters, WF_STATUS_IN_PROGRESS);
        let ghost p_c = workflow_stats_status_pred(*self, *filters, WF_STATUS_CANCELLED);
        let mut total_count: usize = 0;
        let mut success_count: usize = 0;
        let mut failure_count: usize = 0;
        let mut in_progress_count: usize = 0;
        let mut cancelled_count: usize = 0;
        let mut i: usize = 0;
        while i < self.workflows.len()
            invariant
                p_all == workflow_stats_pred(*self, *filters),
                p_s == workflow_stats_status_pred(
                    *self,
                    *filters,
                    crate::lookup::WF_STATUS_SUCCESS,
                ),
                p_f == workflow_stats_status_pred(
                    *self,
                    *filters,
                    crate::lookup::WF_STATUS_FAILURE,
                ),
                p_i == workflow_stats_status_pred(*self, *filters, WF_STATUS_IN_PROGRESS),
                p_c == workflow_stats_status_pred(*self, *filters, WF_STATUS_CANCELLED),
                i <= self.workflows@.len(),
                total_count == self.workflows@.subrange(0, i as int).filter(p_all).len(),
                success_count == self.workflows@.subrange(0, i as int).filter(p_s).len(),
                failure_count == self.workflows@.subrange(0, i as int).filter(p_f).len(),
                in_progress_count == self.workflows@.subrange(0, i as int).filter(p_i).len(),
                cancelled_count == self.workflows@.subrange(0, i as int).filter(p_c).len(),
            decreases self.workflows@.len() - i,
        {
            proof {
                assert(self.workflows@.subrange(0, i + 1) =~= self.workflows@.subrange(
                    0,
                    i as int,
                ).push(self.workflows@[i as int]));
                lemma_filter_push(
                    self.workflows@.subrange(0, i as int),
                    self.workflows@[i as int],
                    p_all,
                );
                lemma_filter_push(
                    self.workflows@.subrange(0, i as int),
                    self.workflows@[i as int],
                    p_s,
                );
                lemma_filter_push(
                    self.workflows@.subrange(0, i as int),
                    self.workflows@[i as int],
                    p_f,
                );
                lemma_filter_push(
                    self.workflows@.subrange(0, i as int),
                    self.workflows@[i as int],
                    p_i,
                );
                lemma_filter_push(
                    self.workflows@.subrange(0, i as int),
                    self.workflows@[i as int],
                    p_c,
                );
            }
            if self.workflow_stats_matches_exec(filters, i) {
                total_count = total_count + 1;
                if self.workflows[i].status_id == crate::lookup::WF_STATUS_SUCCESS {
                    success_count = success_count + 1;
                } else if self.workflows[i].status_id == crate::lookup::WF_STATUS_FAILURE {
                    failure_count = failure_count + 1;
                } else if self.workflows[i].status_id == WF_STATUS_IN_PROGRESS {
                    in_progress_count = in_progress_count + 1;
                } else if self.workflows[i].status_id == WF_STATUS_CANCELLED {
                    cancelled_count = cancelled_count + 1;
                }
            }
            i = i + 1;
        }
        proof {
            assert(self.workflows@.subrange(0, self.workflows@.len() as int) =~= self.workflows@);
        }
        Ok(
            crate::domain::WorkflowStats {
                total: clamp_u32(total_count),
                success: clamp_u32(success_count),
                failure: clamp_u32(failure_count),
                in_progress: clamp_u32(in_progress_count),
                cancelled: clamp_u32(cancelled_count),
            },
        )
    }

    /// Checks one workflow row against the statistics filter.
    fn workflow_stats_matches_exec(&self, f: &Option<WorkflowFilters>, i: usize) -> (b: bool)
        requires
            i < self.workflows@.len(),
        ensures
            b == workflow_stats_pred(*self, *f)(self.workflows@[i as int]),
    {
        let row = &self.workflows[i];
        let rep_idx = match self.find_repository(row.repository_id) {
            Some(k) => k,
            None => {
                return false;
            },
        };
        proof {
            lemma_first_where_props(self.repositories@, by_repository_id(row.repository_id), 0);
        }
        let prov_idx = match self.find_provider(self.repositories[rep_idx].provider_id) {
            Some(k) => k,
            None => {
                return false;
            },
        };
        proof {
            lemma_first_where_props(
                self.providers@,
                by_provider_id(self.repositories@[rep_idx as int].provider_id),
                0,
            );
        }
        let provider_ok = match f {
            Some(ff) => match &ff.provider {
                Some(p) => str_eq(self.providers[prov_idx].name.as_str(), p.as_str()),
                None => true,
            },
            None => true,
        };
        let repository_ok = match f {
            Some(ff) => match &ff.repository {
                Some(rn) => str_eq(self.repositories[rep_idx].name.as_str(), rn.as_str()),
                None => true,
            },
            None => true,
        };
        provider_ok && repository_ok
    }
}

} // verus!
