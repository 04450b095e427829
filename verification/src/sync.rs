//! The sync coordinator's verified core: the single-flight latch, the
//! per-resource application of fetched records with success-only cursor
//! advancement, campaign sessions, and the history log.
//!
//! The coordinator cannot make HTTP calls itself; a driver performs them
//! and hands the outcome of each fetch in as a value.  Everything the
//! engine decides from those outcomes is verified here.

use vstd::prelude::*;
use vstd::string::StringExecFns;
use crate::domain::{
    Repository, GitProvider, SyncError, SyncOutcome, ResourceKind, ScopeKind, HistoryStatus,
    SyncHistory,
};
use crate::records::{IssueRecord, PullRequestRecord, WorkflowRecord};
use crate::domain::{IssueRow, PullRequestRow, WorkflowRow};
use crate::reconcile::{
    IssueRecordView, PullRequestRecordView, WorkflowRecordView, issue_upsert_outcome,
    pr_upsert_outcome, workflow_upsert_outcome, issue_row_merged, issue_row_refreshed,
    pr_row_merged, pr_row_refreshed, workflow_row_merged, workflow_row_refreshed,
};
use crate::sequtil::lemma_first_where_props;
use crate::store::{Database, by_repository_id};
use crate::query::spec_total_of;

verus! {

/// A repository after one resource sync attempt: on success the resource's
/// cursor advances to `now` and its status becomes success; on failure
/// only the status moves, the cursor stays where it was so that the next
/// attempt retries the same window.
pub open spec fn repo_marked(src: Repository, kind: ResourceKind, success: bool, now: i64) -> Repository {
    match kind {
        ResourceKind::Issues => if success {
            Repository {
                last_issues_sync_success: Some(now),
                last_issues_sync_status: Some(SyncOutcome::Success),
                updated_at: now,
                ..src
            }
        } else {
            Repository {
                last_issues_sync_status: Some(SyncOutcome::Failure),
                updated_at: now,
                ..src
            }
        },
        ResourceKind::PullRequests => if success {
            Repository {
                last_pull_requests_sync_success: Some(now),
                last_pull_requests_sync_status: Some(SyncOutcome::Success),
                updated_at: now,
                ..src
            }
        } else {
            Repository {
                last_pull_requests_sync_status: Some(SyncOutcome::Failure),
                updated_at: now,
                ..src
            }
        },
        ResourceKind::WorkflowRuns => if success {
            Repository {
                last_workflows_sync_success: Some(now),
                last_workflows_sync_status: Some(SyncOutcome::Success),
                updated_at: now,
                ..src
            }
        } else {
            Repository {
                last_workflows_sync_status: Some(SyncOutcome::Failure),
                updated_at: now,
                ..src
            }
        },
    }
}

/// The spec-level content of a fetched issue batch.
pub open spec fn issue_views(s: Seq<IssueRecord>) -> Seq<IssueRecordView> {
    s.map(|_i: int, r: IssueRecord| r@)
}

/// The spec-level content of a fetched pull-request batch.
pub open spec fn pr_views(s: Seq<PullRequestRecord>) -> Seq<PullRequestRecordView> {
    s.map(|_i: int, r: PullRequestRecord| r@)
}

/// The spec-level content of a fetched workflow batch.
pub open spec fn workflow_views(s: Seq<WorkflowRecord>) -> Seq<WorkflowRecordView> {
    s.map(|_i: int, r: WorkflowRecord| r@)
}


/// The spec-level content of an issue fetch outcome.
pub open spec fn issue_fetch_views(f: Result<Vec<IssueRecord>, SyncError>) -> Result<
    Seq<IssueRecordView>,
    SyncError,
> {
    match f {
        Ok(v) => Ok(issue_views(v@)),
        Err(e) => Err(e),
    }
}

/// The spec-level content of a pull-request fetch outcome.
pub open spec fn pr_fetch_views(f: Result<Vec<PullRequestRecord>, SyncError>) -> Result<
    Seq<PullRequestRecordView>,
    SyncError,
> {
    match f {
        Ok(v) => Ok(pr_views(v@)),
        Err(e) => Err(e),
    }
}

/// The spec-level content of a workflow fetch outcome.
pub open spec fn workflow_fetch_views(f: Result<Vec<WorkflowRecord>, SyncError>) -> Result<
    Seq<WorkflowRecordView>,
    SyncError,
> {
    match f {
        Ok(v) => Ok(workflow_views(v@)),
        Err(e) => Err(e),
    }
}

/// A chain of store states linked by successful issue upserts, one per
/// record.
pub open spec fn issues_chain(
    states: Seq<Database>,
    recs: Seq<IssueRecordView>,
    repository_id: i64,
    now: i64,
) -> bool {
    &&& states.len() == recs.len() + 1
    &&& forall|i: int|
        0 <= i < recs.len() ==> #[trigger] issue_upsert_outcome(
            states[i],
            states[i + 1],
            recs[i],
            repository_id,
            now,
            Ok(()),
        )
}

/// The store after upserting a batch of issues one by one, in order: some
/// chain of intermediate states leads from `pre` to `post`.
pub open spec fn issues_applied(
    pre: Database,
    post: Database,
    recs: Seq<IssueRecordView>,
    repository_id: i64,
    now: i64,
) -> bool {
    exists|states: Seq<Database>|
        {
            &&& #[trigger] issues_chain(states, recs, repository_id, now)
            &&& states.first() == pre
            &&& states.last() == post
        }
}

/// A chain of store states linked by successful pull-request upserts.
pub open spec fn prs_chain(
    states: Seq<Database>,
    recs: Seq<PullRequestRecordView>,
    repository_id: i64,
    now: i64,
) -> bool {
    &&& states.len() == recs.len() + 1
    &&& forall|i: int|
        0 <= i < recs.len() ==> #[trigger] pr_upsert_outcome(
            states[i],
            states[i + 1],
            recs[i],
            repository_id,
            now,
            Ok(()),
        )
}

/// The store after upserting a batch of pull requests one by one.
pub open spec fn prs_applied(
    pre: Database,
    post: Database,
    recs: Seq<PullRequestRecordView>,
    repository_id: i64,
    now: i64,
) -> bool {
    exists|states: Seq<Database>|
        {
            &&& #[trigger] prs_chain(states, recs, repository_id, now)
            &&& states.first() == pre
            &&& states.last() == post
        }
}

/// A chain of store states linked by successful workflow upserts.
pub open spec fn workflows_chain(
    states: Seq<Database>,
    recs: Seq<WorkflowRecordView>,
    repository_id: i64,
    now: i64,
) -> bool {
    &&& states.len() == recs.len() + 1
    &&& forall|i: int|
        0 <= i < recs.len() ==> #[trigger] workflow_upsert_outcome(
            states[i],
            states[i + 1],
            recs[i],
            repository_id,
            now,
            Ok(()),
        )
}

/// The store after upserting a batch of workflow runs one by one.
pub open spec fn workflows_applied(
    pre: Database,
    post: Database,
    recs: Seq<WorkflowRecordView>,
    repository_id: i64,
    now: i64,
) -> bool {
    exists|states: Seq<Database>|
        {
            &&& #[trigger] workflows_chain(states, recs, repository_id, now)
            &&& states.first() == pre
            &&& states.last() == post
        }
}


/// Whether every record of an issue batch carries a resolvable state code.
pub open spec fn all_issue_states_resolvable(recs: Seq<IssueRecordView>) -> bool {
    forall|t: int|
        0 <= t < recs.len() ==> crate::lookup::spec_issue_state_id(
            (#[trigger] recs[t]).state,
        ) is Some
}

/// Whether every record of a pull-request batch carries a resolvable state
/// code.
pub open spec fn all_pr_states_resolvable(recs: Seq<PullRequestRecordView>) -> bool {
    forall|t: int|
        0 <= t < recs.len() ==> crate::lookup::spec_pr_state_id((#[trigger] recs[t]).state) is Some
}

/// The full effect of syncing one repository's issues from a fetch
/// outcome.  Success advances the issues cursor to `now` and records a
/// success status; every failure records a failure status and leaves the
/// cursor untouched.  A transport failure changes no mirrored row, and a
/// fetched batch can fail only over an unresolvable state code or an
/// exhausted identifier space — so a well-formed batch is owed success.
pub open spec fn issues_sync_outcome(
    pre: Database,
    post: Database,
    fetched: Result<Seq<IssueRecordView>, SyncError>,
    repository_id: i64,
    now: i64,
    r: Result<u32, SyncError>,
) -> bool {
    match pre.spec_find_repository(repository_id) {
        None => post == pre && r == Err::<u32, SyncError>(SyncError::NotFound),
        Some(k) => {
            &&& post == (Database {
                issues: post.issues,
                next_issue_id: post.next_issue_id,
                repositories: post.repositories,
                ..pre
            })
            &&& post.repositories@.len() == pre.repositories@.len()
            &&& forall|i: int|
                0 <= i < pre.repositories@.len() && i != k ==> post.repositories@[i]
                    == pre.repositories@[i]
            &&& match r {
                Ok(n) => {
                    &&& fetched is Ok
                    &&& n == spec_total_of(fetched->Ok_0.len())
                    &&& post.repositories@[k] == repo_marked(
                        pre.repositories@[k],
                        ResourceKind::Issues,
                        true,
                        now,
                    )
                    &&& exists|mid: Database|
                        {
                            &&& #[trigger] issues_applied(
                                pre,
                                mid,
                                fetched->Ok_0,
                                repository_id,
                                now,
                            )
                            &&& post.issues == mid.issues
                            &&& post.next_issue_id == mid.next_issue_id
                        }
                },
                Err(e) => {
                    &&& post.repositories@[k] == repo_marked(
                        pre.repositories@[k],
                        ResourceKind::Issues,
                        false,
                        now,
                    )
                    &&& post.repositories@[k].spec_cursor(ResourceKind::Issues)
                        == pre.repositories@[k].spec_cursor(ResourceKind::Issues)
                    &&& match fetched {
                        Err(fe) => e == fe && post.issues == pre.issues && post.next_issue_id
                            == pre.next_issue_id,
                        Ok(recs) => e == SyncError::Persistence && (!all_issue_states_resolvable(
                            recs,
                        ) || pre.next_issue_id > i64::MAX - recs.len()),
                    }
                },
            }
        },
    }
}

/// The full effect of syncing one repository's pull requests.
pub open spec fn prs_sync_outcome(
    pre: Database,
    post: Database,
    fetched: Result<Seq<PullRequestRecordView>, SyncError>,
    repository_id: i64,
    now: i64,
    r: Result<u32, SyncError>,
) -> bool {
    match pre.spec_find_repository(repository_id) {
        None => post == pre && r == Err::<u32, SyncError>(SyncError::NotFound),
        Some(k) => {
            &&& post == (Database {
                pull_requests: post.pull_requests,
                next_pull_request_id: post.next_pull_request_id,
                repositories: post.repositories,
                ..pre
            })
            &&& post.repositories@.len() == pre.repositories@.len()
            &&& forall|i: int|
                0 <= i < pre.repositories@.len() && i != k ==> post.repositories@[i]
                    == pre.repositories@[i]
            &&& match r {
                Ok(n) => {
                    &&& fetched is Ok
                    &&& n == spec_total_of(fetched->Ok_0.len())
                    &&& post.repositories@[k] == repo_marked(
                        pre.repositories@[k],
                        ResourceKind::PullRequests,
                        true,
                        now,
                    )
                    &&& exists|mid: Database|
                        {
                            &&& #[trigger] prs_applied(pre, mid, fetched->Ok_0, repository_id, now)
                            &&& post.pull_requests == mid.pull_requests
                            &&& post.next_pull_request_id == mid.next_pull_request_id
                        }
                },
                Err(e) => {
                    &&& post.repositories@[k] == repo_marked(
                        pre.repositories@[k],
                        ResourceKind::PullRequests,
                        false,
                        now,
                    )
                    &&& post.repositories@[k].spec_cursor(ResourceKind::PullRequests)
                        == pre.repositories@[k].spec_cursor(ResourceKind::PullRequests)
                    &&& match fetched {
                        Err(fe) => e == fe && post.pull_requests == pre.pull_requests
                            && post.next_pull_request_id == pre.next_pull_request_id,
                        Ok(recs) => e == SyncError::Persistence && (!all_pr_states_resolvable(
                            recs,
                        ) || pre.next_pull_request_id > i64::MAX - recs.len()),
                    }
                },
            }
        },
    }
}

/// The full effect of syncing one repository's workflow runs.
pub open spec fn workflows_sync_outcome(
    pre: Database,
    post: Database,
    fetched: Result<Seq<WorkflowRecordView>, SyncError>,
    repository_id: i64,
    now: i64,
    r: Result<u32, SyncError>,
) -> bool {
    match pre.spec_find_repository(repository_id) {
        None => post == pre && r == Err::<u32, SyncError>(SyncError::NotFound),
        Some(k) => {
            &&& post == (Database {
                workflows: post.workflows,
                next_workflow_id: post.next_workflow_id,
                repositories: post.repositories,
                ..pre
            })
            &&& post.repositories@.len() == pre.repositories@.len()
            &&& forall|i: int|
                0 <= i < pre.repositories@.len() && i != k ==> post.repositories@[i]
                    == pre.repositories@[i]
            &&& match r {
                Ok(n) => {
                    &&& fetched is Ok
                    &&& n == spec_total_of(fetched->Ok_0.len())
                    &&& post.repositories@[k] == repo_marked(
                        pre.repositories@[k],
                        ResourceKind::WorkflowRuns,
                        true,
                        now,
                    )
                    &&& exists|mid: Database|
                        {
                            &&& #[trigger] workflows_applied(
                                pre,
                                mid,
                                fetched->Ok_0,
                                repository_id,
                                now,
                            )
                            &&& post.workflows == mid.workflows
                            &&& post.next_workflow_id == mid.next_workflow_id
                        }
                },
                Err(e) => {
                    &&& post.repositories@[k] == repo_marked(
                        pre.repositories@[k],
                        ResourceKind::WorkflowRuns,
                        false,
                        now,
                    )
                    &&& post.repositories@[k].spec_cursor(ResourceKind::WorkflowRuns)
                        == pre.repositories@[k].spec_cursor(ResourceKind::WorkflowRuns)
                    &&& match fetched {
                        Err(fe) => e == fe && post.workflows == pre.workflows
                            && post.next_workflow_id == pre.next_workflow_id,
                        Ok(recs) => e == SyncError::Persistence && pre.next_workflow_id
                            > i64::MAX - recs.len(),
                    }
                },
            }
        },
    }
}


impl Database {
    /// Records the outcome of one resource sync on the repository at index
    /// `k`: the cursor-and-status discipline of [`repo_marked`].
    fn mark_resource_sync(&mut self, k: usize, kind: ResourceKind, success: bool, now: i64)
        requires
            old(self).wf(),
            k < old(self).repositories@.len(),
        ensures
            final(self).wf(),
            final(self).repositories@.len() == old(self).repositories@.len(),
            final(self).repositories@[k as int] == repo_marked(
                old(self).repositories@[k as int],
                kind,
                success,
                now,
            ),
            forall|i: int|
                0 <= i < old(self).repositories@.len() && i != k ==> final(self).repositories@[i]
                    == old(self).repositories@[i],
            *final(self) == (Database { repositories: final(self).repositories, ..*old(self) }),
    {
        let base = self.repositories[k].clone();
        let updated = match kind {
            ResourceKind::Issues => if success {
                Repository {
                    last_issues_sync_success: Some(now),
                    last_issues_sync_status: Some(SyncOutcome::Success),
                    updated_at: now,
                    ..base
                }
            } else {
                Repository {
                    last_issues_sync_status: Some(SyncOutcome::Failure),
                    updated_at: now,
                    ..base
                }
            },
            ResourceKind::PullRequests => if success {
                Repository {
                    last_pull_requests_sync_success: Some(now),
                    last_pull_requests_sync_status: Some(SyncOutcome::Success),
                    updated_at: now,
                    ..base
                }
            } else {
                Repository {
                    last_pull_requests_sync_status: Some(SyncOutcome::Failure),
                    updated_at: now,
                    ..base
                }
            },
            ResourceKind::WorkflowRuns => if success {
                Repository {
                    last_workflows_sync_success: Some(now),
                    last_workflows_sync_status: Some(SyncOutcome::Success),
                    updated_at: now,
                    ..base
                }
            } else {
                Repository {
                    last_workflows_sync_status: Some(SyncOutcome::Failure),
                    updated_at: now,
                    ..base
                }
            },
        };
        vstd::pervasive::VecAdditionalExecFns::set(&mut self.repositories, k, updated);
        proof {
            self.lemma_repositories_update_wf(*old(self), k as int);
        }
    }

    /// Applies one repository's fetched issues.  On a fetched batch every
    /// record is upserted in order; the cursor advances only if all of
    /// them merge.  A fetch error or a failed merge records a failure
    /// status and keeps the cursor.
    pub fn sync_repository_issues(
        &mut self,
        repository_id: i64,
        fetched: Result<Vec<IssueRecord>, SyncError>,
        now: i64,
    ) -> (r: Result<u32, SyncError>)
        requires
            old(self).wf(),
        ensures
            final(self).wf(),
            issues_sync_outcome(
                *old(self),
                *final(self),
                issue_fetch_views(fetched),
                repository_id,
                now,
                r,
            ),
    {
        let k = match self.find_repository(repository_id) {
            Some(k) => k,
            None => {
                return Err(SyncError::NotFound);
            },
        };
        proof {
            lemma_first_where_props(self.repositories@, by_repository_id(repository_id), 0);
        }
        match fetched {
            Err(e) => {
                self.mark_resource_sync(k, ResourceKind::Issues, false, now);
                proof {
                    assert(*self == (Database {
                        repositories: self.repositories,
                        ..*old(self)
                    }));
                    assert(self.issues == old(self).issues);
                }
                Err(e)
            },
            Ok(records) => {
                let ghost pre = *self;
                let ghost views = issue_views(records@);
                let ghost mut states: Seq<Database> = seq![pre];
                let mut t: usize = 0;
                while t < records.len()
                    invariant
                        pre == *old(self),
                        pre.wf(),
                        self.wf(),
                        fetched == Ok::<Vec<IssueRecord>, SyncError>(records),
                        pre.spec_find_repository(repository_id) == Some(k as int),
                        k < pre.repositories@.len(),
                        views == issue_views(records@),
                        t <= records@.len(),
                        states.len() == t + 1,
                        states.first() == pre,
                        states.last() == *self,
                        pre.next_issue_id <= self.next_issue_id,
                        self.next_issue_id as int <= pre.next_issue_id + t,
                        issues_chain(
                            states,
                            views.subrange(0, t as int),
                            repository_id,
                            now,
                        ),
                        *self == (Database {
                            issues: self.issues,
                            next_issue_id: self.next_issue_id,
                            ..pre
                        }),
                    decreases records@.len() - t,
                {
                    let ghost mid = *self;
                    match self.upsert_issue(&records[t], repository_id, now) {
                        Ok(_) => {},
                        Err(_) => {
                            proof {
                                assert(views[t as int] == records@[t as int]@);
                                if crate::lookup::spec_issue_state_id(
                                    views[t as int].state,
                                ) is None {
                                    assert(!all_issue_states_resolvable(views));
                                } else {
                                    assert(self.next_issue_id == i64::MAX);
                                    assert(pre.next_issue_id > i64::MAX - records@.len());
                                }
                            }
                            self.mark_resource_sync(k, ResourceKind::Issues, false, now);
                            return Err(SyncError::Persistence);
                        },
                    }
                    proof {
                        let prefix = views.subrange(0, t as int);
                        let next_prefix = views.subrange(0, t + 1);
                        let prev_states = states;
                        states = states.push(*self);
                        assert(states.last() == *self);
                        assert(states.first() == pre);
                        assert(issues_chain(states, next_prefix, repository_id, now)) by {
                            assert forall|i: int|
                                0 <= i < next_prefix.len() implies #[trigger] issue_upsert_outcome(
                                states[i],
                                states[i + 1],
                                next_prefix[i],
                                repository_id,
                                now,
                                Ok(()),
                            ) by {
                                if i < t as int {
                                    assert(issue_upsert_outcome(
                                        prev_states[i],
                                        prev_states[i + 1],
                                        prefix[i],
                                        repository_id,
                                        now,
                                        Ok(()),
                                    ));
                                    assert(states[i] == prev_states[i]);
                                    assert(states[i + 1] == prev_states[i + 1]);
                                    assert(next_prefix[i] == prefix[i]);
                                } else {
                                    assert(states[i] == mid);
                                    assert(states[i + 1] == *self);
                                    assert(next_prefix[i] == records@[t as int]@);
                                }
                            }
                        }
                    }
                    t = t + 1;
                }
                let ghost midw = *self;
                proof {
                    assert(views.subrange(0, views.len() as int) =~= views);
                    assert(issues_chain(states, views, repository_id, now));
                    assert(issues_applied(pre, midw, views, repository_id, now));
                }
                self.mark_resource_sync(k, ResourceKind::Issues, true, now);
                let count: u32 = if records.len() > (u32::MAX as usize) {
                    u32::MAX
                } else {
                    records.len() as u32
                };
                proof {
                    assert(issues_applied(
                        pre,
                        midw,
                        issue_views(records@),
                        repository_id,
                        now,
                    ));
                    assert(fetched == Ok::<Vec<IssueRecord>, SyncError>(records));
                    assert((match fetched {
                        Ok(v) => Ok::<Seq<IssueRecordView>, SyncError>(issue_views(v@)),
                        Err(e) => Err(e),
                    }) == Ok::<Seq<IssueRecordView>, SyncError>(issue_views(records@)));
                    assert(self.issues == midw.issues && self.next_issue_id
                        == midw.next_issue_id);
                }
                Ok(count)
            },
        }
    }
    /// Applies one repository's fetched pull requests.  On a fetched batch every
    /// record is upserted in order; the cursor advances only if all of
    /// them merge.  A fetch error or a failed merge records a failure
    /// status and keeps the cursor.
    pub fn sync_repository_pull_requests(
        &mut self,
        repository_id: i64,
        fetched: Result<Vec<PullRequestRecord>, SyncError>,
        now: i64,
    ) -> (r: Result<u32, SyncError>)
        requires
            old(self).wf(),
        ensures
            final(self).wf(),
            prs_sync_outcome(
                *old(self),
                *final(self),
                pr_fetch_views(fetched),
                repository_id,
                now,
                r,
            ),
    {
        let k = match self.find_repository(repository_id) {
            Some(k) => k,
            None => {
                return Err(SyncError::NotFound);
            },
        };
        proof {
            lemma_first_where_props(self.repositories@, by_repository_id(repository_id), 0);
        }
        match fetched {
            Err(e) => {
                self.mark_resource_sync(k, ResourceKind::PullRequests, false, now);
                proof {
                    assert(*self == (Database {
                        repositories: self.repositories,
                        ..*old(self)
                    }));
                    assert(self.pull_requests == old(self).pull_requests);
                }
                Err(e)
            },
            Ok(records) => {
                let ghost pre = *self;
                let ghost views = pr_views(records@);
                let ghost mut states: Seq<Database> = seq![pre];
                let mut t: usize = 0;
                while t < records.len()
                    invariant
                        pre == *old(self),
                        pre.wf(),
                        self.wf(),
                        fetched == Ok::<Vec<PullRequestRecord>, SyncError>(records),
                        pre.spec_find_repository(repository_id) == Some(k as int),
                        k < pre.repositories@.len(),
                        views == pr_views(records@),
                        t <= records@.len(),
                        states.len() == t + 1,
                        states.first() == pre,
                        states.last() == *self,
                        pre.next_pull_request_id <= self.next_pull_request_id,
                        self.next_pull_request_id as int <= pre.next_pull_request_id + t,
                        prs_chain(
                            states,
                            views.subrange(0, t as int),
                            repository_id,
                            now,
                        ),
                        *self == (Database {
                            pull_requests: self.pull_requests,
                            next_pull_request_id: self.next_pull_request_id,
                            ..pre
                        }),
                    decreases records@.len() - t,
                {
                    let ghost mid = *self;
                    match self.upsert_pull_request(&records[t], repository_id, now) {
                        Ok(_) => {},
                        Err(_) => {
                            proof {
                                assert(views[t as int] == records@[t as int]@);
                                if crate::lookup::spec_pr_state_id(views[t as int].state) is None {
                                    assert(!all_pr_states_resolvable(views));
                                } else {
                                    assert(self.next_pull_request_id == i64::MAX);
                                    assert(pre.next_pull_request_id > i64::MAX - records@.len());
                                }
                            }
                            self.mark_resource_sync(k, ResourceKind::PullRequests, false, now);
                            return Err(SyncError::Persistence);
                        },
                    }
                    proof {
                        let prefix = views.subrange(0, t as int);
                        let next_prefix = views.subrange(0, t + 1);
                        let prev_states = states;
                        states = states.push(*self);
                        assert(states.last() == *self);
                        assert(states.first() == pre);
                        assert(prs_chain(states, next_prefix, repository_id, now)) by {
                            assert forall|i: int|
                                0 <= i < next_prefix.len() implies #[trigger] pr_upsert_outcome(
                                states[i],
                                states[i + 1],
                                next_prefix[i],
                                repository_id,
                                now,
                                Ok(()),
                            ) by {
                                if i < t as int {
                                    assert(pr_upsert_outcome(
                                        prev_states[i],
                                        prev_states[i + 1],
                                        prefix[i],
                                        repository_id,
                                        now,
                                        Ok(()),
                                    ));
                                    assert(states[i] == prev_states[i]);
                                    assert(states[i + 1] == prev_states[i + 1]);
                                    assert(next_prefix[i] == prefix[i]);
                                } else {
                                    assert(states[i] == mid);
                                    assert(states[i + 1] == *self);
                                    assert(next_prefix[i] == records@[t as int]@);
                                }
                            }
                        }
                    }
                    t = t + 1;
                }
                let ghost midw = *self;
                proof {
                    assert(views.subrange(0, views.len() as int) =~= views);
                    assert(prs_chain(states, views, repository_id, now));
                    assert(prs_applied(pre, midw, views, repository_id, now));
                }
                self.mark_resource_sync(k, ResourceKind::PullRequests, true, now);
                let count: u32 = if records.len() > (u32::MAX as usize) {
                    u32::MAX
                } else {
                    records.len() as u32
                };
                proof {
                    assert(prs_applied(
                        pre,
                        midw,
                        pr_views(records@),
                        repository_id,
                        now,
                    ));
                    assert(fetched == Ok::<Vec<PullRequestRecord>, SyncError>(records));
                    assert((match fetched {
                        Ok(v) => Ok::<Seq<PullRequestRecordView>, SyncError>(pr_views(v@)),
                        Err(e) => Err(e),
                    }) == Ok::<Seq<PullRequestRecordView>, SyncError>(pr_views(records@)));
                    assert(self.pull_requests == midw.pull_requests && self.next_pull_request_id
                        == midw.next_pull_request_id);
                }
                Ok(count)
            },
        }
    }
    /// Applies one repository's fetched workflow runs.  On a fetched batch every
    /// record is upserted in order; the cursor advances only if all of
    /// them merge.  A fetch error or a failed merge records a failure
    /// status and keeps the cursor.
    pub fn sync_repository_workflows(
        &mut self,
        repository_id: i64,
        fetched: Result<Vec<WorkflowRecord>, SyncError>,
        now: i64,
    ) -> (r: Result<u32, SyncError>)
        requires
            old(self).wf(),
        ensures
            final(self).wf(),
            workflows_sync_outcome(
                *old(self),
                *final(self),
                workflow_fetch_views(fetched),
                repository_id,
                now,
                r,
            ),
    {
        let k = match self.find_repository(repository_id) {
            Some(k) => k,
            None => {
                return Err(SyncError::NotFound);
            },
        };
        proof {
            lemma_first_where_props(self.repositories@, by_repository_id(repository_id), 0);
        }
        match fetched {
            Err(e) => {
                self.mark_resource_sync(k, ResourceKind::WorkflowRuns, false, now);
                proof {
                    assert(*self == (Database {
                        repositories: self.repositories,
                        ..*old(self)
                    }));
                    assert(self.workflows == old(self).workflows);
                }
                Err(e)
            },
            Ok(records) => {
                let ghost pre = *self;
                let ghost views = workflow_views(records@);
                let ghost mut states: Seq<Database> = seq![pre];
                let mut t: usize = 0;
                while t < records.len()
                    invariant
                        pre == *old(self),
                        pre.wf(),
                        self.wf(),
                        fetched == Ok::<Vec<WorkflowRecord>, SyncError>(records),
                        pre.spec_find_repository(repository_id) == Some(k as int),
                        k < pre.repositories@.len(),
                        views == workflow_views(records@),
                        t <= records@.len(),
                        states.len() == t + 1,
                        states.first() == pre,
                        states.last() == *self,
                        pre.next_workflow_id <= self.next_workflow_id,
                        self.next_workflow_id as int <= pre.next_workflow_id + t,
                        workflows_chain(
                            states,
                            views.subrange(0, t as int),
                            repository_id,
                            now,
                        ),
                        *self == (Database {
                            workflows: self.workflows,
                            next_workflow_id: self.next_workflow_id,
                            ..pre
                        }),
                    decreases records@.len() - t,
                {
                    let ghost mid = *self;
                    match self.upsert_workflow(&records[t], repository_id, now) {
                        Ok(_) => {},
                        Err(_) => {
                            proof {
                                assert(self.next_workflow_id == i64::MAX);
                                assert(pre.next_workflow_id > i64::MAX - records@.len());
                            }
                            self.mark_resource_sync(k, ResourceKind::WorkflowRuns, false, now);
                            return Err(SyncError::Persistence);
                        },
                    }
                    proof {
                        let prefix = views.subrange(0, t as int);
                        let next_prefix = views.subrange(0, t + 1);
                        let prev_states = states;
                        states = states.push(*self);
                        assert(states.last() == *self);
                        assert(states.first() == pre);
                        assert(workflows_chain(states, next_prefix, repository_id, now)) by {
                            assert forall|i: int|
                                0 <= i < next_prefix.len() implies #[trigger] workflow_upsert_outcome(
                                states[i],
                                states[i + 1],
                                next_prefix[i],
                                repository_id,
                                now,
                                Ok(()),
                            ) by {
                                if i < t as int {
                                    assert(workflow_upsert_outcome(
                                        prev_states[i],
                                        prev_states[i + 1],
                                        prefix[i],
                                        repository_id,
                                        now,
                                        Ok(()),
                                    ));
                                    assert(states[i] == prev_states[i]);
                                    assert(states[i + 1] == prev_states[i + 1]);
                                    assert(next_prefix[i] == prefix[i]);
                                } else {
                                    assert(states[i] == mid);
                                    assert(states[i + 1] == *self);
                                    assert(next_prefix[i] == records@[t as int]@);
                                }
                            }
                        }
                    }
                    t = t + 1;
                }
                let ghost midw = *self;
                proof {
                    assert(views.subrange(0, views.len() as int) =~= views);
                    assert(workflows_chain(states, views, repository_id, now));
                    assert(workflows_applied(pre, midw, views, repository_id, now));
                }
                self.mark_resource_sync(k, ResourceKind::WorkflowRuns, true, now);
                let count: u32 = if records.len() > (u32::MAX as usize) {
                    u32::MAX
                } else {
                    records.len() as u32
                };
                proof {
                    assert(workflows_applied(
                        pre,
                        midw,
                        workflow_views(records@),
                        repository_id,
                        now,
                    ));
                    assert(fetched == Ok::<Vec<WorkflowRecord>, SyncError>(records));
                    assert((match fetched {
                        Ok(v) => Ok::<Seq<WorkflowRecordView>, SyncError>(workflow_views(v@)),
                        Err(e) => Err(e),
                    }) == Ok::<Seq<WorkflowRecordView>, SyncError>(workflow_views(records@)));
                    assert(self.workflows == midw.workflows && self.next_workflow_id
                        == midw.next_workflow_id);
                }
                Ok(count)
            },
        }
    }
}



/// Campaign duration in whole seconds; a clock that moved backwards or out
/// of range counts as zero.
pub open spec fn spec_duration_seconds(started_at: i64, now: i64) -> i64 {
    if started_at <= now && now - started_at <= i64::MAX {
        ((now - started_at) / 1000) as i64
    } else {
        0
    }
}

/// A freshly opened history record.
pub open spec fn history_started(
    h: SyncHistory,
    id: i64,
    scope: ScopeKind,
    target_id: Option<i64>,
    name: Seq<char>,
    now: i64,
) -> bool {
    &&& h.id == id
    &&& h.sync_type == scope
    &&& h.target_id == target_id
    &&& h.target_name@ == name
    &&& h.status == HistoryStatus::Started
    &&& h.error_message is None
    &&& h.items_synced == 0
    &&& h.repositories_synced == 0
    &&& h.errors_count == 0
    &&& h.started_at == now
    &&& h.completed_at is None
    &&& h.duration_seconds is None
    &&& h.created_at == now
    &&& h.updated_at == now
}

/// A history record finalized as completed.
pub open spec fn history_completed(
    h: SyncHistory,
    src: SyncHistory,
    items_synced: i32,
    repositories_synced: i32,
    errors_count: i32,
    now: i64,
) -> bool {
    h == (SyncHistory {
        status: HistoryStatus::Completed,
        items_synced,
        repositories_synced,
        errors_count,
        completed_at: Some(now),
        duration_seconds: Some(spec_duration_seconds(src.started_at, now)),
        updated_at: now,
        ..src
    })
}

/// A history record finalized as failed, carrying the error text.
pub open spec fn history_failed(h: SyncHistory, src: SyncHistory, message: Seq<char>, now: i64) -> bool {
    &&& h == (SyncHistory {
        status: HistoryStatus::Failed,
        error_message: h.error_message,
        completed_at: Some(now),
        duration_seconds: Some(spec_duration_seconds(src.started_at, now)),
        updated_at: now,
        ..src
    })
    &&& h.error_message is Some
    &&& h.error_message->0@ == message
}

impl Database {
    fn duration_seconds(started_at: i64, now: i64) -> (r: i64)
        ensures
            r == spec_duration_seconds(started_at, now),
    {
        match now.checked_sub(started_at) {
            Some(d) => if d >= 0 {
                d / 1000
            } else {
                0
            },
            None => 0,
        }
    }

    /// Opens a history record for a starting campaign and returns its
    /// identifier.
    pub fn create_sync_history(
        &mut self,
        sync_type: ScopeKind,
        target_id: Option<i64>,
        target_name: String,
        now: i64,
    ) -> (r: Result<i64, SyncError>)
        requires
            old(self).wf(),
        ensures
            final(self).wf(),
            *final(self) == (Database {
                sync_history: final(self).sync_history,
                next_history_id: final(self).next_history_id,
                ..*old(self)
            }),
            match r {
                Ok(id) => {
                    &&& old(self).next_history_id < i64::MAX
                    &&& id == old(self).next_history_id
                    &&& final(self).sync_history@.len() == old(self).sync_history@.len() + 1
                    &&& final(self).sync_history@.subrange(0, old(self).sync_history@.len() as int)
                        == old(self).sync_history@
                    &&& history_started(
                        final(self).sync_history@.last(),
                        id,
                        sync_type,
                        target_id,
                        target_name@,
                        now,
                    )
                    &&& final(self).next_history_id == old(self).next_history_id + 1
                },
                Err(e) => {
                    &&& *final(self) == *old(self)
                    &&& e == SyncError::Persistence
                    &&& old(self).next_history_id == i64::MAX
                },
            },
    {
        if self.next_history_id == i64::MAX {
            return Err(SyncError::Persistence);
        }
        let id = self.next_history_id;
        let record = SyncHistory {
            id,
            sync_type,
            target_id,
            target_name,
            status: HistoryStatus::Started,
            error_message: None,
            items_synced: 0,
            repositories_synced: 0,
            errors_count: 0,
            started_at: now,
            completed_at: None,
            duration_seconds: None,
            created_at: now,
            updated_at: now,
        };
        self.sync_history.push(record);
        self.next_history_id = id + 1;
        proof {
            assert(self.sync_history@.subrange(0, old(self).sync_history@.len() as int) =~= old(
                self,
            ).sync_history@);
            assert forall|i: int|
                0 <= i < self.sync_history@.len() implies 0 < (
            #[trigger] self.sync_history@[i]).id < self.next_history_id by {
                if i < self.sync_history@.len() - 1 {
                    assert(self.sync_history@[i] == old(self).sync_history@[i]);
                }
            }
            assert forall|i: int, j: int|
                0 <= i < j < self.sync_history@.len() implies (
            #[trigger] self.sync_history@[i]).id != (#[trigger] self.sync_history@[j]).id by {
                if j == self.sync_history@.len() - 1 {
                    assert(self.sync_history@[i] == old(self).sync_history@[i]);
                }
            }
        }
        Ok(id)
    }

    /// Replacing one history record without changing its identifier keeps
    /// the table well formed.
    proof fn lemma_history_update_wf(&self, prev: Database, k: int)
        requires
            prev.wf(),
            0 <= k < prev.sync_history@.len(),
            self.sync_history@.len() == prev.sync_history@.len(),
            self.sync_history@[k].id == prev.sync_history@[k].id,
            forall|i: int|
                0 <= i < prev.sync_history@.len() && i != k ==> self.sync_history@[i]
                    == prev.sync_history@[i],
            *self == (Database { sync_history: self.sync_history, ..prev }),
        ensures
            self.wf(),
    {
        assert forall|i: int|
            0 <= i < self.sync_history@.len() implies 0 < (#[trigger] self.sync_history@[i]).id
            < self.next_history_id by {
            assert(self.sync_history@[i].id == prev.sync_history@[i].id);
        }
        assert forall|i: int, j: int|
            0 <= i < j < self.sync_history@.len() implies (#[trigger] self.sync_history@[i]).id
            != (#[trigger] self.sync_history@[j]).id by {
            assert(self.sync_history@[i].id == prev.sync_history@[i].id);
            assert(self.sync_history@[j].id == prev.sync_history@[j].id);
        }
    }

    /// Finalizes a history record as completed, exactly once: a record
    /// that is missing or already finalized is left alone.
    pub fn update_sync_history_completed(
        &mut self,
        history_id: i64,
        items_synced: i32,
        repositories_synced: i32,
        errors_count: i32,
        now: i64,
    ) -> (r: Result<(), SyncError>)
        requires
            old(self).wf(),
        ensures
            final(self).wf(),
            *final(self) == (Database { sync_history: final(self).sync_history, ..*old(self) }),
            match r {
                Ok(_) => ({
                    let f = old(self).spec_find_history(history_id);
                    &&& f is Some
                    &&& old(self).sync_history@[f->0].status == HistoryStatus::Started
                    &&& final(self).sync_history@.len() == old(self).sync_history@.len()
                    &&& history_completed(
                        final(self).sync_history@[f->0],
                        old(self).sync_history@[f->0],
                        items_synced,
                        repositories_synced,
                        errors_count,
                        now,
                    )
                    &&& forall|i: int|
                        0 <= i < old(self).sync_history@.len() && i != f->0
                            ==> final(self).sync_history@[i] == old(self).sync_history@[i]
                }),
                Err(e) => {
                    &&& *final(self) == *old(self)
                    &&& match old(self).spec_find_history(history_id) {
                        None => e == SyncError::NotFound,
                        Some(k) => e == SyncError::Persistence && old(self).sync_history@[k].status
                            != HistoryStatus::Started,
                    }
                },
            },
    {
        let k = match self.find_history(history_id) {
            Some(k) => k,
            None => {
                return Err(SyncError::NotFound);
            },
        };
        proof {
            lemma_first_where_props(
                self.sync_history@,
                crate::store::by_history_id(history_id),
                0,
            );
        }
        match self.sync_history[k].status {
            HistoryStatus::Started => {},
            _ => {
                return Err(SyncError::Persistence);
            },
        }
        let duration = Self::duration_seconds(self.sync_history[k].started_at, now);
        let updated = SyncHistory {
            status: HistoryStatus::Completed,
            items_synced,
            repositories_synced,
            errors_count,
            completed_at: Some(now),
            duration_seconds: Some(duration),
            updated_at: now,
            ..self.sync_history[k].clone()
        };
        vstd::pervasive::VecAdditionalExecFns::set(&mut self.sync_history, k, updated);
        proof {
            self.lemma_history_update_wf(*old(self), k as int);
        }
        Ok(())
    }

    /// Finalizes a history record as failed, exactly once, carrying the
    /// error text.
    pub fn update_sync_history_failed(
        &mut self,
        history_id: i64,
        error_message: &str,
        now: i64,
    ) -> (r: Result<(), SyncError>)
        requires
            old(self).wf(),
        ensures
            final(self).wf(),
            *final(self) == (Database { sync_history: final(self).sync_history, ..*old(self) }),
            match r {
                Ok(_) => ({
                    let f = old(self).spec_find_history(history_id);
                    &&& f is Some
                    &&& old(self).sync_history@[f->0].status == HistoryStatus::Started
                    &&& final(self).sync_history@.len() == old(self).sync_history@.len()
                    &&& history_failed(
                        final(self).sync_history@[f->0],
                        old(self).sync_history@[f->0],
                        error_message@,
                        now,
                    )
                    &&& forall|i: int|
                        0 <= i < old(self).sync_history@.len() && i != f->0
                            ==> final(self).sync_history@[i] == old(self).sync_history@[i]
                }),
                Err(e) => {
                    &&& *final(self) == *old(self)
                    &&& match old(self).spec_find_history(history_id) {
                        None => e == SyncError::NotFound,
                        Some(k) => e == SyncError::Persistence && old(self).sync_history@[k].status
                            != HistoryStatus::Started,
                    }
                },
            },
    {
        let k = match self.find_history(history_id) {
            Some(k) => k,
            None => {
                return Err(SyncError::NotFound);
            },
        };
        proof {
            lemma_first_where_props(
                self.sync_history@,
                crate::store::by_history_id(history_id),
                0,
            );
        }
        match self.sync_history[k].status {
            HistoryStatus::Started => {},
            _ => {
                return Err(SyncError::Persistence);
            },
        }
        let duration = Self::duration_seconds(self.sync_history[k].started_at, now);
        let updated = SyncHistory {
            status: HistoryStatus::Failed,
            error_message: Some(error_message.to_owned()),
            completed_at: Some(now),
            duration_seconds: Some(duration),
            updated_at: now,
            ..self.sync_history[k].clone()
        };
        vstd::pervasive::VecAdditionalExecFns::set(&mut self.sync_history, k, updated);
        proof {
            self.lemma_history_update_wf(*old(self), k as int);
        }
        Ok(())
    }

    /// The history rows sorted for reporting: start time descending, ties
    /// by identifier descending.
    fn sorted_history_rows(&self) -> (r: Vec<SyncHistory>)
        ensures
            r@.to_multiset() == self.sync_history@.to_multiset(),
            history_sorted_desc(r@),
    {
        let mut out: Vec<SyncHistory> = Vec::new();
        proof {
            assert(out@ =~= self.sync_history@.subrange(0, 0));
        }
        let mut i: usize = 0;
        while i < self.sync_history.len()
            invariant
                i <= self.sync_history@.len(),
                out@.to_multiset() == self.sync_history@.subrange(0, i as int).to_multiset(),
                history_sorted_desc(out@),
            decreases self.sync_history@.len() - i,
        {
            let row = self.sync_history[i].clone();
            let mut j: usize = 0;
            while j < out.len() && (out[j].started_at > row.started_at || (out[j].started_at
                == row.started_at && out[j].id >= row.id))
                invariant
                    j <= out@.len(),
                    history_sorted_desc(out@),
                    forall|t: int| 0 <= t < j ==> history_key_ge(#[trigger] out@[t], row),
                decreases out@.len() - j,
            {
                j = j + 1;
            }
            let ghost prev = out@;
            out.insert(j, row);
            proof {
                broadcast use vstd::seq_lib::group_to_multiset_ensures;

                assert(out@ == prev.insert(j as int, row));
                prev.insert_ensures(j as int, row);
                assert(out@.to_multiset() == prev.to_multiset().insert(row));
                assert(self.sync_history@.subrange(0, i + 1) =~= self.sync_history@.subrange(
                    0,
                    i as int,
                ).push(self.sync_history@[i as int]));
                assert forall|a: int, b: int|
                    0 <= a < b < out@.len() implies history_key_ge(out@[a], out@[b]) by {
                    if b < j {
                        assert(out@[a] == prev[a] && out@[b] == prev[b]);
                    } else if b == j {
                        assert(out@[a] == prev[a]);
                        assert(history_key_ge(prev[a], row));
                    } else {
                        assert(out@[b] == prev[b - 1]);
                        if a < j {
                            assert(out@[a] == prev[a]);
                            if j < prev.len() {
                                assert(history_key_ge(prev[a], prev[b - 1]));
                            }
                        } else if a == j {
                            assert(history_key_ge(row, prev[j as int]));
                            assert(history_key_ge(prev[j as int], prev[b - 1]) || j as int == b
                                - 1);
                        } else {
                            assert(out@[a] == prev[a - 1]);
                            assert(history_key_ge(prev[a - 1], prev[b - 1]));
                        }
                    }
                }
            }
            i = i + 1;
        }
        proof {
            assert(self.sync_history@.subrange(0, self.sync_history@.len() as int)
                =~= self.sync_history@);
        }
        out
    }

    /// The most recent history records — start time descending, ties by
    /// identifier — up to `limit` of them.  The page is a prefix of the
    /// full sorted table; as identifiers are unique on a well-formed
    /// store, the key order is strict and that sorted table is the one
    /// permutation of the stored rows the clauses admit.
    pub fn get_sync_history(&self, limit: Option<u32>) -> (r: Result<Vec<SyncHistory>, SyncError>)
        ensures
            match r {
                Ok(v) => ({
                    let lim = match limit {
                        Some(l) => if l as int <= self.sync_history@.len() {
                            l as int
                        } else {
                            self.sync_history@.len() as int
                        },
                        None => self.sync_history@.len() as int,
                    };
                    &&& v@.len() == lim
                    &&& history_sorted_desc(v@)
                    &&& exists|full: Seq<SyncHistory>|
                        {
                            &&& #[trigger] history_sorted_desc(full)
                            &&& full.to_multiset() == self.sync_history@.to_multiset()
                            &&& v@ == full.subrange(0, lim)
                        }
                }),
                Err(_) => false,
            },
    {
        let sorted = self.sorted_history_rows();
        let n = sorted.len();
        let want: usize = match limit {
            Some(l) => if (l as usize) <= n {
                l as usize
            } else {
                n
            },
            None => n,
        };
        proof {
            broadcast use vstd::seq_lib::group_to_multiset_ensures;

            assert(sorted@.len() == sorted@.to_multiset().len());
            assert(self.sync_history@.len() == self.sync_history@.to_multiset().len());
            assert(sorted@.len() == self.sync_history@.len());
        }
        let mut out: Vec<SyncHistory> = Vec::new();
        let mut i: usize = 0;
        while i < want
            invariant
                n == sorted@.len(),
                want <= n,
                i <= want,
                out@.len() == i,
                forall|t: int| 0 <= t < i ==> #[trigger] out@[t] == sorted@[t],
            decreases want - i,
        {
            out.push(sorted[i].clone());
            i = i + 1;
        }
        proof {
            assert(out@ =~= sorted@.subrange(0, want as int));
        }
        Ok(out)
    }
}



/// The reporting order of two history records: newer start time first,
/// ties broken by the (unique) identifier, so the order is total and, on a
/// well-formed store, strict.
pub open spec fn history_key_ge(a: SyncHistory, b: SyncHistory) -> bool {
    a.started_at > b.started_at || (a.started_at == b.started_at && a.id >= b.id)
}

/// Whether a history page is ordered by start time descending, ties by
/// identifier descending.
pub open spec fn history_sorted_desc(s: Seq<SyncHistory>) -> bool {
    forall|i: int, j: int|
        0 <= i < j < s.len() ==> history_key_ge(#[trigger] s[i], #[trigger] s[j])
}

/// A running campaign: proof that the latch was taken, with the history
/// record that must be finalized exactly once when the campaign ends.
pub struct SyncSession {
    pub scope: ScopeKind,
    pub provider_id: Option<i64>,
    pub history_id: Option<i64>,
    pub started_at: i64,
}

/// Whether a provider holds a usable credential: the token is present and
/// was last validated good.  Checked before any fetch is planned.
pub open spec fn provider_has_credential(p: GitProvider) -> bool {
    p.token_valid && p.token is Some
}

impl Database {
    /// Starts a campaign over one provider.  A second concurrent start
    /// answers busy at once; a missing provider or one without a usable
    /// credential ends the campaign before any fetch is planned, with the
    /// latch released and the history record closed as failed.  On success
    /// the latch stays held until [`Database::finish_sync`].
    pub fn begin_provider_sync(&mut self, provider_id: i64, now: i64) -> (r: Result<
        SyncSession,
        SyncError,
    >)
        requires
            old(self).wf(),
        ensures
            final(self).wf(),
            *final(self) == (Database {
                sync_in_progress: final(self).sync_in_progress,
                sync_history: final(self).sync_history,
                next_history_id: final(self).next_history_id,
                ..*old(self)
            }),
            match r {
                Ok(sess) => {
                    &&& !old(self).sync_in_progress
                    &&& final(self).sync_in_progress
                    &&& old(self).spec_find_provider(provider_id) is Some
                    &&& provider_has_credential(
                        old(self).providers@[old(self).spec_find_provider(provider_id)->0],
                    )
                    &&& sess.scope == ScopeKind::Provider
                    &&& sess.provider_id == Some(provider_id)
                    &&& sess.started_at == now
                    &&& match sess.history_id {
                        Some(hid) => {
                            &&& final(self).sync_history@.len() == old(
                                self,
                            ).sync_history@.len() + 1
                            &&& final(self).sync_history@.subrange(
                                0,
                                old(self).sync_history@.len() as int,
                            ) == old(self).sync_history@
                            &&& history_started(
                                final(self).sync_history@.last(),
                                hid,
                                ScopeKind::Provider,
                                Some(provider_id),
                                old(self).providers@[old(self).spec_find_provider(
                                    provider_id,
                                )->0].name@,
                                now,
                            )
                            &&& old(self).spec_find_history(hid) is None
                        },
                        None => final(self).sync_history == old(self).sync_history && old(
                            self,
                        ).next_history_id == i64::MAX,
                    }
                },
                Err(e) => {
                    &&& (e == SyncError::Contention <==> old(self).sync_in_progress)
                    &&& (old(self).sync_in_progress ==> *final(self) == *old(self))
                    &&& (!old(self).sync_in_progress ==> {
                        &&& !final(self).sync_in_progress
                        &&& (e == SyncError::NotFound || e == SyncError::Authentication)
                        &&& (e == SyncError::NotFound <==> old(self).spec_find_provider(
                            provider_id,
                        ) is None)
                        &&& (e == SyncError::Authentication <==> old(self).spec_find_provider(
                            provider_id,
                        ) is Some && !provider_has_credential(
                            old(self).providers@[old(self).spec_find_provider(provider_id)->0],
                        ))
                    })
                },
            },
    {
        if !self.try_start_sync() {
            return Err(SyncError::Contention);
        }
        let (name, credential_ok) = match self.find_provider(provider_id) {
            Some(k) => {
                proof {
                    lemma_first_where_props(
                        self.providers@,
                        crate::store::by_provider_id(provider_id),
                        0,
                    );
                }
                let has_cred = self.providers[k].token_valid && self.providers[k].token.is_some();
                (self.providers[k].name.clone(), Some(has_cred))
            },
            None => (String::from_str("Unknown provider"), None),
        };
        proof {
            lemma_first_where_props(
                self.sync_history@,
                crate::store::by_history_id(self.next_history_id),
                0,
            );
            if self.spec_find_history(self.next_history_id) is Some {
                let bad = self.spec_find_history(self.next_history_id)->0;
                assert(self.sync_history@[bad].id == self.next_history_id);
                assert(false);
            }
        }
        let history_id = match self.create_sync_history(
            ScopeKind::Provider,
            Some(provider_id),
            name,
            now,
        ) {
            Ok(id) => Some(id),
            Err(_) => None,
        };
        match credential_ok {
            None => {
                if let Some(hid) = history_id {
                    let _ = self.update_sync_history_failed(hid, "Failed to get provider", now);
                }
                self.reset_sync_lock();
                Err(SyncError::NotFound)
            },
            Some(false) => {
                if let Some(hid) = history_id {
                    let _ = self.update_sync_history_failed(
                        hid,
                        "Provider token is invalid or missing",
                        now,
                    );
                }
                self.reset_sync_lock();
                Err(SyncError::Authentication)
            },
            Some(true) => Ok(
                SyncSession {
                    scope: ScopeKind::Provider,
                    provider_id: Some(provider_id),
                    history_id,
                    started_at: now,
                },
            ),
        }
    }

    /// Starts a campaign over all registered providers.  Only a concurrent
    /// campaign can refuse it.
    pub fn begin_all_providers_sync(&mut self, now: i64) -> (r: Result<SyncSession, SyncError>)
        requires
            old(self).wf(),
        ensures
            final(self).wf(),
            *final(self) == (Database {
                sync_in_progress: final(self).sync_in_progress,
                sync_history: final(self).sync_history,
                next_history_id: final(self).next_history_id,
                ..*old(self)
            }),
            match r {
                Ok(sess) => {
                    &&& !old(self).sync_in_progress
                    &&& final(self).sync_in_progress
                    &&& sess.scope == ScopeKind::AllProviders
                    &&& sess.provider_id is None
                    &&& sess.started_at == now
                    &&& match sess.history_id {
                        Some(hid) => {
                            &&& final(self).sync_history@.len() == old(
                                self,
                            ).sync_history@.len() + 1
                            &&& final(self).sync_history@.subrange(
                                0,
                                old(self).sync_history@.len() as int,
                            ) == old(self).sync_history@
                            &&& history_started(
                                final(self).sync_history@.last(),
                                hid,
                                ScopeKind::AllProviders,
                                None,
                                "All Providers"@,
                                now,
                            )
                            &&& old(self).spec_find_history(hid) is None
                        },
                        None => final(self).sync_history == old(self).sync_history && old(
                            self,
                        ).next_history_id == i64::MAX,
                    }
                },
                Err(e) => e == SyncError::Contention && old(self).sync_in_progress && *final(self)
                    == *old(self),
            },
    {
        if !self.try_start_sync() {
            return Err(SyncError::Contention);
        }
        proof {
            lemma_first_where_props(
                self.sync_history@,
                crate::store::by_history_id(self.next_history_id),
                0,
            );
            if self.spec_find_history(self.next_history_id) is Some {
                let bad = self.spec_find_history(self.next_history_id)->0;
                assert(self.sync_history@[bad].id == self.next_history_id);
                assert(false);
            }
        }
        let history_id = match self.create_sync_history(
            ScopeKind::AllProviders,
            None,
            String::from_str("All Providers"),
            now,
        ) {
            Ok(id) => Some(id),
            Err(_) => None,
        };
        Ok(
            SyncSession {
                scope: ScopeKind::AllProviders,
                provider_id: None,
                history_id,
                started_at: now,
            },
        )
    }

    /// Ends a campaign: finalizes its history record once (completed, or
    /// failed with the given message) and releases the latch.  The latch is
    /// released on every path; a history record that cannot be finalized
    /// is logged state, never a reason to keep the latch.
    pub fn finish_sync(
        &mut self,
        session: &SyncSession,
        items_synced: i32,
        repositories_synced: i32,
        errors_count: i32,
        error: Option<&str>,
        now: i64,
    )
        requires
            old(self).wf(),
        ensures
            final(self).wf(),
            !final(self).sync_in_progress,
            *final(self) == (Database {
                sync_in_progress: false,
                sync_history: final(self).sync_history,
                ..*old(self)
            }),
            match session.history_id {
                Some(hid) => match old(self).spec_find_history(hid) {
                    Some(k) => old(self).sync_history@[k].status == HistoryStatus::Started ==> {
                        &&& final(self).sync_history@.len() == old(self).sync_history@.len()
                        &&& (match error {
                            None => history_completed(
                                final(self).sync_history@[k],
                                old(self).sync_history@[k],
                                items_synced,
                                repositories_synced,
                                errors_count,
                                now,
                            ),
                            Some(msg) => history_failed(
                                final(self).sync_history@[k],
                                old(self).sync_history@[k],
                                msg@,
                                now,
                            ),
                        })
                        &&& forall|i: int|
                            0 <= i < old(self).sync_history@.len() && i != k
                                ==> final(self).sync_history@[i] == old(self).sync_history@[i]
                    },
                    None => final(self).sync_history == old(self).sync_history,
                },
                None => final(self).sync_history == old(self).sync_history,
            },
    {
        if let Some(hid) = session.history_id {
            match error {
                None => {
                    let _ = self.update_sync_history_completed(
                        hid,
                        items_synced,
                        repositories_synced,
                        errors_count,
                        now,
                    );
                },
                Some(msg) => {
                    let _ = self.update_sync_history_failed(hid, msg, now);
                },
            }
        }
        self.reset_sync_lock();
    }
}


/// Law: a correctly fed resource sync is owed success.  For an existing
/// repository, a fetched issue batch whose state codes all resolve, with
/// identifier headroom for every record, cannot be answered with an
/// error: the result is the batch count, the cursor stands at the sync's
/// start time and the status is success.
pub proof fn lemma_issue_sync_success_owed(
    pre: Database,
    post: Database,
    recs: Seq<IssueRecordView>,
    repository_id: i64,
    now: i64,
    r: Result<u32, SyncError>,
)
    requires
        issues_sync_outcome(pre, post, Ok(recs), repository_id, now, r),
        pre.spec_find_repository(repository_id) is Some,
        all_issue_states_resolvable(recs),
        pre.next_issue_id <= i64::MAX - recs.len(),
    ensures
        r is Ok,
        r->Ok_0 == spec_total_of(recs.len()),
        post.repositories@[pre.spec_find_repository(repository_id)->0].spec_cursor(
            ResourceKind::Issues,
        ) == Some(now),
        post.repositories@[pre.spec_find_repository(repository_id)->0].spec_status(
            ResourceKind::Issues,
        ) == Some(SyncOutcome::Success),
{
}

/// Law: as [`lemma_issue_sync_success_owed`], for pull requests.
pub proof fn lemma_pr_sync_success_owed(
    pre: Database,
    post: Database,
    recs: Seq<PullRequestRecordView>,
    repository_id: i64,
    now: i64,
    r: Result<u32, SyncError>,
)
    requires
        prs_sync_outcome(pre, post, Ok(recs), repository_id, now, r),
        pre.spec_find_repository(repository_id) is Some,
        all_pr_states_resolvable(recs),
        pre.next_pull_request_id <= i64::MAX - recs.len(),
    ensures
        r is Ok,
        r->Ok_0 == spec_total_of(recs.len()),
        post.repositories@[pre.spec_find_repository(repository_id)->0].spec_cursor(
            ResourceKind::PullRequests,
        ) == Some(now),
        post.repositories@[pre.spec_find_repository(repository_id)->0].spec_status(
            ResourceKind::PullRequests,
        ) == Some(SyncOutcome::Success),
{
}

/// Law: as [`lemma_issue_sync_success_owed`], for workflow runs, whose
/// status codes always resolve through the fallback.
pub proof fn lemma_workflow_sync_success_owed(
    pre: Database,
    post: Database,
    recs: Seq<WorkflowRecordView>,
    repository_id: i64,
    now: i64,
    r: Result<u32, SyncError>,
)
    requires
        workflows_sync_outcome(pre, post, Ok(recs), repository_id, now, r),
        pre.spec_find_repository(repository_id) is Some,
        pre.next_workflow_id <= i64::MAX - recs.len(),
    ensures
        r is Ok,
        r->Ok_0 == spec_total_of(recs.len()),
        post.repositories@[pre.spec_find_repository(repository_id)->0].spec_cursor(
            ResourceKind::WorkflowRuns,
        ) == Some(now),
        post.repositories@[pre.spec_find_repository(repository_id)->0].spec_status(
            ResourceKind::WorkflowRuns,
        ) == Some(SyncOutcome::Success),
{
}


/// Key uniqueness of an issue table, as the store invariant carries it.
pub open spec fn issue_keys_unique(s: Seq<IssueRow>) -> bool {
    forall|i: int, j: int|
        0 <= i < j < s.len() ==> !((#[trigger] s[i]).repository_id == (
        #[trigger] s[j]).repository_id && s[i].number == s[j].number)
}

/// One successful upsert keeps the table's keys unique and never shrinks
/// or reorders it.
proof fn lemma_upsert_keeps_keys_unique(
    a: Database,
    b: Database,
    rec: IssueRecordView,
    repository_id: i64,
    now: i64,
)
    requires
        issue_upsert_outcome(a, b, rec, repository_id, now, Ok(())),
        issue_keys_unique(a.issues@),
    ensures
        issue_keys_unique(b.issues@),
{
    match a.spec_find_issue(repository_id, rec.number) {
        Some(k) => {
            lemma_first_where_props(a.issues@, crate::store::by_issue_key(repository_id, rec.number), 0);
            assert forall|i: int, j: int|
                0 <= i < j < b.issues@.len() implies !((#[trigger] b.issues@[i]).repository_id
                == (#[trigger] b.issues@[j]).repository_id && b.issues@[i].number
                == b.issues@[j].number) by {
                if i != k {
                    assert(b.issues@[i] == a.issues@[i]);
                }
                if j != k {
                    assert(b.issues@[j] == a.issues@[j]);
                }
                if i == k || j == k {
                    assert(b.issues@[k].repository_id == a.issues@[k].repository_id
                        && b.issues@[k].number == a.issues@[k].number);
                }
            }
        },
        None => {
            lemma_first_where_props(a.issues@, crate::store::by_issue_key(repository_id, rec.number), 0);
            assert forall|i: int, j: int|
                0 <= i < j < b.issues@.len() implies !((#[trigger] b.issues@[i]).repository_id
                == (#[trigger] b.issues@[j]).repository_id && b.issues@[i].number
                == b.issues@[j].number) by {
                if j < b.issues@.len() - 1 {
                    assert(b.issues@[i] == b.issues@.subrange(0, a.issues@.len() as int)[i]);
                    assert(b.issues@[i] == a.issues@[i]);
                    assert(b.issues@[j] == a.issues@[j]);
                } else {
                    assert(b.issues@[i] == b.issues@.subrange(0, a.issues@.len() as int)[i]);
                    assert(b.issues@[i] == a.issues@[i]);
                    assert(!crate::store::by_issue_key(repository_id, rec.number)(a.issues@[i]));
                }
            }
        },
    }
}

/// Keys stay unique along a whole upsert chain.
proof fn lemma_chain_keys_unique(
    states: Seq<Database>,
    recs: Seq<IssueRecordView>,
    repository_id: i64,
    now: i64,
    m: int,
)
    requires
        issues_chain(states, recs, repository_id, now),
        issue_keys_unique(states[0].issues@),
        0 <= m < states.len(),
    ensures
        issue_keys_unique(states[m].issues@),
    decreases m,
{
    if m > 0 {
        lemma_chain_keys_unique(states, recs, repository_id, now, m - 1);
        let step = m - 1;
        assert(issue_upsert_outcome(
            states[step],
            states[step + 1],
            recs[step],
            repository_id,
            now,
            Ok(()),
        ));
        assert(states[step + 1] == states[m]);
        lemma_upsert_keeps_keys_unique(states[step], states[m], recs[step], repository_id, now);
    }
}

/// A row that reflects a record's successful merge, whatever identifier
/// and first-recorded timestamp it carries.
pub open spec fn row_reflects(row: IssueRow, rec: IssueRecordView, repository_id: i64, now: i64) -> bool {
    row@ == issue_row_merged(
        rec,
        repository_id,
        crate::lookup::spec_issue_state_id(rec.state)->0,
        row.id,
        row.created_at,
        now,
    )
}

/// The write of step `m` persists to every later chain state, provided
/// the batch's remote numbers are distinct.
proof fn lemma_chain_write_persists(
    states: Seq<Database>,
    recs: Seq<IssueRecordView>,
    repository_id: i64,
    now: i64,
    m: int,
    j: int,
) -> (idx: int)
    requires
        issues_chain(states, recs, repository_id, now),
        forall|a: int, b: int|
            0 <= a < b < recs.len() ==> (#[trigger] recs[a]).number != (#[trigger] recs[b]).number,
        0 <= m < recs.len(),
        m < j < states.len(),
    ensures
        0 <= idx < states[j].issues@.len(),
        row_reflects(states[j].issues@[idx], recs[m], repository_id, now),
    decreases j,
{
    if j == m + 1 {
        assert(issue_upsert_outcome(
            states[m],
            states[m + 1],
            recs[m],
            repository_id,
            now,
            Ok(()),
        ));
        assert(states[m + 1] == states[j]);
        match states[m].spec_find_issue(repository_id, recs[m].number) {
            Some(k) => {
                lemma_first_where_props(
                    states[m].issues@,
                    crate::store::by_issue_key(repository_id, recs[m].number),
                    0,
                );
                assert(states[j].issues@[k]@ == issue_row_merged(
                    recs[m],
                    repository_id,
                    crate::lookup::spec_issue_state_id(recs[m].state)->0,
                    states[m].issues@[k].id,
                    states[m].issues@[k].created_at,
                    now,
                ));
                assert(states[j].issues@[k].id == states[m].issues@[k].id);
                assert(states[j].issues@[k].created_at == states[m].issues@[k].created_at);
                assert(row_reflects(states[j].issues@[k], recs[m], repository_id, now));
                k
            },
            None => {
                let idx = states[j].issues@.len() - 1;
                assert(states[j].issues@[idx]@ == issue_row_merged(
                    recs[m],
                    repository_id,
                    crate::lookup::spec_issue_state_id(recs[m].state)->0,
                    states[m].next_issue_id,
                    now,
                    now,
                ));
                assert(row_reflects(states[j].issues@[idx], recs[m], repository_id, now));
                idx
            },
        }
    } else {
        let idx0 = lemma_chain_write_persists(states, recs, repository_id, now, m, j - 1);
        let step = j - 1;
        assert(issue_upsert_outcome(
            states[step],
            states[step + 1],
            recs[step],
            repository_id,
            now,
            Ok(()),
        ));
        assert(states[step + 1] == states[j]);
        assert(states[j - 1].issues@[idx0].number == recs[m].number);
        match states[j - 1].spec_find_issue(repository_id, recs[j - 1].number) {
            Some(k) => {
                lemma_first_where_props(
                    states[j - 1].issues@,
                    crate::store::by_issue_key(repository_id, recs[j - 1].number),
                    0,
                );
                assert(states[j - 1].issues@[k].number == recs[j - 1].number);
                assert(recs[m].number != recs[j - 1].number);
                assert(idx0 != k);
                assert(states[j].issues@[idx0] == states[j - 1].issues@[idx0]);
                idx0
            },
            None => {
                assert(states[j].issues@[idx0] == states[j].issues@.subrange(
                    0,
                    states[j - 1].issues@.len() as int,
                )[idx0]);
                assert(states[j].issues@[idx0] == states[j - 1].issues@[idx0]);
                idx0
            },
        }
    }
}

/// The second chain of a re-applied batch only refreshes bookkeeping.
proof fn lemma_second_chain_converges(
    states1: Seq<Database>,
    states2: Seq<Database>,
    recs: Seq<IssueRecordView>,
    repository_id: i64,
    t1: i64,
    t2: i64,
    m: int,
)
    requires
        issues_chain(states1, recs, repository_id, t1),
        issues_chain(states2, recs, repository_id, t2),
        states2[0] == states1[states1.len() - 1],
        issue_keys_unique(states1[0].issues@),
        forall|a: int, b: int|
            0 <= a < b < recs.len() ==> (#[trigger] recs[a]).number != (#[trigger] recs[b]).number,
        0 <= m <= recs.len(),
    ensures
        states2[m].issues@.len() == states2[0].issues@.len(),
        forall|i: int|
            0 <= i < states2[0].issues@.len() ==> (#[trigger] states2[m].issues@[i]).created_at
                == states2[0].issues@[i].created_at,
        forall|i: int|
            0 <= i < states2[0].issues@.len() ==> #[trigger] states2[m].issues@[i]
                == states2[0].issues@[i] || issue_row_refreshed(
                states2[0].issues@[i]@,
                states2[m].issues@[i]@,
                t2,
            ),
    decreases m,
{
    if m > 0 {
        lemma_second_chain_converges(states1, states2, recs, repository_id, t1, t2, m - 1);
        let d1 = states2[0];
        let step = m - 1;
        let s = states2[step];
        assert(issue_upsert_outcome(
            states2[step],
            states2[step + 1],
            recs[step],
            repository_id,
            t2,
            Ok(()),
        ));
        assert(states2[step + 1] == states2[m]);
        // the first chain put this record's write into d1, and it persisted
        let idx = lemma_chain_write_persists(
            states1,
            recs,
            repository_id,
            t1,
            m - 1,
            states1.len() - 1,
        );
        assert(d1.issues@[idx].number == recs[m - 1].number);
        assert(d1.issues@[idx].repository_id == repository_id);
        // the intermediate state keeps the same keys at the same places
        assert(s.issues@[idx].number == recs[m - 1].number && s.issues@[idx].repository_id
            == repository_id && s.issues@[idx].id == d1.issues@[idx].id
            && s.issues@[idx].created_at == d1.issues@[idx].created_at);
        // keys stay unique along both chains, so the lookup lands there
        lemma_chain_keys_unique(states1, recs, repository_id, t1, states1.len() - 1);
        lemma_chain_keys_unique(states2, recs, repository_id, t2, m - 1);
        match s.spec_find_issue(repository_id, recs[m - 1].number) {
            None => {
                lemma_first_where_props(
                    s.issues@,
                    crate::store::by_issue_key(repository_id, recs[m - 1].number),
                    0,
                );
                assert(!crate::store::by_issue_key(repository_id, recs[m - 1].number)(
                    s.issues@[idx],
                ));
                assert(false);
            },
            Some(k) => {
                lemma_first_where_props(
                    s.issues@,
                    crate::store::by_issue_key(repository_id, recs[m - 1].number),
                    0,
                );
                assert(s.issues@[k].repository_id == repository_id && s.issues@[k].number
                    == recs[m - 1].number);
                assert(k == idx);
                assert(states2[m].issues@[k]@ == issue_row_merged(
                    recs[m - 1],
                    repository_id,
                    crate::lookup::spec_issue_state_id(recs[m - 1].state)->0,
                    s.issues@[k].id,
                    s.issues@[k].created_at,
                    t2,
                ));
                assert(issue_row_refreshed(d1.issues@[idx]@, states2[m].issues@[idx]@, t2));
            },
        }
    }
}

/// Law: re-syncing the same issue batch converges (batch-level
/// idempotence).  After two successful applications of one batch of
/// distinct remote numbers, the issue table holds the same rows — local
/// identities and first-recorded timestamps preserved — with at most the
/// bookkeeping timestamps of the matched rows refreshed.  A batch that
/// repeats a number converges too, through its last write, which this law
/// does not cover.
pub proof fn lemma_issue_batch_idempotent(
    d0: Database,
    d1: Database,
    d2: Database,
    recs: Seq<IssueRecordView>,
    repository_id: i64,
    t1: i64,
    t2: i64,
)
    requires
        d0.wf(),
        forall|a: int, b: int|
            0 <= a < b < recs.len() ==> (#[trigger] recs[a]).number != (#[trigger] recs[b]).number,
        issues_applied(d0, d1, recs, repository_id, t1),
        issues_applied(d1, d2, recs, repository_id, t2),
    ensures
        d2.issues@.len() == d1.issues@.len(),
        forall|i: int|
            0 <= i < d1.issues@.len() ==> (#[trigger] d2.issues@[i]).created_at
                == d1.issues@[i].created_at,
        forall|i: int|
            0 <= i < d1.issues@.len() ==> #[trigger] d2.issues@[i] == d1.issues@[i]
                || issue_row_refreshed(d1.issues@[i]@, d2.issues@[i]@, t2),
{
    let states1 = choose|states: Seq<Database>|
        {
            &&& #[trigger] issues_chain(states, recs, repository_id, t1)
            &&& states.first() == d0
            &&& states.last() == d1
        };
    let states2 = choose|states: Seq<Database>|
        {
            &&& #[trigger] issues_chain(states, recs, repository_id, t2)
            &&& states.first() == d1
            &&& states.last() == d2
        };
    assert(states2[0] == states1[states1.len() - 1]);
    lemma_second_chain_converges(
        states1,
        states2,
        recs,
        repository_id,
        t1,
        t2,
        recs.len() as int,
    );
}

/// Key uniqueness of a pull-request table, as the store invariant carries it.
pub open spec fn pr_keys_unique(s: Seq<PullRequestRow>) -> bool {
    forall|i: int, j: int|
        0 <= i < j < s.len() ==> !((#[trigger] s[i]).repository_id == (
        #[trigger] s[j]).repository_id && s[i].number == s[j].number)
}

/// One successful upsert keeps the table's keys unique and never shrinks
/// or reorders it.
proof fn lemma_pr_upsert_keeps_keys_unique(
    a: Database,
    b: Database,
    rec: PullRequestRecordView,
    repository_id: i64,
    now: i64,
)
    requires
        pr_upsert_outcome(a, b, rec, repository_id, now, Ok(())),
        pr_keys_unique(a.pull_requests@),
    ensures
        pr_keys_unique(b.pull_requests@),
{
    match a.spec_find_pull_request(repository_id, rec.number) {
        Some(k) => {
            lemma_first_where_props(a.pull_requests@, crate::store::by_pr_key(repository_id, rec.number), 0);
            assert forall|i: int, j: int|
                0 <= i < j < b.pull_requests@.len() implies !((#[trigger] b.pull_requests@[i]).repository_id
                == (#[trigger] b.pull_requests@[j]).repository_id && b.pull_requests@[i].number
                == b.pull_requests@[j].number) by {
                if i != k {
                    assert(b.pull_requests@[i] == a.pull_requests@[i]);
                }
                if j != k {
                    assert(b.pull_requests@[j] == a.pull_requests@[j]);
                }
                if i == k || j == k {
                    assert(b.pull_requests@[k].repository_id == a.pull_requests@[k].repository_id
                        && b.pull_requests@[k].number == a.pull_requests@[k].number);
                }
            }
        },
        None => {
            lemma_first_where_props(a.pull_requests@, crate::store::by_pr_key(repository_id, rec.number), 0);
            assert forall|i: int, j: int|
                0 <= i < j < b.pull_requests@.len() implies !((#[trigger] b.pull_requests@[i]).repository_id
                == (#[trigger] b.pull_requests@[j]).repository_id && b.pull_requests@[i].number
                == b.pull_requests@[j].number) by {
                if j < b.pull_requests@.len() - 1 {
                    assert(b.pull_requests@[i] == b.pull_requests@.subrange(0, a.pull_requests@.len() as int)[i]);
                    assert(b.pull_requests@[i] == a.pull_requests@[i]);
                    assert(b.pull_requests@[j] == a.pull_requests@[j]);
                } else {
                    assert(b.pull_requests@[i] == b.pull_requests@.subrange(0, a.pull_requests@.len() as int)[i]);
                    assert(b.pull_requests@[i] == a.pull_requests@[i]);
                    assert(!crate::store::by_pr_key(repository_id, rec.number)(a.pull_requests@[i]));
                }
            }
        },
    }
}

/// Keys stay unique along a whole upsert chain.
proof fn lemma_pr_chain_keys_unique(
    states: Seq<Database>,
    recs: Seq<PullRequestRecordView>,
    repository_id: i64,
    now: i64,
    m: int,
)
    requires
        prs_chain(states, recs, repository_id, now),
        pr_keys_unique(states[0].pull_requests@),
        0 <= m < states.len(),
    ensures
        pr_keys_unique(states[m].pull_requests@),
    decreases m,
{
    if m > 0 {
        lemma_pr_chain_keys_unique(states, recs, repository_id, now, m - 1);
        let step = m - 1;
        assert(pr_upsert_outcome(
            states[step],
            states[step + 1],
            recs[step],
            repository_id,
            now,
            Ok(()),
        ));
        assert(states[step + 1] == states[m]);
        lemma_pr_upsert_keeps_keys_unique(states[step], states[m], recs[step], repository_id, now);
    }
}

/// A row that reflects a record's successful merge, whatever identifier
/// and first-recorded timestamp it carries.
pub open spec fn pr_row_reflects(row: PullRequestRow, rec: PullRequestRecordView, repository_id: i64, now: i64) -> bool {
    row@ == pr_row_merged(
        rec,
        repository_id,
        crate::lookup::spec_pr_state_id(rec.state)->0,
        row.id,
        row.created_at,
        now,
    )
}

/// The write of step `m` persists to every later chain state, provided
/// the batch's remote numbers are distinct.
proof fn lemma_pr_chain_write_persists(
    states: Seq<Database>,
    recs: Seq<PullRequestRecordView>,
    repository_id: i64,
    now: i64,
    m: int,
    j: int,
) -> (idx: int)
    requires
        prs_chain(states, recs, repository_id, now),
        forall|a: int, b: int|
            0 <= a < b < recs.len() ==> (#[trigger] recs[a]).number != (#[trigger] recs[b]).number,
        0 <= m < recs.len(),
        m < j < states.len(),
    ensures
        0 <= idx < states[j].pull_requests@.len(),
        pr_row_reflects(states[j].pull_requests@[idx], recs[m], repository_id, now),
    decreases j,
{
    if j == m + 1 {
        assert(pr_upsert_outcome(
            states[m],
            states[m + 1],
            recs[m],
            repository_id,
            now,
            Ok(()),
        ));
        assert(states[m + 1] == states[j]);
        match states[m].spec_find_pull_request(repository_id, recs[m].number) {
            Some(k) => {
                lemma_first_where_props(
                    states[m].pull_requests@,
                    crate::store::by_pr_key(repository_id, recs[m].number),
                    0,
                );
                assert(states[j].pull_requests@[k]@ == pr_row_merged(
                    recs[m],
                    repository_id,
                    crate::lookup::spec_pr_state_id(recs[m].state)->0,
                    states[m].pull_requests@[k].id,
                    states[m].pull_requests@[k].created_at,
                    now,
                ));
                assert(states[j].pull_requests@[k].id == states[m].pull_requests@[k].id);
                assert(states[j].pull_requests@[k].created_at == states[m].pull_requests@[k].created_at);
                assert(pr_row_reflects(states[j].pull_requests@[k], recs[m], repository_id, now));
                k
            },
            None => {
                let idx = states[j].pull_requests@.len() - 1;
                assert(states[j].pull_requests@[idx]@ == pr_row_merged(
                    recs[m],
                    repository_id,
                    crate::lookup::spec_pr_state_id(recs[m].state)->0,
                    states[m].next_pull_request_id,
                    now,
                    now,
                ));
                assert(pr_row_reflects(states[j].pull_requests@[idx], recs[m], repository_id, now));
                idx
            },
        }
    } else {
        let idx0 = lemma_pr_chain_write_persists(states, recs, repository_id, now, m, j - 1);
        let step = j - 1;
        assert(pr_upsert_outcome(
            states[step],
            states[step + 1],
            recs[step],
            repository_id,
            now,
            Ok(()),
        ));
        assert(states[step + 1] == states[j]);
        assert(states[j - 1].pull_requests@[idx0].number == recs[m].number);
        match states[j - 1].spec_find_pull_request(repository_id, recs[j - 1].number) {
            Some(k) => {
                lemma_first_where_props(
                    states[j - 1].pull_requests@,
                    crate::store::by_pr_key(repository_id, recs[j - 1].number),
                    0,
                );
                assert(states[j - 1].pull_requests@[k].number == recs[j - 1].number);
                assert(recs[m].number != recs[j - 1].number);
                assert(idx0 != k);
                assert(states[j].pull_requests@[idx0] == states[j - 1].pull_requests@[idx0]);
                idx0
            },
            None => {
                assert(states[j].pull_requests@[idx0] == states[j].pull_requests@.subrange(
                    0,
                    states[j - 1].pull_requests@.len() as int,
                )[idx0]);
                assert(states[j].pull_requests@[idx0] == states[j - 1].pull_requests@[idx0]);
                idx0
            },
        }
    }
}

/// The second chain of a re-applied batch only refreshes bookkeeping.
proof fn lemma_pr_second_chain_converges(
    states1: Seq<Database>,
    states2: Seq<Database>,
    recs: Seq<PullRequestRecordView>,
    repository_id: i64,
    t1: i64,
    t2: i64,
    m: int,
)
    requires
        prs_chain(states1, recs, repository_id, t1),
        prs_chain(states2, recs, repository_id, t2),
        states2[0] == states1[states1.len() - 1],
        pr_keys_unique(states1[0].pull_requests@),
        forall|a: int, b: int|
            0 <= a < b < recs.len() ==> (#[trigger] recs[a]).number != (#[trigger] recs[b]).number,
        0 <= m <= recs.len(),
    ensures
        states2[m].pull_requests@.len() == states2[0].pull_requests@.len(),
        forall|i: int|
            0 <= i < states2[0].pull_requests@.len() ==> (#[trigger] states2[m].pull_requests@[i]).created_at
                == states2[0].pull_requests@[i].created_at,
        forall|i: int|
            0 <= i < states2[0].pull_requests@.len() ==> #[trigger] states2[m].pull_requests@[i]
                == states2[0].pull_requests@[i] || pr_row_refreshed(
                states2[0].pull_requests@[i]@,
                states2[m].pull_requests@[i]@,
                t2,
            ),
    decreases m,
{
    if m > 0 {
        lemma_pr_second_chain_converges(states1, states2, recs, repository_id, t1, t2, m - 1);
        let d1 = states2[0];
        let step = m - 1;
        let s = states2[step];
        assert(pr_upsert_outcome(
            states2[step],
            states2[step + 1],
            recs[step],
            repository_id,
            t2,
            Ok(()),
        ));
        assert(states2[step + 1] == states2[m]);
        // the first chain put this record's write into d1, and it persisted
        let idx = lemma_pr_chain_write_persists(
            states1,
            recs,
            repository_id,
            t1,
            m - 1,
            states1.len() - 1,
        );
        assert(d1.pull_requests@[idx].number == recs[m - 1].number);
        assert(d1.pull_requests@[idx].repository_id == repository_id);
        // the intermediate state keeps the same keys at the same places
        assert(s.pull_requests@[idx].number == recs[m - 1].number && s.pull_requests@[idx].repository_id
            == repository_id && s.pull_requests@[idx].id == d1.pull_requests@[idx].id
            && s.pull_requests@[idx].created_at == d1.pull_requests@[idx].created_at);
        // keys stay unique along both chains, so the lookup lands there
        lemma_pr_chain_keys_unique(states1, recs, repository_id, t1, states1.len() - 1);
        lemma_pr_chain_keys_unique(states2, recs, repository_id, t2, m - 1);
        match s.spec_find_pull_request(repository_id, recs[m - 1].number) {
            None => {
                lemma_first_where_props(
                    s.pull_requests@,
                    crate::store::by_pr_key(repository_id, recs[m - 1].number),
                    0,
                );
                assert(!crate::store::by_pr_key(repository_id, recs[m - 1].number)(
                    s.pull_requests@[idx],
                ));
                assert(false);
            },
            Some(k) => {
                lemma_first_where_props(
                    s.pull_requests@,
                    crate::store::by_pr_key(repository_id, recs[m - 1].number),
                    0,
                );
                assert(s.pull_requests@[k].repository_id == repository_id && s.pull_requests@[k].number
                    == recs[m - 1].number);
                assert(k == idx);
                assert(states2[m].pull_requests@[k]@ == pr_row_merged(
                    recs[m - 1],
                    repository_id,
                    crate::lookup::spec_pr_state_id(recs[m - 1].state)->0,
                    s.pull_requests@[k].id,
                    s.pull_requests@[k].created_at,
                    t2,
                ));
                assert(pr_row_refreshed(d1.pull_requests@[idx]@, states2[m].pull_requests@[idx]@, t2));
            },
        }
    }
}

/// Law: re-syncing the same pull-request batch converges (batch-level
/// idempotence).  After two successful applications of one batch of
/// distinct remote numbers, the pull-request table holds the same rows — local
/// identities and first-recorded timestamps preserved — with at most the
/// bookkeeping timestamps of the matched rows refreshed.  A batch that
/// repeats a number converges too, through its last write, which this law
/// does not cover.
pub proof fn lemma_pr_batch_idempotent(
    d0: Database,
    d1: Database,
    d2: Database,
    recs: Seq<PullRequestRecordView>,
    repository_id: i64,
    t1: i64,
    t2: i64,
)
    requires
        d0.wf(),
        forall|a: int, b: int|
            0 <= a < b < recs.len() ==> (#[trigger] recs[a]).number != (#[trigger] recs[b]).number,
        prs_applied(d0, d1, recs, repository_id, t1),
        prs_applied(d1, d2, recs, repository_id, t2),
    ensures
        d2.pull_requests@.len() == d1.pull_requests@.len(),
        forall|i: int|
            0 <= i < d1.pull_requests@.len() ==> (#[trigger] d2.pull_requests@[i]).created_at
                == d1.pull_requests@[i].created_at,
        forall|i: int|
            0 <= i < d1.pull_requests@.len() ==> #[trigger] d2.pull_requests@[i] == d1.pull_requests@[i]
                || pr_row_refreshed(d1.pull_requests@[i]@, d2.pull_requests@[i]@, t2),
{
    let states1 = choose|states: Seq<Database>|
        {
            &&& #[trigger] prs_chain(states, recs, repository_id, t1)
            &&& states.first() == d0
            &&& states.last() == d1
        };
    let states2 = choose|states: Seq<Database>|
        {
            &&& #[trigger] prs_chain(states, recs, repository_id, t2)
            &&& states.first() == d1
            &&& states.last() == d2
        };
    assert(states2[0] == states1[states1.len() - 1]);
    lemma_pr_second_chain_converges(
        states1,
        states2,
        recs,
        repository_id,
        t1,
        t2,
        recs.len() as int,
    );
}

/// Key uniqueness of a workflow table, as the store invariant carries it.
pub open spec fn workflow_keys_unique(s: Seq<WorkflowRow>) -> bool {
    forall|i: int, j: int|
        0 <= i < j < s.len() ==> !((#[trigger] s[i]).repository_id == (
        #[trigger] s[j]).repository_id && s[i].api_id == s[j].api_id)
}

/// One successful upsert keeps the table's keys unique and never shrinks
/// or reorders it.
proof fn lemma_workflow_upsert_keeps_keys_unique(
    a: Database,
    b: Database,
    rec: WorkflowRecordView,
    repository_id: i64,
    now: i64,
)
    requires
        workflow_upsert_outcome(a, b, rec, repository_id, now, Ok(())),
        workflow_keys_unique(a.workflows@),
    ensures
        workflow_keys_unique(b.workflows@),
{
    match a.spec_find_workflow(repository_id, rec.api_id) {
        Some(k) => {
            lemma_first_where_props(a.workflows@, crate::store::by_workflow_key(repository_id, rec.api_id), 0);
            assert forall|i: int, j: int|
                0 <= i < j < b.workflows@.len() implies !((#[trigger] b.workflows@[i]).repository_id
                == (#[trigger] b.workflows@[j]).repository_id && b.workflows@[i].api_id
                == b.workflows@[j].api_id) by {
                if i != k {
                    assert(b.workflows@[i] == a.workflows@[i]);
                }
                if j != k {
                    assert(b.workflows@[j] == a.workflows@[j]);
                }
                if i == k || j == k {
                    assert(b.workflows@[k].repository_id == a.workflows@[k].repository_id
                        && b.workflows@[k].api_id == a.workflows@[k].api_id);
                }
            }
        },
        None => {
            lemma_first_where_props(a.workflows@, crate::store::by_workflow_key(repository_id, rec.api_id), 0);
            assert forall|i: int, j: int|
                0 <= i < j < b.workflows@.len() implies !((#[trigger] b.workflows@[i]).repository_id
                == (#[trigger] b.workflows@[j]).repository_id && b.workflows@[i].api_id
                == b.workflows@[j].api_id) by {
                if j < b.workflows@.len() - 1 {
                    assert(b.workflows@[i] == b.workflows@.subrange(0, a.workflows@.len() as int)[i]);
                    assert(b.workflows@[i] == a.workflows@[i]);
                    assert(b.workflows@[j] == a.workflows@[j]);
                } else {
                    assert(b.workflows@[i] == b.workflows@.subrange(0, a.workflows@.len() as int)[i]);
                    assert(b.workflows@[i] == a.workflows@[i]);
                    assert(!crate::store::by_workflow_key(repository_id, rec.api_id)(a.workflows@[i]));
                }
            }
        },
    }
}

/// Keys stay unique along a whole upsert chain.
proof fn lemma_workflow_chain_keys_unique(
    states: Seq<Database>,
    recs: Seq<WorkflowRecordView>,
    repository_id: i64,
    now: i64,
    m: int,
)
    requires
        workflows_chain(states, recs, repository_id, now),
        workflow_keys_unique(states[0].workflows@),
        0 <= m < states.len(),
    ensures
        workflow_keys_unique(states[m].workflows@),
    decreases m,
{
    if m > 0 {
        lemma_workflow_chain_keys_unique(states, recs, repository_id, now, m - 1);
        let step = m - 1;
        assert(workflow_upsert_outcome(
            states[step],
            states[step + 1],
            recs[step],
            repository_id,
            now,
            Ok(()),
        ));
        assert(states[step + 1] == states[m]);
        lemma_workflow_upsert_keeps_keys_unique(states[step], states[m], recs[step], repository_id, now);
    }
}

/// A row that reflects a record's successful merge, whatever identifier
/// and first-recorded timestamp it carries.
pub open spec fn workflow_row_reflects(row: WorkflowRow, rec: WorkflowRecordView, repository_id: i64, now: i64) -> bool {
    row@ == workflow_row_merged(rec, repository_id, row.id, row.created_at, now)
}

/// The write of step `m` persists to every later chain state, provided
/// the batch's remote identifiers are distinct.
proof fn lemma_workflow_chain_write_persists(
    states: Seq<Database>,
    recs: Seq<WorkflowRecordView>,
    repository_id: i64,
    now: i64,
    m: int,
    j: int,
) -> (idx: int)
    requires
        workflows_chain(states, recs, repository_id, now),
        forall|a: int, b: int|
            0 <= a < b < recs.len() ==> (#[trigger] recs[a]).api_id != (#[trigger] recs[b]).api_id,
        0 <= m < recs.len(),
        m < j < states.len(),
    ensures
        0 <= idx < states[j].workflows@.len(),
        workflow_row_reflects(states[j].workflows@[idx], recs[m], repository_id, now),
    decreases j,
{
    if j == m + 1 {
        assert(workflow_upsert_outcome(
            states[m],
            states[m + 1],
            recs[m],
            repository_id,
            now,
            Ok(()),
        ));
        assert(states[m + 1] == states[j]);
        match states[m].spec_find_workflow(repository_id, recs[m].api_id) {
            Some(k) => {
                lemma_first_where_props(
                    states[m].workflows@,
                    crate::store::by_workflow_key(repository_id, recs[m].api_id),
                    0,
                );
                assert(states[j].workflows@[k]@ == workflow_row_merged(
                    recs[m],
                    repository_id,
                    states[m].workflows@[k].id,
                    states[m].workflows@[k].created_at,
                    now,
                ));
                assert(states[j].workflows@[k].id == states[m].workflows@[k].id);
                assert(states[j].workflows@[k].created_at == states[m].workflows@[k].created_at);
                assert(workflow_row_reflects(states[j].workflows@[k], recs[m], repository_id, now));
                k
            },
            None => {
                let idx = states[j].workflows@.len() - 1;
                assert(states[j].workflows@[idx]@ == workflow_row_merged(
                    recs[m],
                    repository_id,
                    states[m].next_workflow_id,
                    now,
                    now,
                ));
                assert(workflow_row_reflects(states[j].workflows@[idx], recs[m], repository_id, now));
                idx
            },
        }
    } else {
        let idx0 = lemma_workflow_chain_write_persists(states, recs, repository_id, now, m, j - 1);
        let step = j - 1;
        assert(workflow_upsert_outcome(
            states[step],
            states[step + 1],
            recs[step],
            repository_id,
            now,
            Ok(()),
        ));
        assert(states[step + 1] == states[j]);
        assert(states[j - 1].workflows@[idx0].api_id == recs[m].api_id);
        match states[j - 1].spec_find_workflow(repository_id, recs[j - 1].api_id) {
            Some(k) => {
                lemma_first_where_props(
                    states[j - 1].workflows@,
                    crate::store::by_workflow_key(repository_id, recs[j - 1].api_id),
                    0,
                );
                assert(states[j - 1].workflows@[k].api_id == recs[j - 1].api_id);
                assert(recs[m].api_id != recs[j - 1].api_id);
                assert(idx0 != k);
                assert(states[j].workflows@[idx0] == states[j - 1].workflows@[idx0]);
                idx0
            },
            None => {
                assert(states[j].workflows@[idx0] == states[j].workflows@.subrange(
                    0,
                    states[j - 1].workflows@.len() as int,
                )[idx0]);
                assert(states[j].workflows@[idx0] == states[j - 1].workflows@[idx0]);
                idx0
            },
        }
    }
}

/// The second chain of a re-applied batch only refreshes bookkeeping.
proof fn lemma_workflow_second_chain_converges(
    states1: Seq<Database>,
    states2: Seq<Database>,
    recs: Seq<WorkflowRecordView>,
    repository_id: i64,
    t1: i64,
    t2: i64,
    m: int,
)
    requires
        workflows_chain(states1, recs, repository_id, t1),
        workflows_chain(states2, recs, repository_id, t2),
        states2[0] == states1[states1.len() - 1],
        workflow_keys_unique(states1[0].workflows@),
        forall|a: int, b: int|
            0 <= a < b < recs.len() ==> (#[trigger] recs[a]).api_id != (#[trigger] recs[b]).api_id,
        0 <= m <= recs.len(),
    ensures
        states2[m].workflows@.len() == states2[0].workflows@.len(),
        forall|i: int|
            0 <= i < states2[0].workflows@.len() ==> (#[trigger] states2[m].workflows@[i]).created_at
                == states2[0].workflows@[i].created_at,
        forall|i: int|
            0 <= i < states2[0].workflows@.len() ==> #[trigger] states2[m].workflows@[i]
                == states2[0].workflows@[i] || workflow_row_refreshed(
                states2[0].workflows@[i]@,
                states2[m].workflows@[i]@,
                t2,
            ),
    decreases m,
{
    if m > 0 {
        lemma_workflow_second_chain_converges(states1, states2, recs, repository_id, t1, t2, m - 1);
        let d1 = states2[0];
        let step = m - 1;
        let s = states2[step];
        assert(workflow_upsert_outcome(
            states2[step],
            states2[step + 1],
            recs[step],
            repository_id,
            t2,
            Ok(()),
        ));
        assert(states2[step + 1] == states2[m]);
        // the first chain put this record's write into d1, and it persisted
        let idx = lemma_workflow_chain_write_persists(
            states1,
            recs,
            repository_id,
            t1,
            m - 1,
            states1.len() - 1,
        );
        assert(d1.workflows@[idx].api_id == recs[m - 1].api_id);
        assert(d1.workflows@[idx].repository_id == repository_id);
        // the intermediate state keeps the same keys at the same places
        assert(s.workflows@[idx].api_id == recs[m - 1].api_id && s.workflows@[idx].repository_id
            == repository_id && s.workflows@[idx].id == d1.workflows@[idx].id
            && s.workflows@[idx].created_at == d1.workflows@[idx].created_at);
        // keys stay unique along both chains, so the lookup lands there
        lemma_workflow_chain_keys_unique(states1, recs, repository_id, t1, states1.len() - 1);
        lemma_workflow_chain_keys_unique(states2, recs, repository_id, t2, m - 1);
        match s.spec_find_workflow(repository_id, recs[m - 1].api_id) {
            None => {
                lemma_first_where_props(
                    s.workflows@,
                    crate::store::by_workflow_key(repository_id, recs[m - 1].api_id),
                    0,
                );
                assert(!crate::store::by_workflow_key(repository_id, recs[m - 1].api_id)(
                    s.workflows@[idx],
                ));
                assert(false);
            },
            Some(k) => {
                lemma_first_where_props(
                    s.workflows@,
                    crate::store::by_workflow_key(repository_id, recs[m - 1].api_id),
                    0,
                );
                assert(s.workflows@[k].repository_id == repository_id && s.workflows@[k].api_id
                    == recs[m - 1].api_id);
                assert(k == idx);
                assert(states2[m].workflows@[k]@ == workflow_row_merged(
                    recs[m - 1],
                    repository_id,
                    s.workflows@[k].id,
                    s.workflows@[k].created_at,
                    t2,
                ));
                assert(workflow_row_refreshed(d1.workflows@[idx]@, states2[m].workflows@[idx]@, t2));
            },
        }
    }
}

/// Law: re-syncing the same workflow batch converges (batch-level
/// idempotence).  After two successful applications of one batch of
/// distinct remote identifiers, the workflow table holds the same rows — local
/// identities and first-recorded timestamps preserved — with at most the
/// bookkeeping timestamps of the matched rows refreshed.  A batch that
/// repeats an identifier converges too, through its last write, which this law
/// does not cover.
pub proof fn lemma_workflow_batch_idempotent(
    d0: Database,
    d1: Database,
    d2: Database,
    recs: Seq<WorkflowRecordView>,
    repository_id: i64,
    t1: i64,
    t2: i64,
)
    requires
        d0.wf(),
        forall|a: int, b: int|
            0 <= a < b < recs.len() ==> (#[trigger] recs[a]).api_id != (#[trigger] recs[b]).api_id,
        workflows_applied(d0, d1, recs, repository_id, t1),
        workflows_applied(d1, d2, recs, repository_id, t2),
    ensures
        d2.workflows@.len() == d1.workflows@.len(),
        forall|i: int|
            0 <= i < d1.workflows@.len() ==> (#[trigger] d2.workflows@[i]).created_at
                == d1.workflows@[i].created_at,
        forall|i: int|
            0 <= i < d1.workflows@.len() ==> #[trigger] d2.workflows@[i] == d1.workflows@[i]
                || workflow_row_refreshed(d1.workflows@[i]@, d2.workflows@[i]@, t2),
{
    let states1 = choose|states: Seq<Database>|
        {
            &&& #[trigger] workflows_chain(states, recs, repository_id, t1)
            &&& states.first() == d0
            &&& states.last() == d1
        };
    let states2 = choose|states: Seq<Database>|
        {
            &&& #[trigger] workflows_chain(states, recs, repository_id, t2)
            &&& states.first() == d1
            &&& states.last() == d2
        };
    assert(states2[0] == states1[states1.len() - 1]);
    lemma_workflow_second_chain_converges(
        states1,
        states2,
        recs,
        repository_id,
        t1,
        t2,
        recs.len() as int,
    );
}

/// Law: a failed resource sync leaves the incremental cutoff exactly where
/// it was, so the next attempt refetches the same window.
pub proof fn lemma_failed_sync_retries_same_cutoff(
    pre: Database,
    post: Database,
    fetched: Result<Seq<IssueRecordView>, SyncError>,
    repository_id: i64,
    now: i64,
    e: SyncError,
)
    requires
        issues_sync_outcome(pre, post, fetched, repository_id, now, Err(e)),
    ensures
        post.spec_find_repository(repository_id) == pre.spec_find_repository(repository_id),
        match pre.spec_find_repository(repository_id) {
            Some(k) => post.repositories@[k].spec_cursor(ResourceKind::Issues)
                == pre.repositories@[k].spec_cursor(ResourceKind::Issues),
            None => true,
        },
{
    let p = by_repository_id(repository_id);
    match pre.spec_find_repository(repository_id) {
        None => {
        },
        Some(k) => {
            assert forall|j: int|
                0 <= j < pre.repositories@.len() implies p(#[trigger] pre.repositories@[j]) == p(
                #[trigger] post.repositories@[j]) by {
                if j != k {
                    assert(post.repositories@[j] == pre.repositories@[j]);
                } else {
                    assert(post.repositories@[j].id == pre.repositories@[j].id);
                }
            }
            crate::sequtil::lemma_first_where_congruent(
                pre.repositories@,
                post.repositories@,
                p,
                0,
            );
        },
    }
}

/// Law: a failed pull-request sync, like a failed issue sync, leaves the
/// incremental cutoff exactly where it was, so the next attempt refetches
/// the same window.
pub proof fn lemma_failed_pr_sync_retries_same_cutoff(
    pre: Database,
    post: Database,
    fetched: Result<Seq<PullRequestRecordView>, SyncError>,
    repository_id: i64,
    now: i64,
    e: SyncError,
)
    requires
        prs_sync_outcome(pre, post, fetched, repository_id, now, Err(e)),
    ensures
        post.spec_find_repository(repository_id) == pre.spec_find_repository(repository_id),
        match pre.spec_find_repository(repository_id) {
            Some(k) => post.repositories@[k].spec_cursor(ResourceKind::PullRequests)
                == pre.repositories@[k].spec_cursor(ResourceKind::PullRequests),
            None => true,
        },
{
    let p = by_repository_id(repository_id);
    match pre.spec_find_repository(repository_id) {
        None => {
        },
        Some(k) => {
            assert forall|j: int|
                0 <= j < pre.repositories@.len() implies p(#[trigger] pre.repositories@[j]) == p(
                #[trigger] post.repositories@[j]) by {
                if j != k {
                    assert(post.repositories@[j] == pre.repositories@[j]);
                } else {
                    assert(post.repositories@[j].id == pre.repositories@[j].id);
                }
            }
            crate::sequtil::lemma_first_where_congruent(
                pre.repositories@,
                post.repositories@,
                p,
                0,
            );
        },
    }
}

/// Law: a failed workflow sync, like a failed issue sync, leaves the
/// incremental cutoff exactly where it was, so the next attempt refetches
/// the same window.
pub proof fn lemma_failed_workflow_sync_retries_same_cutoff(
    pre: Database,
    post: Database,
    fetched: Result<Seq<WorkflowRecordView>, SyncError>,
    repository_id: i64,
    now: i64,
    e: SyncError,
)
    requires
        workflows_sync_outcome(pre, post, fetched, repository_id, now, Err(e)),
    ensures
        post.spec_find_repository(repository_id) == pre.spec_find_repository(repository_id),
        match pre.spec_find_repository(repository_id) {
            Some(k) => post.repositories@[k].spec_cursor(ResourceKind::WorkflowRuns)
                == pre.repositories@[k].spec_cursor(ResourceKind::WorkflowRuns),
            None => true,
        },
{
    let p = by_repository_id(repository_id);
    match pre.spec_find_repository(repository_id) {
        None => {
        },
        Some(k) => {
            assert forall|j: int|
                0 <= j < pre.repositories@.len() implies p(#[trigger] pre.repositories@[j]) == p(
                #[trigger] post.repositories@[j]) by {
                if j != k {
                    assert(post.repositories@[j] == pre.repositories@[j]);
                } else {
                    assert(post.repositories@[j].id == pre.repositories@[j].id);
                }
            }
            crate::sequtil::lemma_first_where_congruent(
                pre.repositories@,
                post.repositories@,
                p,
                0,
            );
        },
    }
}


impl Database {
    /// Records one resource sync attempt's outcome on a repository's
    /// cursor pair, as [`repo_marked`] describes; an unknown repository is
    /// a harmless no-op.
    pub fn update_repository_sync_timestamp(
        &mut self,
        repository_id: i64,
        kind: ResourceKind,
        success: bool,
        now: i64,
    ) -> (r: Result<(), SyncError>)
        requires
            old(self).wf(),
        ensures
            final(self).wf(),
            r is Ok,
            match old(self).spec_find_repository(repository_id) {
                Some(k) => {
                    &&& final(self).repositories@.len() == old(self).repositories@.len()
                    &&& final(self).repositories@[k] == repo_marked(
                        old(self).repositories@[k],
                        kind,
                        success,
                        now,
                    )
                    &&& forall|i: int|
                        0 <= i < old(self).repositories@.len() && i != k
                            ==> final(self).repositories@[i] == old(self).repositories@[i]
                    &&& *final(self) == (Database {
                        repositories: final(self).repositories,
                        ..*old(self)
                    })
                },
                None => *final(self) == *old(self),
            },
    {
        let k = match self.find_repository(repository_id) {
            Some(k) => k,
            None => {
                return Ok(());
            },
        };
        proof {
            lemma_first_where_props(self.repositories@, by_repository_id(repository_id), 0);
        }
        self.mark_resource_sync(k, kind, success, now);
        Ok(())
    }

}


/// What the periodic scheduler should do on one timer tick.
#[derive(Clone, Copy, PartialEq, Eq, Structural, Debug)]
pub enum SchedulerAction {
    /// Auto-sync is off: keep waiting.
    Wait,
    /// The configured interval changed: restart the timer instead of
    /// requiring a process restart.
    RestartTimer,
    /// A campaign is already running: skip this tick.
    Skip,
    /// Start a campaign.
    RunCampaign,
}

/// Decides one scheduler tick: auto-sync off waits, a changed interval
/// restarts the timer, a running campaign is skipped, and otherwise a
/// campaign starts.  The driver owns the timer; this owns the decision.
pub fn scheduler_action(
    settings: &crate::domain::SyncSettings,
    timer_interval_minutes: u64,
    sync_in_progress: bool,
) -> (a: SchedulerAction)
    ensures
        a == (if !settings.auto_sync_enabled {
            SchedulerAction::Wait
        } else if settings.sync_interval_minutes != timer_interval_minutes {
            SchedulerAction::RestartTimer
        } else if sync_in_progress {
            SchedulerAction::Skip
        } else {
            SchedulerAction::RunCampaign
        }),
{
    if !settings.auto_sync_enabled {
        SchedulerAction::Wait
    } else if settings.sync_interval_minutes != timer_interval_minutes {
        SchedulerAction::RestartTimer
    } else if sync_in_progress {
        SchedulerAction::Skip
    } else {
        SchedulerAction::RunCampaign
    }
}


/// What the all-providers walk does at position `i` of the provider table:
/// stop at the end, skip a provider that is not yet initialized without
/// counting it, and otherwise sync it.
#[derive(Clone, Copy, PartialEq, Eq, Structural, Debug)]
pub enum ProviderAction {
    Done,
    Skip,
    SyncProvider(i64),
}

/// The sum of a batch of per-resource item counts.
pub open spec fn spec_sum_u32(s: Seq<u32>) -> int
    decreases s.len(),
{
    if s.len() == 0 {
        0
    } else {
        spec_sum_u32(s.drop_last()) + s.last()
    }
}

/// A prefix never sums to more than the whole batch.
proof fn lemma_sum_u32_prefix(s: Seq<u32>, k: int)
    requires
        0 <= k <= s.len(),
    ensures
        spec_sum_u32(s.subrange(0, k)) <= spec_sum_u32(s),
    decreases s.len() - k,
{
    if k == s.len() {
        assert(s.subrange(0, k) =~= s);
    } else {
        lemma_sum_u32_prefix(s, k + 1);
        assert(s.subrange(0, k + 1).drop_last() =~= s.subrange(0, k));
        assert(s.subrange(0, k + 1).last() == s[k]);
    }
}

/// Folds the per-resource item counts and the error tally of a campaign
/// into the history record's fields, clamped into their columns.
pub fn summarize_campaign(ok_counts: &Vec<u32>, errors_count: usize) -> (r: (i32, i32))
    ensures
        r.0 as int == if spec_sum_u32(ok_counts@) > i32::MAX {
            i32::MAX as int
        } else {
            spec_sum_u32(ok_counts@)
        },
        r.1 as int == if errors_count > i32::MAX {
            i32::MAX as int
        } else {
            errors_count as int
        },
{
    let mut acc: u64 = 0;
    let mut i: usize = 0;
    while i < ok_counts.len()
        invariant
            i <= ok_counts@.len(),
            acc <= i32::MAX as u64,
            acc as int == spec_sum_u32(ok_counts@.subrange(0, i as int)),
        decreases ok_counts@.len() - i,
    {
        let grown = acc + (ok_counts[i] as u64);
        proof {
            assert(ok_counts@.subrange(0, i + 1).drop_last() =~= ok_counts@.subrange(0, i as int));
            assert(ok_counts@.subrange(0, i + 1).last() == ok_counts@[i as int]);
        }
        if grown > (i32::MAX as u64) {
            proof {
                lemma_sum_u32_prefix(ok_counts@, i + 1);
            }
            let errors: i32 = if errors_count > (i32::MAX as usize) {
                i32::MAX
            } else {
                errors_count as i32
            };
            return (i32::MAX, errors);
        }
        acc = grown;
        i = i + 1;
    }
    proof {
        assert(ok_counts@.subrange(0, ok_counts@.len() as int) =~= ok_counts@);
    }
    let errors: i32 = if errors_count > (i32::MAX as usize) {
        i32::MAX
    } else {
        errors_count as i32
    };
    (acc as i32, errors)
}

impl Database {
    /// Decides the all-providers walk at position `i` of the provider
    /// table.
    pub fn next_provider_action(&self, i: usize) -> (r: ProviderAction)
        ensures
            r == (if i >= self.providers@.len() {
                ProviderAction::Done
            } else if !self.providers@[i as int].is_initialized {
                ProviderAction::Skip
            } else {
                ProviderAction::SyncProvider(self.providers@[i as int].id)
            }),
    {
        if i >= self.providers.len() {
            ProviderAction::Done
        } else if !self.providers[i].is_initialized {
            ProviderAction::Skip
        } else {
            ProviderAction::SyncProvider(self.providers[i].id)
        }
    }
}

} // verus!
