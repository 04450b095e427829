//! The local store: an in-memory relational mirror with a well-formedness
//! invariant (unique identifiers, unique resource keys) and the process-wide
//! single-flight sync latch.

use vstd::prelude::*;
use vstd::string::StringExecFns;
use crate::domain::{GitProvider, Repository, IssueRow, PullRequestRow, WorkflowRow, SyncHistory};
use crate::sequtil::first_where;

verus! {

/// Key predicate: a provider with this identifier.
pub open spec fn by_provider_id(id: i64) -> spec_fn(GitProvider) -> bool {
    |p: GitProvider| p.id == id
}

/// Key predicate: a repository with this identifier.
pub open spec fn by_repository_id(id: i64) -> spec_fn(Repository) -> bool {
    |r: Repository| r.id == id
}

/// Key predicate: a repository owned by this provider.
pub open spec fn by_repo_provider(provider_id: i64) -> spec_fn(Repository) -> bool {
    |r: Repository| r.provider_id == provider_id
}

/// Key predicate: an issue row of this repository with this remote number.
pub open spec fn by_issue_key(repository_id: i64, number: u32) -> spec_fn(IssueRow) -> bool {
    |r: IssueRow| r.repository_id == repository_id && r.number == number
}

/// Key predicate: a pull-request row of this repository with this remote
/// number.
pub open spec fn by_pr_key(repository_id: i64, number: u32) -> spec_fn(PullRequestRow) -> bool {
    |r: PullRequestRow| r.repository_id == repository_id && r.number == number
}

/// Key predicate: a workflow row of this repository with this remote
/// identifier.
pub open spec fn by_workflow_key(repository_id: i64, api_id: u64) -> spec_fn(WorkflowRow) -> bool {
    |r: WorkflowRow| r.repository_id == repository_id && r.api_id == api_id
}

/// Key predicate: a history record with this identifier.
pub open spec fn by_history_id(id: i64) -> spec_fn(SyncHistory) -> bool {
    |h: SyncHistory| h.id == id
}

/// What one attempt to take the sync latch does: the latch is held
/// afterwards either way, and the attempt is granted exactly when the latch
/// was released before.
pub open spec fn latch_acquire(db: Database) -> (Database, bool) {
    ((Database { sync_in_progress: true, ..db }), !db.sync_in_progress)
}

/// Law: the campaign latch is exclusive.  Of two attempts racing to start a
/// campaign from an idle engine, serialized either way, exactly the first
/// is granted and the second answers busy at once.
pub proof fn lemma_sync_latch_exclusive(db: Database)
    requires
        !db.sync_in_progress,
    ensures
        ({
            let (d1, first_granted) = latch_acquire(db);
            let (_d2, second_granted) = latch_acquire(d1);
            first_granted && !second_granted
        }),
{
}

/// The in-memory mirror store.  Rows are held in insertion order; surrogate
/// identifiers grow monotonically and are never reused.
pub struct Database {
    pub providers: Vec<GitProvider>,
    pub repositories: Vec<Repository>,
    pub issues: Vec<IssueRow>,
    pub pull_requests: Vec<PullRequestRow>,
    pub workflows: Vec<WorkflowRow>,
    pub sync_history: Vec<SyncHistory>,
    /// The process-wide sync latch; at most one campaign runs while it is
    /// set.
    pub sync_in_progress: bool,
    pub next_provider_id: i64,
    pub next_repository_id: i64,
    pub next_issue_id: i64,
    pub next_pull_request_id: i64,
    pub next_workflow_id: i64,
    pub next_history_id: i64,
}

impl Database {
    pub open spec fn providers_ok(&self) -> bool {
        &&& 0 < self.next_provider_id
        &&& forall|i: int|
            0 <= i < self.providers@.len() ==> 0 < (#[trigger] self.providers@[i]).id
                < self.next_provider_id
        &&& forall|i: int, j: int|
            0 <= i < j < self.providers@.len() ==> (#[trigger] self.providers@[i]).id != (
            #[trigger] self.providers@[j]).id
    }

    pub open spec fn repositories_ok(&self) -> bool {
        &&& 0 < self.next_repository_id
        &&& forall|i: int|
            0 <= i < self.repositories@.len() ==> 0 < (#[trigger] self.repositories@[i]).id
                < self.next_repository_id
        &&& forall|i: int, j: int|
            0 <= i < j < self.repositories@.len() ==> (#[trigger] self.repositories@[i]).id != (
            #[trigger] self.repositories@[j]).id
    }

    pub open spec fn issues_ok(&self) -> bool {
        &&& 0 < self.next_issue_id
        &&& forall|i: int|
            0 <= i < self.issues@.len() ==> 0 < (#[trigger] self.issues@[i]).id
                < self.next_issue_id
        &&& forall|i: int, j: int|
            0 <= i < j < self.issues@.len() ==> (#[trigger] self.issues@[i]).id != (
            #[trigger] self.issues@[j]).id
        &&& forall|i: int, j: int|
            0 <= i < j < self.issues@.len() ==> !((#[trigger] self.issues@[i]).repository_id == (
            #[trigger] self.issues@[j]).repository_id && self.issues@[i].number
                == self.issues@[j].number)
    }

    pub open spec fn pull_requests_ok(&self) -> bool {
        &&& 0 < self.next_pull_request_id
        &&& forall|i: int|
            0 <= i < self.pull_requests@.len() ==> 0 < (#[trigger] self.pull_requests@[i]).id
                < self.next_pull_request_id
        &&& forall|i: int, j: int|
            0 <= i < j < self.pull_requests@.len() ==> (#[trigger] self.pull_requests@[i]).id != (
            #[trigger] self.pull_requests@[j]).id
        &&& forall|i: int, j: int|
            0 <= i < j < self.pull_requests@.len() ==> !((
            #[trigger] self.pull_requests@[i]).repository_id == (
            #[trigger] self.pull_requests@[j]).repository_id && self.pull_requests@[i].number
                == self.pull_requests@[j].number)
    }

    pub open spec fn workflows_ok(&self) -> bool {
        &&& 0 < self.next_workflow_id
        &&& forall|i: int|
            0 <= i < self.workflows@.len() ==> 0 < (#[trigger] self.workflows@[i]).id
                < self.next_workflow_id
        &&& forall|i: int, j: int|
            0 <= i < j < self.workflows@.len() ==> (#[trigger] self.workflows@[i]).id != (
            #[trigger] self.workflows@[j]).id
        &&& forall|i: int, j: int|
            0 <= i < j < self.workflows@.len() ==> !((
            #[trigger] self.workflows@[i]).repository_id == (
            #[trigger] self.workflows@[j]).repository_id && self.workflows@[i].api_id
                == self.workflows@[j].api_id)
    }

    pub open spec fn history_ok(&self) -> bool {
        &&& 0 < self.next_history_id
        &&& forall|i: int|
            0 <= i < self.sync_history@.len() ==> 0 < (#[trigger] self.sync_history@[i]).id
                < self.next_history_id
        &&& forall|i: int, j: int|
            0 <= i < j < self.sync_history@.len() ==> (#[trigger] self.sync_history@[i]).id != (
            #[trigger] self.sync_history@[j]).id
    }

    /// Well-formedness of the whole store: identifiers unique and below
    /// their next-identifier counters, resource keys unique per table.
    pub open spec fn wf(&self) -> bool {
        &&& self.providers_ok()
        &&& self.repositories_ok()
        &&& self.issues_ok()
        &&& self.pull_requests_ok()
        &&& self.workflows_ok()
        &&& self.history_ok()
    }

    /// Index of the provider with this identifier, if any.
    pub open spec fn spec_find_provider(&self, id: i64) -> Option<int> {
        first_where(self.providers@, by_provider_id(id), 0)
    }

    /// Index of the repository with this identifier, if any.
    pub open spec fn spec_find_repository(&self, id: i64) -> Option<int> {
        first_where(self.repositories@, by_repository_id(id), 0)
    }

    /// Index of the issue row with this key, if any.
    pub open spec fn spec_find_issue(&self, repository_id: i64, number: u32) -> Option<int> {
        first_where(self.issues@, by_issue_key(repository_id, number), 0)
    }

    /// Index of the pull-request row with this key, if any.
    pub open spec fn spec_find_pull_request(&self, repository_id: i64, number: u32) -> Option<
        int,
    > {
        first_where(self.pull_requests@, by_pr_key(repository_id, number), 0)
    }

    /// Index of the workflow row with this key, if any.
    pub open spec fn spec_find_workflow(&self, repository_id: i64, api_id: u64) -> Option<int> {
        first_where(self.workflows@, by_workflow_key(repository_id, api_id), 0)
    }

    /// Index of the history record with this identifier, if any.
    pub open spec fn spec_find_history(&self, id: i64) -> Option<int> {
        first_where(self.sync_history@, by_history_id(id), 0)
    }

    pub(crate) fn find_provider(&self, id: i64) -> (r: Option<usize>)
        ensures
            match r {
                Some(i) => self.spec_find_provider(id) == Some(i as int),
                None => self.spec_find_provider(id) is None,
            },
    {
        let ghost p = by_provider_id(id);
        let mut i: usize = 0;
        while i < self.providers.len()
            invariant
                p == by_provider_id(id),
                i <= self.providers@.len(),
                first_where(self.providers@, p, 0) == first_where(self.providers@, p, i as int),
            decreases self.providers@.len() - i,
        {
            if self.providers[i].id == id {
                proof {
                    assert(p(self.providers@[i as int]));
                    assert(first_where(self.providers@, p, i as int) == Some(i as int));
                }
                return Some(i);
            }
            proof {
                assert(!p(self.providers@[i as int]));
                assert(first_where(self.providers@, p, i as int) == first_where(
                    self.providers@,
                    p,
                    i as int + 1,
                ));
            }
            i = i + 1;
        }
        proof {
            assert(first_where(self.providers@, p, i as int) is None);
        }
        None
    }

    pub(crate) fn find_repository(&self, id: i64) -> (r: Option<usize>)
        ensures
            match r {
                Some(i) => self.spec_find_repository(id) == Some(i as int),
                None => self.spec_find_repository(id) is None,
            },
    {
        let ghost p = by_repository_id(id);
        let mut i: usize = 0;
        while i < self.repositories.len()
            invariant
                p == by_repository_id(id),
                i <= self.repositories@.len(),
                first_where(self.repositories@, p, 0) == first_where(
                    self.repositories@,
                    p,
                    i as int,
                ),
            decreases self.repositories@.len() - i,
        {
            if self.repositories[i].id == id {
                proof {
                    assert(p(self.repositories@[i as int]));
                    assert(first_where(self.repositories@, p, i as int) == Some(i as int));
                }
                return Some(i);
            }
            proof {
                assert(!p(self.repositories@[i as int]));
                assert(first_where(self.repositories@, p, i as int) == first_where(
                    self.repositories@,
                    p,
                    i as int + 1,
                ));
            }
            i = i + 1;
        }
        proof {
            assert(first_where(self.repositories@, p, i as int) is None);
        }
        None
    }

    pub(crate) fn find_issue(&self, repository_id: i64, number: u32) -> (r: Option<usize>)
        ensures
            match r {
                Some(i) => self.spec_find_issue(repository_id, number) == Some(i as int),
                None => self.spec_find_issue(repository_id, number) is None,
            },
    {
        let ghost p = by_issue_key(repository_id, number);
        let mut i: usize = 0;
        while i < self.issues.len()
            invariant
                p == by_issue_key(repository_id, number),
                i <= self.issues@.len(),
                first_where(self.issues@, p, 0) == first_where(self.issues@, p, i as int),
            decreases self.issues@.len() - i,
        {
            if self.issues[i].repository_id == repository_id && self.issues[i].number == number {
                proof {
                    assert(p(self.issues@[i as int]));
                    assert(first_where(self.issues@, p, i as int) == Some(i as int));
                }
                return Some(i);
            }
            proof {
                assert(!p(self.issues@[i as int]));
                assert(first_where(self.issues@, p, i as int) == first_where(
                    self.issues@,
                    p,
                    i as int + 1,
                ));
            }
            i = i + 1;
        }
        proof {
            assert(first_where(self.issues@, p, i as int) is None);
        }
        None
    }

    pub(crate) fn find_pull_request(&self, repository_id: i64, number: u32) -> (r: Option<usize>)
        ensures
            match r {
                Some(i) => self.spec_find_pull_request(repository_id, number) == Some(i as int),
                None => self.spec_find_pull_request(repository_id, number) is None,
            },
    {
        let ghost p = by_pr_key(repository_id, number);
        let mut i: usize = 0;
        while i < self.pull_requests.len()
            invariant
                p == by_pr_key(repository_id, number),
                i <= self.pull_requests@.len(),
                first_where(self.pull_requests@, p, 0) == first_where(
                    self.pull_requests@,
                    p,
                    i as int,
                ),
            decreases self.pull_requests@.len() - i,
        {
            if self.pull_requests[i].repository_id == repository_id && self.pull_requests[i].number
                == number {
                proof {
                    assert(p(self.pull_requests@[i as int]));
                    assert(first_where(self.pull_requests@, p, i as int) == Some(i as int));
                }
                return Some(i);
            }
            proof {
                assert(!p(self.pull_requests@[i as int]));
                assert(first_where(self.pull_requests@, p, i as int) == first_where(
                    self.pull_requests@,
                    p,
                    i as int + 1,
                ));
            }
            i = i + 1;
        }
        proof {
            assert(first_where(self.pull_requests@, p, i as int) is None);
        }
        None
    }

    pub(crate) fn find_workflow(&self, repository_id: i64, api_id: u64) -> (r: Option<usize>)
        ensures
            match r {
                Some(i) => self.spec_find_workflow(repository_id, api_id) == Some(i as int),
                None => self.spec_find_workflow(repository_id, api_id) is None,
            },
    {
        let ghost p = by_workflow_key(repository_id, api_id);
        let mut i: usize = 0;
        while i < self.workflows.len()
            invariant
                p == by_workflow_key(repository_id, api_id),
                i <= self.workflows@.len(),
                first_where(self.workflows@, p, 0) == first_where(self.workflows@, p, i as int),
            decreases self.workflows@.len() - i,
        {
            if self.workflows[i].repository_id == repository_id && self.workflows[i].api_id
                == api_id {
                proof {
                    assert(p(self.workflows@[i as int]));
                    assert(first_where(self.workflows@, p, i as int) == Some(i as int));
                }
                return Some(i);
            }
            proof {
                assert(!p(self.workflows@[i as int]));
                assert(first_where(self.workflows@, p, i as int) == first_where(
                    self.workflows@,
                    p,
                    i as int + 1,
                ));
            }
            i = i + 1;
        }
        proof {
            assert(first_where(self.workflows@, p, i as int) is None);
        }
        None
    }

    pub(crate) fn find_history(&self, id: i64) -> (r: Option<usize>)
        ensures
            match r {
                Some(i) => self.spec_find_history(id) == Some(i as int),
                None => self.spec_find_history(id) is None,
            },
    {
        let ghost p = by_history_id(id);
        let mut i: usize = 0;
        while i < self.sync_history.len()
            invariant
                p == by_history_id(id),
                i <= self.sync_history@.len(),
                first_where(self.sync_history@, p, 0) == first_where(
                    self.sync_history@,
                    p,
                    i as int,
                ),
            decreases self.sync_history@.len() - i,
        {
            if self.sync_history[i].id == id {
                proof {
                    assert(p(self.sync_history@[i as int]));
                    assert(first_where(self.sync_history@, p, i as int) == Some(i as int));
                }
                return Some(i);
            }
            proof {
                assert(!p(self.sync_history@[i as int]));
                assert(first_where(self.sync_history@, p, i as int) == first_where(
                    self.sync_history@,
                    p,
                    i as int + 1,
                ));
            }
            i = i + 1;
        }
        proof {
            assert(first_where(self.sync_history@, p, i as int) is None);
        }
        None
    }

    /// A fresh store holding the two seeded default providers and nothing
    /// else, with the sync latch released.
    pub fn new(now: i64) -> (db: Database)
        ensures
            db.wf(),
            !db.sync_in_progress,
            db.repositories@.len() == 0,
            db.issues@.len() == 0,
            db.pull_requests@.len() == 0,
            db.workflows@.len() == 0,
            db.sync_history@.len() == 0,
            db.providers@.len() == 2,
            db.providers@[0].id == 1,
            db.providers@[0].name@ == "GitHub.com"@,
            db.providers@[0].provider_type@ == "github"@,
            db.providers@[0].base_url@ == "https://github.com"@,
            db.providers@[0].api_base_url@ == "https://api.github.com"@,
            db.providers@[0].token is None,
            !db.providers@[0].token_valid,
            !db.providers@[0].is_initialized,
            db.providers@[0].created_at == now,
            db.providers@[0].updated_at == now,
            db.providers@[1].id == 2,
            db.providers@[1].name@ == "GitLab.com"@,
            db.providers@[1].provider_type@ == "gitlab"@,
            db.providers@[1].base_url@ == "https://gitlab.com"@,
            db.providers@[1].api_base_url@ == "https://gitlab.com/api/v4"@,
            db.providers@[1].token is None,
            !db.providers@[1].token_valid,
            !db.providers@[1].is_initialized,
            db.providers@[1].created_at == now,
            db.providers@[1].updated_at == now,
            db.next_provider_id == 3,
            db.next_repository_id == 1,
            db.next_issue_id == 1,
            db.next_pull_request_id == 1,
            db.next_workflow_id == 1,
            db.next_history_id == 1,
    {
        let github = GitProvider {
            id: 1,
            name: String::from_str("GitHub.com"),
            provider_type: String::from_str("github"),
            base_url: String::from_str("https://github.com"),
            api_base_url: String::from_str("https://api.github.com"),
            token: None,
            token_valid: false,
            is_initialized: false,
            created_at: now,
            updated_at: now,
        };
        let gitlab = GitProvider {
            id: 2,
            name: String::from_str("GitLab.com"),
            provider_type: String::from_str("gitlab"),
            base_url: String::from_str("https://gitlab.com"),
            api_base_url: String::from_str("https://gitlab.com/api/v4"),
            token: None,
            token_valid: false,
            is_initialized: false,
            created_at: now,
            updated_at: now,
        };
        let mut providers: Vec<GitProvider> = Vec::new();
        providers.push(github);
        providers.push(gitlab);
        Database {
            providers,
            repositories: Vec::new(),
            issues: Vec::new(),
            pull_requests: Vec::new(),
            workflows: Vec::new(),
            sync_history: Vec::new(),
            sync_in_progress: false,
            next_provider_id: 3,
            next_repository_id: 1,
            next_issue_id: 1,
            next_pull_request_id: 1,
            next_workflow_id: 1,
            next_history_id: 1,
        }
    }

    /// Whether a sync campaign is currently running.
    pub fn is_sync_in_progress(&self) -> (r: bool)
        ensures
            r == self.sync_in_progress,
    {
        self.sync_in_progress
    }

    /// Whether a sync campaign is currently running.
    pub fn get_sync_status(&self) -> (r: bool)
        ensures
            r == self.sync_in_progress,
    {
        self.sync_in_progress
    }

    /// Tries to enter the `Running` state.  Exactly like a compare-and-swap
    /// of the latch from released to held: it grants exactly when the latch
    /// was released, and the latch is held afterwards either way.
    pub fn try_start_sync(&mut self) -> (granted: bool)
        ensures
            granted == !old(self).sync_in_progress,
            *final(self) == (Database { sync_in_progress: true, ..*old(self) }),
            (*final(self), granted) == latch_acquire(*old(self)),
    {
        if self.sync_in_progress {
            false
        } else {
            self.sync_in_progress = true;
            true
        }
    }

    /// Releases the sync latch unconditionally; nothing else changes.
    pub fn reset_sync_lock(&mut self)
        ensures
            *final(self) == (Database { sync_in_progress: false, ..*old(self) }),
    {
        self.sync_in_progress = false;
    }
}

} // verus!
