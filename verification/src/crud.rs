//! Provider and repository bookkeeping: registration, lookup, credential
//! updates, and cascading deletion.

use vstd::prelude::*;
use vstd::pervasive::VecAdditionalExecFns;
use vstd::string::StringExecFns;
use crate::domain::{GitProvider, Repository, IssueRow, PullRequestRow, WorkflowRow, SyncError};
use crate::lookup::spec_provider_type_id;
use crate::lookup::provider_type_id;
use crate::sequtil::{first_where, lemma_filter_push, lemma_filter_all, lemma_filter_pairwise};
use crate::strutil::str_eq;
use crate::store::{Database, by_provider_id, by_repository_id};

verus! {

/// What the store keeps for a registered provider: the caller's fields under
/// a fresh identifier.
pub open spec fn stored_provider(p: GitProvider, src: GitProvider, id: i64) -> bool {
    &&& p.id == id
    &&& p.name == src.name
    &&& p.provider_type == src.provider_type
    &&& p.base_url == src.base_url
    &&& p.api_base_url == src.api_base_url
    &&& p.token == src.token
    &&& p.token_valid == src.token_valid
    &&& p.is_initialized == src.is_initialized
    &&& p.created_at == src.created_at
    &&& p.updated_at == src.updated_at
}

/// What the store keeps for an added repository: the caller's fields under a
/// fresh identifier, the owning provider's name and kind denormalized in,
/// and all three resource cursors unset.
pub open spec fn stored_repository(r: Repository, src: Repository, id: i64, owner: GitProvider) -> bool {
    &&& r.id == id
    &&& r.api_id == src.api_id
    &&& r.name == src.name
    &&& r.full_name == src.full_name
    &&& r.web_url == src.web_url
    &&& r.api_base_url == src.api_base_url
    &&& r.description == src.description
    &&& r.provider_id == src.provider_id
    &&& r.provider_name == owner.name
    &&& r.provider_type == owner.provider_type
    &&& r.is_private == src.is_private
    &&& r.language == src.language
    &&& r.last_activity == src.last_activity
    &&& r.api_created_at == src.api_created_at
    &&& r.api_updated_at == src.api_updated_at
    &&& r.last_issues_sync_success is None
    &&& r.last_pull_requests_sync_success is None
    &&& r.last_workflows_sync_success is None
    &&& r.last_issues_sync_status is None
    &&& r.last_pull_requests_sync_status is None
    &&& r.last_workflows_sync_status is None
    &&& r.created_at == src.created_at
    &&& r.updated_at == src.updated_at
}

/// Keep predicate of a provider deletion.
pub open spec fn keep_other_provider(id: i64) -> spec_fn(GitProvider) -> bool {
    |p: GitProvider| p.id != id
}

/// Keep predicate of a repository deletion.
pub open spec fn keep_other_repository(id: i64) -> spec_fn(Repository) -> bool {
    |r: Repository| r.id != id
}

/// Keep predicate of the repository cascade of a provider deletion.
pub open spec fn keep_repo_not_of(provider_id: i64) -> spec_fn(Repository) -> bool {
    |r: Repository| r.provider_id != provider_id
}

/// Keep predicate of the issue cascade of a repository deletion.
pub open spec fn keep_issue_not_of(repository_id: i64) -> spec_fn(IssueRow) -> bool {
    |r: IssueRow| r.repository_id != repository_id
}

/// Keep predicate of the pull-request cascade of a repository deletion.
pub open spec fn keep_pr_not_of(repository_id: i64) -> spec_fn(PullRequestRow) -> bool {
    |r: PullRequestRow| r.repository_id != repository_id
}

/// Keep predicate of the workflow cascade of a repository deletion.
pub open spec fn keep_workflow_not_of(repository_id: i64) -> spec_fn(WorkflowRow) -> bool {
    |r: WorkflowRow| r.repository_id != repository_id
}

/// Keep predicate of the issue cascade of a provider deletion: the row
/// survives unless its repository belongs to the deleted provider.
pub open spec fn issue_survives_provider(repos: Seq<Repository>, provider_id: i64) -> spec_fn(
    IssueRow,
) -> bool {
    |r: IssueRow|
        match first_where(repos, by_repository_id(r.repository_id), 0) {
            Some(k) => repos[k].provider_id != provider_id,
            None => true,
        }
}

/// Keep predicate of the pull-request cascade of a provider deletion.
pub open spec fn pr_survives_provider(repos: Seq<Repository>, provider_id: i64) -> spec_fn(
    PullRequestRow,
) -> bool {
    |r: PullRequestRow|
        match first_where(repos, by_repository_id(r.repository_id), 0) {
            Some(k) => repos[k].provider_id != provider_id,
            None => true,
        }
}

/// Keep predicate of the workflow cascade of a provider deletion.
pub open spec fn workflow_survives_provider(repos: Seq<Repository>, provider_id: i64) -> spec_fn(
    WorkflowRow,
) -> bool {
    |r: WorkflowRow|
        match first_where(repos, by_repository_id(r.repository_id), 0) {
            Some(k) => repos[k].provider_id != provider_id,
            None => true,
        }
}

/// Filtering keeps the provider table well formed.
pub proof fn lemma_providers_filter_ok(s: Seq<GitProvider>, next: i64, p: spec_fn(GitProvider) -> bool)
    requires
        forall|i: int| 0 <= i < s.len() ==> 0 < (#[trigger] s[i]).id < next,
        forall|i: int, j: int|
            0 <= i < j < s.len() ==> (#[trigger] s[i]).id != (#[trigger] s[j]).id,
    ensures
        forall|i: int| 0 <= i < s.filter(p).len() ==> 0 < (#[trigger] s.filter(p)[i]).id < next,
        forall|i: int, j: int|
            0 <= i < j < s.filter(p).len() ==> (#[trigger] s.filter(p)[i]).id != (
            #[trigger] s.filter(p)[j]).id,
{
    let q = |x: GitProvider| 0 < x.id < next;
    let r = |a: GitProvider, b: GitProvider| a.id != b.id;
    assert forall|i: int| 0 <= i < s.len() implies q(#[trigger] s[i]) by {}
    assert forall|i: int, j: int| 0 <= i < j < s.len() implies r(#[trigger] s[i], #[trigger] s[j]) by {}
    lemma_filter_all(s, p, q);
    lemma_filter_pairwise(s, p, r);
    assert forall|i: int| 0 <= i < s.filter(p).len() implies 0 < (#[trigger] s.filter(p)[i]).id
        < next by {
        assert(q(s.filter(p)[i]));
    }
    assert forall|i: int, j: int| 0 <= i < j < s.filter(p).len() implies (
    #[trigger] s.filter(p)[i]).id != (#[trigger] s.filter(p)[j]).id by {
        assert(r(s.filter(p)[i], s.filter(p)[j]));
    }
}

/// Filtering keeps the repository table well formed.
pub proof fn lemma_repositories_filter_ok(s: Seq<Repository>, next: i64, p: spec_fn(Repository) -> bool)
    requires
        forall|i: int| 0 <= i < s.len() ==> 0 < (#[trigger] s[i]).id < next,
        forall|i: int, j: int|
            0 <= i < j < s.len() ==> (#[trigger] s[i]).id != (#[trigger] s[j]).id,
    ensures
        forall|i: int| 0 <= i < s.filter(p).len() ==> 0 < (#[trigger] s.filter(p)[i]).id < next,
        forall|i: int, j: int|
            0 <= i < j < s.filter(p).len() ==> (#[trigger] s.filter(p)[i]).id != (
            #[trigger] s.filter(p)[j]).id,
{
    let q = |x: Repository| 0 < x.id < next;
    let r = |a: Repository, b: Repository| a.id != b.id;
    assert forall|i: int| 0 <= i < s.len() implies q(#[trigger] s[i]) by {}
    assert forall|i: int, j: int| 0 <= i < j < s.len() implies r(#[trigger] s[i], #[trigger] s[j]) by {}
    lemma_filter_all(s, p, q);
    lemma_filter_pairwise(s, p, r);
    assert forall|i: int| 0 <= i < s.filter(p).len() implies 0 < (#[trigger] s.filter(p)[i]).id
        < next by {
        assert(q(s.filter(p)[i]));
    }
    assert forall|i: int, j: int| 0 <= i < j < s.filter(p).len() implies (
    #[trigger] s.filter(p)[i]).id != (#[trigger] s.filter(p)[j]).id by {
        assert(r(s.filter(p)[i], s.filter(p)[j]));
    }
}

/// Filtering keeps the issue table well formed.
pub proof fn lemma_issues_filter_ok(s: Seq<IssueRow>, next: i64, p: spec_fn(IssueRow) -> bool)
    requires
        forall|i: int| 0 <= i < s.len() ==> 0 < (#[trigger] s[i]).id < next,
        forall|i: int, j: int|
            0 <= i < j < s.len() ==> (#[trigger] s[i]).id != (#[trigger] s[j]).id,
        forall|i: int, j: int|
            0 <= i < j < s.len() ==> !((#[trigger] s[i]).repository_id == (
            #[trigger] s[j]).repository_id && s[i].number == s[j].number),
    ensures
        forall|i: int| 0 <= i < s.filter(p).len() ==> 0 < (#[trigger] s.filter(p)[i]).id < next,
        forall|i: int, j: int|
            0 <= i < j < s.filter(p).len() ==> (#[trigger] s.filter(p)[i]).id != (
            #[trigger] s.filter(p)[j]).id,
        forall|i: int, j: int|
            0 <= i < j < s.filter(p).len() ==> !((#[trigger] s.filter(p)[i]).repository_id == (
            #[trigger] s.filter(p)[j]).repository_id && s.filter(p)[i].number
                == s.filter(p)[j].number),
{
    let q = |x: IssueRow| 0 < x.id < next;
    let r = |a: IssueRow, b: IssueRow| a.id != b.id && !(a.repository_id == b.repository_id
        && a.number == b.number);
    assert forall|i: int| 0 <= i < s.len() implies q(#[trigger] s[i]) by {}
    assert forall|i: int, j: int| 0 <= i < j < s.len() implies r(#[trigger] s[i], #[trigger] s[j]) by {}
    lemma_filter_all(s, p, q);
    lemma_filter_pairwise(s, p, r);
    assert forall|i: int| 0 <= i < s.filter(p).len() implies 0 < (#[trigger] s.filter(p)[i]).id
        < next by {
        assert(q(s.filter(p)[i]));
    }
    assert forall|i: int, j: int| 0 <= i < j < s.filter(p).len() implies (
    #[trigger] s.filter(p)[i]).id != (#[trigger] s.filter(p)[j]).id && !(s.filter(
        p,
    )[i].repository_id == s.filter(p)[j].repository_id && s.filter(p)[i].number == s.filter(
        p,
    )[j].number) by {
        assert(r(s.filter(p)[i], s.filter(p)[j]));
    }
}

/// Filtering keeps the pull-request table well formed.
pub proof fn lemma_prs_filter_ok(s: Seq<PullRequestRow>, next: i64, p: spec_fn(PullRequestRow) -> bool)
    requires
        forall|i: int| 0 <= i < s.len() ==> 0 < (#[trigger] s[i]).id < next,
        forall|i: int, j: int|
            0 <= i < j < s.len() ==> (#[trigger] s[i]).id != (#[trigger] s[j]).id,
        forall|i: int, j: int|
            0 <= i < j < s.len() ==> !((#[trigger] s[i]).repository_id == (
            #[trigger] s[j]).repository_id && s[i].number == s[j].number),
    ensures
        forall|i: int| 0 <= i < s.filter(p).len() ==> 0 < (#[trigger] s.filter(p)[i]).id < next,
        forall|i: int, j: int|
            0 <= i < j < s.filter(p).len() ==> (#[trigger] s.filter(p)[i]).id != (
            #[trigger] s.filter(p)[j]).id,
        forall|i: int, j: int|
            0 <= i < j < s.filter(p).len() ==> !((#[trigger] s.filter(p)[i]).repository_id == (
            #[trigger] s.filter(p)[j]).repository_id && s.filter(p)[i].number
                == s.filter(p)[j].number),
{
    let q = |x: PullRequestRow| 0 < x.id < next;
    let r = |a: PullRequestRow, b: PullRequestRow| a.id != b.id && !(a.repository_id
        == b.repository_id && a.number == b.number);
    assert forall|i: int| 0 <= i < s.len() implies q(#[trigger] s[i]) by {}
    assert forall|i: int, j: int| 0 <= i < j < s.len() implies r(#[trigger] s[i], #[trigger] s[j]) by {}
    lemma_filter_all(s, p, q);
    lemma_filter_pairwise(s, p, r);
    assert forall|i: int| 0 <= i < s.filter(p).len() implies 0 < (#[trigger] s.filter(p)[i]).id
        < next by {
        assert(q(s.filter(p)[i]));
    }
    assert forall|i: int, j: int| 0 <= i < j < s.filter(p).len() implies (
    #[trigger] s.filter(p)[i]).id != (#[trigger] s.filter(p)[j]).id && !(s.filter(
        p,
    )[i].repository_id == s.filter(p)[j].repository_id && s.filter(p)[i].number == s.filter(
        p,
    )[j].number) by {
        assert(r(s.filter(p)[i], s.filter(p)[j]));
    }
}

/// Filtering keeps the workflow table well formed.
pub proof fn lemma_workflows_filter_ok(s: Seq<WorkflowRow>, next: i64, p: spec_fn(WorkflowRow) -> bool)
    requires
        forall|i: int| 0 <= i < s.len() ==> 0 < (#[trigger] s[i]).id < next,
        forall|i: int, j: int|
            0 <= i < j < s.len() ==> (#[trigger] s[i]).id != (#[trigger] s[j]).id,
        forall|i: int, j: int|
            0 <= i < j < s.len() ==> !((#[trigger] s[i]).repository_id == (
            #[trigger] s[j]).repository_id && s[i].api_id == s[j].api_id),
    ensures
        forall|i: int| 0 <= i < s.filter(p).len() ==> 0 < (#[trigger] s.filter(p)[i]).id < next,
        forall|i: int, j: int|
            0 <= i < j < s.filter(p).len() ==> (#[trigger] s.filter(p)[i]).id != (
            #[trigger] s.filter(p)[j]).id,
        forall|i: int, j: int|
            0 <= i < j < s.filter(p).len() ==> !((#[trigger] s.filter(p)[i]).repository_id == (
            #[trigger] s.filter(p)[j]).repository_id && s.filter(p)[i].api_id
                == s.filter(p)[j].api_id),
{
    let q = |x: WorkflowRow| 0 < x.id < next;
    let r = |a: WorkflowRow, b: WorkflowRow| a.id != b.id && !(a.repository_id == b.repository_id
        && a.api_id == b.api_id);
    assert forall|i: int| 0 <= i < s.len() implies q(#[trigger] s[i]) by {}
    assert forall|i: int, j: int| 0 <= i < j < s.len() implies r(#[trigger] s[i], #[trigger] s[j]) by {}
    lemma_filter_all(s, p, q);
    lemma_filter_pairwise(s, p, r);
    assert forall|i: int| 0 <= i < s.filter(p).len() implies 0 < (#[trigger] s.filter(p)[i]).id
        < next by {
        assert(q(s.filter(p)[i]));
    }
    assert forall|i: int, j: int| 0 <= i < j < s.filter(p).len() implies (
    #[trigger] s.filter(p)[i]).id != (#[trigger] s.filter(p)[j]).id && !(s.filter(
        p,
    )[i].repository_id == s.filter(p)[j].repository_id && s.filter(p)[i].api_id == s.filter(
        p,
    )[j].api_id) by {
        assert(r(s.filter(p)[i], s.filter(p)[j]));
    }
}

impl Database {
    /// All registered providers, in registration order.
    pub fn get_providers(&self) -> (r: Result<Vec<GitProvider>, SyncError>)
        ensures
            match r {
                Ok(v) => v@ == self.providers@,
                Err(_) => false,
            },
    {
        let mut out: Vec<GitProvider> = Vec::new();
        let mut i: usize = 0;
        while i < self.providers.len()
            invariant
                i <= self.providers@.len(),
                out@ =~= self.providers@.subrange(0, i as int),
            decreases self.providers@.len() - i,
        {
            out.push(self.providers[i].clone());
            assert(out@ =~= self.providers@.subrange(0, i + 1));
            i = i + 1;
        }
        assert(self.providers@.subrange(0, self.providers@.len() as int) =~= self.providers@);
        Ok(out)
    }

    /// The provider with this identifier.
    pub fn get_provider(&self, provider_id: i64) -> (r: Result<GitProvider, SyncError>)
        ensures
            match r {
                Ok(p) => self.spec_find_provider(provider_id) is Some && p == self.providers@[
                    self.spec_find_provider(provider_id)->0
                ],
                Err(e) => e == SyncError::NotFound && self.spec_find_provider(provider_id) is None,
            },
    {
        match self.find_provider(provider_id) {
            Some(i) => {
                proof {
                    crate::sequtil::lemma_first_where_props(
                        self.providers@,
                        by_provider_id(provider_id),
                        0,
                    );
                }
                Ok(self.providers[i].clone())
            },
            None => Err(SyncError::NotFound),
        }
    }

    /// Registers a provider.  The stored copy carries a fresh identifier;
    /// an unsupported provider kind is a configuration error.
    pub fn add_provider(&mut self, provider: &GitProvider) -> (r: Result<i64, SyncError>)
        requires
            old(self).wf(),
        ensures
            final(self).wf(),
            match r {
                Ok(id) => {
                    &&& spec_provider_type_id(provider.provider_type@) is Some
                    &&& old(self).next_provider_id < i64::MAX
                    &&& id == old(self).next_provider_id
                    &&& final(self).providers@.len() == old(self).providers@.len() + 1
                    &&& final(self).providers@.subrange(0, old(self).providers@.len() as int)
                        == old(self).providers@
                    &&& stored_provider(final(self).providers@.last(), *provider, id)
                    &&& final(self).next_provider_id == old(self).next_provider_id + 1
                    &&& final(self).repositories == old(self).repositories
                    &&& final(self).issues == old(self).issues
                    &&& final(self).pull_requests == old(self).pull_requests
                    &&& final(self).workflows == old(self).workflows
                    &&& final(self).sync_history == old(self).sync_history
                    &&& final(self).sync_in_progress == old(self).sync_in_progress
                    &&& final(self).next_repository_id == old(self).next_repository_id
                    &&& final(self).next_issue_id == old(self).next_issue_id
                    &&& final(self).next_pull_request_id == old(self).next_pull_request_id
                    &&& final(self).next_workflow_id == old(self).next_workflow_id
                    &&& final(self).next_history_id == old(self).next_history_id
                },
                Err(e) => {
                    &&& *final(self) == *old(self)
                    &&& (e == SyncError::Configuration || e == SyncError::Persistence)
                    &&& (e == SyncError::Configuration <==> spec_provider_type_id(
                        provider.provider_type@,
                    ) is None)
                    &&& (e == SyncError::Persistence ==> old(self).next_provider_id == i64::MAX)
                },
            },
    {
        if provider_type_id(provider.provider_type.as_str()).is_none() {
            return Err(SyncError::Configuration);
        }
        if self.next_provider_id == i64::MAX {
            return Err(SyncError::Persistence);
        }
        let id = self.next_provider_id;
        let stored = GitProvider {
            id,
            name: provider.name.clone(),
            provider_type: provider.provider_type.clone(),
            base_url: provider.base_url.clone(),
            api_base_url: provider.api_base_url.clone(),
            token: crate::strutil::clone_opt_string(&provider.token),
            token_valid: provider.token_valid,
            is_initialized: provider.is_initialized,
            created_at: provider.created_at,
            updated_at: provider.updated_at,
        };
        self.providers.push(stored);
        self.next_provider_id = id + 1;
        proof {
            assert(self.providers@.subrange(0, old(self).providers@.len() as int) =~= old(
                self,
            ).providers@);
            assert forall|i: int|
                0 <= i < self.providers@.len() implies 0 < (#[trigger] self.providers@[i]).id
                < self.next_provider_id by {
                if i < self.providers@.len() - 1 {
                    assert(self.providers@[i] == old(self).providers@[i]);
                }
            }
            assert forall|i: int, j: int|
                0 <= i < j < self.providers@.len() implies (#[trigger] self.providers@[i]).id != (
            #[trigger] self.providers@[j]).id by {
                if j == self.providers@.len() - 1 {
                    assert(self.providers@[i] == old(self).providers@[i]);
                }
            }
        }
        Ok(id)
    }

    /// All mirrored repositories, in registration order.
    pub fn get_repositories(&self) -> (r: Result<Vec<Repository>, SyncError>)
        ensures
            match r {
                Ok(v) => v@ == self.repositories@,
                Err(_) => false,
            },
    {
        let mut out: Vec<Repository> = Vec::new();
        let mut i: usize = 0;
        while i < self.repositories.len()
            invariant
                i <= self.repositories@.len(),
                out@ =~= self.repositories@.subrange(0, i as int),
            decreases self.repositories@.len() - i,
        {
            out.push(self.repositories[i].clone());
            assert(out@ =~= self.repositories@.subrange(0, i + 1));
            i = i + 1;
        }
        assert(self.repositories@.subrange(0, self.repositories@.len() as int)
            =~= self.repositories@);
        Ok(out)
    }

    /// The repositories owned by one provider, in registration order.
    pub fn get_repositories_by_provider(&self, provider_id: i64) -> (r: Result<
        Vec<Repository>,
        SyncError,
    >)
        ensures
            match r {
                Ok(v) => v@ == self.repositories@.filter(
                    crate::store::by_repo_provider(provider_id),
                ),
                Err(_) => false,
            },
    {
        let ghost p = crate::store::by_repo_provider(provider_id);
        let mut out: Vec<Repository> = Vec::new();
        let mut i: usize = 0;
        while i < self.repositories.len()
            invariant
                p == crate::store::by_repo_provider(provider_id),
                i <= self.repositories@.len(),
                out@ =~= self.repositories@.subrange(0, i as int).filter(p),
            decreases self.repositories@.len() - i,
        {
            proof {
                assert(self.repositories@.subrange(0, i + 1) =~= self.repositories@.subrange(
                    0,
                    i as int,
                ).push(self.repositories@[i as int]));
                lemma_filter_push(
                    self.repositories@.subrange(0, i as int),
                    self.repositories@[i as int],
                    p,
                );
            }
            if self.repositories[i].provider_id == provider_id {
                out.push(self.repositories[i].clone());
            }
            assert(out@ =~= self.repositories@.subrange(0, i + 1).filter(p));
            i = i + 1;
        }
        assert(self.repositories@.subrange(0, self.repositories@.len() as int)
            =~= self.repositories@);
        Ok(out)
    }

    /// The repository with this identifier.
    pub fn get_repository(&self, repository_id: i64) -> (r: Result<Repository, SyncError>)
        ensures
            match r {
                Ok(rep) => self.spec_find_repository(repository_id) is Some && rep
                    == self.repositories@[self.spec_find_repository(repository_id)->0],
                Err(e) => e == SyncError::NotFound && self.spec_find_repository(
                    repository_id,
                ) is None,
            },
    {
        match self.find_repository(repository_id) {
            Some(i) => {
                proof {
                    crate::sequtil::lemma_first_where_props(
                        self.repositories@,
                        by_repository_id(repository_id),
                        0,
                    );
                }
                Ok(self.repositories[i].clone())
            },
            None => Err(SyncError::NotFound),
        }
    }

    /// Adds a repository under its owning provider.  The stored copy
    /// carries a fresh identifier, the provider's name and kind, and unset
    /// resource cursors; a missing provider is an error and changes
    /// nothing.
    pub fn add_repository(&mut self, repository: &Repository) -> (r: Result<i64, SyncError>)
        requires
            old(self).wf(),
        ensures
            final(self).wf(),
            match r {
                Ok(id) => {
                    &&& old(self).spec_find_provider(repository.provider_id) is Some
                    &&& old(self).next_repository_id < i64::MAX
                    &&& id == old(self).next_repository_id
                    &&& final(self).repositories@.len() == old(self).repositories@.len() + 1
                    &&& final(self).repositories@.subrange(0, old(self).repositories@.len() as int)
                        == old(self).repositories@
                    &&& stored_repository(
                        final(self).repositories@.last(),
                        *repository,
                        id,
                        old(self).providers@[old(self).spec_find_provider(repository.provider_id)->0],
                    )
                    &&& final(self).next_repository_id == old(self).next_repository_id + 1
                    &&& final(self).providers == old(self).providers
                    &&& final(self).issues == old(self).issues
                    &&& final(self).pull_requests == old(self).pull_requests
                    &&& final(self).workflows == old(self).workflows
                    &&& final(self).sync_history == old(self).sync_history
                    &&& final(self).sync_in_progress == old(self).sync_in_progress
                    &&& final(self).next_provider_id == old(self).next_provider_id
                    &&& final(self).next_issue_id == old(self).next_issue_id
                    &&& final(self).next_pull_request_id == old(self).next_pull_request_id
                    &&& final(self).next_workflow_id == old(self).next_workflow_id
                    &&& final(self).next_history_id == old(self).next_history_id
                },
                Err(e) => {
                    &&& *final(self) == *old(self)
                    &&& (e == SyncError::NotFound || e == SyncError::Persistence)
                    &&& (e == SyncError::NotFound <==> old(self).spec_find_provider(
                        repository.provider_id,
                    ) is None)
                    &&& (e == SyncError::Persistence ==> old(self).next_repository_id == i64::MAX)
                },
            },
    {
        let owner_idx = match self.find_provider(repository.provider_id) {
            Some(i) => i,
            None => {
                return Err(SyncError::NotFound);
            },
        };
        proof {
            crate::sequtil::lemma_first_where_props(
                self.providers@,
                by_provider_id(repository.provider_id),
                0,
            );
        }
        if self.next_repository_id == i64::MAX {
            return Err(SyncError::Persistence);
        }
        let id = self.next_repository_id;
        let stored = Repository {
            id,
            api_id: repository.api_id.clone(),
            name: repository.name.clone(),
            full_name: repository.full_name.clone(),
            web_url: repository.web_url.clone(),
            api_base_url: repository.api_base_url.clone(),
            description: crate::strutil::clone_opt_string(&repository.description),
            provider_id: repository.provider_id,
            provider_name: self.providers[owner_idx].name.clone(),
            provider_type: self.providers[owner_idx].provider_type.clone(),
            is_private: repository.is_private,
            language: crate::strutil::clone_opt_string(&repository.language),
            last_activity: repository.last_activity,
            api_created_at: repository.api_created_at,
            api_updated_at: repository.api_updated_at,
            last_issues_sync_success: None,
            last_pull_requests_sync_success: None,
            last_workflows_sync_success: None,
            last_issues_sync_status: None,
            last_pull_requests_sync_status: None,
            last_workflows_sync_status: None,
            created_at: repository.created_at,
            updated_at: repository.updated_at,
        };
        self.repositories.push(stored);
        self.next_repository_id = id + 1;
        proof {
            assert(self.repositories@.subrange(0, old(self).repositories@.len() as int) =~= old(
                self,
            ).repositories@);
            assert forall|i: int|
                0 <= i < self.repositories@.len() implies 0 < (
            #[trigger] self.repositories@[i]).id < self.next_repository_id by {
                if i < self.repositories@.len() - 1 {
                    assert(self.repositories@[i] == old(self).repositories@[i]);
                }
            }
            assert forall|i: int, j: int|
                0 <= i < j < self.repositories@.len() implies (
            #[trigger] self.repositories@[i]).id != (#[trigger] self.repositories@[j]).id by {
                if j == self.repositories@.len() - 1 {
                    assert(self.repositories@[i] == old(self).repositories@[i]);
                }
            }
        }
        Ok(id)
    }

    /// Removes a repository and every mirrored row that belonged to it.
    /// Deleting an unknown repository is a harmless no-op, as in the
    /// relational schema.
    pub fn delete_repository(&mut self, repository_id: i64) -> (r: Result<(), SyncError>)
        requires
            old(self).wf(),
        ensures
            final(self).wf(),
            r is Ok,
            final(self).repositories@ == old(self).repositories@.filter(
                keep_other_repository(repository_id),
            ),
            final(self).issues@ == old(self).issues@.filter(keep_issue_not_of(repository_id)),
            final(self).pull_requests@ == old(self).pull_requests@.filter(
                keep_pr_not_of(repository_id),
            ),
            final(self).workflows@ == old(self).workflows@.filter(
                keep_workflow_not_of(repository_id),
            ),
            final(self).providers == old(self).providers,
            final(self).sync_history == old(self).sync_history,
            final(self).sync_in_progress == old(self).sync_in_progress,
            final(self).next_provider_id == old(self).next_provider_id,
            final(self).next_repository_id == old(self).next_repository_id,
            final(self).next_issue_id == old(self).next_issue_id,
            final(self).next_pull_request_id == old(self).next_pull_request_id,
            final(self).next_workflow_id == old(self).next_workflow_id,
            final(self).next_history_id == old(self).next_history_id,
    {
        self.retain_issues_not_of(repository_id);
        self.retain_prs_not_of(repository_id);
        self.retain_workflows_not_of(repository_id);
        self.retain_repositories_other(repository_id);
        proof {
            lemma_repositories_filter_ok(
                old(self).repositories@,
                old(self).next_repository_id,
                keep_other_repository(repository_id),
            );
            lemma_issues_filter_ok(
                old(self).issues@,
                old(self).next_issue_id,
                keep_issue_not_of(repository_id),
            );
            lemma_prs_filter_ok(
                old(self).pull_requests@,
                old(self).next_pull_request_id,
                keep_pr_not_of(repository_id),
            );
            lemma_workflows_filter_ok(
                old(self).workflows@,
                old(self).next_workflow_id,
                keep_workflow_not_of(repository_id),
            );
        }
        Ok(())
    }

    fn retain_issues_not_of(&mut self, repository_id: i64)
        ensures
            final(self).issues@ == old(self).issues@.filter(keep_issue_not_of(repository_id)),
            *final(self) == (Database { issues: final(self).issues, ..*old(self) }),
    {
        let ghost keep = keep_issue_not_of(repository_id);
        let ghost orig = self.issues@;
        let ghost mut j: int = 0;
        let mut i: usize = 0;
        while i < self.issues.len()
            invariant
                keep == keep_issue_not_of(repository_id),
                orig == old(self).issues@,
                0 <= j <= orig.len(),
                i as int == orig.subrange(0, j).filter(keep).len(),
                self.issues@ =~= orig.subrange(0, j).filter(keep) + orig.subrange(
                    j,
                    orig.len() as int,
                ),
                *self == (Database { issues: self.issues, ..*old(self) }),
            decreases orig.len() - j,
        {
            proof {
                assert(j < orig.len());
                assert(self.issues@[i as int] == orig[j]);
                assert(orig.subrange(0, j + 1) =~= orig.subrange(0, j).push(orig[j]));
                lemma_filter_push(orig.subrange(0, j), orig[j], keep);
            }
            if self.issues[i].repository_id != repository_id {
                i = i + 1;
                proof {
                    j = j + 1;
                    assert(self.issues@ =~= orig.subrange(0, j).filter(keep) + orig.subrange(
                        j,
                        orig.len() as int,
                    ));
                }
            } else {
                self.issues.remove(i);
                proof {
                    j = j + 1;
                    assert(self.issues@ =~= orig.subrange(0, j).filter(keep) + orig.subrange(
                        j,
                        orig.len() as int,
                    ));
                }
            }
        }
        proof {
            assert(j == orig.len());
            assert(orig.subrange(0, j) =~= orig);
            assert(orig.subrange(j, orig.len() as int) =~= Seq::<IssueRow>::empty());
            assert(self.issues@ =~= orig.filter(keep));
        }
    }

    fn retain_prs_not_of(&mut self, repository_id: i64)
        ensures
            final(self).pull_requests@ == old(self).pull_requests@.filter(
                keep_pr_not_of(repository_id),
            ),
            *final(self) == (Database { pull_requests: final(self).pull_requests, ..*old(self) }),
    {
        let ghost keep = keep_pr_not_of(repository_id);
        let ghost orig = self.pull_requests@;
        let ghost mut j: int = 0;
        let mut i: usize = 0;
        while i < self.pull_requests.len()
            invariant
                keep == keep_pr_not_of(repository_id),
                orig == old(self).pull_requests@,
                0 <= j <= orig.len(),
                i as int == orig.subrange(0, j).filter(keep).len(),
                self.pull_requests@ =~= orig.subrange(0, j).filter(keep) + orig.subrange(
                    j,
                    orig.len() as int,
                ),
                *self == (Database { pull_requests: self.pull_requests, ..*old(self) }),
            decreases orig.len() - j,
        {
            proof {
                assert(j < orig.len());
                assert(self.pull_requests@[i as int] == orig[j]);
                assert(orig.subrange(0, j + 1) =~= orig.subrange(0, j).push(orig[j]));
                lemma_filter_push(orig.subrange(0, j), orig[j], keep);
            }
            if self.pull_requests[i].repository_id != repository_id {
                i = i + 1;
                proof {
                    j = j + 1;
                    assert(self.pull_requests@ =~= orig.subrange(0, j).filter(keep)
                        + orig.subrange(j, orig.len() as int));
                }
            } else {
                self.pull_requests.remove(i);
                proof {
                    j = j + 1;
                    assert(self.pull_requests@ =~= orig.subrange(0, j).filter(keep)
                        + orig.subrange(j, orig.len() as int));
                }
            }
        }
        proof {
            assert(j == orig.len());
            assert(orig.subrange(0, j) =~= orig);
            assert(orig.subrange(j, orig.len() as int) =~= Seq::<PullRequestRow>::empty());
            assert(self.pull_requests@ =~= orig.filter(keep));
        }
    }

    fn retain_workflows_not_of(&mut self, repository_id: i64)
        ensures
            final(self).workflows@ == old(self).workflows@.filter(
                keep_workflow_not_of(repository_id),
            ),
            *final(self) == (Database { workflows: final(self).workflows, ..*old(self) }),
    {
        let ghost keep = keep_workflow_not_of(repository_id);
        let ghost orig = self.workflows@;
        let ghost mut j: int = 0;
        let mut i: usize = 0;
        while i < self.workflows.len()
            invariant
                keep == keep_workflow_not_of(repository_id),
                orig == old(self).workflows@,
                0 <= j <= orig.len(),
                i as int == orig.subrange(0, j).filter(keep).len(),
                self.workflows@ =~= orig.subrange(0, j).filter(keep) + orig.subrange(
                    j,
                    orig.len() as int,
                ),
                *self == (Database { workflows: self.workflows, ..*old(self) }),
            decreases orig.len() - j,
        {
            proof {
                assert(j < orig.len());
                assert(self.workflows@[i as int] == orig[j]);
                assert(orig.subrange(0, j + 1) =~= orig.subrange(0, j).push(orig[j]));
                lemma_filter_push(orig.subrange(0, j), orig[j], keep);
            }
            if self.workflows[i].repository_id != repository_id {
                i = i + 1;
                proof {
                    j = j + 1;
                    assert(self.workflows@ =~= orig.subrange(0, j).filter(keep) + orig.subrange(
                        j,
                        orig.len() as int,
                    ));
                }
            } else {
                self.workflows.remove(i);
                proof {
                    j = j + 1;
                    assert(self.workflows@ =~= orig.subrange(0, j).filter(keep) + orig.subrange(
                        j,
                        orig.len() as int,
                    ));
                }
            }
        }
        proof {
            assert(j == orig.len());
            assert(orig.subrange(0, j) =~= orig);
            assert(orig.subrange(j, orig.len() as int) =~= Seq::<WorkflowRow>::empty());
            assert(self.workflows@ =~= orig.filter(keep));
        }
    }

    fn retain_repositories_other(&mut self, repository_id: i64)
        ensures
            final(self).repositories@ == old(self).repositories@.filter(
                keep_other_repository(repository_id),
            ),
            *final(self) == (Database { repositories: final(self).repositories, ..*old(self) }),
    {
        let ghost keep = keep_other_repository(repository_id);
        let ghost orig = self.repositories@;
        let ghost mut j: int = 0;
        let mut i: usize = 0;
        while i < self.repositories.len()
            invariant
                keep == keep_other_repository(repository_id),
                orig == old(self).repositories@,
                0 <= j <= orig.len(),
                i as int == orig.subrange(0, j).filter(keep).len(),
                self.repositories@ =~= orig.subrange(0, j).filter(keep) + orig.subrange(
                    j,
                    orig.len() as int,
                ),
                *self == (Database { repositories: self.repositories, ..*old(self) }),
            decreases orig.len() - j,
        {
            proof {
                assert(j < orig.len());
                assert(self.repositories@[i as int] == orig[j]);
                assert(orig.subrange(0, j + 1) =~= orig.subrange(0, j).push(orig[j]));
                lemma_filter_push(orig.subrange(0, j), orig[j], keep);
            }
            if self.repositories[i].id != repository_id {
                i = i + 1;
                proof {
                    j = j + 1;
                    assert(self.repositories@ =~= orig.subrange(0, j).filter(keep)
                        + orig.subrange(j, orig.len() as int));
                }
            } else {
                self.repositories.remove(i);
                proof {
                    j = j + 1;
                    assert(self.repositories@ =~= orig.subrange(0, j).filter(keep)
                        + orig.subrange(j, orig.len() as int));
                }
            }
        }
        proof {
            assert(j == orig.len());
            assert(orig.subrange(0, j) =~= orig);
            assert(orig.subrange(j, orig.len() as int) =~= Seq::<Repository>::empty());
            assert(self.repositories@ =~= orig.filter(keep));
        }
    }

    /// Removes a provider; its repositories and their mirrored rows go with
    /// it.  Deleting an unknown provider is a harmless no-op.
    pub fn delete_provider(&mut self, provider_id: i64) -> (r: Result<(), SyncError>)
        requires
            old(self).wf(),
        ensures
            final(self).wf(),
            r is Ok,
            final(self).providers@ == old(self).providers@.filter(
                keep_other_provider(provider_id),
            ),
            final(self).repositories@ == old(self).repositories@.filter(
                keep_repo_not_of(provider_id),
            ),
            final(self).issues@ == old(self).issues@.filter(
                issue_survives_provider(old(self).repositories@, provider_id),
            ),
            final(self).pull_requests@ == old(self).pull_requests@.filter(
                pr_survives_provider(old(self).repositories@, provider_id),
            ),
            final(self).workflows@ == old(self).workflows@.filter(
                workflow_survives_provider(old(self).repositories@, provider_id),
            ),
            final(self).sync_history == old(self).sync_history,
            final(self).sync_in_progress == old(self).sync_in_progress,
            final(self).next_provider_id == old(self).next_provider_id,
            final(self).next_repository_id == old(self).next_repository_id,
            final(self).next_issue_id == old(self).next_issue_id,
            final(self).next_pull_request_id == old(self).next_pull_request_id,
            final(self).next_workflow_id == old(self).next_workflow_id,
            final(self).next_history_id == old(self).next_history_id,
    {
        self.retain_issues_surviving(provider_id);
        self.retain_prs_surviving(provider_id);
        self.retain_workflows_surviving(provider_id);
        self.retain_repositories_not_of_provider(provider_id);
        self.retain_providers_other(provider_id);
        proof {
            lemma_providers_filter_ok(
                old(self).providers@,
                old(self).next_provider_id,
                keep_other_provider(provider_id),
            );
            lemma_repositories_filter_ok(
                old(self).repositories@,
                old(self).next_repository_id,
                keep_repo_not_of(provider_id),
            );
            lemma_issues_filter_ok(
                old(self).issues@,
                old(self).next_issue_id,
                issue_survives_provider(old(self).repositories@, provider_id),
            );
            lemma_prs_filter_ok(
                old(self).pull_requests@,
                old(self).next_pull_request_id,
                pr_survives_provider(old(self).repositories@, provider_id),
            );
            lemma_workflows_filter_ok(
                old(self).workflows@,
                old(self).next_workflow_id,
                workflow_survives_provider(old(self).repositories@, provider_id),
            );
        }
        Ok(())
    }

    fn retain_issues_surviving(&mut self, provider_id: i64)
        ensures
            final(self).issues@ == old(self).issues@.filter(
                issue_survives_provider(old(self).repositories@, provider_id),
            ),
            *final(self) == (Database { issues: final(self).issues, ..*old(self) }),
    {
        let ghost keep = issue_survives_provider(self.repositories@, provider_id);
        let ghost orig = self.issues@;
        let ghost mut j: int = 0;
        let mut i: usize = 0;
        while i < self.issues.len()
            invariant
                keep == issue_survives_provider(old(self).repositories@, provider_id),
                orig == old(self).issues@,
                0 <= j <= orig.len(),
                i as int == orig.subrange(0, j).filter(keep).len(),
                self.issues@ =~= orig.subrange(0, j).filter(keep) + orig.subrange(
                    j,
                    orig.len() as int,
                ),
                *self == (Database { issues: self.issues, ..*old(self) }),
            decreases orig.len() - j,
        {
            proof {
                assert(j < orig.len());
                assert(self.issues@[i as int] == orig[j]);
                assert(orig.subrange(0, j + 1) =~= orig.subrange(0, j).push(orig[j]));
                lemma_filter_push(orig.subrange(0, j), orig[j], keep);
            }
            let rid = self.issues[i].repository_id;
            let keep_this = match self.find_repository(rid) {
                Some(k) => {
                    proof {
                        crate::sequtil::lemma_first_where_props(
                            self.repositories@,
                            by_repository_id(rid),
                            0,
                        );
                    }
                    self.repositories[k].provider_id != provider_id
                },
                None => true,
            };
            proof {
                assert(keep_this == keep(orig[j]));
            }
            if keep_this {
                i = i + 1;
                proof {
                    j = j + 1;
                    assert(self.issues@ =~= orig.subrange(0, j).filter(keep) + orig.subrange(
                        j,
                        orig.len() as int,
                    ));
                }
            } else {
                self.issues.remove(i);
                proof {
                    j = j + 1;
                    assert(self.issues@ =~= orig.subrange(0, j).filter(keep) + orig.subrange(
                        j,
                        orig.len() as int,
                    ));
                }
            }
        }
        proof {
            assert(j == orig.len());
            assert(orig.subrange(0, j) =~= orig);
            assert(orig.subrange(j, orig.len() as int) =~= Seq::<IssueRow>::empty());
            assert(self.issues@ =~= orig.filter(keep));
        }
    }

    fn retain_prs_surviving(&mut self, provider_id: i64)
        ensures
            final(self).pull_requests@ == old(self).pull_requests@.filter(
                pr_survives_provider(old(self).repositories@, provider_id),
            ),
            *final(self) == (Database { pull_requests: final(self).pull_requests, ..*old(self) }),
    {
        let ghost keep = pr_survives_provider(self.repositories@, provider_id);
        let ghost orig = self.pull_requests@;
        let ghost mut j: int = 0;
        let mut i: usize = 0;
        while i < self.pull_requests.len()
            invariant
                keep == pr_survives_provider(old(self).repositories@, provider_id),
                orig == old(self).pull_requests@,
                0 <= j <= orig.len(),
                i as int == orig.subrange(0, j).filter(keep).len(),
                self.pull_requests@ =~= orig.subrange(0, j).filter(keep) + orig.subrange(
                    j,
                    orig.len() as int,
                ),
                *self == (Database { pull_requests: self.pull_requests, ..*old(self) }),
            decreases orig.len() - j,
        {
            proof {
                assert(j < orig.len());
                assert(self.pull_requests@[i as int] == orig[j]);
                assert(orig.subrange(0, j + 1) =~= orig.subrange(0, j).push(orig[j]));
                lemma_filter_push(orig.subrange(0, j), orig[j], keep);
            }
            let rid = self.pull_requests[i].repository_id;
            let keep_this = match self.find_repository(rid) {
                Some(k) => {
                    proof {
                        crate::sequtil::lemma_first_where_props(
                            self.repositories@,
                            by_repository_id(rid),
                            0,
                        );
                    }
                    self.repositories[k].provider_id != provider_id
                },
                None => true,
            };
            proof {
                assert(keep_this == keep(orig[j]));
            }
            if keep_this {
                i = i + 1;
                proof {
                    j = j + 1;
                    assert(self.pull_requests@ =~= orig.subrange(0, j).filter(keep) + orig.subrange(
                        j,
                        orig.len() as int,
                    ));
                }
            } else {
                self.pull_requests.remove(i);
                proof {
                    j = j + 1;
                    assert(self.pull_requests@ =~= orig.subrange(0, j).filter(keep) + orig.subrange(
                        j,
                        orig.len() as int,
                    ));
                }
            }
        }
        proof {
            assert(j == orig.len());
            assert(orig.subrange(0, j) =~= orig);
            assert(orig.subrange(j, orig.len() as int) =~= Seq::<PullRequestRow>::empty());
            assert(self.pull_requests@ =~= orig.filter(keep));
        }
    }

    fn retain_workflows_surviving(&mut self, provider_id: i64)
        ensures
            final(self).workflows@ == old(self).workflows@.filter(
                workflow_survives_provider(old(self).repositories@, provider_id),
            ),
            *final(self) == (Database { workflows: final(self).workflows, ..*old(self) }),
    {
        let ghost keep = workflow_survives_provider(self.repositories@, provider_id);
        let ghost orig = self.workflows@;
        let ghost mut j: int = 0;
        let mut i: usize = 0;
        while i < self.workflows.len()
            invariant
                keep == workflow_survives_provider(old(self).repositories@, provider_id),
                orig == old(self).workflows@,
                0 <= j <= orig.len(),
                i as int == orig.subrange(0, j).filter(keep).len(),
                self.workflows@ =~= orig.subrange(0, j).filter(keep) + orig.subrange(
                    j,
                    orig.len() as int,
                ),
                *self == (Database { workflows: self.workflows, ..*old(self) }),
            decreases orig.len() - j,
        {
            proof {
                assert(j < orig.len());
                assert(self.workflows@[i as int] == orig[j]);
                assert(orig.subrange(0, j + 1) =~= orig.subrange(0, j).push(orig[j]));
                lemma_filter_push(orig.subrange(0, j), orig[j], keep);
            }
            let rid = self.workflows[i].repository_id;
            let keep_this = match self.find_repository(rid) {
                Some(k) => {
                    proof {
                        crate::sequtil::lemma_first_where_props(
                            self.repositories@,
                            by_repository_id(rid),
                            0,
                        );
                    }
                    self.repositories[k].provider_id != provider_id
                },
                None => true,
            };
            proof {
                assert(keep_this == keep(orig[j]));
            }
            if keep_this {
                i = i + 1;
                proof {
                    j = j + 1;
                    assert(self.workflows@ =~= orig.subrange(0, j).filter(keep) + orig.subrange(
                        j,
                        orig.len() as int,
                    ));
                }
            } else {
                self.workflows.remove(i);
                proof {
                    j = j + 1;
                    assert(self.workflows@ =~= orig.subrange(0, j).filter(keep) + orig.subrange(
                        j,
                        orig.len() as int,
                    ));
                }
            }
        }
        proof {
            assert(j == orig.len());
            assert(orig.subrange(0, j) =~= orig);
            assert(orig.subrange(j, orig.len() as int) =~= Seq::<WorkflowRow>::empty());
            assert(self.workflows@ =~= orig.filter(keep));
        }
    }

    fn retain_repositories_not_of_provider(&mut self, provider_id: i64)
        ensures
            final(self).repositories@ == old(self).repositories@.filter(
                keep_repo_not_of(provider_id),
            ),
            *final(self) == (Database { repositories: final(self).repositories, ..*old(self) }),
    {
        let ghost keep = keep_repo_not_of(provider_id);
        let ghost orig = self.repositories@;
        let ghost mut j: int = 0;
        let mut i: usize = 0;
        while i < self.repositories.len()
            invariant
                keep == keep_repo_not_of(provider_id),
                orig == old(self).repositories@,
                0 <= j <= orig.len(),
                i as int == orig.subrange(0, j).filter(keep).len(),
                self.repositories@ =~= orig.subrange(0, j).filter(keep) + orig.subrange(
                    j,
                    orig.len() as int,
                ),
                *self == (Database { repositories: self.repositories, ..*old(self) }),
            decreases orig.len() - j,
        {
            proof {
                assert(j < orig.len());
                assert(self.repositories@[i as int] == orig[j]);
                assert(orig.subrange(0, j + 1) =~= orig.subrange(0, j).push(orig[j]));
                lemma_filter_push(orig.subrange(0, j), orig[j], keep);
            }
            if self.repositories[i].provider_id != provider_id {
                i = i + 1;
                proof {
                    j = j + 1;
                    assert(self.repositories@ =~= orig.subrange(0, j).filter(keep)
                        + orig.subrange(j, orig.len() as int));
                }
            } else {
                self.repositories.remove(i);
                proof {
                    j = j + 1;
                    assert(self.repositories@ =~= orig.subrange(0, j).filter(keep)
                        + orig.subrange(j, orig.len() as int));
                }
            }
        }
        proof {
            assert(j == orig.len());
            assert(orig.subrange(0, j) =~= orig);
            assert(orig.subrange(j, orig.len() as int) =~= Seq::<Repository>::empty());
            assert(self.repositories@ =~= orig.filter(keep));
        }
    }

    fn retain_providers_other(&mut self, provider_id: i64)
        ensures
            final(self).providers@ == old(self).providers@.filter(
                keep_other_provider(provider_id),
            ),
            *final(self) == (Database { providers: final(self).providers, ..*old(self) }),
    {
        let ghost keep = keep_other_provider(provider_id);
        let ghost orig = self.providers@;
        let ghost mut j: int = 0;
        let mut i: usize = 0;
        while i < self.providers.len()
            invariant
                keep == keep_other_provider(provider_id),
                orig == old(self).providers@,
                0 <= j <= orig.len(),
                i as int == orig.subrange(0, j).filter(keep).len(),
                self.providers@ =~= orig.subrange(0, j).filter(keep) + orig.subrange(
                    j,
                    orig.len() as int,
                ),
                *self == (Database { providers: self.providers, ..*old(self) }),
            decreases orig.len() - j,
        {
            proof {
                assert(j < orig.len());
                assert(self.providers@[i as int] == orig[j]);
                assert(orig.subrange(0, j + 1) =~= orig.subrange(0, j).push(orig[j]));
                lemma_filter_push(orig.subrange(0, j), orig[j], keep);
            }
            if self.providers[i].id != provider_id {
                i = i + 1;
                proof {
                    j = j + 1;
                    assert(self.providers@ =~= orig.subrange(0, j).filter(keep) + orig.subrange(
                        j,
                        orig.len() as int,
                    ));
                }
            } else {
                self.providers.remove(i);
                proof {
                    j = j + 1;
                    assert(self.providers@ =~= orig.subrange(0, j).filter(keep) + orig.subrange(
                        j,
                        orig.len() as int,
                    ));
                }
            }
        }
        proof {
            assert(j == orig.len());
            assert(orig.subrange(0, j) =~= orig);
            assert(orig.subrange(j, orig.len() as int) =~= Seq::<GitProvider>::empty());
            assert(self.providers@ =~= orig.filter(keep));
        }
    }
}

/// What a credential update leaves in place: everything but the token, the
/// two flags derived from it, and the update timestamp.
pub open spec fn provider_with_token(
    p: GitProvider,
    src: GitProvider,
    token: Option<Seq<char>>,
    now: i64,
) -> bool {
    &&& p == (GitProvider {
        token: p.token,
        token_valid: p.token_valid,
        is_initialized: p.is_initialized,
        updated_at: now,
        ..src
    })
    &&& match (p.token, token) {
        (Some(stored), Some(given)) => stored@ == given,
        (None, None) => true,
        _ => false,
    }
    &&& p.token_valid == (token is Some && token->0.len() > 0)
    &&& p.is_initialized == p.token_valid
}

/// What a validation update leaves in place: everything but the two flags
/// and the update timestamp.
pub open spec fn provider_with_validation(
    p: GitProvider,
    src: GitProvider,
    is_valid: bool,
    now: i64,
) -> bool {
    p == (GitProvider {
        token_valid: is_valid,
        is_initialized: is_valid,
        updated_at: now,
        ..src
    })
}

impl Database {
    /// Stores a provider's credential.  The validity and initialization
    /// flags follow from whether a non-empty token was given; an unknown
    /// provider is a harmless no-op.
    pub fn update_provider_token(&mut self, provider_id: i64, token: Option<&str>, now: i64) -> (r:
        Result<(), SyncError>)
        requires
            old(self).wf(),
        ensures
            final(self).wf(),
            r is Ok,
            match old(self).spec_find_provider(provider_id) {
                Some(k) => {
                    &&& final(self).providers@.len() == old(self).providers@.len()
                    &&& provider_with_token(
                        final(self).providers@[k],
                        old(self).providers@[k],
                        token.deep_view(),
                        now,
                    )
                    &&& forall|i: int|
                        0 <= i < old(self).providers@.len() && i != k ==> final(self).providers@[i]
                            == old(self).providers@[i]
                    &&& *final(self) == (Database { providers: final(self).providers, ..*old(self) })
                },
                None => *final(self) == *old(self),
            },
    {
        let k = match self.find_provider(provider_id) {
            Some(k) => k,
            None => {
                return Ok(());
            },
        };
        proof {
            crate::sequtil::lemma_first_where_props(
                self.providers@,
                by_provider_id(provider_id),
                0,
            );
        }
        let token_valid = match token {
            Some(t) => !t.is_empty(),
            None => false,
        };
        let stored_token: Option<String> = match token {
            Some(t) => Some(t.to_owned()),
            None => None,
        };
        let updated = GitProvider {
            id: self.providers[k].id,
            name: self.providers[k].name.clone(),
            provider_type: self.providers[k].provider_type.clone(),
            base_url: self.providers[k].base_url.clone(),
            api_base_url: self.providers[k].api_base_url.clone(),
            token: stored_token,
            token_valid,
            is_initialized: token_valid,
            created_at: self.providers[k].created_at,
            updated_at: now,
        };
        self.providers.set(k, updated);
        proof {
            self.lemma_providers_update_wf(*old(self), k as int);
        }
        Ok(())
    }

    /// Records the outcome of a credential validation; the initialization
    /// flag follows it.  An unknown provider is a harmless no-op.
    pub fn update_provider_token_validation(
        &mut self,
        provider_id: i64,
        is_valid: bool,
        now: i64,
    ) -> (r: Result<(), SyncError>)
        requires
            old(self).wf(),
        ensures
            final(self).wf(),
            r is Ok,
            match old(self).spec_find_provider(provider_id) {
                Some(k) => {
                    &&& final(self).providers@.len() == old(self).providers@.len()
                    &&& provider_with_validation(
                        final(self).providers@[k],
                        old(self).providers@[k],
                        is_valid,
                        now,
                    )
                    &&& forall|i: int|
                        0 <= i < old(self).providers@.len() && i != k ==> final(self).providers@[i]
                            == old(self).providers@[i]
                    &&& *final(self) == (Database { providers: final(self).providers, ..*old(self) })
                },
                None => *final(self) == *old(self),
            },
    {
        let k = match self.find_provider(provider_id) {
            Some(k) => k,
            None => {
                return Ok(());
            },
        };
        proof {
            crate::sequtil::lemma_first_where_props(
                self.providers@,
                by_provider_id(provider_id),
                0,
            );
        }
        let updated = GitProvider {
            id: self.providers[k].id,
            name: self.providers[k].name.clone(),
            provider_type: self.providers[k].provider_type.clone(),
            base_url: self.providers[k].base_url.clone(),
            api_base_url: self.providers[k].api_base_url.clone(),
            token: crate::strutil::clone_opt_string(&self.providers[k].token),
            token_valid: is_valid,
            is_initialized: is_valid,
            created_at: self.providers[k].created_at,
            updated_at: now,
        };
        self.providers.set(k, updated);
        proof {
            self.lemma_providers_update_wf(*old(self), k as int);
        }
        Ok(())
    }

    /// Replacing one provider without changing its identifier keeps the
    /// table well formed.
    proof fn lemma_providers_update_wf(&self, prev: Database, k: int)
        requires
            prev.wf(),
            0 <= k < prev.providers@.len(),
            self.providers@.len() == prev.providers@.len(),
            self.providers@[k].id == prev.providers@[k].id,
            forall|i: int|
                0 <= i < prev.providers@.len() && i != k ==> self.providers@[i]
                    == prev.providers@[i],
            *self == (Database { providers: self.providers, ..prev }),
        ensures
            self.wf(),
    {
        assert forall|i: int|
            0 <= i < self.providers@.len() implies 0 < (#[trigger] self.providers@[i]).id
            < self.next_provider_id by {
            assert(self.providers@[i].id == prev.providers@[i].id);
        }
        assert forall|i: int, j: int|
            0 <= i < j < self.providers@.len() implies (#[trigger] self.providers@[i]).id != (
        #[trigger] self.providers@[j]).id by {
            assert(self.providers@[i].id == prev.providers@[i].id);
            assert(self.providers@[j].id == prev.providers@[j].id);
        }
    }

    /// Marks a repository as touched by a sync: its last observed activity
    /// and update timestamp move to `now`.  An unknown repository is a
    /// harmless no-op.
    pub fn sync_repository(&mut self, repository_id: i64, now: i64) -> (r: Result<(), SyncError>)
        requires
            old(self).wf(),
        ensures
            final(self).wf(),
            r is Ok,
            match old(self).spec_find_repository(repository_id) {
                Some(k) => {
                    &&& final(self).repositories@.len() == old(self).repositories@.len()
                    &&& final(self).repositories@[k] == (Repository {
                        last_activity: Some(now),
                        updated_at: now,
                        ..old(self).repositories@[k]
                    })
                    &&& forall|i: int|
                        0 <= i < old(self).repositories@.len() && i != k
                            ==> final(self).repositories@[i] == old(self).repositories@[i]
                    &&& *final(self) == (Database {
                        repositories: final(self).repositories,
                        ..*old(self)
                    })
                },
                None => *final(self) == *old(self),
            },
    {
        let k = match self.find_repository(repository_id) {
            Some(k) => k,
            None => {
                return Ok(());
            },
        };
        proof {
            crate::sequtil::lemma_first_where_props(
                self.repositories@,
                by_repository_id(repository_id),
                0,
            );
        }
        let updated = Repository {
            last_activity: Some(now),
            updated_at: now,
            ..self.repositories[k].clone()
        };
        self.repositories.set(k, updated);
        proof {
            self.lemma_repositories_update_wf(*old(self), k as int);
        }
        Ok(())
    }

    /// Replacing one repository without changing its identifier keeps the
    /// table well formed.
    pub(crate) proof fn lemma_repositories_update_wf(&self, prev: Database, k: int)
        requires
            prev.wf(),
            0 <= k < prev.repositories@.len(),
            self.repositories@.len() == prev.repositories@.len(),
            self.repositories@[k].id == prev.repositories@[k].id,
            forall|i: int|
                0 <= i < prev.repositories@.len() && i != k ==> self.repositories@[i]
                    == prev.repositories@[i],
            *self == (Database { repositories: self.repositories, ..prev }),
        ensures
            self.wf(),
    {
        assert forall|i: int|
            0 <= i < self.repositories@.len() implies 0 < (#[trigger] self.repositories@[i]).id
            < self.next_repository_id by {
            assert(self.repositories@[i].id == prev.repositories@[i].id);
        }
        assert forall|i: int, j: int|
            0 <= i < j < self.repositories@.len() implies (#[trigger] self.repositories@[i]).id
            != (#[trigger] self.repositories@[j]).id by {
            assert(self.repositories@[i].id == prev.repositories@[i].id);
            assert(self.repositories@[j].id == prev.repositories@[j].id);
        }
    }

    /// Resolves a provider kind code to its local identifier.
    pub fn get_provider_type_id(&self, code: &str) -> (r: Result<i64, SyncError>)
        ensures
            match r {
                Ok(id) => crate::lookup::spec_provider_type_id(code@) == Some(id),
                Err(e) => e == SyncError::NotFound && crate::lookup::spec_provider_type_id(
                    code@,
                ) is None,
            },
    {
        match provider_type_id(code) {
            Some(id) => Ok(id),
            None => Err(SyncError::NotFound),
        }
    }

    /// Resolves an issue state code to its local identifier.
    pub fn get_issue_state_id(&self, code: &str) -> (r: Result<i64, SyncError>)
        ensures
            match r {
                Ok(id) => crate::lookup::spec_issue_state_id(code@) == Some(id),
                Err(e) => e == SyncError::NotFound && crate::lookup::spec_issue_state_id(
                    code@,
                ) is None,
            },
    {
        match crate::lookup::issue_state_id(code) {
            Some(id) => Ok(id),
            None => Err(SyncError::NotFound),
        }
    }

    /// Resolves a pull-request state code to its local identifier.
    pub fn get_pr_state_id(&self, code: &str) -> (r: Result<i64, SyncError>)
        ensures
            match r {
                Ok(id) => crate::lookup::spec_pr_state_id(code@) == Some(id),
                Err(e) => e == SyncError::NotFound && crate::lookup::spec_pr_state_id(
                    code@,
                ) is None,
            },
    {
        match crate::lookup::pr_state_id(code) {
            Some(id) => Ok(id),
            None => Err(SyncError::NotFound),
        }
    }

    /// Resolves a workflow status code, falling back to the in-progress
    /// identifier for an unrecognized code rather than failing the sync.
    pub fn get_workflow_status_id(&self, code: &str) -> (r: Result<i64, SyncError>)
        ensures
            match r {
                Ok(id) => id == crate::lookup::spec_workflow_status_id_or_default(code@),
                Err(_) => false,
            },
    {
        match crate::lookup::workflow_status_id(code) {
            Some(id) => Ok(id),
            None => Ok(crate::lookup::WF_STATUS_IN_PROGRESS),
        }
    }

    /// Resolves a workflow conclusion code; an unknown code resolves to no
    /// conclusion.
    pub fn get_workflow_conclusion_id(&self, code: &str) -> (r: Result<Option<i64>, SyncError>)
        ensures
            match r {
                Ok(id) => id == crate::lookup::spec_workflow_conclusion_id(code@),
                Err(_) => false,
            },
    {
        Ok(crate::lookup::workflow_conclusion_id(code))
    }
}


/// Key predicate: a provider serving this API endpoint with this kind.
pub open spec fn by_provider_endpoint(api_base_url: Seq<char>, provider_type: Seq<char>) -> spec_fn(
    GitProvider,
) -> bool {
    |p: GitProvider| p.api_base_url@ == api_base_url && p.provider_type@ == provider_type
}

/// Whether a registration names one of the two hosted standard endpoints,
/// for which at most one provider row exists.
pub open spec fn spec_is_standard_endpoint(provider_type: Seq<char>, api_base_url: Seq<char>) -> bool {
    (provider_type == "github"@ && api_base_url == "https://api.github.com"@) || (provider_type
        == "gitlab"@ && api_base_url == "https://gitlab.com/api/v4"@)
}

/// The repository name parsed from a web URL: what follows the last slash,
/// or the whole URL when it has none.
pub open spec fn spec_repo_name(url: Seq<char>) -> Seq<char> {
    match crate::strutil::last_char_from(url, '/', url.len() - 1) {
        Some(i) => url.subrange(i + 1, url.len() as int),
        None => url,
    }
}

/// The full name parsed from a web URL: its last two path segments, or the
/// whole URL when it has fewer.
pub open spec fn spec_repo_full_name(url: Seq<char>) -> Seq<char> {
    match crate::strutil::last_char_from(url, '/', url.len() - 1) {
        Some(i) => match crate::strutil::last_char_from(url, '/', i - 1) {
            Some(j) => url.subrange(j + 1, url.len() as int),
            None => url,
        },
        None => url,
    }
}

/// Relies on uuid's `Uuid::new_v4` to draw a fresh random identifier;
/// nothing can be promised of a random value.
#[verifier::external_body]
fn fresh_uuid() -> String {
    uuid::Uuid::new_v4().to_string()
}

/// A fresh remote-identifier placeholder: the library's prefix over a
/// random identifier.
fn fresh_api_id() -> (r: String)
    ensures
        r@.len() >= 4,
{
    let mut r = String::from_str("api-");
    let tail = fresh_uuid();
    proof {
        reveal_strlit("api-");
    }
    r.append(tail.as_str());
    r
}

impl Database {
    /// Registers a provider account after its credential has been
    /// validated outside.  For one of the two hosted standard endpoints an
    /// existing row is reused and only its credential moves; otherwise a
    /// new row is created, self-hosted ones counting as initialized from
    /// the start.
    pub fn register_provider(
        &mut self,
        name: String,
        provider_type: String,
        base_url: String,
        api_base_url: String,
        token: Option<&str>,
        token_valid: bool,
        now: i64,
    ) -> (r: Result<i64, SyncError>)
        requires
            old(self).wf(),
        ensures
            final(self).wf(),
            *final(self) == (Database {
                providers: final(self).providers,
                next_provider_id: final(self).next_provider_id,
                ..*old(self)
            }),
            match r {
                Ok(id) => {
                    &&& spec_provider_type_id(provider_type@) is Some
                    &&& if spec_is_standard_endpoint(provider_type@, api_base_url@) && first_where(
                        old(self).providers@,
                        by_provider_endpoint(api_base_url@, provider_type@),
                        0,
                    ) is Some {
                        let k = first_where(
                            old(self).providers@,
                            by_provider_endpoint(api_base_url@, provider_type@),
                            0,
                        )->0;
                        &&& id == old(self).providers@[k].id
                        &&& final(self).providers@.len() == old(self).providers@.len()
                        &&& final(self).providers@[k] == (GitProvider {
                            token: final(self).providers@[k].token,
                            token_valid,
                            is_initialized: token_valid,
                            updated_at: now,
                            ..old(self).providers@[k]
                        })
                        &&& (match (final(self).providers@[k].token, token) {
                            (Some(stored), Some(given)) => stored@ == given@,
                            (None, None) => true,
                            _ => false,
                        })
                        &&& forall|i: int|
                            0 <= i < old(self).providers@.len() && i != k
                                ==> final(self).providers@[i] == old(self).providers@[i]
                    } else {
                        &&& id == old(self).next_provider_id
                        &&& final(self).providers@.len() == old(self).providers@.len() + 1
                        &&& final(self).providers@.subrange(0, old(self).providers@.len() as int)
                            == old(self).providers@
                        &&& ({
                            let stored = final(self).providers@.last();
                            &&& stored.id == id
                            &&& stored.name == name
                            &&& stored.provider_type == provider_type
                            &&& stored.base_url == base_url
                            &&& stored.api_base_url == api_base_url
                            &&& (match (stored.token, token) {
                                (Some(s2), Some(given)) => s2@ == given@,
                                (None, None) => true,
                                _ => false,
                            })
                            &&& stored.token_valid == token_valid
                            &&& stored.is_initialized == (if spec_is_standard_endpoint(
                                provider_type@,
                                api_base_url@,
                            ) {
                                token is Some && token->0@.len() > 0
                            } else {
                                true
                            })
                            &&& stored.created_at == now
                            &&& stored.updated_at == now
                        })
                        &&& final(self).next_provider_id == old(self).next_provider_id + 1
                    }
                },
                Err(e) => {
                    &&& *final(self) == *old(self)
                    &&& (e == SyncError::Configuration || e == SyncError::Persistence)
                    &&& (e == SyncError::Configuration <==> spec_provider_type_id(
                        provider_type@,
                    ) is None)
                    &&& (e == SyncError::Persistence ==> old(self).next_provider_id == i64::MAX)
                },
            },
    {
        let is_standard = (str_eq(provider_type.as_str(), "github") && str_eq(
            api_base_url.as_str(),
            "https://api.github.com",
        )) || (str_eq(provider_type.as_str(), "gitlab") && str_eq(
            api_base_url.as_str(),
            "https://gitlab.com/api/v4",
        ));
        let existing: Option<usize> = if is_standard {
            self.find_provider_by_endpoint(api_base_url.as_str(), provider_type.as_str())
        } else {
            None
        };
        match existing {
            Some(k) => {
                proof {
                    crate::sequtil::lemma_first_where_props(
                        self.providers@,
                        by_provider_endpoint(api_base_url@, provider_type@),
                        0,
                    );
                }
                let stored_token: Option<String> = match token {
                    Some(t) => Some(t.to_owned()),
                    None => None,
                };
                let updated = GitProvider {
                    id: self.providers[k].id,
                    name: self.providers[k].name.clone(),
                    provider_type: self.providers[k].provider_type.clone(),
                    base_url: self.providers[k].base_url.clone(),
                    api_base_url: self.providers[k].api_base_url.clone(),
                    token: stored_token,
                    token_valid,
                    is_initialized: token_valid,
                    created_at: self.providers[k].created_at,
                    updated_at: now,
                };
                let id = updated.id;
                self.providers.set(k, updated);
                proof {
                    self.lemma_providers_update_wf(*old(self), k as int);
                }
                Ok(id)
            },
            None => {
                let is_initialized = if is_standard {
                    match token {
                        Some(t) => !t.is_empty(),
                        None => false,
                    }
                } else {
                    true
                };
                let candidate = GitProvider {
                    id: 0,
                    name,
                    provider_type,
                    base_url,
                    api_base_url,
                    token: match token {
                        Some(t) => Some(t.to_owned()),
                        None => None,
                    },
                    token_valid,
                    is_initialized,
                    created_at: now,
                    updated_at: now,
                };
                self.add_provider(&candidate)
            },
        }
    }

    fn find_provider_by_endpoint(&self, api_base_url: &str, provider_type: &str) -> (r: Option<
        usize,
    >)
        ensures
            match r {
                Some(i) => first_where(
                    self.providers@,
                    by_provider_endpoint(api_base_url@, provider_type@),
                    0,
                ) == Some(i as int),
                None => first_where(
                    self.providers@,
                    by_provider_endpoint(api_base_url@, provider_type@),
                    0,
                ) is None,
            },
    {
        let ghost p = by_provider_endpoint(api_base_url@, provider_type@);
        let mut i: usize = 0;
        while i < self.providers.len()
            invariant
                p == by_provider_endpoint(api_base_url@, provider_type@),
                i <= self.providers@.len(),
                first_where(self.providers@, p, 0) == first_where(self.providers@, p, i as int),
            decreases self.providers@.len() - i,
        {
            if str_eq(self.providers[i].api_base_url.as_str(), api_base_url) && str_eq(
                self.providers[i].provider_type.as_str(),
                provider_type,
            ) {
                proof {
                    assert(p(self.providers@[i as int]));
                    assert(first_where(self.providers@, p, i as int) == Some(i as int));
                }
                return Some(i);
            }
            proof {
                assert(!p(self.providers@[i as int]));
                assert(first_where(self.providers@, p, i as int) == first_where(
                    self.providers@,
                    p,
                    i as int + 1,
                ));
            }
            i = i + 1;
        }
        proof {
            assert(first_where(self.providers@, p, i as int) is None);
        }
        None
    }

    /// Registers a repository from its web URL under a provider.  The URL
    /// must extend the provider's base URL; the repository's name and full
    /// name are parsed from its last path segments.
    pub fn add_repository_from_url(
        &mut self,
        provider_id: i64,
        web_url: &str,
        api_url: &str,
        api_id: String,
        now: i64,
    ) -> (r: Result<i64, SyncError>)
        requires
            old(self).wf(),
        ensures
            final(self).wf(),
            match r {
                Ok(id) => {
                    &&& old(self).spec_find_provider(provider_id) is Some
                    &&& crate::strutil::is_match(
                        web_url@,
                        old(self).providers@[old(self).spec_find_provider(provider_id)->0].base_url@,
                        0,
                    )
                    &&& id == old(self).next_repository_id
                    &&& final(self).repositories@.len() == old(self).repositories@.len() + 1
                    &&& final(self).repositories@.subrange(0, old(self).repositories@.len() as int)
                        == old(self).repositories@
                    &&& ({
                        let stored = final(self).repositories@.last();
                        &&& stored.id == id
                        &&& stored.api_id == api_id
                        &&& stored.name@ == spec_repo_name(web_url@)
                        &&& stored.full_name@ == spec_repo_full_name(web_url@)
                        &&& stored.web_url@ == web_url@
                        &&& stored.api_base_url@ == api_url@
                        &&& stored.provider_id == provider_id
                        &&& stored.last_issues_sync_success is None
                        &&& stored.last_pull_requests_sync_success is None
                        &&& stored.last_workflows_sync_success is None
                        &&& stored.created_at == now
                        &&& stored.updated_at == now
                    })
                    &&& *final(self) == (Database {
                        repositories: final(self).repositories,
                        next_repository_id: final(self).next_repository_id,
                        ..*old(self)
                    })
                },
                Err(e) => {
                    &&& *final(self) == *old(self)
                    &&& (e == SyncError::NotFound || e == SyncError::Configuration || e
                        == SyncError::Persistence)
                    &&& (e == SyncError::NotFound <==> old(self).spec_find_provider(
                        provider_id,
                    ) is None)
                    &&& (e == SyncError::Configuration <==> old(self).spec_find_provider(
                        provider_id,
                    ) is Some && !crate::strutil::is_match(
                        web_url@,
                        old(self).providers@[old(self).spec_find_provider(provider_id)->0].base_url@,
                        0,
                    ))
                    &&& (e == SyncError::Persistence ==> old(self).next_repository_id == i64::MAX)
                },
            },
    {
        let owner_idx = match self.find_provider(provider_id) {
            Some(i) => i,
            None => {
                return Err(SyncError::NotFound);
            },
        };
        proof {
            crate::sequtil::lemma_first_where_props(
                self.providers@,
                by_provider_id(provider_id),
                0,
            );
        }
        if !crate::strutil::str_starts_with(web_url, self.providers[owner_idx].base_url.as_str()) {
            return Err(SyncError::Configuration);
        }
        let url_len = web_url.unicode_len();
        let name: String = match crate::strutil::find_char_last(
            web_url,
            '/',
            if url_len > 0 {
                url_len - 1
            } else {
                0
            },
        ) {
            Some(i) => {
                proof {
                    crate::strutil::lemma_last_char_bounds(web_url@, '/', url_len - 1);
                }
                String::from_str(web_url.substring_char(i + 1, url_len))
            },
            None => web_url.to_owned(),
        };
        let full_name: String = match crate::strutil::find_char_last(
            web_url,
            '/',
            if url_len > 0 {
                url_len - 1
            } else {
                0
            },
        ) {
            Some(i) => {
                proof {
                    crate::strutil::lemma_last_char_bounds(web_url@, '/', url_len - 1);
                }
                if i == 0 {
                    web_url.to_owned()
                } else {
                    match crate::strutil::find_char_last(web_url, '/', i - 1) {
                        Some(j) => {
                            proof {
                                crate::strutil::lemma_last_char_bounds(web_url@, '/', i - 1);
                            }
                            String::from_str(web_url.substring_char(j + 1, url_len))
                        },
                        None => web_url.to_owned(),
                    }
                }
            },
            None => web_url.to_owned(),
        };
        let candidate = Repository {
            id: 0,
            api_id,
            name,
            full_name,
            web_url: web_url.to_owned(),
            api_base_url: api_url.to_owned(),
            description: None,
            provider_id,
            provider_name: self.providers[owner_idx].name.clone(),
            provider_type: self.providers[owner_idx].provider_type.clone(),
            is_private: false,
            language: None,
            last_activity: None,
            api_created_at: Some(now),
            api_updated_at: Some(now),
            last_issues_sync_success: None,
            last_pull_requests_sync_success: None,
            last_workflows_sync_success: None,
            last_issues_sync_status: None,
            last_pull_requests_sync_status: None,
            last_workflows_sync_status: None,
            created_at: now,
            updated_at: now,
        };
        self.add_repository(&candidate)
    }


    /// The hosted standard endpoints of a provider kind: its web base URL
    /// and API base URL, or none for an unknown kind.
    pub fn hosted_endpoints(provider_type: &str) -> (r: Option<(String, String)>)
        ensures
            match r {
                Some(p) => {
                    &&& (provider_type@ == "github"@ || provider_type@ == "gitlab"@)
                    &&& (provider_type@ == "github"@ ==> p.0@ == "https://github.com"@ && p.1@
                        == "https://api.github.com"@)
                    &&& (provider_type@ == "gitlab"@ ==> p.0@ == "https://gitlab.com"@ && p.1@
                        == "https://gitlab.com/api/v4"@)
                },
                None => provider_type@ != "github"@ && provider_type@ != "gitlab"@,
            },
    {
        proof {
            reveal_strlit("github");
            reveal_strlit("gitlab");
            assert("github"@[3] == 'h');
            assert("gitlab"@[3] == 'l');
            assert("github"@ != "gitlab"@);
        }
        if str_eq(provider_type, "github") {
            Some(
                (
                    String::from_str("https://github.com"),
                    String::from_str("https://api.github.com"),
                ),
            )
        } else if str_eq(provider_type, "gitlab") {
            Some(
                (
                    String::from_str("https://gitlab.com"),
                    String::from_str("https://gitlab.com/api/v4"),
                ),
            )
        } else {
            None
        }
    }

    /// Registers a repository from its web URL, drawing a fresh random
    /// placeholder for its remote identifier.
    pub fn register_repository(
        &mut self,
        provider_id: i64,
        web_url: &str,
        api_url: &str,
        now: i64,
    ) -> (r: Result<i64, SyncError>)
        requires
            old(self).wf(),
        ensures
            final(self).wf(),
            match r {
                Ok(id) => {
                    &&& old(self).spec_find_provider(provider_id) is Some
                    &&& id == old(self).next_repository_id
                    &&& final(self).repositories@.len() == old(self).repositories@.len() + 1
                    &&& final(self).repositories@.last().name@ == spec_repo_name(web_url@)
                    &&& final(self).repositories@.last().full_name@ == spec_repo_full_name(
                        web_url@,
                    )
                    &&& final(self).repositories@.last().web_url@ == web_url@
                },
                Err(e) => {
                    &&& *final(self) == *old(self)
                    &&& (e == SyncError::NotFound || e == SyncError::Configuration || e
                        == SyncError::Persistence)
                    &&& (e == SyncError::NotFound <==> old(self).spec_find_provider(
                        provider_id,
                    ) is None)
                    &&& (e == SyncError::Configuration <==> old(self).spec_find_provider(
                        provider_id,
                    ) is Some && !crate::strutil::is_match(
                        web_url@,
                        old(self).providers@[old(self).spec_find_provider(provider_id)->0].base_url@,
                        0,
                    ))
                    &&& (e == SyncError::Persistence ==> old(self).next_repository_id == i64::MAX)
                },
            },
    {
        let api_id = fresh_api_id();
        self.add_repository_from_url(provider_id, web_url, api_url, api_id, now)
    }
}

} // verus!
