//! The provider client's verified half: planning one fetch request (URL,
//! auth scheme and incremental filter chosen purely from the provider
//! kind), the fixed-size pagination state machine, and the client-side
//! cutoff filter applied where a remote only filters by creation time.
//!
//! The HTTP call itself is a driver's job; it renders a [`FetchRequest`],
//! performs it, and feeds what came back to [`PageLoop::feed`].

use vstd::prelude::*;
use vstd::string::StringExecFns;
use crate::domain::{GitProvider, Repository, ResourceKind, SyncError};
use crate::records::{GitHubIssue, IssueRecord, PullRequestRecord, WorkflowRecord};
use crate::strutil::str_eq;

verus! {

/// How many items one page asks for.
pub const FETCH_PAGE_SIZE: usize = 100;

/// How a request authenticates: a bearer-style token header for the
/// GitHub-shaped API, the private-token header for the GitLab-shaped one.
#[derive(Clone, Copy, PartialEq, Eq, Structural, Debug)]
pub enum AuthScheme {
    TokenHeader,
    PrivateToken,
}

/// Which query parameter carries the incremental cutoff: `since` for
/// GitHub-shaped issues and pull requests, `updated_after` for the
/// GitLab-shaped API, and a created-at lower bound for GitHub-shaped
/// workflow runs, whose endpoint only filters by creation time.
#[derive(Clone, Copy, PartialEq, Eq, Structural, Debug)]
pub enum SinceStyle {
    Since,
    UpdatedAfter,
    CreatedAtLeast,
}

/// One planned page request, ready for a driver to render and send.
#[derive(Debug)]
pub struct FetchRequest {
    pub url: String,
    pub auth: AuthScheme,
    pub token: String,
    pub page: u32,
    pub per_page: usize,
    /// Whether the request asks for every item state (`state=all`).
    pub state_all: bool,
    pub since: Option<i64>,
    pub since_style: SinceStyle,
}

/// What a planned request must hold for each provider kind and resource.
pub open spec fn planned_request(
    req: FetchRequest,
    provider: GitProvider,
    repo: Repository,
    resource: ResourceKind,
    page: u32,
) -> bool {
    &&& provider.token is Some
    &&& req.token@ == provider.token->0@
    &&& req.page == page
    &&& req.per_page == FETCH_PAGE_SIZE
    &&& req.since == repo.spec_cursor(resource)
    &&& if provider.provider_type@ == "github"@ {
        &&& req.auth == AuthScheme::TokenHeader
        &&& match resource {
            ResourceKind::Issues => req.url@ == provider.api_base_url@ + "/repos/"@
                + repo.full_name@ + "/issues"@ && req.state_all && req.since_style
                == SinceStyle::Since,
            ResourceKind::PullRequests => req.url@ == provider.api_base_url@ + "/repos/"@
                + repo.full_name@ + "/pulls"@ && req.state_all && req.since_style
                == SinceStyle::Since,
            ResourceKind::WorkflowRuns => req.url@ == provider.api_base_url@ + "/repos/"@
                + repo.full_name@ + "/actions/runs"@ && !req.state_all && req.since_style
                == SinceStyle::CreatedAtLeast,
        }
    } else {
        &&& provider.provider_type@ == "gitlab"@
        &&& req.auth == AuthScheme::PrivateToken
        &&& req.since_style == SinceStyle::UpdatedAfter
        &&& match resource {
            ResourceKind::Issues => req.url@ == provider.api_base_url@ + "/projects/"@
                + repo.api_id@ + "/issues"@ && req.state_all,
            ResourceKind::PullRequests => req.url@ == provider.api_base_url@ + "/projects/"@
                + repo.api_id@ + "/merge_requests"@ && req.state_all,
            ResourceKind::WorkflowRuns => req.url@ == provider.api_base_url@ + "/projects/"@
                + repo.api_id@ + "/pipelines"@ && !req.state_all,
        }
    }
}

/// Plans one page request.  Auth scheme, endpoint path and incremental
/// filter are a pure function of the provider kind; a missing credential
/// is an authentication error before anything is planned, and an unknown
/// provider kind a configuration error.
pub fn plan_resource_fetch(
    provider: &GitProvider,
    repo: &Repository,
    resource: ResourceKind,
    page: u32,
) -> (r: Result<FetchRequest, SyncError>)
    ensures
        match r {
            Ok(req) => planned_request(req, *provider, *repo, resource, page),
            Err(e) => {
                &&& (e == SyncError::Authentication <==> provider.token is None)
                &&& (e == SyncError::Configuration ==> provider.token is Some
                    && provider.provider_type@ != "github"@ && provider.provider_type@
                    != "gitlab"@)
                &&& (e == SyncError::Authentication || e == SyncError::Configuration)
            },
        },
{
    let token = match &provider.token {
        Some(t) => t.clone(),
        None => {
            return Err(SyncError::Authentication);
        },
    };
    let since = repo.cursor(resource);
    if str_eq(provider.provider_type.as_str(), "github") {
        let mut url = provider.api_base_url.clone();
        url.append("/repos/");
        url.append(repo.full_name.as_str());
        match resource {
            ResourceKind::Issues => {
                url.append("/issues");
                Ok(
                    FetchRequest {
                        url,
                        auth: AuthScheme::TokenHeader,
                        token,
                        page,
                        per_page: FETCH_PAGE_SIZE,
                        state_all: true,
                        since,
                        since_style: SinceStyle::Since,
                    },
                )
            },
            ResourceKind::PullRequests => {
                url.append("/pulls");
                Ok(
                    FetchRequest {
                        url,
                        auth: AuthScheme::TokenHeader,
                        token,
                        page,
                        per_page: FETCH_PAGE_SIZE,
                        state_all: true,
                        since,
                        since_style: SinceStyle::Since,
                    },
                )
            },
            ResourceKind::WorkflowRuns => {
                url.append("/actions/runs");
                Ok(
                    FetchRequest {
                        url,
                        auth: AuthScheme::TokenHeader,
                        token,
                        page,
                        per_page: FETCH_PAGE_SIZE,
                        state_all: false,
                        since,
                        since_style: SinceStyle::CreatedAtLeast,
                    },
                )
            },
        }
    } else if str_eq(provider.provider_type.as_str(), "gitlab") {
        let mut url = provider.api_base_url.clone();
        url.append("/projects/");
        url.append(repo.api_id.as_str());
        match resource {
            ResourceKind::Issues => {
                url.append("/issues");
                Ok(
                    FetchRequest {
                        url,
                        auth: AuthScheme::PrivateToken,
                        token,
                        page,
                        per_page: FETCH_PAGE_SIZE,
                        state_all: true,
                        since,
                        since_style: SinceStyle::UpdatedAfter,
                    },
                )
            },
            ResourceKind::PullRequests => {
                url.append("/merge_requests");
                Ok(
                    FetchRequest {
                        url,
                        auth: AuthScheme::PrivateToken,
                        token,
                        page,
                        per_page: FETCH_PAGE_SIZE,
                        state_all: true,
                        since,
                        since_style: SinceStyle::UpdatedAfter,
                    },
                )
            },
            ResourceKind::WorkflowRuns => {
                url.append("/pipelines");
                Ok(
                    FetchRequest {
                        url,
                        auth: AuthScheme::PrivateToken,
                        token,
                        page,
                        per_page: FETCH_PAGE_SIZE,
                        state_all: false,
                        since,
                        since_style: SinceStyle::UpdatedAfter,
                    },
                )
            },
        }
    } else {
        Err(SyncError::Configuration)
    }
}


/// One planned credential check against the remote's own-user endpoint.
#[derive(Debug)]
pub struct CredentialCheck {
    pub url: String,
    pub auth: AuthScheme,
    pub token: String,
}

/// What a planned credential check must hold for each provider kind.
pub open spec fn planned_credential_check(c: CredentialCheck, provider: GitProvider) -> bool {
    &&& provider.token is Some
    &&& provider.token->0@.len() > 0
    &&& c.token@ == provider.token->0@
    &&& c.url@ == provider.api_base_url@ + "/user"@
    &&& if provider.provider_type@ == "github"@ {
        c.auth == AuthScheme::TokenHeader
    } else {
        provider.provider_type@ == "gitlab"@ && c.auth == AuthScheme::PrivateToken
    }
}

/// Plans a credential check.  A missing or empty token is an
/// authentication error before any request value exists; an unknown
/// provider kind is a configuration error.
pub fn plan_credential_check(provider: &GitProvider) -> (r: Result<CredentialCheck, SyncError>)
    ensures
        match r {
            Ok(c) => planned_credential_check(c, *provider),
            Err(e) => {
                &&& (e == SyncError::Authentication || e == SyncError::Configuration)
                &&& (e == SyncError::Authentication <==> (provider.token is None
                    || provider.token->0@.len() == 0))
                &&& (e == SyncError::Configuration <==> provider.token is Some
                    && provider.token->0@.len() > 0 && provider.provider_type@ != "github"@
                    && provider.provider_type@ != "gitlab"@)
            },
        },
{
    let token = match &provider.token {
        Some(t) => {
            if t.as_str().is_empty() {
                return Err(SyncError::Authentication);
            }
            t.clone()
        },
        None => {
            return Err(SyncError::Authentication);
        },
    };
    let auth = if str_eq(provider.provider_type.as_str(), "github") {
        AuthScheme::TokenHeader
    } else if str_eq(provider.provider_type.as_str(), "gitlab") {
        AuthScheme::PrivateToken
    } else {
        return Err(SyncError::Configuration);
    };
    let mut url = provider.api_base_url.clone();
    url.append("/user");
    Ok(CredentialCheck { url, auth, token })
}

/// The fixed-size pagination state machine.  Pages are requested from one
/// upward; a page holding exactly `per_page` items demands the next page,
/// a shorter page ends the loop.
pub struct PageLoop<T> {
    pub per_page: usize,
    pub next_page: u32,
    pub done: bool,
    pub pages_fetched: u32,
    pub collected: Vec<T>,
}

impl<T> PageLoop<T> {
    /// A fresh loop, about to request page one.
    pub fn new(per_page: usize) -> (r: Self)
        ensures
            r.per_page == per_page,
            r.next_page == 1,
            !r.done,
            r.pages_fetched == 0,
            r.collected@ == Seq::<T>::empty(),
    {
        PageLoop { per_page, next_page: 1, done: false, pages_fetched: 0, collected: Vec::new() }
    }

    /// Accepts one fetched page.  The items are appended in order; the
    /// loop ends exactly when the page held fewer than `per_page` items,
    /// and otherwise the next request asks for the following page.
    pub fn feed(&mut self, page_items: Vec<T>)
        requires
            !old(self).done,
            old(self).next_page < u32::MAX,
            old(self).pages_fetched < u32::MAX,
        ensures
            final(self).per_page == old(self).per_page,
            final(self).collected@ == old(self).collected@ + page_items@,
            final(self).done == (page_items@.len() < old(self).per_page),
            final(self).next_page as int == if page_items@.len() < old(self).per_page {
                old(self).next_page as int
            } else {
                old(self).next_page + 1
            },
            final(self).pages_fetched == old(self).pages_fetched + 1,
    {
        let short_page = page_items.len() < self.per_page;
        let mut items = page_items;
        self.collected.append(&mut items);
        if short_page {
            self.done = true;
        } else {
            self.next_page = self.next_page + 1;
        }
        self.pages_fetched = self.pages_fetched + 1;
    }
}


/// One accepted page, exactly as [`PageLoop::feed`] promises it.
pub open spec fn fed_step<T>(a: PageLoop<T>, b: PageLoop<T>, items: Seq<T>) -> bool {
    &&& !a.done
    &&& b.per_page == a.per_page
    &&& b.collected@ == a.collected@ + items
    &&& b.done == (items.len() < a.per_page)
    &&& b.next_page as int == if items.len() < a.per_page {
        a.next_page as int
    } else {
        a.next_page + 1
    }
    &&& b.pages_fetched == a.pages_fetched + 1
}

/// A whole fetch run: successive loop states linked by one accepted page
/// each.
pub open spec fn fed_run<T>(states: Seq<PageLoop<T>>, pages: Seq<Seq<T>>) -> bool {
    &&& states.len() == pages.len() + 1
    &&& forall|k: int|
        0 <= k < pages.len() ==> #[trigger] fed_step(states[k], states[k + 1], pages[k])
}

/// Law (the whole pagination loop): starting fresh, a run over pages of
/// which exactly the last is short requests page `k + 1` at step `k`, in
/// order; the loop is still running before every full page and ends
/// exactly at the short one, having accepted as many pages as there were
/// and collected their concatenation.
pub proof fn lemma_page_run<T>(states: Seq<PageLoop<T>>, pages: Seq<Seq<T>>, m: int)
    requires
        fed_run(states, pages),
        states[0].next_page == 1,
        !states[0].done,
        states[0].pages_fetched == 0,
        states[0].collected@ == Seq::<T>::empty(),
        pages.len() >= 1,
        forall|k: int|
            0 <= k < pages.len() - 1 ==> (#[trigger] pages[k]).len() == states[0].per_page,
        pages.last().len() < states[0].per_page,
        0 <= m <= pages.len(),
    ensures
        states[m].per_page == states[0].per_page,
        states[m].pages_fetched == m,
        states[m].collected@ == pages.subrange(0, m).flatten(),
        m < pages.len() ==> !states[m].done && states[m].next_page == m + 1,
        m == pages.len() ==> states[m].done,
    decreases m,
{
    if m == 0 {
        assert(pages.subrange(0, 0).flatten() =~= Seq::<T>::empty()) by {
            Seq::<Seq<T>>::empty().lemma_flatten_one_element();
            assert(pages.subrange(0, 0) =~= Seq::<Seq<T>>::empty());
        }
    } else {
        lemma_page_run(states, pages, m - 1);
        let step = m - 1;
        assert(fed_step(states[step], states[step + 1], pages[step]));
        assert(states[step + 1] == states[m]);
        assert(pages.subrange(0, m) =~= pages.subrange(0, step).push(pages[step]));
        pages.subrange(0, step).lemma_flatten_push(pages[step]);
        if m < pages.len() {
            assert(pages[step].len() == states[0].per_page);
        } else {
            assert(pages[step] == pages.last());
        }
    }
}

/// The timeline position, in milliseconds, that an RFC 3339 text denotes,
/// if it parses; a pure function of the characters.
pub uninterp spec fn rfc3339_millis(s: Seq<char>) -> Option<i64>;

/// Relies on chrono's `DateTime::parse_from_rfc3339` and
/// `timestamp_millis`: parsing depends on the text alone, and a parsed
/// date-and-time has one position on the timeline.
#[verifier::external_body]
pub fn parse_rfc3339_millis(s: &str) -> (r: Option<i64>)
    ensures
        r == rfc3339_millis(s@),
{
    match chrono::DateTime::parse_from_rfc3339(s) {
        Ok(dt) => Some(dt.timestamp_millis()),
        Err(_) => None,
    }
}

/// Whether an item with this last-updated text survives the cutoff: kept
/// when it is newer than the cutoff, and kept when its timestamp does not
/// parse (the filter fails open), or when there is no cutoff.
pub open spec fn keeps_since(updated_at: Seq<char>, cutoff: Option<i64>) -> bool {
    match cutoff {
        None => true,
        Some(c) => match rfc3339_millis(updated_at) {
            Some(t) => t > c,
            None => true,
        },
    }
}

/// The cutoff filter over issue records.
pub open spec fn issue_since_pred(cutoff: Option<i64>) -> spec_fn(IssueRecord) -> bool {
    |r: IssueRecord| keeps_since(r.updated_at@, cutoff)
}

/// The cutoff filter over pull-request records.
pub open spec fn pr_since_pred(cutoff: Option<i64>) -> spec_fn(PullRequestRecord) -> bool {
    |r: PullRequestRecord| keeps_since(r.updated_at@, cutoff)
}

/// The cutoff filter over workflow records.
pub open spec fn workflow_since_pred(cutoff: Option<i64>) -> spec_fn(WorkflowRecord) -> bool {
    |r: WorkflowRecord| keeps_since(r.updated_at@, cutoff)
}

/// The pull-request-exclusion filter over the conflated GitHub-shaped
/// issues collection.
pub open spec fn not_pull_request() -> spec_fn(GitHubIssue) -> bool {
    |g: GitHubIssue| !g.pull_request
}

/// Drops the items of a conflated GitHub-shaped issues page that are
/// really pull requests.
pub fn exclude_pull_requests(items: Vec<GitHubIssue>) -> (r: Vec<GitHubIssue>)
    ensures
        r@ == items@.filter(not_pull_request()),
{
    let ghost orig = items@;
    let ghost p = not_pull_request();
    let mut rest = items;
    let mut out: Vec<GitHubIssue> = Vec::new();
    let ghost mut done: int = 0;
    while rest.len() > 0
        invariant
            p == not_pull_request(),
            0 <= done <= orig.len(),
            rest@ =~= orig.subrange(done, orig.len() as int),
            out@ =~= orig.subrange(0, done).filter(p),
        decreases rest@.len(),
    {
        proof {
            assert(rest@[0] == orig[done]);
            assert(orig.subrange(0, done + 1) =~= orig.subrange(0, done).push(orig[done]));
            crate::sequtil::lemma_filter_push(orig.subrange(0, done), orig[done], p);
        }
        let item = rest.remove(0);
        if !item.pull_request {
            out.push(item);
        }
        proof {
            done = done + 1;
            assert(rest@ =~= orig.subrange(done, orig.len() as int));
            assert(out@ =~= orig.subrange(0, done).filter(p));
        }
    }
    proof {
        assert(done == orig.len());
        assert(orig.subrange(0, orig.len() as int) =~= orig);
    }
    out
}

/// Applies the client-side cutoff to a batch of issue records, as the
/// GitHub-shaped API demands: its `since` parameter filters by creation
/// time, so items older than the cutoff by last update are dropped here,
/// and an unparsable timestamp keeps its item.
pub fn filter_issues_since(records: Vec<IssueRecord>, cutoff: Option<i64>) -> (r: Vec<IssueRecord>)
    ensures
        r@ == records@.filter(issue_since_pred(cutoff)),
{
    let ghost orig = records@;
    let ghost p = issue_since_pred(cutoff);
    let mut rest = records;
    let mut out: Vec<IssueRecord> = Vec::new();
    let ghost mut done: int = 0;
    while rest.len() > 0
        invariant
            p == issue_since_pred(cutoff),
            0 <= done <= orig.len(),
            rest@ =~= orig.subrange(done, orig.len() as int),
            out@ =~= orig.subrange(0, done).filter(p),
        decreases rest@.len(),
    {
        proof {
            assert(rest@[0] == orig[done]);
            assert(orig.subrange(0, done + 1) =~= orig.subrange(0, done).push(orig[done]));
            crate::sequtil::lemma_filter_push(orig.subrange(0, done), orig[done], p);
        }
        let keep = match cutoff {
            None => true,
            Some(c) => match parse_rfc3339_millis(rest[0].updated_at.as_str()) {
                Some(t) => t > c,
                None => true,
            },
        };
        let item = rest.remove(0);
        if keep {
            out.push(item);
        }
        proof {
            done = done + 1;
            assert(rest@ =~= orig.subrange(done, orig.len() as int));
            assert(out@ =~= orig.subrange(0, done).filter(p));
        }
    }
    proof {
        assert(done == orig.len());
        assert(orig.subrange(0, orig.len() as int) =~= orig);
    }
    out
}

/// Applies the client-side cutoff to a batch of pull-request records.
pub fn filter_prs_since(records: Vec<PullRequestRecord>, cutoff: Option<i64>) -> (r: Vec<
    PullRequestRecord,
>)
    ensures
        r@ == records@.filter(pr_since_pred(cutoff)),
{
    let ghost orig = records@;
    let ghost p = pr_since_pred(cutoff);
    let mut rest = records;
    let mut out: Vec<PullRequestRecord> = Vec::new();
    let ghost mut done: int = 0;
    while rest.len() > 0
        invariant
            p == pr_since_pred(cutoff),
            0 <= done <= orig.len(),
            rest@ =~= orig.subrange(done, orig.len() as int),
            out@ =~= orig.subrange(0, done).filter(p),
        decreases rest@.len(),
    {
        proof {
            assert(rest@[0] == orig[done]);
            assert(orig.subrange(0, done + 1) =~= orig.subrange(0, done).push(orig[done]));
            crate::sequtil::lemma_filter_push(orig.subrange(0, done), orig[done], p);
        }
        let keep = match cutoff {
            None => true,
            Some(c) => match parse_rfc3339_millis(rest[0].updated_at.as_str()) {
                Some(t) => t > c,
                None => true,
            },
        };
        let item = rest.remove(0);
        if keep {
            out.push(item);
        }
        proof {
            done = done + 1;
            assert(rest@ =~= orig.subrange(done, orig.len() as int));
            assert(out@ =~= orig.subrange(0, done).filter(p));
        }
    }
    proof {
        assert(done == orig.len());
        assert(orig.subrange(0, orig.len() as int) =~= orig);
    }
    out
}

/// Applies the client-side cutoff to a batch of workflow records.
pub fn filter_workflows_since(records: Vec<WorkflowRecord>, cutoff: Option<i64>) -> (r: Vec<
    WorkflowRecord,
>)
    ensures
        r@ == records@.filter(workflow_since_pred(cutoff)),
{
    let ghost orig = records@;
    let ghost p = workflow_since_pred(cutoff);
    let mut rest = records;
    let mut out: Vec<WorkflowRecord> = Vec::new();
    let ghost mut done: int = 0;
    while rest.len() > 0
        invariant
            p == workflow_since_pred(cutoff),
            0 <= done <= orig.len(),
            rest@ =~= orig.subrange(done, orig.len() as int),
            out@ =~= orig.subrange(0, done).filter(p),
        decreases rest@.len(),
    {
        proof {
            assert(rest@[0] == orig[done]);
            assert(orig.subrange(0, done + 1) =~= orig.subrange(0, done).push(orig[done]));
            crate::sequtil::lemma_filter_push(orig.subrange(0, done), orig[done], p);
        }
        let keep = match cutoff {
            None => true,
            Some(c) => match parse_rfc3339_millis(rest[0].updated_at.as_str()) {
                Some(t) => t > c,
                None => true,
            },
        };
        let item = rest.remove(0);
        if keep {
            out.push(item);
        }
        proof {
            done = done + 1;
            assert(rest@ =~= orig.subrange(done, orig.len() as int));
            assert(out@ =~= orig.subrange(0, done).filter(p));
        }
    }
    proof {
        assert(done == orig.len());
        assert(orig.subrange(0, orig.len() as int) =~= orig);
    }
    out
}

} // verus!
