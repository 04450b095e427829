//! Runnable end-to-end scenario checks over the library's own API.  Each
//! builds a fresh store, drives one scenario, and reports whether every
//! observation matched; the reported outcome is itself verified, so the
//! checks can only ever answer yes, and the test harness runs them all.

use vstd::prelude::*;
use vstd::string::StringExecFns;
use crate::domain::{GitProvider, IssueFilters, IssueRow, PaginationParams, Repository};
use crate::lookup::{ISSUE_STATE_OPEN, ISSUE_STATE_CLOSED};
use crate::records::{IssueRecord, PullRequestRecord, WorkflowRecord};
use crate::query::{issue_pred, joined_repo, joined_provider};
use crate::sequtil::{
    lemma_first_where_none, lemma_first_where_at, lemma_filter_all_true, lemma_filter_prefix_true,
    lemma_filter_suffix_true,
};
use crate::store::{Database, by_provider_id, by_repository_id, by_issue_key};
use crate::strutil::str_eq;

verus! {

fn sample_provider(name: &str, provider_type: &str, now: i64) -> (p: GitProvider)
    ensures
        p.name@ == name@,
        p.provider_type@ == provider_type@,
{
    GitProvider {
        id: 0,
        name: name.to_owned(),
        provider_type: provider_type.to_owned(),
        base_url: String::from_str("https://hosted.example"),
        api_base_url: String::from_str("https://api.hosted.example"),
        token: None,
        token_valid: false,
        is_initialized: false,
        created_at: now,
        updated_at: now,
    }
}

fn sample_repository(provider_id: i64, name: &str, now: i64) -> (r: Repository)
    ensures
        r.name@ == name@,
        r.provider_id == provider_id,
{
    Repository {
        id: 0,
        api_id: String::from_str("api-sample"),
        name: name.to_owned(),
        full_name: String::from_str("user/sample"),
        web_url: String::from_str("https://hosted.example/user/sample"),
        api_base_url: String::from_str("https://api.hosted.example"),
        description: None,
        provider_id,
        provider_name: String::new(),
        provider_type: String::new(),
        is_private: false,
        language: None,
        last_activity: None,
        api_created_at: None,
        api_updated_at: None,
        last_issues_sync_success: None,
        last_pull_requests_sync_success: None,
        last_workflows_sync_success: None,
        last_issues_sync_status: None,
        last_pull_requests_sync_status: None,
        last_workflows_sync_status: None,
        created_at: now,
        updated_at: now,
    }
}

fn sample_issue(number: u32, state: &str, title: &str) -> (r: IssueRecord)
    ensures
        r.number == number,
        r.state@ == state@,
        r.title@ == title@,
{
    IssueRecord {
        api_id: number as u64,
        number,
        title: title.to_owned(),
        author: String::from_str("sample-author"),
        state: state.to_owned(),
        labels: Vec::new(),
        assigned_to_me: false,
        url: String::from_str("https://hosted.example/user/sample/issues"),
        closed_at: None,
        created_at: String::from_str("2024-01-01T00:00:00Z"),
        updated_at: String::from_str("2024-01-02T00:00:00Z"),
    }
}

/// A fresh store with one repository under the first seeded provider; the
/// repository gets identifier one.
fn fresh_store_with_repo() -> (r: (Database, i64))
    ensures
        r.0.wf(),
        r.1 == 1,
        r.0.providers@.len() == 2,
        r.0.providers@[0].id == 1,
        r.0.providers@[1].id == 2,
        r.0.repositories@.len() == 1,
        r.0.repositories@[0].id == 1,
        r.0.repositories@[0].provider_id == 1,
        r.0.issues@.len() == 0,
        r.0.pull_requests@.len() == 0,
        r.0.workflows@.len() == 0,
        r.0.next_issue_id == 1,
        r.0.next_pull_request_id == 1,
        r.0.next_workflow_id == 1,
{
    let mut db = Database::new(1_000);
    let provider_id = db.providers[0].id;
    let repo = sample_repository(provider_id, "repo1", 1_000);
    proof {
        assert(by_provider_id(1)(db.providers@[0]));
        lemma_first_where_at(db.providers@, by_provider_id(1), 0);
    }
    let id = match db.add_repository(&repo) {
        Ok(id) => id,
        Err(_) => {
            proof {
                assert(false);
            }
            vstd::pervasive::unreached()
        },
    };
    (db, id)
}

/// The one-repository stores built above join every row of repository one
/// to its repository and provider.
proof fn lemma_simple_join(db: Database)
    requires
        db.repositories@.len() == 1,
        db.repositories@[0].id == 1,
        db.repositories@[0].provider_id == 1,
        db.providers@.len() >= 1,
        db.providers@[0].id == 1,
    ensures
        joined_repo(db, 1) == Some(db.repositories@[0]),
        joined_provider(db, 1) == Some(db.providers@[0]),
{
    assert(by_repository_id(1)(db.repositories@[0]));
    lemma_first_where_at(db.repositories@, by_repository_id(1), 0);
    assert(by_provider_id(1)(db.providers@[0]));
    lemma_first_where_at(db.providers@, by_provider_id(1), 0);
}


/// Extracts the sorted witness behind one returned issue page and its
/// length.
proof fn lemma_page_witness(
    db: Database,
    f: Option<IssueFilters>,
    data: Seq<crate::domain::Issue>,
    off: u32,
    per_page: u32,
) -> (full: Seq<IssueRow>)
    requires
        exists|full: Seq<IssueRow>|
            {
                &&& #[trigger] crate::query::issues_sorted_desc(full)
                &&& full.to_multiset() == db.issues@.filter(
                    crate::query::issue_pred(db, f),
                ).to_multiset()
                &&& crate::query::issue_views_ok(
                    db,
                    crate::query::page_slice(full, off, per_page),
                    data,
                )
            },
    ensures
        crate::query::issues_sorted_desc(full),
        full.to_multiset() == db.issues@.filter(crate::query::issue_pred(db, f)).to_multiset(),
        crate::query::issue_views_ok(db, crate::query::page_slice(full, off, per_page), data),
        full.len() == db.issues@.filter(crate::query::issue_pred(db, f)).len(),
{
    broadcast use vstd::seq_lib::group_to_multiset_ensures;

    let matching = db.issues@.filter(crate::query::issue_pred(db, f));
    let full = choose|full: Seq<IssueRow>|
        {
            &&& #[trigger] crate::query::issues_sorted_desc(full)
            &&& full.to_multiset() == matching.to_multiset()
            &&& crate::query::issue_views_ok(
                db,
                crate::query::page_slice(full, off, per_page),
                data,
            )
        };
    assert(full.len() == full.to_multiset().len());
    assert(matching.len() == matching.to_multiset().len());
    full
}

/// Seeds `open_count` open issues followed by `closed_count` closed ones
/// into an empty issue table, under distinct remote numbers; row `t` ends
/// up with remote number `t + 1`.
fn seed_issues(db: &mut Database, repo_id: i64, open_count: u32, closed_count: u32) -> (ok: bool)
    requires
        old(db).wf(),
        old(db).issues@.len() == 0,
        old(db).next_issue_id == 1,
        open_count <= 1000,
        closed_count <= 1000,
    ensures
        final(db).wf(),
        ok,
        final(db).issues@.len() == open_count + closed_count,
        forall|t: int|
            0 <= t < open_count ==> (#[trigger] final(db).issues@[t]).state_id
                == ISSUE_STATE_OPEN,
        forall|t: int|
            open_count <= t < open_count + closed_count ==> (
            #[trigger] final(db).issues@[t]).state_id == ISSUE_STATE_CLOSED,
        forall|t: int|
            0 <= t < open_count + closed_count ==> (#[trigger] final(db).issues@[t]).repository_id
                == repo_id,
        final(db).next_issue_id == 1 + open_count + closed_count,
        *final(db) == (Database {
            issues: final(db).issues,
            next_issue_id: final(db).next_issue_id,
            ..*old(db)
        }),
{
    let ghost pre = *old(db);
    let mut i: u32 = 0;
    while i < open_count
        invariant
            pre == *old(db),
            db.wf(),
            i <= open_count,
            open_count <= 1000,
            db.issues@.len() == i,
            db.next_issue_id == 1 + i,
            forall|t: int|
                0 <= t < i ==> (#[trigger] db.issues@[t]).state_id == ISSUE_STATE_OPEN
                    && db.issues@[t].repository_id == repo_id && db.issues@[t].number == t + 1,
            *db == (Database { issues: db.issues, next_issue_id: db.next_issue_id, ..pre }),
        decreases open_count - i,
    {
        let rec = sample_issue(i + 1, "open", "An open item");
        proof {
            assert forall|t: int|
                0 <= t < db.issues@.len() implies !by_issue_key(repo_id, rec.number)(
                #[trigger] db.issues@[t]) by {
                assert(db.issues@[t].number == t + 1);
            }
            lemma_first_where_none(db.issues@, by_issue_key(repo_id, rec.number));
        }
        let ghost before = *db;
        match db.upsert_issue(&rec, repo_id, 1_500) {
            Ok(_) => {},
            Err(_) => {
                return false;
            },
        }
        proof {
            assert forall|t: int|
                0 <= t < db.issues@.len() implies (#[trigger] db.issues@[t]).state_id
                == ISSUE_STATE_OPEN && db.issues@[t].repository_id == repo_id
                && db.issues@[t].number == t + 1 by {
                if t < before.issues@.len() {
                    assert(db.issues@[t] == db.issues@.subrange(
                        0,
                        before.issues@.len() as int,
                    )[t]);
                    assert(db.issues@[t] == before.issues@[t]);
                } else {
                    assert(db.issues@[t]@ == crate::reconcile::issue_row_merged(
                        rec@,
                        repo_id,
                        crate::lookup::spec_issue_state_id(rec.state@)->0,
                        before.next_issue_id,
                        1_500,
                        1_500,
                    ));
                }
            }
        }
        i = i + 1;
    }
    let mut j: u32 = 0;
    while j < closed_count
        invariant
            pre == *old(db),
            db.wf(),
            j <= closed_count,
            open_count <= 1000,
            closed_count <= 1000,
            db.issues@.len() == open_count + j,
            db.next_issue_id == 1 + open_count + j,
            forall|t: int|
                0 <= t < open_count ==> (#[trigger] db.issues@[t]).state_id == ISSUE_STATE_OPEN
                    && db.issues@[t].repository_id == repo_id && db.issues@[t].number == t + 1,
            forall|t: int|
                open_count <= t < open_count + j ==> (#[trigger] db.issues@[t]).state_id
                    == ISSUE_STATE_CLOSED && db.issues@[t].repository_id == repo_id
                    && db.issues@[t].number == t + 1,
            *db == (Database { issues: db.issues, next_issue_id: db.next_issue_id, ..pre }),
        decreases closed_count - j,
    {
        let rec = sample_issue(open_count + j + 1, "closed", "A closed item");
        proof {
            reveal_strlit("closed");
            reveal_strlit("open");
            reveal_strlit("opened");
            assert("closed"@.len() == 6);
            assert("open"@.len() == 4);
            assert("closed"@[0] == 'c');
            assert("opened"@[0] == 'o');
            assert(crate::lookup::spec_issue_state_id("closed"@) == Some(ISSUE_STATE_CLOSED));
            assert forall|t: int|
                0 <= t < db.issues@.len() implies !by_issue_key(repo_id, rec.number)(
                #[trigger] db.issues@[t]) by {
                assert(db.issues@[t].number == t + 1);
            }
            lemma_first_where_none(db.issues@, by_issue_key(repo_id, rec.number));
        }
        let ghost before = *db;
        match db.upsert_issue(&rec, repo_id, 1_500) {
            Ok(_) => {},
            Err(_) => {
                return false;
            },
        }
        proof {
            assert forall|t: int|
                0 <= t < db.issues@.len() implies (#[trigger] db.issues@[t]).repository_id
                == repo_id && db.issues@[t].number == t + 1 && (t < open_count
                ==> db.issues@[t].state_id == ISSUE_STATE_OPEN) && (open_count <= t
                ==> db.issues@[t].state_id == ISSUE_STATE_CLOSED) by {
                if t < before.issues@.len() {
                    assert(db.issues@[t] == db.issues@.subrange(
                        0,
                        before.issues@.len() as int,
                    )[t]);
                    assert(db.issues@[t] == before.issues@[t]);
                } else {
                    assert(db.issues@[t]@ == crate::reconcile::issue_row_merged(
                        rec@,
                        repo_id,
                        crate::lookup::spec_issue_state_id(rec.state@)->0,
                        before.next_issue_id,
                        1_500,
                        1_500,
                    ));
                }
            }
        }
        j = j + 1;
    }
    true
}

fn no_filters() -> (f: IssueFilters)
    ensures
        f.state is None,
        f.assigned is None,
        f.provider is None,
        f.repository is None,
        f.search is None,
{
    IssueFilters { state: None, assigned: None, provider: None, repository: None, search: None }
}

/// Scenario: a registered provider can be read back under its fresh
/// identifier, with its name and kind intact.
pub fn test_add_provider_success() -> (ok: bool)
    ensures
        ok,
{
    let mut db = Database::new(1_000);
    let provider = sample_provider("Test Provider", "github", 1_000);
    let id = match db.add_provider(&provider) {
        Ok(id) => id,
        Err(_) => {
            proof {
                assert(false);
            }
            vstd::pervasive::unreached()
        },
    };
    proof {
        assert(by_provider_id(3)(db.providers@[2]));
        lemma_first_where_at(db.providers@, by_provider_id(3), 2);
    }
    match db.get_provider(id) {
        Ok(stored) => str_eq(stored.name.as_str(), "Test Provider") && str_eq(
            stored.provider_type.as_str(),
            "github",
        ),
        Err(_) => false,
    }
}

/// Scenario: asking for an unregistered provider identifier is an error.
pub fn test_get_provider_not_found() -> (ok: bool)
    ensures
        ok,
{
    let db = Database::new(1_000);
    proof {
        lemma_first_where_none(db.providers@, by_provider_id(99_999));
    }
    match db.get_provider(99_999) {
        Ok(_) => false,
        Err(_) => true,
    }
}

/// Scenario: an added repository can be read back under its fresh
/// identifier, with its name intact and its resource cursors unset.
pub fn test_add_repository_success() -> (ok: bool)
    ensures
        ok,
{
    let mut db = Database::new(1_000);
    let provider_id = db.providers[0].id;
    let repo = sample_repository(provider_id, "test-repo", 1_000);
    proof {
        assert(by_provider_id(1)(db.providers@[0]));
        lemma_first_where_at(db.providers@, by_provider_id(1), 0);
    }
    let id = match db.add_repository(&repo) {
        Ok(id) => id,
        Err(_) => {
            proof {
                assert(false);
            }
            vstd::pervasive::unreached()
        },
    };
    proof {
        assert(by_repository_id(1)(db.repositories@[0]));
        lemma_first_where_at(db.repositories@, by_repository_id(1), 0);
    }
    match db.get_repository(id) {
        Ok(stored) => str_eq(stored.name.as_str(), "test-repo")
            && stored.last_issues_sync_success.is_none()
            && stored.last_issues_sync_status.is_none(),
        Err(_) => false,
    }
}

/// Scenario: of six mirrored issues, three open and three closed, a state
/// filter of `"open"` returns exactly the three open ones.
pub fn test_get_issues_with_state_filter() -> (ok: bool)
    ensures
        ok,
{
    let (mut db, repo_id) = fresh_store_with_repo();
    if !seed_issues(&mut db, repo_id, 3, 3) {
        return false;
    }
    let filters = IssueFilters { state: Some(String::from_str("open")), ..no_filters() };
    let ghost f = Some(filters);
    let ghost pred = issue_pred(db, f);
    proof {
        reveal_strlit("open");
        reveal_strlit("closed");
        assert("open"@.len() == 4);
        assert("closed"@.len() == 6);
        assert(crate::lookup::spec_issue_state_code(ISSUE_STATE_OPEN) == "open"@);
        assert(crate::lookup::spec_issue_state_code(ISSUE_STATE_CLOSED) != "open"@);
        lemma_simple_join(db);
        assert forall|t: int|
            0 <= t < db.issues@.len() implies (pred(#[trigger] db.issues@[t]) <==> t < 3) by {
            assert(db.issues@[t].repository_id == 1);
            assert(crate::query::issue_joinable(db, db.issues@[t]));
            if t < 3 {
                assert(db.issues@[t].state_id == ISSUE_STATE_OPEN);
            } else {
                assert(db.issues@[t].state_id == ISSUE_STATE_CLOSED);
            }
        }
        lemma_filter_prefix_true(db.issues@, pred, 3);
    }
    let page = match db.get_issues(&Some(filters), &None) {
        Ok(p) => p,
        Err(_) => {
            proof {
                assert(false);
            }
            vstd::pervasive::unreached()
        },
    };
    proof {
        broadcast use vstd::seq_lib::group_to_multiset_ensures;

        let matching = db.issues@.filter(pred);
        let witness = lemma_page_witness(db, f, page.data@, 0u32, 20u32);
        assert(witness.len() == 3);
        assert(crate::query::page_slice(witness, 0u32, 20u32) =~= witness);
        assert forall|t: int|
            0 <= t < page.data@.len() implies (#[trigger] page.data@[t]).state@
            == crate::lookup::spec_issue_state_code(ISSUE_STATE_OPEN) by {
            assert(crate::query::issue_view_ok(db, witness[t], page.data@[t]));
            assert(witness.contains(witness[t]));
            assert(matching.to_multiset().count(witness[t]) > 0);
            assert(matching.contains(witness[t]));
            let w = choose|w: int| 0 <= w < matching.len() && matching[w] == witness[t];
            assert(matching[w].state_id == ISSUE_STATE_OPEN);
        }
    }
    if page.data.len() != 3 {
        return false;
    }
    let mut k: usize = 0;
    while k < page.data.len()
        invariant
            k <= page.data@.len(),
            forall|t: int|
                0 <= t < page.data@.len() ==> (#[trigger] page.data@[t]).state@
                    == crate::lookup::spec_issue_state_code(ISSUE_STATE_OPEN),
        decreases page.data@.len() - k,
    {
        if !str_eq(page.data[k].state.as_str(), "open") {
            return false;
        }
        k = k + 1;
    }
    true
}

/// Scenario: twenty-five mirrored issues paged ten at a time fill two full
/// pages and one partial page; a page past the end is empty.
pub fn test_pagination_boundary_values() -> (ok: bool)
    ensures
        ok,
{
    let (mut db, repo_id) = fresh_store_with_repo();
    if !seed_issues(&mut db, repo_id, 25, 0) {
        return false;
    }
    let ghost f: Option<IssueFilters> = None;
    let ghost pred = issue_pred(db, f);
    proof {
        lemma_simple_join(db);
        assert forall|t: int| 0 <= t < db.issues@.len() implies pred(#[trigger] db.issues@[t]) by {
            assert(db.issues@[t].repository_id == 1);
        }
        lemma_filter_all_true(db.issues@, pred);
    }
    let first = match db.get_issues(&None, &Some(PaginationParams { page: 1, per_page: 10 })) {
        Ok(p) => p,
        Err(_) => {
            proof {
                assert(false);
            }
            vstd::pervasive::unreached()
        },
    };
    proof {
        let witness = lemma_page_witness(db, f, first.data@, 0u32, 10u32);
        assert(witness.len() == 25);
        assert(crate::query::page_slice(witness, 0u32, 10u32) =~= witness.subrange(0, 10));
    }
    if first.data.len() != 10 || first.pagination.total != 25 || first.pagination.total_pages
        != 3 {
        return false;
    }
    let last = match db.get_issues(&None, &Some(PaginationParams { page: 3, per_page: 10 })) {
        Ok(p) => p,
        Err(_) => {
            proof {
                assert(false);
            }
            vstd::pervasive::unreached()
        },
    };
    proof {
        let witness = lemma_page_witness(db, f, last.data@, 20u32, 10u32);
        assert(witness.len() == 25);
        assert(crate::query::page_slice(witness, 20u32, 10u32) =~= witness.subrange(20, 25));
    }
    if last.data.len() != 5 {
        return false;
    }
    let beyond = match db.get_issues(&None, &Some(PaginationParams { page: 5, per_page: 10 })) {
        Ok(p) => p,
        Err(_) => {
            proof {
                assert(false);
            }
            vstd::pervasive::unreached()
        },
    };
    proof {
        let witness = lemma_page_witness(db, f, beyond.data@, 40u32, 10u32);
        assert(witness.len() == 25);
        assert(crate::query::page_slice(witness, 40u32, 10u32).len() == 0);
    }
    beyond.data.len() == 0
}

/// Scenario: the search filter matches ASCII-case-insensitively over the
/// title.
pub fn test_case_insensitive_search() -> (ok: bool)
    ensures
        ok,
{
    let (mut db, repo_id) = fresh_store_with_repo();
    let rec = sample_issue(1, "open", "BUG in Authentication");
    proof {
        lemma_first_where_none(db.issues@, by_issue_key(repo_id, rec.number));
    }
    match db.upsert_issue(&rec, repo_id, 1_500) {
        Ok(_) => {},
        Err(_) => {
            return false;
        },
    }
    let filters = IssueFilters { search: Some(String::from_str("bug")), ..no_filters() };
    let ghost f = Some(filters);
    let ghost pred = issue_pred(db, f);
    proof {
        reveal_strlit("bug");
        reveal_strlit("BUG in Authentication");
        lemma_simple_join(db);
        let title = "BUG in Authentication"@;
        let low = crate::strutil::lower_seq(title);
        assert(low.subrange(0, 3) =~= crate::strutil::lower_seq("bug"@));
        assert(crate::strutil::is_match(low, crate::strutil::lower_seq("bug"@), 0));
        assert(crate::strutil::contains_sub_ci(title, "bug"@));
        assert forall|t: int|
            0 <= t < db.issues@.len() implies pred(#[trigger] db.issues@[t]) by {
            assert(db.issues@[t].repository_id == 1);
            assert(db.issues@[t].title@ == title);
        }
        lemma_filter_all_true(db.issues@, pred);
    }
    let page = match db.get_issues(&Some(filters), &None) {
        Ok(p) => p,
        Err(_) => {
            proof {
                assert(false);
            }
            vstd::pervasive::unreached()
        },
    };
    proof {
        broadcast use vstd::seq_lib::group_to_multiset_ensures;

        let matching = db.issues@.filter(pred);
        let witness = lemma_page_witness(db, f, page.data@, 0u32, 20u32);
        assert(witness.len() == 1);
        assert(crate::query::page_slice(witness, 0u32, 20u32) =~= witness);
        assert(crate::query::issue_view_ok(db, witness[0], page.data@[0]));
        assert(witness.contains(witness[0]));
        assert(matching.to_multiset().count(witness[0]) > 0);
        assert(matching.contains(witness[0]));
        let w = choose|w: int| 0 <= w < matching.len() && matching[w] == witness[0];
        assert(matching[w].title@ == "BUG in Authentication"@);
    }
    if page.data.len() != 1 {
        return false;
    }
    str_eq(page.data[0].title.as_str(), "BUG in Authentication")
}

/// Scenario: deleting a repository removes it and every mirrored row that
/// belonged to it.
pub fn test_delete_repository_and_cascade() -> (ok: bool)
    ensures
        ok,
{
    let (mut db, repo_id) = fresh_store_with_repo();
    let issue = sample_issue(1, "open", "An open item");
    proof {
        lemma_first_where_none(db.issues@, by_issue_key(repo_id, issue.number));
    }
    match db.upsert_issue(&issue, repo_id, 1_500) {
        Ok(_) => {},
        Err(_) => {
            return false;
        },
    }
    let pr = PullRequestRecord {
        api_id: 7,
        number: 7,
        title: String::from_str("A change"),
        author: String::from_str("sample-author"),
        state: String::from_str("open"),
        draft: false,
        assigned_to_me: false,
        url: String::from_str("https://hosted.example/user/sample/pulls"),
        merged_at: None,
        closed_at: None,
        created_at: String::from_str("2024-01-01T00:00:00Z"),
        updated_at: String::from_str("2024-01-02T00:00:00Z"),
    };
    proof {
        lemma_first_where_none(db.pull_requests@, crate::store::by_pr_key(repo_id, pr.number));
        reveal_strlit("open");
    }
    match db.upsert_pull_request(&pr, repo_id, 1_500) {
        Ok(_) => {},
        Err(_) => {
            return false;
        },
    }
    let run = WorkflowRecord {
        api_id: 55,
        name: String::from_str("CI"),
        status: String::from_str("success"),
        conclusion: None,
        url: String::from_str("https://hosted.example/user/sample/runs"),
        created_at: String::from_str("2024-01-01T00:00:00Z"),
        updated_at: String::from_str("2024-01-02T00:00:00Z"),
    };
    proof {
        lemma_first_where_none(
            db.workflows@,
            crate::store::by_workflow_key(repo_id, run.api_id),
        );
    }
    match db.upsert_workflow(&run, repo_id, 1_500) {
        Ok(_) => {},
        Err(_) => {
            return false;
        },
    }
    if db.issues.len() != 1 || db.pull_requests.len() != 1 || db.workflows.len() != 1 {
        return false;
    }
    proof {
        lemma_filter_prefix_true(db.issues@, crate::crud::keep_issue_not_of(repo_id), 0);
        lemma_filter_prefix_true(db.pull_requests@, crate::crud::keep_pr_not_of(repo_id), 0);
        lemma_filter_prefix_true(db.workflows@, crate::crud::keep_workflow_not_of(repo_id), 0);
        lemma_filter_prefix_true(
            db.repositories@,
            crate::crud::keep_other_repository(repo_id),
            0,
        );
    }
    match db.delete_repository(repo_id) {
        Ok(_) => {},
        Err(_) => {
            return false;
        },
    }
    proof {
        lemma_first_where_none(db.repositories@, by_repository_id(repo_id));
    }
    let gone = match db.get_repository(repo_id) {
        Ok(_) => false,
        Err(_) => true,
    };
    gone && db.issues.len() == 0 && db.pull_requests.len() == 0 && db.workflows.len() == 0
}

/// Scenario: of five mirrored issues, three open and two closed, the
/// aggregate counts report five, three and two.
pub fn test_get_issue_stats() -> (ok: bool)
    ensures
        ok,
{
    let (mut db, repo_id) = fresh_store_with_repo();
    if !seed_issues(&mut db, repo_id, 3, 2) {
        return false;
    }
    proof {
        lemma_filter_prefix_true(db.issues@, crate::query::issue_state_is(ISSUE_STATE_OPEN), 3);
        lemma_filter_suffix_true(
            db.issues@,
            crate::query::issue_state_is(ISSUE_STATE_CLOSED),
            3,
        );
    }
    match db.get_issue_stats(&None) {
        Ok(stats) => stats.total == 5 && stats.open == 3 && stats.closed == 2,
        Err(_) => false,
    }
}

} // verus!
