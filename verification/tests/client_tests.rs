use gitmirror::client::{
    exclude_pull_requests, filter_issues_since, plan_credential_check, plan_resource_fetch,
    AuthScheme, PageLoop, SinceStyle, FETCH_PAGE_SIZE,
};
use gitmirror::domain::{Repository, ResourceKind, SyncError, SyncOutcome};
use gitmirror::records::{GitHubIssue, GitHubLabel, GitHubUser, IssueRecord};
use gitmirror::store::Database;
use gitmirror::strutil::mask_sensitive_url;

fn gh_issue(number: u32, updated_at: &str, is_pr: bool) -> GitHubIssue {
    GitHubIssue {
        id: 1000 + number as u64,
        number,
        title: format!("Issue #{}", number),
        user: GitHubUser { login: "octo".to_string() },
        state: "open".to_string(),
        labels: vec![GitHubLabel { name: "bug".to_string() }],
        html_url: format!("https://github.com/octo/widgets/issues/{}", number),
        closed_at: None,
        created_at: "2023-12-01T00:00:00Z".to_string(),
        updated_at: updated_at.to_string(),
        assignees: vec![],
        pull_request: is_pr,
    }
}

fn repo(provider_id: i64) -> Repository {
    Repository {
        id: 0,
        api_id: "4242".to_string(),
        name: "widgets".to_string(),
        full_name: "octo/widgets".to_string(),
        web_url: "https://github.com/octo/widgets".to_string(),
        api_base_url: "https://api.github.com".to_string(),
        description: None,
        provider_id,
        provider_name: String::new(),
        provider_type: String::new(),
        is_private: false,
        language: None,
        last_activity: None,
        api_created_at: None,
        api_updated_at: None,
        last_issues_sync_success: None,
        last_pull_requests_sync_success: None,
        last_workflows_sync_success: None,
        last_issues_sync_status: None,
        last_pull_requests_sync_status: None,
        last_workflows_sync_status: None,
        created_at: 1_000,
        updated_at: 1_000,
    }
}

#[test]
fn test_pagination_loop_three_pages() {
    // Exactly `per_page` items on a page demand the next page; a shorter
    // page ends the loop.  Pages of 100, 100 and 37 items make three
    // requests and 237 combined records.
    let mut pages: PageLoop<u32> = PageLoop::new(100);
    assert_eq!(pages.next_page, 1);

    assert!(!pages.done);
    pages.feed((0..100).collect());
    assert!(!pages.done);
    assert_eq!(pages.next_page, 2);

    pages.feed((0..100).collect());
    assert!(!pages.done);
    assert_eq!(pages.next_page, 3);

    pages.feed((0..37).collect());
    assert!(pages.done);
    assert_eq!(pages.pages_fetched, 3);
    assert_eq!(pages.collected.len(), 237);
}

#[test]
fn test_pagination_loop_short_first_page() {
    let mut pages: PageLoop<u32> = PageLoop::new(100);
    pages.feed(vec![1, 2, 3]);
    assert!(pages.done);
    assert_eq!(pages.pages_fetched, 1);
    assert_eq!(pages.next_page, 1);
    assert_eq!(pages.collected, vec![1, 2, 3]);
}

#[test]
fn test_pagination_loop_empty_page() {
    let mut pages: PageLoop<u32> = PageLoop::new(100);
    pages.feed(vec![]);
    assert!(pages.done);
    assert_eq!(pages.collected.len(), 0);
}

#[test]
fn test_plan_github_issues_request() {
    let mut db = Database::new(1_000);
    let provider_id = db
        .get_providers()
        .unwrap()
        .iter()
        .find(|p| p.provider_type == "github")
        .unwrap()
        .id;
    db.update_provider_token(provider_id, Some("SECRET-REDACTED"), 1_500).unwrap();
    let provider = db.get_provider(provider_id).unwrap();
    let mut r = repo(provider_id);
    r.last_issues_sync_success = Some(77_000);

    let req = plan_resource_fetch(&provider, &r, ResourceKind::Issues, 1).unwrap();
    assert_eq!(req.url, "https://api.github.com/repos/octo/widgets/issues");
    assert_eq!(req.auth, AuthScheme::TokenHeader);
    assert_eq!(req.token, "SECRET-REDACTED");
    assert_eq!(req.page, 1);
    assert_eq!(req.per_page, FETCH_PAGE_SIZE);
    assert!(req.state_all);
    assert_eq!(req.since, Some(77_000));
    assert_eq!(req.since_style, SinceStyle::Since);

    let runs = plan_resource_fetch(&provider, &r, ResourceKind::WorkflowRuns, 2).unwrap();
    assert_eq!(runs.url, "https://api.github.com/repos/octo/widgets/actions/runs");
    assert_eq!(runs.since_style, SinceStyle::CreatedAtLeast);
    assert_eq!(runs.since, None);
    assert_eq!(runs.page, 2);
}

#[test]
fn test_plan_gitlab_request() {
    let mut db = Database::new(1_000);
    let provider_id = db
        .get_providers()
        .unwrap()
        .iter()
        .find(|p| p.provider_type == "gitlab")
        .unwrap()
        .id;
    db.update_provider_token(provider_id, Some("SECRET-REDACTED"), 1_500).unwrap();
    let provider = db.get_provider(provider_id).unwrap();
    let r = repo(provider_id);

    let req = plan_resource_fetch(&provider, &r, ResourceKind::PullRequests, 1).unwrap();
    assert_eq!(req.url, "https://gitlab.com/api/v4/projects/4242/merge_requests");
    assert_eq!(req.auth, AuthScheme::PrivateToken);
    assert_eq!(req.since_style, SinceStyle::UpdatedAfter);
    assert!(req.state_all);

    let pipelines = plan_resource_fetch(&provider, &r, ResourceKind::WorkflowRuns, 1).unwrap();
    assert_eq!(pipelines.url, "https://gitlab.com/api/v4/projects/4242/pipelines");
    assert!(!pipelines.state_all);
}

#[test]
fn test_plan_missing_token_is_auth_error() {
    let db = Database::new(1_000);
    let provider = db.get_provider(1).unwrap();
    let r = repo(provider.id);
    let e = plan_resource_fetch(&provider, &r, ResourceKind::Issues, 1);
    assert_eq!(e.err(), Some(SyncError::Authentication));
}

#[test]
fn test_plan_unknown_kind_is_config_error() {
    let db = Database::new(1_000);
    let mut provider = db.get_provider(1).unwrap();
    provider.provider_type = "fossil".to_string();
    provider.token = Some("SECRET-REDACTED".to_string());
    let r = repo(provider.id);
    let e = plan_resource_fetch(&provider, &r, ResourceKind::Issues, 1);
    assert_eq!(e.err(), Some(SyncError::Configuration));
}

#[test]
fn test_exclude_pull_requests() {
    // The GitHub-shaped issues endpoint conflates issues and pull
    // requests; the pull requests are dropped before reconciliation.
    let items = vec![
        gh_issue(1, "2024-01-02T00:00:00Z", false),
        gh_issue(2, "2024-01-02T00:00:00Z", true),
        gh_issue(3, "2024-01-02T00:00:00Z", false),
    ];
    let kept = exclude_pull_requests(items);
    assert_eq!(kept.len(), 2);
    assert_eq!(kept[0].number, 1);
    assert_eq!(kept[1].number, 3);
}

fn record(number: u32, updated_at: &str) -> IssueRecord {
    IssueRecord {
        api_id: 1000 + number as u64,
        number,
        title: format!("Issue #{}", number),
        author: "octo".to_string(),
        state: "open".to_string(),
        labels: vec![],
        assigned_to_me: false,
        url: format!("https://github.com/octo/widgets/issues/{}", number),
        closed_at: None,
        created_at: "2023-12-01T00:00:00Z".to_string(),
        updated_at: updated_at.to_string(),
    }
}

#[test]
fn test_filter_since_drops_old_items() {
    // Cutoff at 2024-01-01T00:00:00Z (epoch milliseconds).
    let cutoff: i64 = 1_704_067_200_000;
    let records = vec![
        record(1, "2024-01-02T00:00:00Z"),
        record(2, "2023-12-30T00:00:00Z"),
        record(3, "2024-02-01T12:00:00Z"),
        record(4, "2024-01-01T00:00:00Z"),
    ];
    let kept = filter_issues_since(records, Some(cutoff));
    let numbers: Vec<u32> = kept.iter().map(|r| r.number).collect();
    assert_eq!(numbers, vec![1, 3]);
}

#[test]
fn test_filter_since_keeps_unparsable() {
    // The filter fails open: an item whose timestamp does not parse stays.
    let cutoff: i64 = 1_704_067_200_000;
    let records = vec![record(1, "not a timestamp"), record(2, "2023-01-01T00:00:00Z")];
    let kept = filter_issues_since(records, Some(cutoff));
    let numbers: Vec<u32> = kept.iter().map(|r| r.number).collect();
    assert_eq!(numbers, vec![1]);
}

#[test]
fn test_filter_since_without_cutoff_keeps_all() {
    let records = vec![record(1, "2020-01-01T00:00:00Z"), record(2, "not a timestamp")];
    let kept = filter_issues_since(records, None);
    assert_eq!(kept.len(), 2);
}

#[test]
fn test_mask_sensitive_url() {
    assert_eq!(
        mask_sensitive_url("https://api.example/repos?token=SECRET-REDACTED&page=1"),
        "https://api.example/repos?token=***MASKED***&page=1"
    );
    assert_eq!(
        mask_sensitive_url("https://api.example/repos?access_token=SECRET-REDACTED"),
        "https://api.example/repos?access_token=***MASKED***"
    );
    assert_eq!(
        mask_sensitive_url("https://api.example/x?key=SECRET-REDACTED&b=2"),
        "https://api.example/x?key=***MASKED***&b=2"
    );
    assert_eq!(
        mask_sensitive_url("https://api.example/repos?page=1"),
        "https://api.example/repos?page=1"
    );
}

#[test]
fn test_sync_scenario_incremental() {
    // A GitHub-shaped provider with a valid token owns one repository
    // whose issues cursor stands at the start of 2024.  The remote holds
    // three issues updated after the cutoff and two before; one page of
    // five items arrives, the sync upserts exactly the three new rows and
    // advances the cursor to the sync's start time.
    let t0: i64 = 1_704_067_200_000;
    let sync_start: i64 = 1_706_000_000_000;

    let mut db = Database::new(1_000);
    let provider_id = db
        .get_providers()
        .unwrap()
        .iter()
        .find(|p| p.provider_type == "github")
        .unwrap()
        .id;
    db.update_provider_token(provider_id, Some("SECRET-REDACTED"), 1_500).unwrap();
    let provider = db.get_provider(provider_id).unwrap();

    let mut r = repo(provider_id);
    r.last_issues_sync_success = Some(t0);
    let repo_id = db.add_repository(&r).unwrap();
    // The stored row starts with unset cursors; restore the scenario's
    // cutoff through a first successful (empty) sync at the cutoff time.
    db.sync_repository_issues(repo_id, Ok(vec![]), t0).unwrap();
    let stored = db.get_repository(repo_id).unwrap();
    assert_eq!(stored.last_issues_sync_success, Some(t0));

    // Plan the first page request from the stored cursor.
    let req = plan_resource_fetch(&provider, &stored, ResourceKind::Issues, 1).unwrap();
    assert_eq!(req.since, Some(t0));

    // One page of five remote items arrives; it is shorter than the page
    // size, so a single request suffices.
    let page = vec![
        gh_issue(1, "2024-01-05T00:00:00Z", false),
        gh_issue(2, "2023-12-20T00:00:00Z", false),
        gh_issue(3, "2024-02-01T00:00:00Z", false),
        gh_issue(4, "2023-11-11T00:00:00Z", false),
        gh_issue(5, "2024-03-01T00:00:00Z", false),
    ];
    let mut pages: PageLoop<GitHubIssue> = PageLoop::new(FETCH_PAGE_SIZE);
    pages.feed(page);
    assert!(pages.done);
    assert_eq!(pages.pages_fetched, 1);

    let real_issues = exclude_pull_requests(pages.collected);
    let records: Vec<IssueRecord> =
        real_issues.iter().map(|g| gitmirror::reconcile::normalize_github_issue(g)).collect();
    let fresh = filter_issues_since(records, req.since);
    assert_eq!(fresh.len(), 3);

    let synced = db.sync_repository_issues(repo_id, Ok(fresh), sync_start);
    assert_eq!(synced, Ok(3));

    let after = db.get_repository(repo_id).unwrap();
    assert_eq!(after.last_issues_sync_success, Some(sync_start));
    assert_eq!(after.last_issues_sync_status, Some(SyncOutcome::Success));
    assert_eq!(db.get_issue_stats(&None).unwrap().total, 3);
    let numbers: Vec<u32> =
        db.get_issues(&None, &None).unwrap().data.iter().map(|i| i.number).collect();
    assert_eq!(numbers, vec![5, 3, 1]);
}

#[test]
fn test_plan_credential_check() {
    let mut db = Database::new(1_000);
    let provider_id = db
        .get_providers()
        .unwrap()
        .iter()
        .find(|p| p.provider_type == "gitlab")
        .unwrap()
        .id;

    // No credential: refused before a request value exists.
    let bare = db.get_provider(provider_id).unwrap();
    assert_eq!(plan_credential_check(&bare).err(), Some(SyncError::Authentication));

    db.update_provider_token(provider_id, Some("SECRET-REDACTED"), 1_500).unwrap();
    let provider = db.get_provider(provider_id).unwrap();
    let check = plan_credential_check(&provider).unwrap();
    assert_eq!(check.url, "https://gitlab.com/api/v4/user");
    assert_eq!(check.auth, AuthScheme::PrivateToken);
    assert_eq!(check.token, "SECRET-REDACTED");

    let mut odd = provider.clone();
    odd.provider_type = "fossil".to_string();
    assert_eq!(plan_credential_check(&odd).err(), Some(SyncError::Configuration));
}
