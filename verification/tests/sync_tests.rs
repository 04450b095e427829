use gitmirror::domain::{
    HistoryStatus, Repository, ResourceKind, ScopeKind, SyncError, SyncOutcome, SyncSettings,
};
use gitmirror::sync::{summarize_campaign, ProviderAction, SchedulerAction};
use gitmirror::records::{GitHubIssue, GitHubLabel, GitHubUser, IssueRecord};
use gitmirror::store::Database;

fn add_repo(db: &mut Database, provider_id: i64) -> i64 {
    let repo = Repository {
        id: 0,
        api_id: "api-r".to_string(),
        name: "r".to_string(),
        full_name: "user/r".to_string(),
        web_url: "https://github.com/user/r".to_string(),
        api_base_url: "https://api.github.com".to_string(),
        description: None,
        provider_id,
        provider_name: String::new(),
        provider_type: String::new(),
        is_private: false,
        language: None,
        last_activity: None,
        api_created_at: None,
        api_updated_at: None,
        last_issues_sync_success: None,
        last_pull_requests_sync_success: None,
        last_workflows_sync_success: None,
        last_issues_sync_status: None,
        last_pull_requests_sync_status: None,
        last_workflows_sync_status: None,
        created_at: 1_000,
        updated_at: 1_000,
    };
    db.add_repository(&repo).unwrap()
}

fn github_provider_id(db: &Database) -> i64 {
    db.get_providers()
        .unwrap()
        .iter()
        .find(|p| p.provider_type == "github")
        .unwrap()
        .id
}

fn issue_record(number: u32, updated_at: &str) -> IssueRecord {
    IssueRecord {
        api_id: 1000 + number as u64,
        number,
        title: format!("Issue #{}", number),
        author: "test-author".to_string(),
        state: "open".to_string(),
        labels: vec!["bug".to_string()],
        assigned_to_me: false,
        url: format!("https://github.com/user/r/issues/{}", number),
        closed_at: None,
        created_at: "2024-01-01T00:00:00Z".to_string(),
        updated_at: updated_at.to_string(),
    }
}

fn gh_issue(number: u32) -> GitHubIssue {
    GitHubIssue {
        id: 1000 + number as u64,
        number,
        title: format!("Issue #{}", number),
        user: GitHubUser { login: "test-author".to_string() },
        state: "open".to_string(),
        labels: vec![GitHubLabel { name: "bug".to_string() }],
        html_url: format!("https://github.com/user/r/issues/{}", number),
        closed_at: None,
        created_at: "2024-01-01T00:00:00Z".to_string(),
        updated_at: "2024-01-02T00:00:00Z".to_string(),
        assignees: vec![],
        pull_request: false,
    }
}

#[test]
fn test_upsert_preserves_first_recorded() {
    // Reconciliation is idempotent: re-applying the same remote record
    // keeps the row's identity and first-recorded timestamp and refreshes
    // only the local bookkeeping timestamp.
    let mut db = Database::new(1_000);
    let provider_id = github_provider_id(&db);
    let repo_id = add_repo(&mut db, provider_id);

    db.upsert_issue_from_github(&gh_issue(1), repo_id, 2_000).unwrap();
    let first = db.get_issues(&None, &None).unwrap().data;
    assert_eq!(first.len(), 1);
    assert_eq!(first[0].created_at, 2_000);
    assert_eq!(first[0].updated_at, 2_000);

    db.upsert_issue_from_github(&gh_issue(1), repo_id, 9_000).unwrap();
    let second = db.get_issues(&None, &None).unwrap().data;
    assert_eq!(second.len(), 1);
    assert_eq!(second[0].id, first[0].id);
    assert_eq!(second[0].created_at, 2_000);
    assert_eq!(second[0].updated_at, 9_000);
    assert_eq!(second[0].title, first[0].title);
    assert_eq!(second[0].labels, first[0].labels);
}

#[test]
fn test_try_start_sync_is_exclusive() {
    // Two racing campaign starts: exactly one is granted.
    let mut db = Database::new(1_000);
    assert!(!db.is_sync_in_progress());
    assert!(db.try_start_sync());
    assert!(db.is_sync_in_progress());
    assert!(!db.try_start_sync());
    db.reset_sync_lock();
    assert!(!db.get_sync_status());
}

#[test]
fn test_second_campaign_start_answers_busy() {
    let mut db = Database::new(1_000);
    let provider_id = github_provider_id(&db);
    db.update_provider_token(provider_id, Some("SECRET-REDACTED"), 1_500).unwrap();

    let session = db.begin_provider_sync(provider_id, 2_000).unwrap();
    let second = db.begin_provider_sync(provider_id, 2_001);
    assert_eq!(second.err(), Some(SyncError::Contention));

    db.finish_sync(&session, 0, 0, 0, None, 2_500);
    assert!(!db.is_sync_in_progress());
}

#[test]
fn test_begin_sync_without_credential_is_auth_error() {
    // No credential, or an invalidated one: the campaign ends before any
    // fetch is planned, and the latch is released again.
    let mut db = Database::new(1_000);
    let provider_id = github_provider_id(&db);

    let r = db.begin_provider_sync(provider_id, 2_000);
    assert_eq!(r.err(), Some(SyncError::Authentication));
    assert!(!db.is_sync_in_progress());

    db.update_provider_token(provider_id, Some("SECRET-REDACTED"), 1_500).unwrap();
    db.update_provider_token_validation(provider_id, false, 1_600).unwrap();
    let r = db.begin_provider_sync(provider_id, 2_000);
    assert_eq!(r.err(), Some(SyncError::Authentication));
    assert!(!db.is_sync_in_progress());

    let history = db.get_sync_history(None).unwrap();
    assert!(history.iter().all(|h| h.status == HistoryStatus::Failed));
}

#[test]
fn test_begin_sync_unknown_provider() {
    let mut db = Database::new(1_000);
    let r = db.begin_provider_sync(424242, 2_000);
    assert_eq!(r.err(), Some(SyncError::NotFound));
    assert!(!db.is_sync_in_progress());
}

#[test]
fn test_failed_sync_keeps_cursor() {
    // A failed resource sync marks a failure status and leaves the success
    // cursor untouched, so the retry refetches the same window.
    let mut db = Database::new(1_000);
    let provider_id = github_provider_id(&db);
    let repo_id = add_repo(&mut db, provider_id);

    let ok = db.sync_repository_issues(repo_id, Ok(vec![issue_record(1, "2024-01-02T00:00:00Z")]), 5_000);
    assert_eq!(ok, Ok(1));
    let repo = db.get_repository(repo_id).unwrap();
    assert_eq!(repo.last_issues_sync_success, Some(5_000));
    assert_eq!(repo.last_issues_sync_status, Some(SyncOutcome::Success));

    let failed = db.sync_repository_issues(repo_id, Err(SyncError::Transport(500)), 6_000);
    assert_eq!(failed, Err(SyncError::Transport(500)));
    let repo = db.get_repository(repo_id).unwrap();
    assert_eq!(repo.last_issues_sync_success, Some(5_000));
    assert_eq!(repo.last_issues_sync_status, Some(SyncOutcome::Failure));
    assert_eq!(db.get_issue_stats(&None).unwrap().total, 1);
}

#[test]
fn test_successful_sync_advances_cursor() {
    // A sync that succeeds with zero remote errors advances the cursor to
    // the sync's start time and records a success status.
    let mut db = Database::new(1_000);
    let provider_id = github_provider_id(&db);
    let repo_id = add_repo(&mut db, provider_id);

    let r = db.sync_repository_issues(
        repo_id,
        Ok(vec![issue_record(1, "2024-01-02T00:00:00Z"), issue_record(2, "2024-01-03T00:00:00Z")]),
        7_000,
    );
    assert_eq!(r, Ok(2));
    let repo = db.get_repository(repo_id).unwrap();
    assert_eq!(repo.last_issues_sync_success, Some(7_000));
    assert_eq!(repo.last_issues_sync_status, Some(SyncOutcome::Success));
    // The sibling cursors are untouched.
    assert_eq!(repo.last_pull_requests_sync_success, None);
    assert_eq!(repo.last_workflows_sync_success, None);
}

#[test]
fn test_failure_in_one_resource_leaves_siblings() {
    let mut db = Database::new(1_000);
    let provider_id = github_provider_id(&db);
    let repo_id = add_repo(&mut db, provider_id);

    let issues = db.sync_repository_issues(repo_id, Err(SyncError::Transport(502)), 4_000);
    assert!(issues.is_err());
    let prs = db.sync_repository_pull_requests(repo_id, Ok(vec![]), 4_000);
    assert_eq!(prs, Ok(0));
    let runs = db.sync_repository_workflows(repo_id, Ok(vec![]), 4_000);
    assert_eq!(runs, Ok(0));

    let repo = db.get_repository(repo_id).unwrap();
    assert_eq!(repo.last_issues_sync_status, Some(SyncOutcome::Failure));
    assert_eq!(repo.last_pull_requests_sync_status, Some(SyncOutcome::Success));
    assert_eq!(repo.last_workflows_sync_status, Some(SyncOutcome::Success));
}

#[test]
fn test_unknown_state_code_fails_sync() {
    let mut db = Database::new(1_000);
    let provider_id = github_provider_id(&db);
    let repo_id = add_repo(&mut db, provider_id);

    let mut bad = issue_record(1, "2024-01-02T00:00:00Z");
    bad.state = "ajar".to_string();
    let r = db.sync_repository_issues(repo_id, Ok(vec![bad]), 5_000);
    assert_eq!(r, Err(SyncError::Persistence));
    let repo = db.get_repository(repo_id).unwrap();
    assert_eq!(repo.last_issues_sync_success, None);
    assert_eq!(repo.last_issues_sync_status, Some(SyncOutcome::Failure));
}

#[test]
fn test_sync_history_lifecycle() {
    let mut db = Database::new(1_000);
    let id = db
        .create_sync_history(ScopeKind::Provider, Some(1), "GitHub.com".to_string(), 10_000)
        .unwrap();

    db.update_sync_history_completed(id, 12, 3, 0, 22_000).unwrap();
    let history = db.get_sync_history(None).unwrap();
    assert_eq!(history.len(), 1);
    let record = &history[0];
    assert_eq!(record.status, HistoryStatus::Completed);
    assert_eq!(record.items_synced, 12);
    assert_eq!(record.repositories_synced, 3);
    assert_eq!(record.errors_count, 0);
    assert_eq!(record.started_at, 10_000);
    assert_eq!(record.completed_at, Some(22_000));
    assert_eq!(record.duration_seconds, Some(12));

    // Finalized exactly once: a second completion is refused.
    let again = db.update_sync_history_completed(id, 99, 9, 9, 30_000);
    assert_eq!(again, Err(SyncError::Persistence));
    assert_eq!(db.get_sync_history(None).unwrap()[0].items_synced, 12);
}

#[test]
fn test_sync_history_failed_records_message() {
    let mut db = Database::new(1_000);
    let id = db
        .create_sync_history(ScopeKind::AllProviders, None, "All Providers".to_string(), 10_000)
        .unwrap();
    db.update_sync_history_failed(id, "remote unreachable", 11_000).unwrap();
    let record = &db.get_sync_history(None).unwrap()[0];
    assert_eq!(record.status, HistoryStatus::Failed);
    assert_eq!(record.error_message.as_deref(), Some("remote unreachable"));
    assert_eq!(record.duration_seconds, Some(1));
}

#[test]
fn test_get_sync_history() {
    let db = Database::new(1_000);
    let history = db.get_sync_history(Some(10)).unwrap();
    assert_eq!(history.len(), 0);
}

#[test]
fn test_get_sync_history_newest_first_with_limit() {
    let mut db = Database::new(1_000);
    for t in 0..4i64 {
        db.create_sync_history(
            ScopeKind::AllProviders,
            None,
            "All Providers".to_string(),
            10_000 + t,
        )
        .unwrap();
    }
    let history = db.get_sync_history(Some(2)).unwrap();
    assert_eq!(history.len(), 2);
    assert_eq!(history[0].started_at, 10_003);
    assert_eq!(history[1].started_at, 10_002);
}

#[test]
fn test_finish_sync_releases_latch_and_completes_history() {
    let mut db = Database::new(1_000);
    let provider_id = github_provider_id(&db);
    db.update_provider_token(provider_id, Some("SECRET-REDACTED"), 1_500).unwrap();

    let session = db.begin_provider_sync(provider_id, 2_000).unwrap();
    assert!(db.is_sync_in_progress());
    db.finish_sync(&session, 5, 1, 0, None, 3_000);
    assert!(!db.is_sync_in_progress());

    let history = db.get_sync_history(None).unwrap();
    assert_eq!(history[0].status, HistoryStatus::Completed);
    assert_eq!(history[0].items_synced, 5);
}

#[test]
fn test_finish_sync_records_failure_and_releases_latch() {
    let mut db = Database::new(1_000);
    let session = db.begin_all_providers_sync(2_000).unwrap();
    assert!(db.is_sync_in_progress());
    db.finish_sync(&session, 0, 0, 2, Some("two repositories failed"), 3_000);
    assert!(!db.is_sync_in_progress());
    let record = &db.get_sync_history(None).unwrap()[0];
    assert_eq!(record.status, HistoryStatus::Failed);
    assert_eq!(record.error_message.as_deref(), Some("two repositories failed"));
}

#[test]
fn test_sync_missing_repository_is_not_found() {
    let mut db = Database::new(1_000);
    let r = db.sync_repository_issues(98765, Ok(vec![]), 5_000);
    assert_eq!(r, Err(SyncError::NotFound));
}

#[test]
fn test_update_repository_sync_timestamp() {
    let mut db = Database::new(1_000);
    let provider_id = github_provider_id(&db);
    let repo_id = add_repo(&mut db, provider_id);

    db.update_repository_sync_timestamp(repo_id, ResourceKind::PullRequests, true, 4_000)
        .unwrap();
    let repo = db.get_repository(repo_id).unwrap();
    assert_eq!(repo.last_pull_requests_sync_success, Some(4_000));
    assert_eq!(repo.last_pull_requests_sync_status, Some(SyncOutcome::Success));
    assert_eq!(repo.last_issues_sync_success, None);

    db.update_repository_sync_timestamp(repo_id, ResourceKind::PullRequests, false, 5_000)
        .unwrap();
    let repo = db.get_repository(repo_id).unwrap();
    assert_eq!(repo.last_pull_requests_sync_success, Some(4_000));
    assert_eq!(repo.last_pull_requests_sync_status, Some(SyncOutcome::Failure));
}

#[test]
fn test_scheduler_action() {
    let on = SyncSettings { sync_interval_minutes: 30, auto_sync_enabled: true };
    let off = SyncSettings { sync_interval_minutes: 30, auto_sync_enabled: false };
    assert_eq!(gitmirror::sync::scheduler_action(&off, 30, false), SchedulerAction::Wait);
    assert_eq!(gitmirror::sync::scheduler_action(&on, 15, false), SchedulerAction::RestartTimer);
    assert_eq!(gitmirror::sync::scheduler_action(&on, 30, true), SchedulerAction::Skip);
    assert_eq!(gitmirror::sync::scheduler_action(&on, 30, false), SchedulerAction::RunCampaign);
}

#[test]
fn test_two_identical_syncs_converge() {
    // Two consecutive successful syncs of the same resource type with no
    // intervening remote change: the mirrored rows are the same set, each
    // row keeping its identity and first-recorded timestamp.
    let mut db = Database::new(1_000);
    let provider_id = github_provider_id(&db);
    let repo_id = add_repo(&mut db, provider_id);

    let batch = || {
        vec![issue_record(1, "2024-01-02T00:00:00Z"), issue_record(2, "2024-01-03T00:00:00Z")]
    };
    assert_eq!(db.sync_repository_issues(repo_id, Ok(batch()), 5_000), Ok(2));
    let first: Vec<_> = db
        .get_issues(&None, &None)
        .unwrap()
        .data
        .into_iter()
        .map(|i| (i.id, i.number, i.created_at))
        .collect();

    assert_eq!(db.sync_repository_issues(repo_id, Ok(batch()), 9_000), Ok(2));
    let second: Vec<_> = db
        .get_issues(&None, &None)
        .unwrap()
        .data
        .into_iter()
        .map(|i| (i.id, i.number, i.created_at))
        .collect();
    assert_eq!(first, second);
    assert_eq!(db.get_repository(repo_id).unwrap().last_issues_sync_success, Some(9_000));

    // Once the cursor has advanced past every remote change, the next
    // incremental fetch is empty and changes nothing.
    assert_eq!(db.sync_repository_issues(repo_id, Ok(vec![]), 12_000), Ok(0));
    assert_eq!(db.get_issue_stats(&None).unwrap().total, 2);
}

#[test]
fn test_next_provider_action() {
    let mut db = Database::new(1_000);
    // The two seeded providers start uninitialized; initialize the first.
    db.update_provider_token(1, Some("SECRET-REDACTED"), 1_500).unwrap();
    assert_eq!(db.next_provider_action(0), ProviderAction::SyncProvider(1));
    assert_eq!(db.next_provider_action(1), ProviderAction::Skip);
    assert_eq!(db.next_provider_action(2), ProviderAction::Done);
}

#[test]
fn test_summarize_campaign() {
    assert_eq!(summarize_campaign(&vec![], 0), (0, 0));
    assert_eq!(summarize_campaign(&vec![3, 4, 5], 2), (12, 2));
    // Counts past the history column's range clamp instead of wrapping.
    assert_eq!(summarize_campaign(&vec![u32::MAX, u32::MAX], 1), (i32::MAX, 1));
}

#[test]
fn test_get_sync_history_sorts_by_start_time() {
    // Even with a clock that moved backwards between campaigns, the page
    // comes back ordered by start time descending.
    let mut db = Database::new(1_000);
    db.create_sync_history(ScopeKind::AllProviders, None, "All Providers".to_string(), 1_000)
        .unwrap();
    db.create_sync_history(ScopeKind::AllProviders, None, "All Providers".to_string(), 500)
        .unwrap();
    let page = db.get_sync_history(None).unwrap();
    assert_eq!(page.len(), 2);
    assert_eq!(page[0].started_at, 1_000);
    assert_eq!(page[1].started_at, 500);
}
