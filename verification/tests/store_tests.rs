use gitmirror::domain::{GitProvider, Repository, SyncError};
use gitmirror::records::{GitHubIssue, GitHubLabel, GitHubPullRequest, GitHubUser, GitLabPipeline};
use gitmirror::store::Database;

fn create_test_provider(name: &str, provider_type: &str, now: i64) -> GitProvider {
    GitProvider {
        id: 0,
        name: name.to_string(),
        provider_type: provider_type.to_string(),
        base_url: format!("https://{}.example", provider_type),
        api_base_url: format!("https://api.{}.example", provider_type),
        token: None,
        token_valid: false,
        is_initialized: false,
        created_at: now,
        updated_at: now,
    }
}

fn create_test_repository(provider_id: i64, name: &str, now: i64) -> Repository {
    Repository {
        id: 0,
        api_id: format!("api-{}", name),
        name: name.to_string(),
        full_name: format!("user/{}", name),
        web_url: format!("https://github.com/user/{}", name),
        api_base_url: "https://api.github.com".to_string(),
        description: Some(format!("Description for {}", name)),
        provider_id,
        provider_name: "Test Provider".to_string(),
        provider_type: "github".to_string(),
        is_private: false,
        language: Some("Rust".to_string()),
        last_activity: None,
        api_created_at: Some(now),
        api_updated_at: Some(now),
        last_issues_sync_success: None,
        last_pull_requests_sync_success: None,
        last_workflows_sync_success: None,
        last_issues_sync_status: None,
        last_pull_requests_sync_status: None,
        last_workflows_sync_status: None,
        created_at: now,
        updated_at: now,
    }
}

fn create_github_issue(number: u32, state: &str) -> GitHubIssue {
    GitHubIssue {
        id: 1000 + number as u64,
        number,
        title: format!("Issue #{}", number),
        user: GitHubUser { login: "test-author".to_string() },
        state: state.to_string(),
        labels: vec![
            GitHubLabel { name: "bug".to_string() },
            GitHubLabel { name: "high-priority".to_string() },
        ],
        html_url: format!("https://github.com/user/repo/issues/{}", number),
        closed_at: None,
        created_at: "2024-01-01T00:00:00Z".to_string(),
        updated_at: "2024-01-02T00:00:00Z".to_string(),
        assignees: vec![],
        pull_request: false,
    }
}

#[test]
fn test_database_initializes_default_providers() {
    let db = Database::new(1_000);
    let providers = db.get_providers().unwrap();
    assert!(providers.len() >= 2);
    assert!(providers.iter().any(|p| p.name.contains("GitHub")));
    assert!(providers.iter().any(|p| p.name.contains("GitLab")));
}

#[test]
fn database_tests_test_add_provider_success() {
    let mut db = Database::new(1_000);
    let provider = create_test_provider("Test Provider", "github", 1_000);

    let result = db.add_provider(&provider);
    assert!(result.is_ok());

    let providers = db.get_providers().unwrap();
    let added_provider = providers.iter().find(|p| p.name == "Test Provider").unwrap();
    assert_eq!(added_provider.name, "Test Provider");
}

#[test]
fn test_add_provider_unknown_kind_is_configuration_error() {
    let mut db = Database::new(1_000);
    let provider = create_test_provider("Odd", "subversion", 1_000);
    assert_eq!(db.add_provider(&provider), Err(SyncError::Configuration));
}

#[test]
fn database_tests_test_get_provider_not_found() {
    let db = Database::new(1_000);
    let result = db.get_provider(99999);
    assert!(result.is_err());
}

#[test]
fn test_get_providers_returns_list() {
    let mut db = Database::new(1_000);

    let provider1 = create_test_provider("Provider 1", "github", 1_000);
    let provider2 = create_test_provider("Provider 2", "gitlab", 1_000);

    db.add_provider(&provider1).unwrap();
    db.add_provider(&provider2).unwrap();

    let providers = db.get_providers().unwrap();
    assert!(providers.len() >= 4);
    assert!(providers.iter().any(|p| p.name == "Provider 1"));
    assert!(providers.iter().any(|p| p.name == "Provider 2"));
}

#[test]
fn test_update_provider_token() {
    let mut db = Database::new(1_000);
    let provider = create_test_provider("Test Provider", "github", 1_000);
    let provider_id = db.add_provider(&provider).unwrap();

    let old_updated_at = db.get_provider(provider_id).unwrap().updated_at;

    let result = db.update_provider_token(provider_id, Some("new-token"), 2_000);
    assert!(result.is_ok());

    let updated_provider = db.get_provider(provider_id).unwrap();
    assert!(updated_provider.updated_at > old_updated_at);
    assert_eq!(updated_provider.token.as_deref(), Some("new-token"));
    assert!(updated_provider.token_valid);
    assert!(updated_provider.is_initialized);
}

#[test]
fn test_update_provider_token_empty_marks_invalid() {
    let mut db = Database::new(1_000);
    let provider = create_test_provider("Test Provider", "github", 1_000);
    let provider_id = db.add_provider(&provider).unwrap();

    db.update_provider_token(provider_id, Some(""), 2_000).unwrap();
    let updated = db.get_provider(provider_id).unwrap();
    assert!(!updated.token_valid);
    assert!(!updated.is_initialized);
}

#[test]
fn test_delete_provider_and_cascade() {
    let mut db = Database::new(1_000);

    let provider = create_test_provider("Test Provider", "github", 1_000);
    let provider_id = db.add_provider(&provider).unwrap();

    let repository = create_test_repository(provider_id, "test-repo", 1_000);
    let repository_id = db.add_repository(&repository).unwrap();

    db.upsert_issue_from_github(&create_github_issue(1, "open"), repository_id, 1_500)
        .unwrap();

    assert!(db.get_provider(provider_id).is_ok());
    assert!(db.get_repository(repository_id).is_ok());
    assert_eq!(db.get_issue_stats(&None).unwrap().total, 1);

    let result = db.delete_provider(provider_id);
    assert!(result.is_ok());

    assert!(db.get_provider(provider_id).is_err());
    assert!(db.get_repository(repository_id).is_err());
    assert_eq!(db.get_issue_stats(&None).unwrap().total, 0);
}

#[test]
fn database_tests_test_add_repository_success() {
    let mut db = Database::new(1_000);

    let providers = db.get_providers().unwrap();
    let default_provider = &providers[0];

    let repository = create_test_repository(default_provider.id, "test-repo", 1_000);

    let result = db.add_repository(&repository);
    assert!(result.is_ok());

    let repositories = db.get_repositories().unwrap();
    let created_repository = repositories.iter().find(|r| r.name == "test-repo").unwrap();
    assert_eq!(created_repository.name, "test-repo");
    assert!(created_repository.last_issues_sync_success.is_none());
    assert!(created_repository.last_pull_requests_sync_success.is_none());
    assert!(created_repository.last_workflows_sync_success.is_none());
}

#[test]
fn test_add_repository_unknown_provider_fails() {
    let mut db = Database::new(1_000);
    let repository = create_test_repository(424242, "test-repo", 1_000);
    assert_eq!(db.add_repository(&repository), Err(SyncError::NotFound));
}

#[test]
fn test_get_repository_not_found() {
    let db = Database::new(1_000);
    let result = db.get_repository(99999);
    assert!(result.is_err());
}

#[test]
fn test_get_repositories_by_provider() {
    let mut db = Database::new(1_000);

    let providers = db.get_providers().unwrap();
    let provider1_id = providers[0].id;
    let provider2_id = providers[1].id;

    db.add_repository(&create_test_repository(provider1_id, "repo1", 1_000)).unwrap();
    db.add_repository(&create_test_repository(provider2_id, "repo2", 1_000)).unwrap();
    db.add_repository(&create_test_repository(provider1_id, "repo3", 1_000)).unwrap();

    let provider1_repos = db.get_repositories_by_provider(provider1_id).unwrap();
    assert_eq!(provider1_repos.len(), 2);

    let provider2_repos = db.get_repositories_by_provider(provider2_id).unwrap();
    assert_eq!(provider2_repos.len(), 1);
}

#[test]
fn database_tests_test_delete_repository_and_cascade() {
    let mut db = Database::new(1_000);

    let providers = db.get_providers().unwrap();
    let provider_id = providers[0].id;
    let repository_id =
        db.add_repository(&create_test_repository(provider_id, "test-repo", 1_000)).unwrap();

    db.upsert_issue_from_github(&create_github_issue(1, "open"), repository_id, 1_500)
        .unwrap();
    let pr = GitHubPullRequest {
        id: 77,
        number: 7,
        title: "A change".to_string(),
        user: GitHubUser { login: "test-author".to_string() },
        state: "open".to_string(),
        draft: false,
        html_url: "https://github.com/user/repo/pull/7".to_string(),
        merged_at: None,
        closed_at: None,
        created_at: "2024-01-01T00:00:00Z".to_string(),
        updated_at: "2024-01-02T00:00:00Z".to_string(),
        assignees: vec![],
    };
    db.upsert_pr_from_github(&pr, repository_id, 1_500).unwrap();
    let pipeline = GitLabPipeline {
        id: 55,
        status: "success".to_string(),
        web_url: "https://gitlab.example/p/55".to_string(),
        created_at: "2024-01-01T00:00:00Z".to_string(),
        updated_at: "2024-01-02T00:00:00Z".to_string(),
    };
    db.upsert_pipeline_from_gitlab(&pipeline, repository_id, 1_500).unwrap();

    assert!(db.get_repository(repository_id).is_ok());
    assert_eq!(db.get_issue_stats(&None).unwrap().total, 1);
    assert_eq!(db.get_pull_request_stats(&None).unwrap().total, 1);
    assert_eq!(db.get_workflow_stats(&None).unwrap().total, 1);

    let result = db.delete_repository(repository_id);
    assert!(result.is_ok());

    assert!(db.get_repository(repository_id).is_err());
    assert_eq!(db.get_issue_stats(&None).unwrap().total, 0);
    assert_eq!(db.get_pull_request_stats(&None).unwrap().total, 0);
    assert_eq!(db.get_workflow_stats(&None).unwrap().total, 0);
}

#[test]
fn test_sync_repository() {
    let mut db = Database::new(1_000);

    let providers = db.get_providers().unwrap();
    let provider_id = providers[0].id;
    let repository_id =
        db.add_repository(&create_test_repository(provider_id, "test-repo", 1_000)).unwrap();

    let result = db.sync_repository(repository_id, 5_000);
    assert!(result.is_ok());

    let synced_repo = db.get_repository(repository_id).unwrap();
    assert_eq!(synced_repo.last_activity, Some(5_000));
    assert_eq!(synced_repo.updated_at, 5_000);
}

#[test]
fn test_register_provider_standard_reuses_row() {
    let mut db = Database::new(1_000);
    let before = db.get_providers().unwrap().len();

    let id = db
        .register_provider(
            "My GitHub".to_string(),
            "github".to_string(),
            "https://github.com".to_string(),
            "https://api.github.com".to_string(),
            Some("SECRET-REDACTED"),
            true,
            2_000,
        )
        .unwrap();

    // The seeded github row was reused rather than duplicated.
    assert_eq!(db.get_providers().unwrap().len(), before);
    let updated = db.get_provider(id).unwrap();
    assert!(updated.token_valid);
    assert!(updated.is_initialized);
    assert_eq!(updated.token.as_deref(), Some("SECRET-REDACTED"));
}

#[test]
fn test_register_provider_self_hosted_is_initialized() {
    let mut db = Database::new(1_000);
    let id = db
        .register_provider(
            "Work GitLab".to_string(),
            "gitlab".to_string(),
            "https://gitlab.work.example".to_string(),
            "https://gitlab.work.example/api/v4".to_string(),
            None,
            false,
            2_000,
        )
        .unwrap();
    let stored = db.get_provider(id).unwrap();
    assert!(stored.is_initialized);
    assert!(!stored.token_valid);
}

#[test]
fn test_add_repository_from_url_parses_names() {
    let mut db = Database::new(1_000);
    let providers = db.get_providers().unwrap();
    let github_id = providers.iter().find(|p| p.provider_type == "github").unwrap().id;

    let repo_id = db
        .add_repository_from_url(
            github_id,
            "https://github.com/octo/widgets",
            "https://api.github.com",
            "api-42".to_string(),
            3_000,
        )
        .unwrap();

    let stored = db.get_repository(repo_id).unwrap();
    assert_eq!(stored.name, "widgets");
    assert_eq!(stored.full_name, "octo/widgets");
    assert_eq!(stored.web_url, "https://github.com/octo/widgets");
    assert_eq!(stored.api_id, "api-42");
}

#[test]
fn test_add_repository_from_url_rejects_foreign_base() {
    let mut db = Database::new(1_000);
    let providers = db.get_providers().unwrap();
    let github_id = providers.iter().find(|p| p.provider_type == "github").unwrap().id;

    let r = db.add_repository_from_url(
        github_id,
        "https://elsewhere.example/octo/widgets",
        "https://api.github.com",
        "api-43".to_string(),
        3_000,
    );
    assert_eq!(r, Err(SyncError::Configuration));
}

#[test]
fn test_lookup_identifiers() {
    let db = Database::new(1_000);
    assert!(db.get_provider_type_id("github").is_ok());
    assert!(db.get_provider_type_id("gitlab").is_ok());
    assert!(db.get_provider_type_id("fossil").is_err());
    assert!(db.get_issue_state_id("open").is_ok());
    assert!(db.get_issue_state_id("closed").is_ok());
    assert!(db.get_issue_state_id("ajar").is_err());
    assert!(db.get_pr_state_id("merged").is_ok());
    // An unrecognized workflow status falls back instead of failing.
    let fallback = db.get_workflow_status_id("mystifying").unwrap();
    let in_progress = db.get_workflow_status_id("in_progress").unwrap();
    assert_eq!(fallback, in_progress);
    assert_eq!(db.get_workflow_conclusion_id("mystifying").unwrap(), None);
    assert!(db.get_workflow_conclusion_id("success").unwrap().is_some());
}

#[test]
fn test_hosted_endpoints() {
    let github = Database::hosted_endpoints("github").unwrap();
    assert_eq!(github.0, "https://github.com");
    assert_eq!(github.1, "https://api.github.com");
    let gitlab = Database::hosted_endpoints("gitlab").unwrap();
    assert_eq!(gitlab.0, "https://gitlab.com");
    assert_eq!(gitlab.1, "https://gitlab.com/api/v4");
    assert!(Database::hosted_endpoints("fossil").is_none());
}

#[test]
fn test_listings_keep_registration_order() {
    // Providers and repositories come back in registration order.
    let mut db = Database::new(1_000);
    db.add_provider(&create_test_provider("Zeta", "github", 1_000)).unwrap();
    db.add_provider(&create_test_provider("Alpha", "gitlab", 1_000)).unwrap();
    let names: Vec<String> =
        db.get_providers().unwrap().into_iter().map(|p| p.name).collect();
    assert_eq!(names[2], "Zeta");
    assert_eq!(names[3], "Alpha");

    let p = db.get_providers().unwrap()[0].id;
    db.add_repository(&create_test_repository(p, "zulu", 1_000)).unwrap();
    db.add_repository(&create_test_repository(p, "alfa", 1_000)).unwrap();
    let repo_names: Vec<String> =
        db.get_repositories().unwrap().into_iter().map(|r| r.name).collect();
    assert_eq!(repo_names, vec!["zulu".to_string(), "alfa".to_string()]);
}
