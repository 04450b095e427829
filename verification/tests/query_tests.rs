use gitmirror::domain::{
    IssueFilters, PaginationParams, PullRequestFilters, Repository, WorkflowFilters,
};
use gitmirror::records::{
    GitHubIssue, GitHubLabel, GitHubPullRequest, GitHubUser, GitHubWorkflowRun, GitLabPipeline,
};
use gitmirror::store::Database;

fn add_default_repo(db: &mut Database) -> i64 {
    let providers = db.get_providers().unwrap();
    let provider_id = providers[0].id;
    let repo = Repository {
        id: 0,
        api_id: "api-repo1".to_string(),
        name: "repo1".to_string(),
        full_name: "user/repo1".to_string(),
        web_url: "https://github.com/user/repo1".to_string(),
        api_base_url: "https://api.github.com".to_string(),
        description: None,
        provider_id,
        provider_name: String::new(),
        provider_type: String::new(),
        is_private: false,
        language: None,
        last_activity: None,
        api_created_at: None,
        api_updated_at: None,
        last_issues_sync_success: None,
        last_pull_requests_sync_success: None,
        last_workflows_sync_success: None,
        last_issues_sync_status: None,
        last_pull_requests_sync_status: None,
        last_workflows_sync_status: None,
        created_at: 1_000,
        updated_at: 1_000,
    };
    db.add_repository(&repo).unwrap()
}

fn gh_issue(number: u32, state: &str, title: &str) -> GitHubIssue {
    GitHubIssue {
        id: 1000 + number as u64,
        number,
        title: title.to_string(),
        user: GitHubUser { login: "test-author".to_string() },
        state: state.to_string(),
        labels: vec![GitHubLabel { name: "bug".to_string() }],
        html_url: format!("https://github.com/user/repo1/issues/{}", number),
        closed_at: None,
        created_at: "2024-01-01T00:00:00Z".to_string(),
        updated_at: "2024-01-02T00:00:00Z".to_string(),
        assignees: vec![],
        pull_request: false,
    }
}

fn no_issue_filters() -> IssueFilters {
    IssueFilters { state: None, assigned: None, provider: None, repository: None, search: None }
}

#[test]
fn test_get_issues_empty() {
    let db = Database::new(1_000);

    let result = db.get_issues(&None, &None).unwrap();
    assert_eq!(result.data.len(), 0);
    assert_eq!(result.pagination.total, 0);
    assert_eq!(result.pagination.page, 1);
    assert_eq!(result.pagination.per_page, 20);
}

#[test]
fn test_get_issue_stats_empty() {
    let db = Database::new(1_000);

    let stats = db.get_issue_stats(&None).unwrap();
    assert_eq!(stats.total, 0);
    assert_eq!(stats.open, 0);
    assert_eq!(stats.closed, 0);
}

#[test]
fn test_get_pull_requests_empty() {
    let db = Database::new(1_000);

    let result = db.get_pull_requests(&None, &None).unwrap();
    assert_eq!(result.data.len(), 0);
    assert_eq!(result.pagination.total, 0);
}

#[test]
fn test_get_pull_request_stats_empty() {
    let db = Database::new(1_000);

    let stats = db.get_pull_request_stats(&None).unwrap();
    assert_eq!(stats.total, 0);
    assert_eq!(stats.open, 0);
    assert_eq!(stats.merged, 0);
    assert_eq!(stats.closed, 0);
}

#[test]
fn test_get_workflows_empty() {
    let db = Database::new(1_000);

    let result = db.get_workflows(&None, &None).unwrap();
    assert_eq!(result.data.len(), 0);
    assert_eq!(result.pagination.total, 0);
}

#[test]
fn test_get_workflow_stats_empty() {
    let db = Database::new(1_000);

    let stats = db.get_workflow_stats(&None).unwrap();
    assert_eq!(stats.total, 0);
    assert_eq!(stats.success, 0);
    assert_eq!(stats.failure, 0);
    assert_eq!(stats.in_progress, 0);
    assert_eq!(stats.cancelled, 0);
}

#[test]
fn test_pagination_with_zero_per_page() {
    let mut db = Database::new(1_000);
    let repo_id = add_default_repo(&mut db);
    for i in 1..=5u32 {
        db.upsert_issue_from_github(&gh_issue(i, "open", &format!("Issue #{}", i)), repo_id, 1_500)
            .unwrap();
    }

    let pagination = PaginationParams { page: 1, per_page: 0 };
    let result = db.get_issues(&None, &Some(pagination)).unwrap();
    assert_eq!(result.data.len(), 0);
    assert_eq!(result.pagination.total, 5);
    assert_eq!(result.pagination.total_pages, 0);
}

#[test]
fn test_large_pagination_numbers() {
    let mut db = Database::new(1_000);
    let repo_id = add_default_repo(&mut db);
    for i in 1..=3u32 {
        db.upsert_issue_from_github(&gh_issue(i, "open", &format!("Issue #{}", i)), repo_id, 1_500)
            .unwrap();
    }

    let pagination = PaginationParams { page: u32::MAX, per_page: u32::MAX };
    let result = db.get_issues(&None, &Some(pagination));
    assert!(result.is_ok());
    assert_eq!(result.unwrap().data.len(), 0);
}

#[test]
fn test_filters_with_empty_values() {
    let mut db = Database::new(1_000);
    let repo_id = add_default_repo(&mut db);
    for i in 1..=3u32 {
        db.upsert_issue_from_github(&gh_issue(i, "open", &format!("Issue #{}", i)), repo_id, 1_500)
            .unwrap();
    }

    let filters = IssueFilters {
        state: Some("".to_string()),
        assigned: Some("".to_string()),
        provider: Some("".to_string()),
        repository: Some("".to_string()),
        search: Some("".to_string()),
    };

    let result = db.get_issues(&Some(filters), &None).unwrap();
    assert_eq!(result.data.len(), 3);
}

#[test]
fn database_tests_test_get_issues_with_state_filter() {
    let mut db = Database::new(1_000);
    let repo_id = add_default_repo(&mut db);
    for i in 1..=6u32 {
        let state = if i <= 3 { "open" } else { "closed" };
        db.upsert_issue_from_github(&gh_issue(i, state, &format!("Issue #{}", i)), repo_id, 1_500)
            .unwrap();
    }

    let filters = IssueFilters { state: Some("open".to_string()), ..no_issue_filters() };

    let result = db.get_issues(&Some(filters), &None).unwrap();
    assert_eq!(result.data.len(), 3);
    for issue in result.data {
        assert_eq!(issue.state, "open");
    }
}

#[test]
fn database_tests_test_pagination_boundary_values() {
    let mut db = Database::new(1_000);
    let repo_id = add_default_repo(&mut db);
    for i in 1..=25u32 {
        db.upsert_issue_from_github(&gh_issue(i, "open", &format!("Issue #{}", i)), repo_id, 1_500)
            .unwrap();
    }

    let result =
        db.get_issues(&None, &Some(PaginationParams { page: 1, per_page: 10 })).unwrap();
    assert_eq!(result.data.len(), 10);
    assert_eq!(result.pagination.page, 1);
    assert_eq!(result.pagination.total, 25);
    assert_eq!(result.pagination.total_pages, 3);

    let result =
        db.get_issues(&None, &Some(PaginationParams { page: 3, per_page: 10 })).unwrap();
    assert_eq!(result.data.len(), 5);
    assert_eq!(result.pagination.page, 3);

    let result =
        db.get_issues(&None, &Some(PaginationParams { page: 5, per_page: 10 })).unwrap();
    assert_eq!(result.data.len(), 0);

    let result =
        db.get_issues(&None, &Some(PaginationParams { page: 1, per_page: 1 })).unwrap();
    assert_eq!(result.data.len(), 1);
    assert_eq!(result.pagination.total_pages, 25);
}

#[test]
fn test_get_issues_newest_first() {
    let mut db = Database::new(1_000);
    let repo_id = add_default_repo(&mut db);
    for i in 1..=3u32 {
        db.upsert_issue_from_github(&gh_issue(i, "open", &format!("Issue #{}", i)), repo_id, 1_500)
            .unwrap();
    }
    let result = db.get_issues(&None, &None).unwrap();
    assert_eq!(result.data[0].number, 3);
    assert_eq!(result.data[1].number, 2);
    assert_eq!(result.data[2].number, 1);
}

#[test]
fn database_tests_test_case_insensitive_search() {
    let mut db = Database::new(1_000);
    let repo_id = add_default_repo(&mut db);
    db.upsert_issue_from_github(&gh_issue(1, "open", "BUG in Authentication"), repo_id, 1_500)
        .unwrap();

    let filters = IssueFilters { search: Some("bug".to_string()), ..no_issue_filters() };

    let result = db.get_issues(&Some(filters), &None).unwrap();
    assert_eq!(result.data.len(), 1);
    assert_eq!(result.data[0].title, "BUG in Authentication");
}

#[test]
fn database_tests_test_get_issue_stats() {
    let mut db = Database::new(1_000);
    let repo_id = add_default_repo(&mut db);
    let states = ["open", "open", "open", "closed", "closed"];
    for (i, &state) in states.iter().enumerate() {
        db.upsert_issue_from_github(
            &gh_issue((i + 1) as u32, state, &format!("Issue #{}", i + 1)),
            repo_id,
            1_500,
        )
        .unwrap();
    }

    let stats = db.get_issue_stats(&None).unwrap();
    assert_eq!(stats.total, 5);
    assert_eq!(stats.open, 3);
    assert_eq!(stats.closed, 2);
}

#[test]
fn test_get_issue_not_found() {
    let db = Database::new(1_000);
    let result = db.get_issue(12345);
    assert!(result.is_err());
}

#[test]
fn test_get_issue_returns_labels_and_join() {
    let mut db = Database::new(1_000);
    let repo_id = add_default_repo(&mut db);
    db.upsert_issue_from_github(&gh_issue(9, "open", "Labelled"), repo_id, 1_500).unwrap();
    let page = db.get_issues(&None, &None).unwrap();
    let issue = db.get_issue(page.data[0].id).unwrap();
    assert_eq!(issue.labels, vec!["bug".to_string()]);
    assert_eq!(issue.repository, "repo1");
    assert_eq!(issue.provider, "github");
    assert_eq!(issue.author, "test-author");
}

fn gh_pr(number: u32, state: &str) -> GitHubPullRequest {
    GitHubPullRequest {
        id: 2000 + number as u64,
        number,
        title: format!("PR #{}", number),
        user: GitHubUser { login: "test-author".to_string() },
        state: state.to_string(),
        draft: false,
        html_url: format!("https://github.com/user/repo1/pull/{}", number),
        merged_at: None,
        closed_at: None,
        created_at: "2024-01-01T00:00:00Z".to_string(),
        updated_at: "2024-01-02T00:00:00Z".to_string(),
        assignees: vec![],
    }
}

#[test]
fn test_get_pull_requests_with_state_filter() {
    let mut db = Database::new(1_000);
    let repo_id = add_default_repo(&mut db);
    let states = ["open", "open", "merged", "closed", "merged"];
    for (i, &state) in states.iter().enumerate() {
        db.upsert_pr_from_github(&gh_pr((i + 1) as u32, state), repo_id, 1_500).unwrap();
    }

    let filters = PullRequestFilters {
        state: Some("merged".to_string()),
        assigned: None,
        provider: None,
        repository: None,
        search: None,
    };

    let result = db.get_pull_requests(&Some(filters), &None).unwrap();
    assert_eq!(result.data.len(), 2);
    for pr in result.data {
        assert_eq!(pr.state, "merged");
    }
}

#[test]
fn test_get_pull_request_stats() {
    let mut db = Database::new(1_000);
    let repo_id = add_default_repo(&mut db);
    let states = ["open", "open", "merged", "closed", "merged", "open"];
    for (i, &state) in states.iter().enumerate() {
        db.upsert_pr_from_github(&gh_pr((i + 1) as u32, state), repo_id, 1_500).unwrap();
    }

    let stats = db.get_pull_request_stats(&None).unwrap();
    assert_eq!(stats.total, 6);
    assert_eq!(stats.open, 3);
    assert_eq!(stats.merged, 2);
    assert_eq!(stats.closed, 1);
}

fn gl_pipeline(id: u64, status: &str) -> GitLabPipeline {
    GitLabPipeline {
        id,
        status: status.to_string(),
        web_url: format!("https://gitlab.example/p/{}", id),
        created_at: "2024-01-01T00:00:00Z".to_string(),
        updated_at: "2024-01-02T00:00:00Z".to_string(),
    }
}

#[test]
fn test_get_workflow_stats() {
    let mut db = Database::new(1_000);
    let repo_id = add_default_repo(&mut db);
    let statuses = ["success", "success", "failure", "in_progress", "cancelled", "success"];
    for (i, &status) in statuses.iter().enumerate() {
        db.upsert_pipeline_from_gitlab(&gl_pipeline((i + 1) as u64, status), repo_id, 1_500)
            .unwrap();
    }

    let stats = db.get_workflow_stats(&None).unwrap();
    assert_eq!(stats.total, 6);
    assert_eq!(stats.success, 3);
    assert_eq!(stats.failure, 1);
    assert_eq!(stats.in_progress, 1);
    assert_eq!(stats.cancelled, 1);
}

#[test]
fn test_get_workflows_names_pipelines() {
    let mut db = Database::new(1_000);
    let repo_id = add_default_repo(&mut db);
    db.upsert_pipeline_from_gitlab(&gl_pipeline(55, "success"), repo_id, 1_500).unwrap();
    let result = db.get_workflows(&None, &None).unwrap();
    assert_eq!(result.data.len(), 1);
    assert_eq!(result.data[0].name, "Pipeline #55");
    assert_eq!(result.data[0].status, "success");
}

#[test]
fn test_get_issues_sorted_by_first_recorded() {
    // Rows are reported by first-recorded timestamp descending even when
    // the clock moved backwards between upserts.
    let mut db = Database::new(1_000);
    let repo_id = add_default_repo(&mut db);
    db.upsert_issue_from_github(&gh_issue(1, "open", "older clock later"), repo_id, 2_000)
        .unwrap();
    db.upsert_issue_from_github(&gh_issue(2, "open", "newer clock earlier"), repo_id, 1_000)
        .unwrap();
    let page = db.get_issues(&None, &None).unwrap();
    assert_eq!(page.data.len(), 2);
    assert_eq!(page.data[0].created_at, 2_000);
    assert_eq!(page.data[1].created_at, 1_000);
}

#[test]
fn test_get_issues_with_assigned_filter() {
    let mut db = Database::new(1_000);
    let repo_id = add_default_repo(&mut db);
    for i in 1..=6u32 {
        let mut issue = gh_issue(i, "open", &format!("Issue #{}", i));
        if i % 2 == 0 {
            issue.assignees = vec![GitHubUser { login: "me".to_string() }];
        }
        db.upsert_issue_from_github(&issue, repo_id, 1_500).unwrap();
    }

    // "me" selects the rows assigned to the local user.
    let filters = IssueFilters { assigned: Some("me".to_string()), ..no_issue_filters() };
    let result = db.get_issues(&Some(filters), &None).unwrap();
    assert_eq!(result.data.len(), 3);
    for issue in &result.data {
        assert!(issue.assigned_to_me);
    }

    // Any other value matches the author instead.
    let filters =
        IssueFilters { assigned: Some("test-author".to_string()), ..no_issue_filters() };
    let result = db.get_issues(&Some(filters), &None).unwrap();
    assert_eq!(result.data.len(), 6);
    let filters = IssueFilters { assigned: Some("nobody".to_string()), ..no_issue_filters() };
    let result = db.get_issues(&Some(filters), &None).unwrap();
    assert_eq!(result.data.len(), 0);
}

#[test]
fn test_get_workflows_with_status_filter() {
    let mut db = Database::new(1_000);
    let repo_id = add_default_repo(&mut db);
    let runs = [
        ("completed", Some("success")),
        ("completed", Some("failure")),
        ("completed", Some("timed_out")),
        ("queued", None),
        ("in_progress", None),
        ("cancelled", None),
        ("completed", Some("cancelled")),
    ];
    for (i, (status, conclusion)) in runs.iter().enumerate() {
        let run = GitHubWorkflowRun {
            id: (i + 1) as u64,
            name: format!("CI-{}", i + 1),
            status: status.to_string(),
            conclusion: conclusion.map(|c| c.to_string()),
            html_url: format!("https://github.com/user/repo1/actions/runs/{}", i + 1),
            created_at: "2024-01-01T00:00:00Z".to_string(),
            updated_at: "2024-01-02T00:00:00Z".to_string(),
        };
        db.upsert_workflow_from_github(&run, repo_id, 1_500).unwrap();
    }

    let by = |status: &str, db: &Database| {
        let filters = WorkflowFilters {
            status: Some(status.to_string()),
            provider: None,
            repository: None,
            search: None,
        };
        db.get_workflows(&Some(filters), &None).unwrap().data.len()
    };
    // "success" and "failure" ask for completed runs with the matching
    // conclusion, timed-out counting as failure; "in_progress" covers the
    // queued family; "cancelled" covers both forms.
    assert_eq!(by("success", &db), 1);
    assert_eq!(by("failure", &db), 2);
    assert_eq!(by("in_progress", &db), 2);
    assert_eq!(by("cancelled", &db), 2);
    assert_eq!(by("all", &db), 7);
}
