// The library's own runnable scenario checks, driven from the harness.

#[test]
fn test_add_provider_success() {
    assert!(gitmirror::selftest::test_add_provider_success());
}

#[test]
fn test_get_provider_not_found() {
    assert!(gitmirror::selftest::test_get_provider_not_found());
}

#[test]
fn test_add_repository_success() {
    assert!(gitmirror::selftest::test_add_repository_success());
}

#[test]
fn test_get_issues_with_state_filter() {
    assert!(gitmirror::selftest::test_get_issues_with_state_filter());
}

#[test]
fn test_pagination_boundary_values() {
    assert!(gitmirror::selftest::test_pagination_boundary_values());
}

#[test]
fn test_case_insensitive_search() {
    assert!(gitmirror::selftest::test_case_insensitive_search());
}

#[test]
fn test_delete_repository_and_cascade() {
    assert!(gitmirror::selftest::test_delete_repository_and_cascade());
}

#[test]
fn test_get_issue_stats() {
    assert!(gitmirror::selftest::test_get_issue_stats());
}
