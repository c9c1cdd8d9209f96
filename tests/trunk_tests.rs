use mq::github::{Event, GitHubAction, Head, PullRequest};
use mq::trunk::get_targets;

/// Builds the event from a GitHub Actions JSON payload.
fn action_from_json(json: &str) -> GitHubAction {
    let v: serde_json::Value = serde_json::from_str(json).unwrap();
    let pr = &v["event"]["pull_request"];
    GitHubAction {
        repository: v["repository"].as_str().unwrap().to_string(),
        event: Event {
            pull_request: PullRequest {
                number: pr["number"].as_u64().unwrap() as u32,
                head: Head {
                    sha: pr["head"]["sha"].as_str().unwrap().to_string(),
                },
                body: pr["body"].as_str().map(|s| s.to_string()),
            },
        },
    }
}

#[test]
fn trunk_tests_test_parse_deps_from_pr_body() {
    let github_json = r#"{
        "repository": "owner/repo",
        "event": {
            "pull_request": {
                "number": 123,
                "head": {
                    "sha": "abc123def456"
                },
                "body": "This is a test PR\n\nSome description here\n\ndeps=[a,b]\n\nMore content"
            }
        }
    }"#;

    let ga = action_from_json(github_json);
    assert!(ga.event.pull_request.body.is_some());
    let body = ga.event.pull_request.body.as_ref().unwrap();
    assert!(body.contains("deps=[a,b]"));
    let impacted_targets = get_targets(body);
    assert_eq!(impacted_targets.len(), 2);
    assert_eq!(impacted_targets[0], "a");
    assert_eq!(impacted_targets[1], "b");
}

#[test]
fn trunk_tests_test_parse_deps_with_spaces() {
    let github_json = r#"{
        "repository": "owner/repo",
        "event": {
            "pull_request": {
                "number": 123,
                "head": {
                    "sha": "abc123def456"
                },
                "body": "deps=[ a , b , c ]"
            }
        }
    }"#;

    let ga = action_from_json(github_json);
    let body = ga.event.pull_request.body.as_ref().unwrap();
    let impacted_targets = get_targets(body);
    assert_eq!(impacted_targets.len(), 3);
    assert_eq!(impacted_targets[0], "a");
    assert_eq!(impacted_targets[1], "b");
    assert_eq!(impacted_targets[2], "c");
}

#[test]
fn trunk_tests_test_parse_deps_single_dependency() {
    let github_json = r#"{
        "repository": "owner/repo",
        "event": {
            "pull_request": {
                "number": 123,
                "head": {
                    "sha": "abc123def456"
                },
                "body": "Some text\ndeps=[single-target]\nMore text"
            }
        }
    }"#;

    let ga = action_from_json(github_json);
    let body = ga.event.pull_request.body.as_ref().unwrap();
    let impacted_targets = get_targets(body);
    assert_eq!(impacted_targets.len(), 1);
    assert_eq!(impacted_targets[0], "single-target");
}

#[test]
fn trunk_tests_test_parse_deps_no_match() {
    let github_json = r#"{
        "repository": "owner/repo",
        "event": {
            "pull_request": {
                "number": 123,
                "head": {
                    "sha": "abc123def456"
                },
                "body": "This PR has no deps information"
            }
        }
    }"#;

    let ga = action_from_json(github_json);
    let body = ga.event.pull_request.body.as_ref().unwrap();
    let impacted_targets = get_targets(body);
    assert_eq!(impacted_targets.len(), 0);
}

#[test]
fn trunk_tests_test_parse_deps_empty_brackets() {
    let github_json = r#"{
        "repository": "owner/repo",
        "event": {
            "pull_request": {
                "number": 123,
                "head": {
                    "sha": "abc123def456"
                },
                "body": "deps=[]"
            }
        }
    }"#;

    let ga = action_from_json(github_json);
    let body = ga.event.pull_request.body.as_ref().unwrap();
    let impacted_targets = get_targets(body);
    assert_eq!(impacted_targets.len(), 1);
    assert_eq!(impacted_targets[0], "");
}

#[test]
fn test_get_targets_basic() {
    let body = "This is a test PR\ndeps=[a,b]\nMore content";
    let targets = get_targets(body);
    assert_eq!(targets, vec!["a", "b"]);
}

#[test]
fn test_get_targets_with_spaces() {
    let body = "deps=[ a , b , c ]";
    let targets = get_targets(body);
    assert_eq!(targets, vec!["a", "b", "c"]);
}

#[test]
fn test_get_targets_single() {
    let body = "deps=[single-target]";
    let targets = get_targets(body);
    assert_eq!(targets, vec!["single-target"]);
}

#[test]
fn test_get_targets_empty() {
    let body = "deps=[]";
    let targets = get_targets(body);
    assert_eq!(targets, vec![""]);
}

#[test]
fn test_get_targets_no_match() {
    let body = "This PR has no deps information";
    let targets = get_targets(body);
    assert_eq!(targets, Vec::<String>::new());
}

#[test]
fn targets_from_capture_trims_each_piece() {
    assert_eq!(mq::trunk::targets_from_capture(Some(" x ,y,\tz ")), vec!["x", "y", "z"]);
    assert_eq!(mq::trunk::targets_from_capture(None), Vec::<String>::new());
}

#[test]
fn repository_owner_and_name() {
    let ga = action_from_json(r#"{"repository": "acme/widgets", "event": {"pull_request": {"number": 7, "head": {"sha": "f00"}, "body": null}}}"#);
    assert_eq!(ga.repo_owner(), "acme");
    assert_eq!(ga.repo_name(), "widgets");
    assert!(ga.event.pull_request.body.is_none());
}
