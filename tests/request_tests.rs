use mq::config::{MergeConf, PullRequestConf};
use mq::request::{branch_name, commit_message, deps_line, first_letters, title};
use mq::trunk::failure_message;

fn words(ws: &[&str]) -> Vec<String> {
    ws.iter().map(|w| w.to_string()).collect()
}

#[test]
fn request_text_from_words() {
    let ws = words(&["zeta", "alpha", "apple"]);
    assert_eq!(branch_name(&ws), "change/zeta-alpha-apple");
    assert_eq!(commit_message(&ws), "Moving words zeta, alpha, apple");
    assert_eq!(title(&ws, false), "zeta, alpha, apple");
    assert_eq!(title(&ws, true), "zeta, alpha, apple (logical-conflict)");
}

#[test]
fn deps_line_lists_sorted_unique_first_letters() {
    let ws = words(&["zeta", "alpha", "apple", "beta"]);
    assert_eq!(first_letters(&ws), vec!['a', 'b', 'z']);
    assert_eq!(deps_line(&ws), "deps=[a,b,z]");
    assert_eq!(deps_line(&words(&["only"])), "deps=[o]");
    assert_eq!(deps_line(&Vec::new()), "deps=[]");
}

#[test]
fn deps_line_round_trips_through_get_targets() {
    let ws = words(&["gamma", "delta", "gimel"]);
    let body = format!("Generated\n\n{}\n", deps_line(&ws));
    assert_eq!(mq::trunk::get_targets(&body), vec!["d", "g"]);
}

#[test]
fn label_lists_are_split_and_trimmed() {
    let merge = MergeConf {
        labels: "ready, queue ,x".to_string(),
        ..Default::default()
    };
    assert_eq!(merge.label_list(), vec!["ready", "queue", "x"]);
    let pr = PullRequestConf::default();
    assert_eq!(pr.label_list(), vec![""]);
}

#[test]
fn pull_request_number_from_url() {
    assert_eq!(
        mq::request::pr_number_from_url("https://github.com/o/r/pull/123\n"),
        Some("123".to_string())
    );
    assert_eq!(mq::request::pr_number_from_url("https://github.com/o/r/pull/abc"), None);
    assert_eq!(mq::request::pr_number_from_url("no url"), None);
}

#[test]
fn service_failure_messages() {
    assert_eq!(
        failure_message(400, "400 Bad Request", "x"),
        "Bad Request (400): x. Check request format and parameters."
    );
    assert_eq!(failure_message(401, "401 Unauthorized", "k"), "API key rejected (401 Unauthorized): k");
    assert_eq!(failure_message(403, "403 Forbidden", "k"), "API key forbidden (403 Forbidden): k");
    assert_eq!(failure_message(404, "404 Not Found", "p"), "Pull request not found (404 Not Found): p");
    assert_eq!(failure_message(429, "429 Too Many Requests", "r"), "Rate limited (429 Too Many Requests): r");
    assert_eq!(
        failure_message(500, "500 Internal Server Error", "boom"),
        "HTTP error 500 Internal Server Error: boom"
    );
}
