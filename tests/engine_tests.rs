use mq::cli::Cli;
use mq::config_error::{
    extract_filename, extract_line_info, format_config_error, line_info_from, location_text,
};
use mq::conflict::should_inject;
use mq::distribution::{sample, Bucket, Count, DistributionError, DistributionSpec, SCALE};
use mq::edit::{move_random_line, pick_files};
use mq::generator::{Generator, Slot, SlotResult};
use mq::outcome::{evaluate, outcome_for_draw};
use mq::pacing::{plan, PacingMode, PacingPlan};
use mq::reconcile::{
    reconcile_pass, CloseAction, CloseReason, Comment, LoopStep, Mergeability, OutstandingItem,
    PollOutcome, Reconciler, Verdict,
};

fn comment(body: &str, created_at: &str) -> Comment {
    Comment {
        body: body.to_string(),
        created_at: created_at.to_string(),
    }
}

fn item(id: i64, mergeability: Mergeability, comments: Vec<Comment>) -> OutstandingItem {
    OutstandingItem {
        id,
        mergeability,
        comments,
    }
}

fn markers() -> Vec<String> {
    vec![
        "removed from the merge queue".to_string(),
        "/trunk merge".to_string(),
    ]
}

/// 2024-01-02T00:00:00Z.
const NOW: i64 = 1_704_153_600;
const FOUR_HOURS: u64 = 4 * 3600;

#[test]
fn sampling_without_distribution_takes_the_smallest_limit() {
    assert_eq!(sample(1, 10, None, 5, 3), 3);
    assert_eq!(sample(1, 2, None, 5, 3), 2);
    assert_eq!(sample(1, 10, None, 1, 3), 1);
}

#[test]
fn sampling_repeats_over_the_window() {
    let spec = DistributionSpec::parse("0.5x1,0.3x2,0.2x3").unwrap();
    for index in 0..1000u64 {
        let a = sample(index, 10, Some(&spec), 1, 1);
        assert_eq!(a, sample(index, 10, Some(&spec), 1, 1));
        assert_eq!(a, sample(index + 1000, 10, Some(&spec), 1, 1));
        assert_eq!(a, sample(index + 5000, 10, Some(&spec), 1, 1));
    }
}

#[test]
fn sampling_resolves_all_and_clamps_counts() {
    let all = DistributionSpec::parse("1.0xALL").unwrap();
    assert_eq!(sample(3, 7, Some(&all), 1, 1), 7);
    let big = DistributionSpec::parse("1.0x20").unwrap();
    assert_eq!(sample(3, 10, Some(&big), 1, 1), 10);
    assert_eq!(sample(3, 0, Some(&big), 1, 1), 0);
}

#[test]
fn sampling_over_a_hundred_indices_follows_the_weights() {
    let spec = DistributionSpec::parse("0.5x1,0.3x2,0.2x3").unwrap();
    let mut seen = [0usize; 4];
    for index in 1..=100u64 {
        seen[sample(index, 10, Some(&spec), 1, 1)] += 1;
    }
    assert!(seen[1] >= 40 && seen[1] <= 60);
    assert!(seen[2] >= 20 && seen[2] <= 40);
    assert!(seen[3] >= 10 && seen[3] <= 30);
}

#[test]
fn distribution_parse_keeps_declared_order() {
    let spec = DistributionSpec::parse("0.8x1,0.2xALL").unwrap();
    assert_eq!(
        spec.buckets,
        vec![
            Bucket { weight: 800_000_000, count: Count::Fixed(1) },
            Bucket { weight: 200_000_000, count: Count::All },
        ]
    );
    let spec = DistributionSpec::parse("0.75x1,0.15x2,0.09x3,0.01xALL").unwrap();
    assert_eq!(spec.buckets.len(), 4);
    assert_eq!(spec.buckets[3], Bucket { weight: 10_000_000, count: Count::All });
    assert!(DistributionSpec::parse("1.0x1").is_ok());
    assert!(DistributionSpec::parse("0.5x1,0.5x2").is_ok());
}

#[test]
fn distribution_parse_reports_each_error() {
    let err = |s: &str| DistributionSpec::parse(s).unwrap_err();
    assert_eq!(err(""), DistributionError::Empty);
    assert_eq!(err("0.5x1,0.3x2"), DistributionError::BadSum);
    assert_eq!(err("1.5x1"), DistributionError::ProbabilityOutOfRange);
    assert_eq!(err("0x1"), DistributionError::ProbabilityOutOfRange);
    assert_eq!(err("0.5x1,0.5x0"), DistributionError::ZeroCount);
    assert_eq!(err("0.5x1,0.5x-1"), DistributionError::BadCount);
    assert_eq!(err("0.5x1,0.5"), DistributionError::MissingSeparator);
    assert_eq!(err("0.5x1,0.5x"), DistributionError::BadCount);
    assert_eq!(err("x1"), DistributionError::BadProbability);
    assert_eq!(err("0.5x1,0.5xINVALID"), DistributionError::BadCount);
    assert_eq!(err("0.5x1,0.5x99999999999999999999999"), DistributionError::BadCount);
}

#[test]
fn distribution_sum_tolerance_is_one_thousandth() {
    assert!(DistributionSpec::parse("0.9995x1").is_ok());
    assert!(DistributionSpec::parse("0.5x1,0.501x2").is_ok());
    assert_eq!(
        DistributionSpec::parse("0.998x1").unwrap_err(),
        DistributionError::BadSum
    );
    assert_eq!(
        DistributionSpec::parse("0.5x1,0.502x2").unwrap_err(),
        DistributionError::BadSum
    );
}

#[test]
fn probabilities_read_as_decimals() {
    assert_eq!(mq::distribution::parse_probability("0.1"), Some(100_000_000));
    assert_eq!(mq::distribution::parse_probability(".25"), Some(250_000_000));
    assert_eq!(mq::distribution::parse_probability("1"), Some(SCALE));
    assert_eq!(mq::distribution::parse_probability("0.1234567891"), Some(123_456_789));
    assert_eq!(mq::distribution::parse_probability("1.01"), None);
    assert_eq!(mq::distribution::parse_probability("abc"), None);
}

#[test]
fn pacing_rate_over_window() {
    assert_eq!(
        plan(0, 60, 600),
        PacingPlan { request_count: 10, interval_seconds: 60, mode: PacingMode::RateOverWindow }
    );
    assert_eq!(
        plan(0, 7, 3600),
        PacingPlan { request_count: 7, interval_seconds: 515, mode: PacingMode::RateOverWindow }
    );
    assert_eq!(
        plan(0, 1, 60),
        PacingPlan { request_count: 1, interval_seconds: 60, mode: PacingMode::RateOverWindow }
    );
}

#[test]
fn pacing_burst() {
    assert_eq!(
        plan(5, 0, 600),
        PacingPlan { request_count: 5, interval_seconds: 1, mode: PacingMode::Burst }
    );
}

#[test]
fn pacing_disabled_plans_nothing() {
    assert_eq!(
        plan(0, 0, 600),
        PacingPlan { request_count: 0, interval_seconds: 0, mode: PacingMode::RateOverWindow }
    );
}

#[test]
fn conflict_cadence() {
    for last_pr in 0..1000u64 {
        assert_eq!(should_inject(last_pr + 1, 100, true), (last_pr + 1) % 100 == 0);
        assert!(!should_inject(last_pr + 1, 0, true));
        assert!(!should_inject(last_pr + 1, 100, false));
    }
    assert!(should_inject(200, 100, true));
    assert!(!should_inject(199, 100, true));
}

#[test]
fn test_outcome_decisions() {
    assert!(outcome_for_draw(false, true, 0, SCALE));
    assert!(!outcome_for_draw(true, true, SCALE - 1, 1));
    assert!(outcome_for_draw(true, false, 500, 100));
    assert!(!outcome_for_draw(true, false, 100, 100));
    assert!(evaluate(false, false, 1));
    assert!(!evaluate(true, true, 1));
    for _ in 0..20 {
        assert!(!evaluate(true, false, SCALE));
    }
}

#[test]
fn reconciliation_scenario() {
    let items = vec![
        item(1, Mergeability::Conflicting, vec![]),
        item(
            2,
            Mergeability::Mergeable,
            vec![comment("This PR was removed from the merge queue", "2024-01-01T00:00:00Z")],
        ),
        item(
            3,
            Mergeability::Mergeable,
            vec![comment("removed from the merge queue", "2024-01-01T23:30:00Z")],
        ),
        item(4, Mergeability::Unknown, vec![]),
    ];
    let report = reconcile_pass(&items, NOW, FOUR_HOURS, &markers());
    assert_eq!(
        report.closed,
        vec![
            CloseAction { id: 1, reason: CloseReason::Conflicting },
            CloseAction { id: 2, reason: CloseReason::Stale },
        ]
    );
    assert_eq!(report.ledger, vec![2]);
    assert!(report.saw_unknown);
    assert!(!report.malformed);

    let mut reconciler = Reconciler::new();
    let outcome = PollOutcome::Completed { saw_unknown: report.saw_unknown };
    assert_eq!(reconciler.after_poll(outcome), LoopStep::RetryAfter(10));
    assert_eq!(reconciler.after_poll(outcome), LoopStep::RetryAfter(10));
    assert_eq!(reconciler.after_poll(outcome), LoopStep::Stop);
    assert_eq!(reconciler.attempts, 3);
}

#[test]
fn reconciliation_stops_when_settled_or_fetch_fails() {
    let mut reconciler = Reconciler::new();
    assert_eq!(
        reconciler.after_poll(PollOutcome::Completed { saw_unknown: false }),
        LoopStep::Stop
    );
    let mut reconciler = Reconciler::new();
    assert_eq!(reconciler.after_poll(PollOutcome::FetchFailed), LoopStep::Stop);
}

#[test]
fn reconciliation_acts_once_per_item() {
    let items = vec![
        item(
            5,
            Mergeability::Mergeable,
            vec![
                comment("/trunk merge", "2023-12-01T00:00:00Z"),
                comment("removed from the merge queue", "2023-12-02T00:00:00Z"),
            ],
        ),
        item(
            5,
            Mergeability::Mergeable,
            vec![comment("/trunk merge", "2023-12-01T00:00:00Z")],
        ),
        item(6, Mergeability::Other, vec![comment("/trunk merge", "2023-12-01T00:00:00Z")]),
    ];
    let report = reconcile_pass(&items, NOW, FOUR_HOURS, &markers());
    assert_eq!(report.closed, vec![CloseAction { id: 5, reason: CloseReason::Stale }]);
    assert_eq!(report.ledger, vec![5]);
    assert!(!report.saw_unknown);
}

#[test]
fn reconciliation_skips_undated_and_unmarked_comments() {
    let items = vec![
        item(7, Mergeability::Mergeable, vec![comment("removed from the merge queue", "")]),
        item(8, Mergeability::Mergeable, vec![comment("looks good", "2023-12-01T00:00:00Z")]),
    ];
    let report = reconcile_pass(&items, NOW, FOUR_HOURS, &markers());
    assert!(report.closed.is_empty());
    assert!(report.ledger.is_empty());
}

#[test]
fn reconciliation_stops_at_a_malformed_timestamp() {
    let items = vec![
        item(9, Mergeability::Mergeable, vec![comment("/trunk merge", "yesterday")]),
        item(10, Mergeability::Conflicting, vec![]),
    ];
    let report = reconcile_pass(&items, NOW, FOUR_HOURS, &markers());
    assert!(report.malformed);
    assert!(report.closed.is_empty());
    let c = comment("/trunk merge", "not a date");
    assert_eq!(mq::reconcile::verdict_of(&c, NOW, FOUR_HOURS, &markers()), Verdict::Malformed);
}

#[test]
fn staleness_threshold_is_inclusive() {
    let exactly = comment("/trunk merge", "2024-01-01T20:00:00Z");
    assert_eq!(mq::reconcile::verdict_of(&exactly, NOW, FOUR_HOURS, &markers()), Verdict::Qualifies);
    let later = comment("/trunk merge", "2024-01-01T20:00:01Z");
    assert_eq!(mq::reconcile::verdict_of(&later, NOW, FOUR_HOURS, &markers()), Verdict::Skip);
    let offset = comment("/trunk merge", "2024-01-01T21:00:00+01:00");
    assert_eq!(mq::reconcile::verdict_of(&offset, NOW, FOUR_HOURS, &markers()), Verdict::Qualifies);
}

#[test]
fn generator_advances_only_on_created_requests() {
    let mut generator = Generator::new(plan(3, 0, 600), 98);
    assert_eq!(
        generator.next_slot(100, true),
        Some(Slot { index: 99, inject_conflict: false })
    );
    generator.record(SlotResult::Created);
    assert_eq!(
        generator.next_slot(100, true),
        Some(Slot { index: 100, inject_conflict: true })
    );
    generator.record(SlotResult::Failed);
    assert_eq!(generator.last_pr, 99);
    generator.record(SlotResult::DryRun);
    assert_eq!(generator.last_pr, 100);
    assert_eq!(generator.next_slot(100, true), None);
}

#[test]
fn config_error_with_file_line_and_column() {
    let messages = vec![
        "Error loading configuration from file '.config/mq.toml'".to_string(),
        "TOML parse error at line 3, column 11\n  |\n3 | trigger = \"invalid_enum_value\"\n  |           ^^^^^^^^^^^^^^^^^^^^\nunknown variant `invalid_enum_value`, expected one of `comment`, `label`, `api`\n".to_string(),
    ];
    let (location, cause) = format_config_error(&messages);
    assert_eq!(location, ".config/mq.toml:3:11");
    assert_eq!(
        cause,
        "unknown variant `invalid_enum_value`, expected one of `comment`, `label`, `api`"
    );
    assert!(!cause.contains("confique"));
}

#[test]
fn config_error_falls_back_to_text_after_last_colon() {
    let (location, cause) = format_config_error(&vec!["Error: bad value".to_string()]);
    assert_eq!(location, "unknown location");
    assert_eq!(cause, "bad value");
    let (location, cause) = format_config_error(&vec!["Error".to_string()]);
    assert_eq!(location, "unknown location");
    assert_eq!(cause, "invalid configuration");
    let (location, cause) = format_config_error(&vec!["at line 5".to_string()]);
    assert_eq!(location, "5:0");
    assert_eq!(cause, "invalid configuration");
}

#[test]
fn config_error_file_without_line() {
    let (location, cause) = format_config_error(&vec![
        "failed to load from file \"mq.toml\"".to_string(),
        "missing field `api`".to_string(),
    ]);
    assert_eq!(location, "mq.toml");
    assert_eq!(cause, "missing field `api`");
}

#[test]
fn config_error_pieces() {
    assert_eq!(
        extract_filename("oops from file  '.config/mq.toml' here"),
        Some(".config/mq.toml".to_string())
    );
    assert_eq!(extract_filename("nothing"), None);
    assert_eq!(extract_line_info("at line 74, column 11"), Some((74, 11)));
    assert_eq!(extract_line_info("line 9"), Some((9, 0)));
    assert_eq!(extract_line_info("no position"), None);
    assert_eq!(extract_line_info("line 99999999999"), None);
    assert_eq!(line_info_from(Some("12"), Some("x")), Some((12, 0)));
    assert_eq!(line_info_from(Some("x"), Some("3")), None);
    assert_eq!(location_text(Some("a.toml"), Some((1, 2))), "a.toml:1:2");
    assert_eq!(location_text(None, Some((40, 0))), "40:0");
    assert_eq!(location_text(Some("a.toml"), None), "a.toml");
    assert_eq!(location_text(None, None), "unknown location");
}

#[test]
fn github_tokens_prefer_the_command_line() {
    let mut cli = Cli {
        subcommand: None,
        gh_token: vec!["one".to_string(), "two".to_string()],
        trunk_token: String::new(),
        dry_run: false,
    };
    assert_eq!(cli.get_github_tokens(Some("env".to_string())), vec!["one", "two"]);
    cli.gh_token.clear();
    assert_eq!(cli.get_github_tokens(Some("env".to_string())), vec!["env"]);
    assert!(cli.get_github_tokens(Some(String::new())).is_empty());
    assert!(cli.get_github_tokens(None).is_empty());
}

#[test]
fn picked_files_are_distinct() {
    for _ in 0..50 {
        let picked = pick_files(5, 3);
        assert_eq!(picked.len(), 3);
        assert!(picked.iter().all(|&i| i < 5));
        assert!(picked[0] != picked[1] && picked[0] != picked[2] && picked[1] != picked[2]);
    }
    let mut all = pick_files(4, 4);
    all.sort();
    assert_eq!(all, vec![0, 1, 2, 3]);
    assert!(pick_files(3, 0).is_empty());
}

#[test]
fn moving_a_line_keeps_the_lines() {
    for _ in 0..20 {
        let mut lines = vec!["  Alpha ".to_string(), "BETA".to_string(), "gamma".to_string()];
        let word = move_random_line(&mut lines);
        assert!(word == "alpha" || word == "beta" || word == "gamma");
        let mut sorted = lines.clone();
        sorted.sort();
        assert_eq!(sorted, vec!["  Alpha ".to_string(), "BETA".to_string(), "gamma".to_string()]);
    }
}

#[test]
fn fresh_marked_comments_leave_the_request_alone() {
    let items = vec![item(
        11,
        Mergeability::Mergeable,
        vec![
            comment("removed from the merge queue", "2024-01-01T23:00:00Z"),
            comment("/trunk merge", "2024-01-01T22:00:00Z"),
        ],
    )];
    let report = reconcile_pass(&items, NOW, FOUR_HOURS, &markers());
    assert!(report.closed.is_empty());
    assert!(!report.malformed);
}
