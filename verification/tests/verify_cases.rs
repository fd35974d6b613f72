use rule_verify::case::CaseResult;
use rule_verify::case::CaseStatus;
use rule_verify::case::SampleMatch;
use rule_verify::case::TestCase;
use rule_verify::case::verify_test_case_simple;
use rule_verify::reconcile::SnapshotAction;
use rule_verify::reconcile::apply_snapshot_action;
use rule_verify::report::InteractiveReview;
use rule_verify::report::ReviewChoice;
use rule_verify::report::all_passed;
use rule_verify::report::default_snapshot_action;
use rule_verify::report::summarize;
use rule_verify::runner::CaseEval;
use rule_verify::runner::chunk_size;
use rule_verify::runner::run_chunked;
use rule_verify::runner::run_test_cases;
use rule_verify::runner::worker_count;
use rule_verify::snapshot::Snapshot;
use rule_verify::snapshot::SnapshotCollection;
use rule_verify::snapshot::SnapshotEntry;
use rule_verify::transform::replace_bytes;
use rule_verify::transform::substring_bytes;

const TEST_RULE: &str = "test-rule";

fn rule_table() -> Vec<Vec<u8>> {
    vec![TEST_RULE.as_bytes().to_vec()]
}

fn valid_case() -> TestCase {
    TestCase { id: TEST_RULE.as_bytes().to_vec(), valid: vec![b"123".to_vec()], invalid: vec![] }
}

fn invalid_case() -> TestCase {
    TestCase { id: TEST_RULE.as_bytes().to_vec(), valid: vec![], invalid: vec![b"123".to_vec()] }
}

fn test_case_result(status: CaseStatus) -> Option<CaseResult> {
    Some(CaseResult { id: TEST_RULE.as_bytes().to_vec(), cases: vec![status] })
}

#[test]
fn test_validated() {
    let case = valid_case();
    let ret = verify_test_case_simple(&case, &vec![false], &vec![], &rule_table(), None);
    assert_eq!(ret, test_case_result(CaseStatus::Validated));
}

#[test]
fn test_reported() {
    let case = invalid_case();
    let fired = SampleMatch { fired: true, fix: None };
    let ret = verify_test_case_simple(&case, &vec![], &vec![fired], &rule_table(), None);
    assert_eq!(ret, test_case_result(CaseStatus::Reported));
}

#[test]
fn test_noisy() {
    let case = valid_case();
    let ret = verify_test_case_simple(&case, &vec![true], &vec![], &rule_table(), None);
    assert_eq!(ret, test_case_result(CaseStatus::Noisy(b"123".to_vec())));
}

#[test]
fn test_missing() {
    let case = invalid_case();
    let silent = SampleMatch { fired: false, fix: None };
    let ret = verify_test_case_simple(&case, &vec![], &vec![silent], &rule_table(), None);
    assert_eq!(ret, test_case_result(CaseStatus::Missing(b"123".to_vec())));
}

#[test]
fn test_no_such_rule() {
    let case = TestCase { id: b"no-such-rule".to_vec(), valid: vec![], invalid: vec![] };
    let ret = verify_test_case_simple(&case, &vec![], &vec![], &rule_table(), None);
    assert!(ret.is_none());
}

#[test]
fn test_verify_transform() {
    // `console.log($A)` matched against `console.log(123)` binds $A to
    // `123`; the substring transform drops its first and last character
    // and the fix template `log($B)` splices the result in.
    let argument = b"123".to_vec();
    let trimmed = substring_bytes(&argument, Some(1), Some(-1));
    assert_eq!(trimmed, b"2".to_vec());
    let fix = replace_bytes(&b"log($B)".to_vec(), &b"$B".to_vec(), &trimmed);
    assert_eq!(fix, b"log(2)".to_vec());

    // a stored snapshot with different content makes the sample Wrong,
    // carrying the derived fix as the actual output
    let case = TestCase {
        id: TEST_RULE.as_bytes().to_vec(),
        valid: vec![],
        invalid: vec![b"console.log(123)".to_vec()],
    };
    let outcome = SampleMatch { fired: true, fix: Some(fix) };
    let snapshots = SnapshotCollection {
        entries: vec![SnapshotEntry {
            id: TEST_RULE.as_bytes().to_vec(),
            snapshots: vec![Snapshot { fixed: Some(b"log(123)".to_vec()) }],
        }],
    };
    let mut ret =
        verify_test_case_simple(&case, &vec![], &vec![outcome], &rule_table(), Some(&snapshots))
            .unwrap();
    let status = ret.cases.pop().unwrap();
    match status {
        CaseStatus::Wrong { actual, .. } => {
            assert_eq!(actual.fixed.unwrap(), b"log(2)".to_vec());
        }
        _ => {
            panic!("wrong case status");
        }
    }
}

fn thirty_seven_evals() -> Vec<CaseEval> {
    let mut evals = Vec::new();
    for i in 0..37usize {
        let id = if i % 5 == 4 {
            b"unknown-rule".to_vec()
        } else {
            TEST_RULE.as_bytes().to_vec()
        };
        let case = TestCase {
            id,
            valid: vec![format!("valid-{i}").into_bytes()],
            invalid: vec![format!("invalid-{i}").into_bytes()],
        };
        let eval = CaseEval {
            case,
            valid_fired: vec![i % 2 == 0],
            invalid_matches: vec![SampleMatch { fired: i % 3 == 0, fix: None }],
        };
        evals.push(eval);
    }
    evals
}

#[test]
fn test_parallel_order_matches_sequential() {
    let evals = thirty_seven_evals();
    let table = rule_table();
    let sequential = run_test_cases(&evals, &table, None);
    for workers in 1..=12usize {
        let chunked = run_chunked(&evals, &table, None, workers);
        assert_eq!(chunked, sequential);
    }
    // unknown rule ids contribute no result
    assert_eq!(sequential.len(), 30);
}

#[test]
fn chunk_size_is_ceiling_division() {
    assert_eq!(chunk_size(12, 4), 3);
    assert_eq!(chunk_size(13, 4), 4);
    assert_eq!(chunk_size(37, 12), 4);
    assert_eq!(chunk_size(0, 4), 0);
}

#[test]
fn worker_count_is_bounded() {
    let w = worker_count();
    assert!((1..=12).contains(&w));
}

#[test]
fn summary_counts_every_status_kind() {
    let results = vec![
        CaseResult {
            id: b"a".to_vec(),
            cases: vec![
                CaseStatus::Validated,
                CaseStatus::Reported,
                CaseStatus::Missing(b"m".to_vec()),
            ],
        },
        CaseResult {
            id: b"b".to_vec(),
            cases: vec![
                CaseStatus::Noisy(b"n".to_vec()),
                CaseStatus::Wrong {
                    source: b"s".to_vec(),
                    expected: Snapshot { fixed: None },
                    actual: Snapshot { fixed: Some(b"f".to_vec()) },
                },
                CaseStatus::Validated,
            ],
        },
    ];
    let summary = summarize(&results);
    assert_eq!(summary.validated, 2);
    assert_eq!(summary.reported, 1);
    assert_eq!(summary.wrong, 1);
    assert_eq!(summary.missing, 1);
    assert_eq!(summary.noisy, 1);
    assert!(!all_passed(&results));
}

#[test]
fn run_passes_when_every_status_is_quiet() {
    let results = vec![CaseResult {
        id: b"a".to_vec(),
        cases: vec![CaseStatus::Validated, CaseStatus::Reported],
    }];
    assert!(all_passed(&results));
}

fn wrong_snapshot_fixture() -> (Vec<CaseEval>, Vec<Vec<u8>>, SnapshotCollection) {
    let case = TestCase {
        id: TEST_RULE.as_bytes().to_vec(),
        valid: vec![b"ok".to_vec()],
        invalid: vec![b"bad".to_vec()],
    };
    let eval = CaseEval {
        case,
        valid_fired: vec![false],
        invalid_matches: vec![SampleMatch { fired: true, fix: Some(b"new-fix".to_vec()) }],
    };
    let snapshots = SnapshotCollection {
        entries: vec![SnapshotEntry {
            id: TEST_RULE.as_bytes().to_vec(),
            snapshots: vec![Snapshot { fixed: Some(b"old-fix".to_vec()) }],
        }],
    };
    (vec![eval], rule_table(), snapshots)
}

#[test]
fn test_update_none_leaves_snapshots_alone() {
    let (evals, table, snapshots) = wrong_snapshot_fixture();
    let results = run_test_cases(&evals, &table, Some(&snapshots));
    assert!(!all_passed(&results));
    // keeping every snapshot merges nothing, so nothing is persisted
    let merged = apply_snapshot_action(SnapshotAction::AcceptNone, &results, Some(snapshots));
    assert!(merged.is_none());
}

#[test]
fn snapshot_action_without_collection_is_a_no_op() {
    let merged = apply_snapshot_action(SnapshotAction::AcceptAll, &vec![], None);
    assert!(merged.is_none());
}

#[test]
fn test_update_all_then_rerun_passes() {
    let (evals, table, snapshots) = wrong_snapshot_fixture();
    let results = run_test_cases(&evals, &table, Some(&snapshots));
    assert!(matches!(
        results[0].cases[1],
        CaseStatus::Wrong { .. }
    ));
    let merged = apply_snapshot_action(SnapshotAction::AcceptAll, &results, Some(snapshots))
        .expect("an accepted update-all run merges a collection to persist");
    assert_eq!(merged.entries[0].snapshots[0].fixed, Some(b"new-fix".to_vec()));
    // the re-run sees the merged snapshots and the same match outcomes
    let again = run_test_cases(&evals, &table, Some(&merged));
    assert!(all_passed(&again));
}

#[test]
fn default_reporter_action_follows_update_all_flag() {
    assert!(matches!(default_snapshot_action(true), SnapshotAction::AcceptAll));
    assert!(matches!(default_snapshot_action(false), SnapshotAction::AcceptNone));
}

#[test]
fn interactive_review_tracks_accepted_cases() {
    let mut review = InteractiveReview::new();
    assert!(!review.decide(ReviewChoice::Reject));
    assert!(review.decide(ReviewChoice::Accept));
    review.accept_case(
        &b"rule-a".to_vec(),
        vec![Snapshot { fixed: Some(b"fix-a".to_vec()) }],
    );
    // the accept-all shortcut short-circuits every later prompt
    assert!(review.decide(ReviewChoice::AcceptAllRemaining));
    assert!(review.decide(ReviewChoice::Reject));
    match review.into_action() {
        SnapshotAction::Selectively(accepted) => {
            assert_eq!(accepted.entries.len(), 1);
            assert_eq!(accepted.entries[0].id, b"rule-a".to_vec());
        }
        _ => panic!("the interactive reporter accepts the reviewed subset"),
    }
}

#[test]
fn selective_action_merges_only_accepted_entries() {
    let (evals, table, snapshots) = wrong_snapshot_fixture();
    let results = run_test_cases(&evals, &table, Some(&snapshots));
    let accepted = SnapshotCollection {
        entries: vec![SnapshotEntry {
            id: b"other-rule".to_vec(),
            snapshots: vec![Snapshot { fixed: Some(b"x".to_vec()) }],
        }],
    };
    let merged = apply_snapshot_action(
        SnapshotAction::Selectively(accepted),
        &results,
        Some(snapshots),
    )
    .unwrap();
    // the untouched entry keeps its old content; the accepted one is added
    assert_eq!(merged.entries[0].snapshots[0].fixed, Some(b"old-fix".to_vec()));
    assert_eq!(merged.entries[1].id, b"other-rule".to_vec());
}
