use nextsyncengine::engine::{run_engine, UploadOutcome};
use nextsyncengine::filesystem::File;
use nextsyncengine::orchestrator::{
    failure_log_lines, on_engine_result, on_retry_decision, retry_items, start, OrchAction,
    OrchState,
};
use nextsyncengine::partition::split_vec_to_vecs;

fn files(n: usize) -> Vec<File> {
    let mut v = Vec::new();
    for i in 0..n {
        v.push(File::new(format!("/tmp/f{}", i), i as i64, 1));
    }
    v
}

#[test]
fn test_clean_batch_ends_clean() {
    // a seven-file batch, two workers, all uploads succeed
    let (state, action) = start(files(7));
    let items = match action {
        OrchAction::RunEngine(items) => items,
        _ => panic!("the first action must run the engine"),
    };
    let parts = split_vec_to_vecs(items, 2);
    let outcomes = vec![vec![UploadOutcome::Success; 4], vec![UploadOutcome::Success; 3]];
    let result = run_engine(parts, &outcomes);
    assert_eq!(result.bytes_uploaded, 7);
    assert_eq!(result.failures.len(), 0);

    let (state, action) = on_engine_result(state, result);
    assert!(matches!(state, OrchState::Clean));
    // nothing is persisted: no failure log is written
    assert!(matches!(action, OrchAction::Finish));
}

#[test]
fn test_recoverable_failures_succeed_on_retry() {
    // five files over two workers; two fail recoverably on the first pass
    let (state, action) = start(files(5));
    let items = match action {
        OrchAction::RunEngine(items) => items,
        _ => panic!("the first action must run the engine"),
    };
    let parts = split_vec_to_vecs(items, 2);
    let outcomes = vec![
        vec![
            UploadOutcome::Success,
            UploadOutcome::Failure(Some(500)),
            UploadOutcome::Success,
        ],
        vec![UploadOutcome::Failure(None), UploadOutcome::Success],
    ];
    let result = run_engine(parts, &outcomes);
    assert_eq!(result.failures.len(), 2);
    assert!(result.fatal_error.is_none());

    let (state, action) = on_engine_result(state, result);
    assert!(matches!(state, OrchState::NeedsDecision { .. }));
    assert!(matches!(action, OrchAction::PromptRetry));

    // the operator accepts the retry; the failed subset runs once more
    let (state, action) = on_retry_decision(state, true);
    assert!(matches!(state, OrchState::Retrying));
    let retry = match action {
        OrchAction::RunEngine(items) => items,
        _ => panic!("accepting the retry must run the engine again"),
    };
    let paths: Vec<&str> = retry.iter().map(|f| f.get_local_path()).collect();
    assert_eq!(paths, vec!["/tmp/f1", "/tmp/f3"]);

    let parts = split_vec_to_vecs(retry, 2);
    let outcomes = vec![vec![UploadOutcome::Success], vec![UploadOutcome::Success]];
    let result = run_engine(parts, &outcomes);
    assert_eq!(result.failures.len(), 0);

    // both retried files went through: the batch ends clean, no log written
    let (state, action) = on_engine_result(state, result);
    assert!(matches!(state, OrchState::Clean));
    assert!(matches!(action, OrchAction::Finish));
}

#[test]
fn test_fatal_first_call_aborts_without_retry() {
    // the very first upload returns a fatal classification
    let (state, action) = start(files(3));
    let items = match action {
        OrchAction::RunEngine(items) => items,
        _ => panic!("the first action must run the engine"),
    };
    let parts = split_vec_to_vecs(items, 1);
    let outcomes = vec![vec![
        UploadOutcome::Failure(Some(503)),
        UploadOutcome::Success,
        UploadOutcome::Success,
    ]];
    let result = run_engine(parts, &outcomes);
    assert_eq!(result.fatal_error, Some(503));

    let (state, action) = on_engine_result(state, result);
    assert!(matches!(state, OrchState::Aborted { status: 503 }));
    // no retry prompt is issued; everything not yet uploaded goes to the log
    match action {
        OrchAction::AbortBatch { failures, status } => {
            assert_eq!(status, 503);
            let lines = failure_log_lines(&failures);
            assert_eq!(lines, "/tmp/f0\n/tmp/f1\n/tmp/f2\n".to_string());
        }
        _ => panic!("a fatal result must abort and persist"),
    }
}

#[test]
fn test_declined_retry_persists_failures() {
    let (state, _) = start(files(2));
    let parts = split_vec_to_vecs(files(2), 1);
    let outcomes = vec![vec![
        UploadOutcome::Failure(Some(500)),
        UploadOutcome::Success,
    ]];
    let result = run_engine(parts, &outcomes);
    let (state, action) = on_engine_result(state, result);
    assert!(matches!(action, OrchAction::PromptRetry));

    let (state, action) = on_retry_decision(state, false);
    assert!(matches!(state, OrchState::PersistFailures));
    match action {
        OrchAction::PersistFailures(failures) => {
            assert_eq!(failure_log_lines(&failures), "/tmp/f0\n".to_string());
        }
        _ => panic!("a declined retry must persist the failures"),
    }
}

#[test]
fn test_second_failed_pass_persists() {
    // failures on the retry pass are persisted; no second prompt follows
    let (state, _) = start(files(1));
    let parts = split_vec_to_vecs(files(1), 1);
    let first = run_engine(parts, &vec![vec![UploadOutcome::Failure(Some(500))]]);
    let (state, _) = on_engine_result(state, first);
    let (state, action) = on_retry_decision(state, true);
    let retry = match action {
        OrchAction::RunEngine(items) => items,
        _ => panic!("accepting the retry must run the engine again"),
    };
    let second = run_engine(split_vec_to_vecs(retry, 1), &vec![vec![UploadOutcome::Failure(
        Some(500),
    )]]);
    let (state, action) = on_engine_result(state, second);
    assert!(matches!(state, OrchState::PersistFailures));
    assert!(matches!(action, OrchAction::PersistFailures(_)));
}

#[test]
fn test_retry_items_keeps_order() {
    let parts = split_vec_to_vecs(files(3), 1);
    let outcomes = vec![vec![
        UploadOutcome::Failure(None),
        UploadOutcome::Failure(Some(500)),
        UploadOutcome::Failure(None),
    ]];
    let result = run_engine(parts, &outcomes);
    let items = retry_items(result.failures);
    let paths: Vec<&str> = items.iter().map(|f| f.get_local_path()).collect();
    assert_eq!(paths, vec!["/tmp/f0", "/tmp/f1", "/tmp/f2"]);
}
