use nextsyncengine::engine::{
    classify_failure, merge_results, run_engine, run_worker, Classification, UploadOutcome,
    WorkerState,
};
use nextsyncengine::filesystem::File;
use nextsyncengine::partition::split_vec_to_vecs;

fn files(n: usize) -> Vec<File> {
    let mut v = Vec::new();
    for i in 0..n {
        // distinct power-of-two sizes make byte sums unambiguous
        v.push(File::new(format!("/tmp/f{}", i), i as i64, 1u64 << i));
    }
    v
}

#[test]
fn test_classify_fatal_statuses() {
    for s in [400u16, 401, 403, 502, 503, 504, 507] {
        assert_eq!(classify_failure(Some(s)), Classification::Fatal);
    }
}

#[test]
fn test_classify_recoverable_statuses() {
    for s in [404u16, 409, 423, 500, 501] {
        assert_eq!(classify_failure(Some(s)), Classification::Recoverable);
    }
    // a failure without a status code is scoped to the one item
    assert_eq!(classify_failure(None), Classification::Recoverable);
}

#[test]
fn test_worker_all_success() {
    let w = run_worker(files(3), &vec![UploadOutcome::Success; 3]);
    assert_eq!(w.bytes, 1 + 2 + 4);
    assert_eq!(w.failures.len(), 0);
    assert!(w.fatal.is_none());
}

#[test]
fn test_worker_recoverable_failure_continues() {
    let outcomes = vec![
        UploadOutcome::Success,
        UploadOutcome::Failure(Some(500)),
        UploadOutcome::Success,
    ];
    let w = run_worker(files(3), &outcomes);
    assert_eq!(w.bytes, 1 + 4);
    assert_eq!(w.failures.len(), 1);
    assert_eq!(w.failures[0].item.get_local_path(), "/tmp/f1");
    assert_eq!(w.failures[0].classification, Classification::Recoverable);
    assert!(w.fatal.is_none());
}

#[test]
fn test_worker_fatal_marks_rest_failed() {
    let outcomes = vec![
        UploadOutcome::Success,
        UploadOutcome::Failure(Some(503)),
        UploadOutcome::Success,
    ];
    let w = run_worker(files(3), &outcomes);
    assert_eq!(w.bytes, 1);
    // the failing item and everything after it in the partition
    assert_eq!(w.failures.len(), 2);
    assert_eq!(w.failures[0].item.get_local_path(), "/tmp/f1");
    assert_eq!(w.failures[1].item.get_local_path(), "/tmp/f2");
    assert_eq!(w.failures[0].classification, Classification::Fatal);
    assert_eq!(w.fatal, Some(503));
}

#[test]
fn test_worker_step_by_step() {
    let mut w = WorkerState::new(files(2));
    assert!(!w.is_done());
    assert_eq!(w.current().get_local_path(), "/tmp/f0");
    w.step(UploadOutcome::Success);
    assert_eq!(w.current().get_local_path(), "/tmp/f1");
    w.step(UploadOutcome::Failure(None));
    assert!(w.is_done());
    assert_eq!(w.bytes, 1);
    assert_eq!(w.failures.len(), 1);
}

#[test]
fn test_merge_takes_first_fatal() {
    let a = run_worker(files(1), &vec![UploadOutcome::Success]);
    let b = run_worker(files(1), &vec![UploadOutcome::Failure(Some(502))]);
    let r = merge_results(vec![a, b]);
    assert_eq!(r.fatal_error, Some(502));
    assert_eq!(r.failures.len(), 1);
}

#[test]
fn test_engine_fatal_stays_in_its_partition() {
    // ten items across three workers: partitions are items 0-3, 4-6, 7-9;
    // the first item of the second worker's partition fails fatally
    let parts = split_vec_to_vecs(files(10), 3);
    let outcomes = vec![
        vec![UploadOutcome::Success; 4],
        vec![
            UploadOutcome::Failure(Some(503)),
            UploadOutcome::Success,
            UploadOutcome::Success,
        ],
        vec![UploadOutcome::Success; 3],
    ];
    let r = run_engine(parts, &outcomes);

    // the second worker's whole partition is failed, fatally
    assert_eq!(r.failures.len(), 3);
    let failed: Vec<&str> = r.failures.iter().map(|f| f.item.get_local_path()).collect();
    assert_eq!(failed, vec!["/tmp/f4", "/tmp/f5", "/tmp/f6"]);
    for f in &r.failures {
        assert_eq!(f.classification, Classification::Fatal);
    }
    assert_eq!(r.fatal_error, Some(503));

    // the other workers are untouched: all their bytes were counted
    let expected: u64 = [0u32, 1, 2, 3, 7, 8, 9].iter().map(|&i| 1u64 << i).sum();
    assert_eq!(r.bytes_uploaded, expected);
}

#[test]
fn test_engine_empty_partitions_are_noop_workers() {
    // more workers than items: the empty partitions upload nothing
    let parts = split_vec_to_vecs(files(2), 4);
    let outcomes = vec![
        vec![UploadOutcome::Success],
        vec![UploadOutcome::Success],
        vec![],
        vec![],
    ];
    let r = run_engine(parts, &outcomes);
    assert_eq!(r.bytes_uploaded, 1 + 2);
    assert_eq!(r.failures.len(), 0);
    assert!(r.fatal_error.is_none());
}

#[test]
fn test_engine_all_success() {
    // a seven-file batch over two workers, every upload succeeds
    let parts = split_vec_to_vecs(files(7), 2);
    let outcomes = vec![vec![UploadOutcome::Success; 4], vec![UploadOutcome::Success; 3]];
    let r = run_engine(parts, &outcomes);
    assert_eq!(r.failures.len(), 0);
    assert!(r.fatal_error.is_none());
    let total: u64 = (0..7).map(|i| 1u64 << i).sum();
    assert_eq!(r.bytes_uploaded, total);
}
