//! The upload engine's decisions: how each worker walks its partition,
//! how a failed upload is classified, and how the workers' results are
//! aggregated into one batch result.
//!
//! The callers perform the network transfer and hand each item's outcome
//! back; everything decided from those outcomes is verified here.

use vstd::prelude::*;

use crate::filesystem::File;

verus! {

/// How a failed upload is classified: a recoverable failure aborts one
/// item, a fatal one aborts the worker's whole partition.
#[derive(Clone, Copy, Debug, PartialEq, Eq, Structural)]
pub enum Classification {
    Recoverable,
    Fatal,
}

/// What one upload attempt came back with: success, or a failure that
/// carries the HTTP-like status code when there was one.
#[derive(Clone, Copy, Debug)]
pub enum UploadOutcome {
    Success,
    Failure(Option<u16>),
}

/// The status codes that abort a batch: gateway failures, an unavailable or
/// full server, a malformed request, and refused credentials.
pub open spec fn is_fatal_status(s: int) -> bool {
    s == 400 || s == 401 || s == 403 || s == 502 || s == 503 || s == 504 || s == 507
}

/// Classification of a failure by its status code; a failure without a
/// status code is scoped to the one item.
pub open spec fn spec_classify(status: Option<u16>) -> Classification {
    match status {
        Some(s) => if is_fatal_status(s as int) {
            Classification::Fatal
        } else {
            Classification::Recoverable
        },
        None => Classification::Recoverable,
    }
}

pub fn classify_failure(status: Option<u16>) -> (r: Classification)
    ensures
        r == spec_classify(status),
{
    match status {
        Some(s) => {
            if s == 400 || s == 401 || s == 403 || s == 502 || s == 503 || s == 504 || s == 507 {
                Classification::Fatal
            } else {
                Classification::Recoverable
            }
        },
        None => Classification::Recoverable,
    }
}

/// One failed item, with the classification its failure received.
pub struct FailureRecord {
    pub item: File,
    pub classification: Classification,
}

/// What one engine run reports: the bytes uploaded, every failed item in
/// worker order, and the first fatal status observed, if any.
pub struct BatchResult {
    pub bytes_uploaded: u64,
    pub failures: Vec<FailureRecord>,
    pub fatal_error: Option<u16>,
}

/// Total size in bytes of a run of files.
pub open spec fn size_sum(s: Seq<File>) -> int
    decreases s.len(),
{
    if s.len() == 0 {
        0
    } else {
        s[0].spec_size() + size_sum(s.drop_first())
    }
}

pub proof fn lemma_size_sum_nonneg(s: Seq<File>)
    ensures
        size_sum(s) >= 0,
    decreases s.len(),
{
    if s.len() > 0 {
        lemma_size_sum_nonneg(s.drop_first());
    }
}

/// Every file of `s` marked failed with a fatal classification, in order.
pub open spec fn fatal_records(s: Seq<File>) -> Seq<FailureRecord> {
    Seq::new(s.len(), |i: int| FailureRecord { item: s[i], classification: Classification::Fatal })
}

/// Mathematical state of one worker: the items not yet attempted, the bytes
/// uploaded so far, the failures recorded so far, and the fatal status that
/// stopped it, if any.
#[verifier::ext_equal]
pub struct WorkerModel {
    pub pending: Seq<File>,
    pub bytes: int,
    pub failures: Seq<FailureRecord>,
    pub fatal: Option<u16>,
}

impl WorkerModel {
    /// A worker that has not attempted anything yet.
    pub open spec fn init(items: Seq<File>) -> WorkerModel {
        WorkerModel { pending: items, bytes: 0, failures: Seq::empty(), fatal: None }
    }

    /// A worker stops when its partition is exhausted or a fatal failure
    /// was observed.
    pub open spec fn stopped(self) -> bool {
        self.pending.len() == 0 || self.fatal is Some
    }

    /// One item attempted: on success its size is counted; on a recoverable
    /// failure it alone is recorded failed; on a fatal failure it and every
    /// item still pending are recorded failed and the worker stops.
    pub open spec fn step(self, oc: UploadOutcome) -> WorkerModel
        recommends
            !self.stopped(),
    {
        match oc {
            UploadOutcome::Success => WorkerModel {
                pending: self.pending.drop_first(),
                bytes: self.bytes + self.pending[0].spec_size(),
                failures: self.failures,
                fatal: self.fatal,
            },
            UploadOutcome::Failure(status) => {
                if spec_classify(status) is Recoverable {
                    WorkerModel {
                        pending: self.pending.drop_first(),
                        bytes: self.bytes,
                        failures: self.failures.push(
                            FailureRecord {
                                item: self.pending[0],
                                classification: Classification::Recoverable,
                            },
                        ),
                        fatal: self.fatal,
                    }
                } else {
                    WorkerModel {
                        pending: Seq::empty(),
                        bytes: self.bytes,
                        failures: self.failures + fatal_records(self.pending),
                        fatal: Some(status->0),
                    }
                }
            },
        }
    }

    /// The worker state after attempting its items in order against the
    /// outcomes in `ocs`, stopping early on a fatal outcome.
    pub open spec fn run(self, ocs: Seq<UploadOutcome>) -> WorkerModel
        decreases ocs.len(),
    {
        if ocs.len() == 0 || self.stopped() {
            self
        } else {
            self.step(ocs[0]).run(ocs.drop_first())
        }
    }
}

/// Processing one more outcome extends the run by one step, unless the
/// worker had already stopped.
pub proof fn lemma_run_snoc(m: WorkerModel, ocs: Seq<UploadOutcome>, x: UploadOutcome)
    ensures
        m.run(ocs.push(x)) == if m.run(ocs).stopped() {
            m.run(ocs)
        } else {
            m.run(ocs).step(x)
        },
    decreases ocs.len(),
{
    if m.stopped() {
    } else if ocs.len() == 0 {
        assert(ocs.push(x)[0] == x);
        assert(ocs.push(x).drop_first() =~= Seq::<UploadOutcome>::empty());
        assert(m.step(x).run(Seq::<UploadOutcome>::empty()) == m.step(x));
    } else {
        assert(ocs.push(x)[0] == ocs[0]);
        assert(ocs.push(x).drop_first() =~= ocs.drop_first().push(x));
        lemma_run_snoc(m.step(ocs[0]), ocs.drop_first(), x);
    }
}

/// Running a worker over concatenated outcome runs is running it over each
/// in turn.
pub proof fn lemma_run_append(m: WorkerModel, a: Seq<UploadOutcome>, b: Seq<UploadOutcome>)
    ensures
        m.run(a + b) == m.run(a).run(b),
    decreases a.len(),
{
    if m.stopped() {
        assert(m.run(a + b) == m);
    } else if a.len() == 0 {
        assert(a + b =~= b);
    } else {
        assert((a + b)[0] == a[0]);
        assert((a + b).drop_first() =~= a.drop_first() + b);
        lemma_run_append(m.step(a[0]), a.drop_first(), b);
    }
}

/// A run never uploads more than what was pending, and the byte counter
/// never decreases.
pub proof fn lemma_run_bounds(m: WorkerModel, ocs: Seq<UploadOutcome>)
    ensures
        m.run(ocs).bytes + size_sum(m.run(ocs).pending) <= m.bytes + size_sum(m.pending),
        m.bytes <= m.run(ocs).bytes,
    decreases ocs.len(),
{
    if ocs.len() == 0 || m.stopped() {
    } else {
        let m2 = m.step(ocs[0]);
        lemma_run_bounds(m2, ocs.drop_first());
        match ocs[0] {
            UploadOutcome::Success => {},
            UploadOutcome::Failure(status) => {
                if spec_classify(status) is Recoverable {
                    lemma_size_sum_nonneg(m.pending);
                } else {
                    lemma_size_sum_nonneg(m.pending);
                }
            },
        }
    }
}

/// One upload worker: the not-yet-attempted remainder of its partition and
/// everything it has recorded so far.
pub struct WorkerState {
    pub items: Vec<File>,
    pub bytes: u64,
    pub failures: Vec<FailureRecord>,
    pub fatal: Option<u16>,
}

impl WorkerState {
    pub open spec fn model(self) -> WorkerModel {
        WorkerModel {
            pending: self.items@,
            bytes: self.bytes as int,
            failures: self.failures@,
            fatal: self.fatal,
        }
    }

    /// What is already counted plus what may still be counted fits the
    /// counter.
    pub open spec fn inv(self) -> bool {
        self.bytes + size_sum(self.items@) <= u64::MAX
    }

    pub fn new(items: Vec<File>) -> (r: WorkerState)
        requires
            size_sum(items@) <= u64::MAX,
        ensures
            r.model() == WorkerModel::init(items@),
            r.inv(),
    {
        let r = WorkerState { items, bytes: 0, failures: Vec::new(), fatal: None };
        proof {
            assert(r.model() =~= WorkerModel::init(r.items@));
        }
        r
    }

    pub fn is_done(&self) -> (r: bool)
        ensures
            r == self.model().stopped(),
    {
        self.items.len() == 0 || self.fatal.is_some()
    }

    /// The item the worker attempts next.
    pub fn current(&self) -> (r: &File)
        requires
            !self.model().stopped(),
        ensures
            *r == self.model().pending[0],
    {
        &self.items[0]
    }

    /// Records the outcome of uploading the current item.
    pub fn step(&mut self, outcome: UploadOutcome)
        requires
            !old(self).model().stopped(),
            old(self).inv(),
        ensures
            final(self).model() == old(self).model().step(outcome),
            final(self).inv(),
    {
        let ghost pend0 = old(self).model().pending;
        let ghost old_failures = old(self).failures@;
        proof {
            lemma_size_sum_nonneg(pend0.drop_first());
        }
        let item = self.items.remove(0);
        match outcome {
            UploadOutcome::Success => {
                let sz = item.get_size();
                self.bytes = self.bytes + sz;
                proof {
                    assert(self.model() =~= old(self).model().step(outcome));
                }
            },
            UploadOutcome::Failure(status) => {
                match classify_failure(status) {
                    Classification::Recoverable => {
                        self.failures.push(
                            FailureRecord { item, classification: Classification::Recoverable },
                        );
                        proof {
                            assert(self.model() =~= old(self).model().step(outcome));
                        }
                    },
                    Classification::Fatal => {
                        self.fatal = Some(status.unwrap());
                        self.failures.push(
                            FailureRecord { item, classification: Classification::Fatal },
                        );
                        proof {
                            assert(self.failures@ =~= old_failures + fatal_records(pend0).take(1));
                        }
                        while self.items.len() > 0
                            invariant
                                self.bytes == old(self).bytes,
                                self.fatal == Some(status->0),
                                1 <= pend0.len() - self.items@.len() <= pend0.len(),
                                self.items@ =~= pend0.skip(pend0.len() - self.items@.len()),
                                self.failures@ =~= old_failures + fatal_records(pend0).take(
                                    pend0.len() - self.items@.len(),
                                ),
                            decreases self.items@.len(),
                        {
                            let ghost k = pend0.len() - self.items@.len();
                            let it = self.items.remove(0);
                            self.failures.push(
                                FailureRecord { item: it, classification: Classification::Fatal },
                            );
                            proof {
                                assert(it == pend0[k as int]);
                                assert(self.items@ =~= pend0.skip(k as int + 1));
                                assert(fatal_records(pend0).take(k as int + 1) =~= fatal_records(
                                    pend0,
                                ).take(k as int).push(
                                    FailureRecord {
                                        item: pend0[k as int],
                                        classification: Classification::Fatal,
                                    },
                                ));
                                assert(self.failures@ =~= old_failures + fatal_records(pend0).take(
                                    k as int + 1,
                                ));
                            }
                        }
                        proof {
                            assert(fatal_records(pend0).take(pend0.len() as int) =~= fatal_records(
                                pend0,
                            ));
                            assert(self.items@ =~= Seq::<File>::empty());
                            assert(self.failures@ =~= old_failures + fatal_records(pend0));
                            assert(size_sum(Seq::<File>::empty()) == 0);
                            assert(self.model() =~= old(self).model().step(outcome));
                        }
                    },
                }
            },
        }
    }
}

/// Runs one worker over its whole partition, against the outcome each
/// attempt would come back with. The worker attempts its items strictly in
/// order and stops early on a fatal outcome.
pub fn run_worker(items: Vec<File>, outcomes: &Vec<UploadOutcome>) -> (r: WorkerState)
    requires
        size_sum(items@) <= u64::MAX,
        outcomes@.len() == items@.len(),
    ensures
        r.model() == WorkerModel::init(items@).run(outcomes@),
        r.inv(),
{
    let ghost init = WorkerModel::init(items@);
    let n = outcomes.len();
    let mut st = WorkerState::new(items);
    let mut k: usize = 0;
    proof {
        assert(outcomes@.take(0) =~= Seq::<UploadOutcome>::empty());
    }
    while k < n && !st.is_done()
        invariant
            0 <= k <= n,
            n == outcomes@.len(),
            st.inv(),
            st.model() == init.run(outcomes@.take(k as int)),
        decreases n - k,
    {
        let oc = outcomes[k];
        st.step(oc);
        proof {
            lemma_run_snoc(init, outcomes@.take(k as int), outcomes@[k as int]);
            assert(outcomes@.take(k as int + 1) =~= outcomes@.take(k as int).push(
                outcomes@[k as int],
            ));
        }
        k = k + 1;
    }
    proof {
        if k == n {
            assert(outcomes@.take(k as int) =~= outcomes@);
        } else {
            assert(st.model().stopped());
            assert(outcomes@.take(k as int) + outcomes@.skip(k as int) =~= outcomes@);
            lemma_run_append(init, outcomes@.take(k as int), outcomes@.skip(k as int));
        }
    }
    st
}

/// Sum of the byte counters of finished workers, in partition order.
pub open spec fn total_bytes(ws: Seq<WorkerState>) -> int
    decreases ws.len(),
{
    if ws.len() == 0 {
        0
    } else {
        ws[0].bytes + total_bytes(ws.drop_first())
    }
}

/// All failures the workers recorded, in partition order.
pub open spec fn all_failures(ws: Seq<WorkerState>) -> Seq<FailureRecord>
    decreases ws.len(),
{
    if ws.len() == 0 {
        Seq::empty()
    } else {
        ws[0].failures@ + all_failures(ws.drop_first())
    }
}

/// The first fatal status any worker observed, in partition order.
pub open spec fn first_fatal(ws: Seq<WorkerState>) -> Option<u16>
    decreases ws.len(),
{
    if ws.len() == 0 {
        None
    } else if ws[0].fatal is Some {
        ws[0].fatal
    } else {
        first_fatal(ws.drop_first())
    }
}

pub proof fn lemma_total_bytes_nonneg(ws: Seq<WorkerState>)
    ensures
        total_bytes(ws) >= 0,
    decreases ws.len(),
{
    if ws.len() > 0 {
        lemma_total_bytes_nonneg(ws.drop_first());
    }
}

/// Aggregates the finished workers into one batch result: total bytes, all
/// failures in partition order, and the first fatal status observed.
pub fn merge_results(workers: Vec<WorkerState>) -> (r: BatchResult)
    requires
        total_bytes(workers@) <= u64::MAX,
    ensures
        r.bytes_uploaded == total_bytes(workers@),
        r.failures@ == all_failures(workers@),
        r.fatal_error == first_fatal(workers@),
{
    let ghost orig = workers@;
    let mut rest = workers;
    let mut bytes: u64 = 0;
    let mut failures: Vec<FailureRecord> = Vec::new();
    let mut fatal: Option<u16> = None;
    proof {
        assert(failures@ + all_failures(rest@) =~= all_failures(orig));
    }
    while rest.len() > 0
        invariant
            bytes + total_bytes(rest@) == total_bytes(orig),
            total_bytes(orig) <= u64::MAX,
            failures@ + all_failures(rest@) == all_failures(orig),
            (match fatal {
                Some(s) => first_fatal(orig) == Some(s),
                None => first_fatal(orig) == first_fatal(rest@),
            }),
        decreases rest@.len(),
    {
        let ghost rest_before = rest@;
        let w = rest.remove(0);
        proof {
            assert(rest@ =~= rest_before.drop_first());
            lemma_total_bytes_nonneg(rest@);
        }
        bytes = bytes + w.bytes;
        let mut wf = w.failures;
        failures.append(&mut wf);
        if fatal.is_none() {
            fatal = w.fatal;
        }
        proof {
            assert(failures@ + all_failures(rest@) =~= all_failures(orig));
        }
    }
    proof {
        assert(all_failures(rest@) =~= Seq::<FailureRecord>::empty());
        assert(failures@ =~= all_failures(orig));
    }
    BatchResult { bytes_uploaded: bytes, failures, fatal_error: fatal }
}

/// Total size in bytes of a whole batch of partitions.
pub open spec fn batch_size(parts: Seq<Vec<File>>) -> int
    decreases parts.len(),
{
    if parts.len() == 0 {
        0
    } else {
        size_sum(parts[0]@) + batch_size(parts.drop_first())
    }
}

pub proof fn lemma_batch_size_nonneg(parts: Seq<Vec<File>>)
    ensures
        batch_size(parts) >= 0,
    decreases parts.len(),
{
    if parts.len() > 0 {
        lemma_size_sum_nonneg(parts[0]@);
        lemma_batch_size_nonneg(parts.drop_first());
    }
}

/// Bytes the engine reports for these partitions and outcomes.
pub open spec fn engine_bytes(parts: Seq<Vec<File>>, ocs: Seq<Vec<UploadOutcome>>) -> int
    decreases parts.len(),
{
    if parts.len() == 0 {
        0
    } else {
        WorkerModel::init(parts[0]@).run(ocs[0]@).bytes + engine_bytes(
            parts.drop_first(),
            ocs.drop_first(),
        )
    }
}

/// Failures the engine reports for these partitions and outcomes, in
/// partition order.
pub open spec fn engine_failures(parts: Seq<Vec<File>>, ocs: Seq<Vec<UploadOutcome>>) -> Seq<
    FailureRecord,
>
    decreases parts.len(),
{
    if parts.len() == 0 {
        Seq::empty()
    } else {
        WorkerModel::init(parts[0]@).run(ocs[0]@).failures + engine_failures(
            parts.drop_first(),
            ocs.drop_first(),
        )
    }
}

/// The first fatal status the engine reports for these partitions and
/// outcomes.
pub open spec fn engine_fatal(parts: Seq<Vec<File>>, ocs: Seq<Vec<UploadOutcome>>) -> Option<u16>
    decreases parts.len(),
{
    if parts.len() == 0 {
        None
    } else if WorkerModel::init(parts[0]@).run(ocs[0]@).fatal is Some {
        WorkerModel::init(parts[0]@).run(ocs[0]@).fatal
    } else {
        engine_fatal(parts.drop_first(), ocs.drop_first())
    }
}

/// Runs one worker per partition, each over its own outcomes, and
/// aggregates the results: the engine's whole run, with the network calls
/// replaced by the outcomes they came back with.
pub fn run_engine(partitions: Vec<Vec<File>>, outcomes: &Vec<Vec<UploadOutcome>>) -> (r:
    BatchResult)
    requires
        batch_size(partitions@) <= u64::MAX,
        outcomes@.len() == partitions@.len(),
        forall|i: int|
            0 <= i < partitions@.len() ==> (#[trigger] outcomes@[i])@.len() == partitions@[i]@.len(),
    ensures
        r.bytes_uploaded == engine_bytes(partitions@, outcomes@),
        r.failures@ == engine_failures(partitions@, outcomes@),
        r.fatal_error == engine_fatal(partitions@, outcomes@),
{
    let ghost all_parts = partitions@;
    let ghost all_ocs = outcomes@;
    let n = outcomes.len();
    let mut rest = partitions;
    let mut workers: Vec<WorkerState> = Vec::new();
    let mut k: usize = 0;
    while k < n
        invariant
            0 <= k <= n,
            n == all_ocs.len(),
            n == all_parts.len(),
            rest@ =~= all_parts.skip(k as int),
            all_ocs =~= outcomes@,
            forall|i: int|
                0 <= i < all_parts.len() ==> (#[trigger] all_ocs[i])@.len()
                    == all_parts[i]@.len(),
            batch_size(all_parts) <= u64::MAX,
            workers@.len() == k,
            total_bytes(workers@) + batch_size(rest@) <= batch_size(all_parts),
            total_bytes(workers@) == engine_bytes(all_parts.take(k as int), all_ocs.take(k as int)),
            all_failures(workers@) == engine_failures(
                all_parts.take(k as int),
                all_ocs.take(k as int),
            ),
            first_fatal(workers@) == engine_fatal(all_parts.take(k as int), all_ocs.take(k as int)),
        decreases n - k,
    {
        let ghost rest_before = rest@;
        let p = rest.remove(0);
        proof {
            assert(p == all_parts[k as int]);
            assert(rest@ =~= all_parts.skip(k as int + 1));
            assert(rest_before.drop_first() =~= rest@);
            assert(batch_size(rest_before) == size_sum(p@) + batch_size(rest@));
            lemma_batch_size_nonneg(rest@);
            lemma_size_sum_nonneg(p@);
            lemma_total_bytes_nonneg(workers@);
        }
        let w = run_worker(p, &outcomes[k]);
        proof {
            lemma_run_bounds(WorkerModel::init(p@), all_ocs[k as int]@);
            lemma_size_sum_nonneg(w.model().pending);
        }
        let ghost workers_before = workers@;
        workers.push(w);
        k = k + 1;
        proof {
            lemma_worker_fold_snoc(workers_before, w);
            lemma_engine_prefix_snoc(all_parts, all_ocs, k as int - 1, workers_before, w);
        }
    }
    proof {
        assert(all_parts.take(n as int) =~= all_parts);
        assert(all_ocs.take(n as int) =~= all_ocs);
        lemma_batch_size_nonneg(rest@);
    }
    merge_results(workers)
}

/// Folding one more worker into the aggregates matches extending the
/// engine's own fold by one partition.
proof fn lemma_engine_prefix_snoc(
    parts: Seq<Vec<File>>,
    ocs: Seq<Vec<UploadOutcome>>,
    k: int,
    ws: Seq<WorkerState>,
    w: WorkerState,
)
    requires
        0 <= k < parts.len(),
        ocs.len() == parts.len(),
        w.model() == WorkerModel::init(parts[k]@).run(ocs[k]@),
        total_bytes(ws) == engine_bytes(parts.take(k), ocs.take(k)),
        all_failures(ws) == engine_failures(parts.take(k), ocs.take(k)),
        first_fatal(ws) == engine_fatal(parts.take(k), ocs.take(k)),
    ensures
        total_bytes(ws.push(w)) == engine_bytes(parts.take(k + 1), ocs.take(k + 1)),
        all_failures(ws.push(w)) == engine_failures(parts.take(k + 1), ocs.take(k + 1)),
        first_fatal(ws.push(w)) == engine_fatal(parts.take(k + 1), ocs.take(k + 1)),
{
    lemma_worker_fold_snoc(ws, w);
    lemma_engine_fold_snoc(parts.take(k + 1), ocs.take(k + 1));
    assert(parts.take(k + 1).drop_last() =~= parts.take(k));
    assert(ocs.take(k + 1).drop_last() =~= ocs.take(k));
    assert(parts.take(k + 1).last() == parts[k]);
    assert(ocs.take(k + 1).last() == ocs[k]);
}

/// Head-first folds over worker states, decomposed at the last element.
proof fn lemma_worker_fold_snoc(ws: Seq<WorkerState>, w: WorkerState)
    ensures
        total_bytes(ws.push(w)) == total_bytes(ws) + w.bytes,
        all_failures(ws.push(w)) == all_failures(ws) + w.failures@,
        first_fatal(ws.push(w)) == if first_fatal(ws) is Some {
            first_fatal(ws)
        } else {
            w.fatal
        },
    decreases ws.len(),
{
    if ws.len() == 0 {
        assert(ws.push(w)[0] == w);
        assert(ws.push(w).drop_first() =~= Seq::<WorkerState>::empty());
        assert(total_bytes(Seq::<WorkerState>::empty()) == 0);
        assert(all_failures(Seq::<WorkerState>::empty()) =~= Seq::<FailureRecord>::empty());
        assert(first_fatal(Seq::<WorkerState>::empty()) is None);
        assert(all_failures(ws.push(w)) =~= w.failures@);
        assert(all_failures(ws) + w.failures@ =~= w.failures@);
    } else {
        assert(ws.push(w)[0] == ws[0]);
        assert(ws.push(w).drop_first() =~= ws.drop_first().push(w));
        lemma_worker_fold_snoc(ws.drop_first(), w);
        assert(all_failures(ws.push(w)) =~= all_failures(ws) + w.failures@);
    }
}

/// Head-first folds over partitions, decomposed at the last element.
proof fn lemma_engine_fold_snoc(parts: Seq<Vec<File>>, ocs: Seq<Vec<UploadOutcome>>)
    requires
        parts.len() >= 1,
        ocs.len() == parts.len(),
    ensures
        engine_bytes(parts, ocs) == engine_bytes(parts.drop_last(), ocs.drop_last())
            + WorkerModel::init(parts.last()@).run(ocs.last()@).bytes,
        engine_failures(parts, ocs) == engine_failures(parts.drop_last(), ocs.drop_last())
            + WorkerModel::init(parts.last()@).run(ocs.last()@).failures,
        engine_fatal(parts, ocs) == if engine_fatal(parts.drop_last(), ocs.drop_last()) is Some {
            engine_fatal(parts.drop_last(), ocs.drop_last())
        } else {
            WorkerModel::init(parts.last()@).run(ocs.last()@).fatal
        },
    decreases parts.len(),
{
    if parts.len() == 1 {
        assert(parts.drop_last() =~= Seq::<Vec<File>>::empty());
        assert(ocs.drop_last() =~= Seq::<Vec<UploadOutcome>>::empty());
        assert(parts.drop_first() =~= Seq::<Vec<File>>::empty());
        assert(ocs.drop_first() =~= Seq::<Vec<UploadOutcome>>::empty());
        assert(engine_bytes(Seq::<Vec<File>>::empty(), Seq::<Vec<UploadOutcome>>::empty()) == 0);
        assert(engine_failures(Seq::<Vec<File>>::empty(), Seq::<Vec<UploadOutcome>>::empty())
            =~= Seq::<FailureRecord>::empty());
        assert(engine_fatal(
            Seq::<Vec<File>>::empty(),
            Seq::<Vec<UploadOutcome>>::empty(),
        ) is None);
        assert(engine_failures(parts, ocs) =~= WorkerModel::init(parts.last()@).run(
            ocs.last()@,
        ).failures);
        assert(engine_failures(parts.drop_last(), ocs.drop_last()) + WorkerModel::init(
            parts.last()@,
        ).run(ocs.last()@).failures =~= WorkerModel::init(parts.last()@).run(ocs.last()@).failures);
    } else {
        assert(parts.drop_last()[0] == parts[0]);
        assert(parts.drop_last().drop_first() =~= parts.drop_first().drop_last());
        assert(ocs.drop_last().drop_first() =~= ocs.drop_first().drop_last());
        assert(parts.drop_first().last() == parts.last());
        assert(ocs.drop_first().last() == ocs.last());
        lemma_engine_fold_snoc(parts.drop_first(), ocs.drop_first());
        assert(engine_failures(parts, ocs) =~= engine_failures(parts.drop_last(), ocs.drop_last())
            + WorkerModel::init(parts.last()@).run(ocs.last()@).failures);
    }
}

} // verus!
