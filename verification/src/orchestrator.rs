//! The failure-recovery protocol around one upload batch: after the first
//! engine run, exactly one retry pass over the failed subset may follow;
//! after that — or when retry is declined, or on a fatal error — the failed
//! paths are persisted to the durable failure log.

use vstd::prelude::*;

use crate::engine::{BatchResult, FailureRecord};
use crate::filesystem::File;

verus! {

/// The states of the recovery protocol.
pub enum OrchState {
    /// The engine is running over the full batch.
    FirstAttempt,
    /// Recoverable failures were reported; the operator decides on a retry.
    NeedsDecision { failures: Vec<FailureRecord> },
    /// The single retry pass is running over the failed subset.
    Retrying,
    /// Terminal: everything was uploaded.
    Clean,
    /// Terminal: the remaining failures go to the failure log.
    PersistFailures,
    /// Terminal: a fatal error ended the batch.
    Aborted { status: u16 },
}

/// What the caller must do after a transition.
pub enum OrchAction {
    /// Run the upload engine over these items, partitioned fresh.
    RunEngine(Vec<File>),
    /// Show the failed items and ask the operator whether to retry.
    PromptRetry,
    /// Append these failures to the durable failure log.
    PersistFailures(Vec<FailureRecord>),
    /// Append these failures to the failure log, then surface the fatal
    /// status to the caller.
    AbortBatch { failures: Vec<FailureRecord>, status: u16 },
    /// Nothing further: the batch is clean.
    Finish,
}

/// The items the failure records hold, in order.
pub open spec fn record_items(failures: Seq<FailureRecord>) -> Seq<File> {
    Seq::new(failures.len(), |i: int| failures[i].item)
}

/// The failures held while the operator decides.
pub open spec fn decision_failures(state: OrchState) -> Seq<FailureRecord> {
    match state {
        OrchState::NeedsDecision { failures } => failures@,
        _ => Seq::empty(),
    }
}

/// Begins a batch: the engine runs once over the full item list.
pub fn start(items: Vec<File>) -> (r: (OrchState, OrchAction))
    ensures
        r.0 is FirstAttempt,
        r.1 matches OrchAction::RunEngine(v) && v@ == items@,
{
    (OrchState::FirstAttempt, OrchAction::RunEngine(items))
}

/// Takes one engine run's result. A fatal error aborts the batch and
/// persists what was collected, with no retry offered. A clean result ends
/// the batch. Otherwise the first attempt asks for a retry decision, while
/// the retry pass — the only one — goes straight to persisting.
pub fn on_engine_result(state: OrchState, result: BatchResult) -> (r: (OrchState, OrchAction))
    requires
        state is FirstAttempt || state is Retrying,
    ensures
        result.fatal_error matches Some(s) ==> (r.0 == (OrchState::Aborted { status: s })
            && (r.1 matches OrchAction::AbortBatch { failures, status } && failures@
            == result.failures@ && status == s)),
        result.fatal_error is None && result.failures@.len() == 0 ==> r.0 is Clean
            && r.1 is Finish,
        result.fatal_error is None && result.failures@.len() > 0 && state is FirstAttempt ==> ((
        r.0 matches OrchState::NeedsDecision { failures } && failures@ == result.failures@)
            && r.1 is PromptRetry),
        result.fatal_error is None && result.failures@.len() > 0 && state is Retrying ==> (r.0
            is PersistFailures && (r.1 matches OrchAction::PersistFailures(f) && f@
            == result.failures@)),
        // only one retry is ever attempted: the retry pass never asks again
        state is Retrying ==> !(r.0 is NeedsDecision) && !(r.1 is PromptRetry),
{
    match result.fatal_error {
        Some(s) => (
            OrchState::Aborted { status: s },
            OrchAction::AbortBatch { failures: result.failures, status: s },
        ),
        None => {
            if result.failures.len() == 0 {
                (OrchState::Clean, OrchAction::Finish)
            } else {
                match state {
                    OrchState::FirstAttempt => (
                        OrchState::NeedsDecision { failures: result.failures },
                        OrchAction::PromptRetry,
                    ),
                    _ => (
                        OrchState::PersistFailures,
                        OrchAction::PersistFailures(result.failures),
                    ),
                }
            }
        },
    }
}

/// Takes the operator's retry decision: accepted, the failed items run
/// through the engine once more; declined, they go to the failure log.
pub fn on_retry_decision(state: OrchState, retry: bool) -> (r: (OrchState, OrchAction))
    requires
        state is NeedsDecision,
    ensures
        retry ==> (r.0 is Retrying && (r.1 matches OrchAction::RunEngine(items) && items@
            == record_items(decision_failures(state)))),
        !retry ==> (r.0 is PersistFailures && (r.1 matches OrchAction::PersistFailures(f) && f@
            == decision_failures(state))),
{
    match state {
        OrchState::NeedsDecision { failures } => {
            if retry {
                let items = retry_items(failures);
                (OrchState::Retrying, OrchAction::RunEngine(items))
            } else {
                (OrchState::PersistFailures, OrchAction::PersistFailures(failures))
            }
        },
        _ => unreached(),
    }
}

/// The failed items themselves, in order, for the retry pass.
pub fn retry_items(failures: Vec<FailureRecord>) -> (r: Vec<File>)
    ensures
        r@ == record_items(failures@),
{
    let ghost orig = failures@;
    let mut rest = failures;
    let mut items: Vec<File> = Vec::new();
    while rest.len() > 0
        invariant
            items@.len() + rest@.len() == orig.len(),
            rest@ =~= orig.skip(items@.len() as int),
            forall|j: int| 0 <= j < items@.len() ==> items@[j] == orig[j].item,
        decreases rest@.len(),
    {
        let rec = rest.remove(0);
        items.push(rec.item);
    }
    proof {
        assert(items@ =~= record_items(orig));
    }
    items
}

/// One line per failed file: its local path, newline-terminated.
pub open spec fn log_lines(failures: Seq<FailureRecord>) -> Seq<char>
    decreases failures.len(),
{
    if failures.len() == 0 {
        Seq::empty()
    } else {
        failures[0].item.spec_local_path() + seq!['\n'] + log_lines(failures.drop_first())
    }
}

/// Renders the text appended to the durable failure log: each failed
/// item's local path on a line of its own.
pub fn failure_log_lines(failures: &Vec<FailureRecord>) -> (r: String)
    ensures
        r@ == log_lines(failures@),
{
    let n = failures.len();
    let mut s = String::new();
    let mut k: usize = 0;
    proof {
        assert(failures@.skip(0) =~= failures@);
        assert(s@ + log_lines(failures@.skip(0)) =~= log_lines(failures@));
    }
    while k < n
        invariant
            0 <= k <= n,
            n == failures@.len(),
            s@ + log_lines(failures@.skip(k as int)) == log_lines(failures@),
        decreases n - k,
    {
        s.append(failures[k].item.get_local_path());
        s.append("\n");
        proof {
            reveal_strlit("\n");
            assert("\n"@ =~= seq!['\n']);
            assert(failures@.skip(k as int)[0] == failures@[k as int]);
            assert(failures@.skip(k as int).drop_first() =~= failures@.skip(k as int + 1));
            assert(s@ + log_lines(failures@.skip(k as int + 1)) =~= log_lines(failures@));
        }
        k = k + 1;
    }
    proof {
        assert(failures@.skip(n as int) =~= Seq::<FailureRecord>::empty());
        assert(s@ =~= log_lines(failures@));
    }
    s
}

} // verus!
