//! Decisions of a bounded run of the listing command: when to keep waiting,
//! when to collect, when to kill, and how a finished run is classified.
//! The caller spawns the process, polls it, sleeps and kills; each step asks
//! these functions what to do.

use crate::inventory::KopiaSnapshots;
use vstd::prelude::*;

verus! {

/// Milliseconds between two polls of the running command.
pub const POLL_INTERVAL_MS: u64 = 50;

/// What to do after polling the command.
#[derive(Clone, Copy, Debug, PartialEq, Eq)]
pub enum PollAction {
    /// Still running, time remains: sleep one interval and poll again.
    Wait,
    /// The command exited: collect the workers' results.
    Collect,
    /// The time is up: kill and reap the command, report a timeout.
    Kill,
}

/// The decision after a poll that saw the command `exited` or not, once
/// `elapsed_ms` of the `timeout_ms` have passed.
pub open spec fn poll_action(exited: bool, elapsed_ms: int, timeout_ms: int) -> PollAction {
    if exited {
        PollAction::Collect
    } else if elapsed_ms >= timeout_ms {
        PollAction::Kill
    } else {
        PollAction::Wait
    }
}

/// Decides the next step of the poll loop.
pub fn decide_poll(exited: bool, elapsed_ms: u64, timeout_ms: u64) -> (r: PollAction)
    ensures
        r == poll_action(exited, elapsed_ms as int, timeout_ms as int),
{
    if exited {
        PollAction::Collect
    } else if elapsed_ms >= timeout_ms {
        PollAction::Kill
    } else {
        PollAction::Wait
    }
}

/// Why a run of the listing command gave no inventory.
#[derive(Debug)]
pub enum InvocationError {
    /// The command could not be started.
    Spawn { message: String },
    /// The command exited unsuccessfully; `code` is -1 when it had none.
    Exit { code: i32, stderr: String },
    /// The command ran past its timeout; `stderr` is what was drained.
    Timeout { timeout_ms: u64, stderr: String },
    /// The output was not UTF-8.
    Utf8 { message: String },
    /// The output was not a JSON list of snapshots.
    Json { message: String },
    /// The policy hook rejected a source.
    Rejected { report: eyre::Report },
}

/// How ingestion of the output ended, as the output worker reports it.
#[derive(Debug)]
pub enum IngestOutcome {
    /// The inventory was built.
    Parsed(KopiaSnapshots),
    /// The output was not UTF-8.
    NotUtf8(String),
    /// The output was not a JSON list of snapshots.
    NotJson(String),
    /// The policy hook rejected a source.
    Rejected(eyre::Report),
}

/// The result of a run whose command exited: an unsuccessful exit is fatal
/// whatever was parsed; otherwise the ingestion's own outcome decides.
pub fn finish_run(success: bool, code: Option<i32>, stderr: String, outcome: IngestOutcome) -> (r: Result<
    KopiaSnapshots,
    InvocationError,
>)
    ensures
        !success ==> (r matches Err(InvocationError::Exit { code: c, stderr: e }) && e@ == stderr@ && c as int == match code {
            Some(x) => x as int,
            None => -1int,
        }),
        success ==> match outcome {
            IngestOutcome::Parsed(ks) => r matches Ok(k) && k == ks,
            IngestOutcome::NotUtf8(m) => r matches Err(InvocationError::Utf8 { message }) && message == m,
            IngestOutcome::NotJson(m) => r matches Err(InvocationError::Json { message }) && message == m,
            IngestOutcome::Rejected(e) => r matches Err(InvocationError::Rejected { report }) && report == e,
        },
{
    if !success {
        let code = match code {
            Some(c) => c,
            None => -1,
        };
        return Err(InvocationError::Exit { code, stderr });
    }
    match outcome {
        IngestOutcome::Parsed(ks) => Ok(ks),
        IngestOutcome::NotUtf8(message) => Err(InvocationError::Utf8 { message }),
        IngestOutcome::NotJson(message) => Err(InvocationError::Json { message }),
        IngestOutcome::Rejected(report) => Err(InvocationError::Rejected { report }),
    }
}

/// The result of a run that timed out: always the timeout, with the drained
/// error output; the partial output is never used.
pub fn timed_out(timeout_ms: u64, stderr: String) -> (r: Result<KopiaSnapshots, InvocationError>)
    ensures
        r matches Err(InvocationError::Timeout { timeout_ms: t, stderr: e }) && t == timeout_ms && e@ == stderr@,
{
    Err(InvocationError::Timeout { timeout_ms, stderr })
}

/// A command that never exits, polled every interval from time zero, is
/// killed at the first poll at or past the timeout: every earlier poll
/// waits, and the kill comes before the timeout plus one interval.
pub proof fn lemma_kill_within_one_interval(timeout_ms: nat)
    ensures
        ({
            let k = (timeout_ms + POLL_INTERVAL_MS - 1) / (POLL_INTERVAL_MS as int);
            &&& poll_action(false, k * POLL_INTERVAL_MS, timeout_ms as int) == PollAction::Kill
            &&& k * POLL_INTERVAL_MS < timeout_ms + POLL_INTERVAL_MS
            &&& forall|j: int| 0 <= j < k ==> poll_action(false, #[trigger] (j * POLL_INTERVAL_MS), timeout_ms as int)
                == PollAction::Wait
        }),
{
    let t = timeout_ms as int;
    let k = (t + 49) / 50;
    assert(k * 50 >= t && k * 50 < t + 50) by (nonlinear_arith)
        requires
            k == (t + 49) / 50,
            t >= 0;
    assert forall|j: int| 0 <= j < k implies #[trigger] (j * 50) < t by {
        assert(j * 50 < t) by (nonlinear_arith)
            requires
                0 <= j < k,
                k == (t + 49) / 50,
                t >= 0;
    }
}

} // verus!
