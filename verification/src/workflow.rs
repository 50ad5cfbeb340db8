//! The record that a workflow run leaves behind.
use vstd::prelude::*;
use crate::proto::{WorkflowResult, WorkflowStatus};

verus! {

/// The result a run records: on success the joined stdout and no error
/// message; on failure no stdout and the error message.
pub open spec fn run_record(r: WorkflowResult, outcome: Result<String, String>, duration_ms: i64) -> bool {
    &&& r.duration_ms == duration_ms
    &&& match outcome {
        Ok(stdout) => {
            &&& r.status == WorkflowStatus::Succeeded.spec_to_i32()
            &&& r.stdout@ == stdout@
            &&& r.error_message@.len() == 0
        },
        Err(message) => {
            &&& r.status == WorkflowStatus::Error.spec_to_i32()
            &&& r.stdout@.len() == 0
            &&& r.error_message@ == message@
        },
    }
}

/// Append the result of one run: exactly one entry is added, and earlier
/// entries are kept as they were.
pub fn record_run_outcome(
    results: &mut Vec<WorkflowResult>,
    outcome: Result<String, String>,
    duration_ms: i64,
)
    ensures
        final(results)@.len() == old(results)@.len() + 1,
        final(results)@.take(old(results)@.len() as int) == old(results)@,
        run_record(final(results)@.last(), outcome, duration_ms),
{
    let ghost before = results@;
    let entry = match outcome {
        Ok(stdout) => WorkflowResult {
            status: WorkflowStatus::Succeeded.to_i32(),
            stdout,
            duration_ms,
            error_message: String::new(),
        },
        Err(message) => WorkflowResult {
            status: WorkflowStatus::Error.to_i32(),
            stdout: String::new(),
            duration_ms,
            error_message: message,
        },
    };
    results.push(entry);
    proof {
        assert(results@.take(before.len() as int) =~= before);
    }
}

} // verus!
