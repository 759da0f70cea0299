//! Completion of submitted commands, and the counters of checked submissions.

use vstd::prelude::*;

verus! {

/// The states of a command buffer.
#[derive(Clone, Copy, Debug, PartialEq, Eq, Structural)]
pub enum CommandStatus {
    NotEnqueued,
    Enqueued,
    Committed,
    Scheduled,
    Completed,
    Error,
}

/// How many checked submissions have succeeded and failed, counted round the word.
#[derive(Clone, Copy, Debug, PartialEq, Eq, Structural)]
pub struct SubmissionCounters {
    pub successful: u64,
    pub failed: u64,
}

impl SubmissionCounters {
    /// The counters after `good` more successes and `bad` more failures.
    pub open spec fn advanced(self, good: nat, bad: nat) -> SubmissionCounters {
        SubmissionCounters {
            successful: ((self.successful + good) % 0x1_0000_0000_0000_0000) as u64,
            failed: ((self.failed + bad) % 0x1_0000_0000_0000_0000) as u64,
        }
    }

    /// What was counted since `start`.
    pub open spec fn delta_s(self, start: SubmissionCounters) -> SubmissionCounters {
        SubmissionCounters {
            successful: ((self.successful - start.successful) % 0x1_0000_0000_0000_0000) as u64,
            failed: ((self.failed - start.failed) % 0x1_0000_0000_0000_0000) as u64,
        }
    }

    pub fn delta_from(self, start: SubmissionCounters) -> (r: SubmissionCounters)
        ensures
            r == self.delta_s(start),
    {
        SubmissionCounters {
            successful: self.successful.wrapping_sub(start.successful),
            failed: self.failed.wrapping_sub(start.failed),
        }
    }
}

/// The counters give back what was added to them.
pub proof fn lemma_delta_of_advanced(start: SubmissionCounters, good: u64, bad: u64)
    ensures
        start.advanced(good as nat, bad as nat).delta_s(start) == (SubmissionCounters {
            successful: good,
            failed: bad,
        }),
{
}

/// Only a completed command has succeeded.
pub fn completion_succeeded(status: CommandStatus) -> (r: bool)
    ensures
        r == (status == CommandStatus::Completed),
{
    status == CommandStatus::Completed
}

/// Counts the outcome of a command that has been waited for, and rejects every final state but
/// completion.
pub fn record_checked_completion(counters: &mut SubmissionCounters, status: CommandStatus) -> (r:
    Result<(), CommandStatus>)
    ensures
        r == if status == CommandStatus::Completed {
            Ok::<(), CommandStatus>(())
        } else {
            Err(status)
        },
        *final(counters) == if status == CommandStatus::Completed {
            old(counters).advanced(1, 0)
        } else {
            old(counters).advanced(0, 1)
        },
{
    if completion_succeeded(status) {
        counters.successful = counters.successful.wrapping_add(1);
        Ok(())
    } else {
        counters.failed = counters.failed.wrapping_add(1);
        Err(status)
    }
}

} // verus!
