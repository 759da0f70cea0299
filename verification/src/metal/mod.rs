//! Planning and checking of work for the GPU.
//!
//! The GPU is no backend of its own: large enough work may be submitted to it, and everything
//! else stays on the CPU. A session gives evidence that a proof took part in checked submissions.

use vstd::prelude::*;

pub mod agreement;
pub mod blake2s;
pub mod commit;
pub mod constraints;
pub mod context;
pub mod dots;
pub mod fft;
pub mod fri;
pub mod groups;
pub mod messages;
pub mod numerators;
pub mod ood;
pub mod passes;
pub mod plan_laws;
pub mod quotients;
pub mod transform;
pub mod twiddles;

use context::SubmissionCounters;

verus! {

/// What was submitted during a session.
#[derive(Clone, Debug, PartialEq, Eq)]
pub struct MetalSessionReport {
    pub device_name: String,
    pub successful_submissions: u64,
    pub failed_submissions: u64,
}

/// Why a proof was not admitted.
#[derive(Clone, Debug, PartialEq, Eq)]
pub enum MetalAdmissionError {
    /// Another session panicked while it held the process-wide lock.
    SessionMutexPoisoned,
    /// There is no device with unified memory.
    NoUnifiedMemoryDevice,
    /// A kernel module could not initialize its pipelines.
    StaticPipelineUnavailable { module: &'static str },
}

/// Which kernel modules have all their pipelines.
#[derive(Clone, Copy)]
pub struct StaticPipelines {
    pub blake2s: bool,
    pub fft: bool,
    pub quotients: bool,
    pub twiddles: bool,
    pub fri: bool,
    pub ood: bool,
}

impl StaticPipelines {
    /// The first module, in the fixed order, that is not ready.
    pub open spec fn first_unready(self) -> Option<&'static str> {
        if !self.blake2s {
            Some("Blake2s")
        } else if !self.fft {
            Some("FFT")
        } else if !self.quotients {
            Some("quotient")
        } else if !self.twiddles {
            Some("twiddle")
        } else if !self.fri {
            Some("FRI")
        } else if !self.ood {
            Some("out-of-domain")
        } else {
            None
        }
    }

    /// No module is named if and only if all are ready.
    pub proof fn lemma_all_ready(self)
        ensures
            self.first_unready() is None <==> self.blake2s && self.fft && self.quotients
                && self.twiddles && self.fri && self.ood,
    {
    }
}

/// Checks the modules in order, and names the first that is not ready.
pub fn validate_static_pipelines(pipelines: &StaticPipelines) -> (r: Result<
    (),
    MetalAdmissionError,
>)
    ensures
        r == match pipelines.first_unready() {
            Some(module) => Err::<(), MetalAdmissionError>(
                MetalAdmissionError::StaticPipelineUnavailable { module },
            ),
            None => Ok(()),
        },
{
    if !pipelines.blake2s {
        return Err(MetalAdmissionError::StaticPipelineUnavailable { module: "Blake2s" });
    }
    if !pipelines.fft {
        return Err(MetalAdmissionError::StaticPipelineUnavailable { module: "FFT" });
    }
    if !pipelines.quotients {
        return Err(MetalAdmissionError::StaticPipelineUnavailable { module: "quotient" });
    }
    if !pipelines.twiddles {
        return Err(MetalAdmissionError::StaticPipelineUnavailable { module: "twiddle" });
    }
    if !pipelines.fri {
        return Err(MetalAdmissionError::StaticPipelineUnavailable { module: "FRI" });
    }
    if !pipelines.ood {
        return Err(MetalAdmissionError::StaticPipelineUnavailable { module: "out-of-domain" });
    }
    Ok(())
}

/// An interval to which checked submissions are attributed.
pub struct MetalSession {
    pub device_name: String,
    pub starting_counters: SubmissionCounters,
}

impl MetalSession {
    /// Starts a session: the lock must be sound, a device present and every module ready, checked
    /// in this order. Submissions count from the given counters on.
    pub fn admit_proof(
        lock_poisoned: bool,
        device_name: Option<String>,
        pipelines: &StaticPipelines,
        counters: SubmissionCounters,
    ) -> (r: Result<MetalSession, MetalAdmissionError>)
        ensures
            lock_poisoned ==> r == Err::<MetalSession, MetalAdmissionError>(
                MetalAdmissionError::SessionMutexPoisoned,
            ),
            !lock_poisoned && device_name is None ==> r == Err::<
                MetalSession,
                MetalAdmissionError,
            >(MetalAdmissionError::NoUnifiedMemoryDevice),
            !lock_poisoned && device_name is Some && pipelines.first_unready() is Some ==> r
                == Err::<MetalSession, MetalAdmissionError>(
                MetalAdmissionError::StaticPipelineUnavailable {
                    module: pipelines.first_unready()->0,
                },
            ),
            !lock_poisoned && device_name is Some && pipelines.first_unready() is None ==> r
                == Ok::<MetalSession, MetalAdmissionError>(
                (MetalSession { device_name: device_name->0, starting_counters: counters }),
            ),
    {
        if lock_poisoned {
            return Err(MetalAdmissionError::SessionMutexPoisoned);
        }
        let device_name = match device_name {
            Some(name) => name,
            None => {
                return Err(MetalAdmissionError::NoUnifiedMemoryDevice);
            },
        };
        match validate_static_pipelines(pipelines) {
            Err(error) => Err(error),
            Ok(()) => Ok(MetalSession { device_name, starting_counters: counters }),
        }
    }

    /// Ends the session and reports what was submitted since it started.
    pub fn finish(self, counters: SubmissionCounters) -> (r: MetalSessionReport)
        ensures
            r.device_name == self.device_name,
            r.successful_submissions == counters.delta_s(self.starting_counters).successful,
            r.failed_submissions == counters.delta_s(self.starting_counters).failed,
    {
        let delta = counters.delta_from(self.starting_counters);
        MetalSessionReport {
            device_name: self.device_name,
            successful_submissions: delta.successful,
            failed_submissions: delta.failed,
        }
    }
}

/// What is asked of a session.
#[derive(Clone, Copy, Debug, PartialEq, Eq, Structural)]
pub enum MetalRequirement {
    /// Anything is accepted.
    Prefer,
    /// At least one submission succeeded, and none failed.
    ParticipationRequired,
}

/// Why a session does not meet what is asked of it.
#[derive(Clone, Copy, Debug, PartialEq, Eq, Structural)]
pub enum MetalRequirementError {
    /// Nothing was submitted with success.
    NoSuccessfulSubmissions,
    /// Some submissions failed.
    FailedSubmissions { count: u64 },
}

impl MetalRequirement {
    /// What is said of a session with so many submissions.
    pub open spec fn verdict(self, successful: u64, failed: u64) -> Result<
        (),
        MetalRequirementError,
    > {
        if self == MetalRequirement::Prefer {
            Ok(())
        } else if failed != 0 {
            Err(MetalRequirementError::FailedSubmissions { count: failed })
        } else if successful == 0 {
            Err(MetalRequirementError::NoSuccessfulSubmissions)
        } else {
            Ok(())
        }
    }

    /// Participation means that something succeeded and nothing failed.
    pub proof fn lemma_verdict(self, successful: u64, failed: u64)
        ensures
            self.verdict(successful, failed) is Ok <==> (self is ParticipationRequired ==> successful
                > 0 && failed == 0),
            self is ParticipationRequired && failed > 0 ==> self.verdict(successful, failed) == Err::<
                (),
                MetalRequirementError,
            >(MetalRequirementError::FailedSubmissions { count: failed }),
    {
    }

    /// Holds a report against the requirement.
    pub fn validate(self, report: &MetalSessionReport) -> (r: Result<(), MetalRequirementError>)
        ensures
            r == self.verdict(report.successful_submissions, report.failed_submissions),
    {
        if self == MetalRequirement::Prefer {
            return Ok(());
        }
        if report.failed_submissions != 0 {
            return Err(
                MetalRequirementError::FailedSubmissions { count: report.failed_submissions },
            );
        }
        if report.successful_submissions == 0 {
            return Err(MetalRequirementError::NoSuccessfulSubmissions);
        }
        Ok(())
    }
}

/// A session during which `good` submissions succeeded and `bad` failed meets the participation
/// requirement exactly if some succeeded and none failed.
pub proof fn lemma_participation(start: SubmissionCounters, good: u64, bad: u64)
    ensures
        ({
            let counted = start.advanced(good as nat, bad as nat).delta_s(start);
            MetalRequirement::ParticipationRequired.verdict(counted.successful, counted.failed)
                is Ok <==> good > 0 && bad == 0
        }),
{
    context::lemma_delta_of_advanced(start, good, bad);
}

} // verus!
