//! Device sessions.

use stwo::metal::context::{
    completion_succeeded, record_checked_completion, CommandStatus, SubmissionCounters,
};
use stwo::metal::quotients::QuotientMetalError;
use stwo::metal::{
    validate_static_pipelines, MetalAdmissionError, MetalRequirement, MetalRequirementError,
    MetalSession, MetalSessionReport, StaticPipelines,
};

fn report(successful_submissions: u64, failed_submissions: u64) -> MetalSessionReport {
    MetalSessionReport {
        device_name: "test device".to_owned(),
        successful_submissions,
        failed_submissions,
    }
}

#[test]
fn prefer_accepts_cpu_only_and_failed_sessions() {
    assert_eq!(MetalRequirement::Prefer.validate(&report(0, 0)), Ok(()));
    assert_eq!(MetalRequirement::Prefer.validate(&report(2, 1)), Ok(()));
}

#[test]
fn participation_requires_a_successful_submission() {
    assert_eq!(
        MetalRequirement::ParticipationRequired.validate(&report(0, 0)),
        Err(MetalRequirementError::NoSuccessfulSubmissions)
    );
    assert_eq!(
        MetalRequirement::ParticipationRequired.validate(&report(1, 0)),
        Ok(())
    );
}

#[test]
fn participation_rejects_any_failed_submission() {
    assert_eq!(
        MetalRequirement::ParticipationRequired.validate(&report(3, 2)),
        Err(MetalRequirementError::FailedSubmissions { count: 2 })
    );
}

#[test]
fn only_completed_status_is_successful() {
    assert!(completion_succeeded(CommandStatus::Completed));
    for status in [
        CommandStatus::NotEnqueued,
        CommandStatus::Enqueued,
        CommandStatus::Committed,
        CommandStatus::Scheduled,
        CommandStatus::Error,
    ] {
        assert!(!completion_succeeded(status));
    }
}

fn all_pipelines() -> StaticPipelines {
    StaticPipelines { blake2s: true, fft: true, quotients: true, twiddles: true, fri: true, ood: true }
}

#[test]
fn sessions_are_admitted_in_order_of_what_can_fail() {
    let start = SubmissionCounters { successful: 3, failed: 1 };
    let open_session = |poisoned, device: Option<&str>, pipelines: &StaticPipelines| {
        MetalSession::admit_proof(poisoned, device.map(str::to_owned), pipelines, start)
    };
    assert!(matches!(
        open_session(true, Some("device"), &all_pipelines()),
        Err(MetalAdmissionError::SessionMutexPoisoned)
    ));
    assert!(matches!(
        open_session(false, None, &all_pipelines()),
        Err(MetalAdmissionError::NoUnifiedMemoryDevice)
    ));
    let broken = StaticPipelines { quotients: false, ..all_pipelines() };
    assert!(matches!(
        open_session(false, Some("device"), &broken),
        Err(MetalAdmissionError::StaticPipelineUnavailable { .. })
    ));
    assert!(validate_static_pipelines(&broken).is_err());
    assert!(validate_static_pipelines(&all_pipelines()).is_ok());
    let Ok(session) = open_session(false, Some("device"), &all_pipelines()) else {
        panic!("everything is there")
    };
    let report = session.finish(SubmissionCounters { successful: 5, failed: 1 });
    assert_eq!(report.device_name, "device");
    assert_eq!((report.successful_submissions, report.failed_submissions), (2, 0));
}

#[test]
fn completions_are_counted() {
    let mut counters = SubmissionCounters { successful: 0, failed: 0 };
    assert_eq!(record_checked_completion(&mut counters, CommandStatus::Completed), Ok(()));
    assert_eq!(
        record_checked_completion(&mut counters, CommandStatus::Error),
        Err(CommandStatus::Error)
    );
    assert_eq!((counters.successful, counters.failed), (1, 1));
}

#[test]
fn errors_say_what_happened() {
    assert_eq!(
        MetalAdmissionError::SessionMutexPoisoned.message(),
        "the process-wide Metal proof mutex is poisoned"
    );
    assert_eq!(
        MetalAdmissionError::NoUnifiedMemoryDevice.message(),
        "no unified-memory Metal device is available"
    );
    assert_eq!(
        MetalAdmissionError::StaticPipelineUnavailable { module: "FFT" }.message(),
        "the static Metal FFT pipeline is unavailable"
    );
    assert_eq!(
        MetalRequirementError::NoSuccessfulSubmissions.message(),
        "the proof made no successful Metal submissions"
    );
    assert_eq!(
        MetalRequirementError::FailedSubmissions { count: 20 }.message(),
        "the proof had 20 failed Metal submissions"
    );
    assert_eq!(
        QuotientMetalError::NumeratorCommandFailed {
            status: CommandStatus::Error,
            batch_count: 3,
            dispatch_count: 12,
        }
        .message(),
        "Metal quotient-numerator command failed with status Error after submitting 3 stable \
         batches in 12 ordered dispatches"
    );
    assert_eq!(
        QuotientMetalError::CommandFailed { status: CommandStatus::Scheduled }.message(),
        "Metal quotient command failed with status Scheduled"
    );
    let sample_first_rows = [None, Some(9), None, Some(4), None, None];
    let mask = 0b1010u32;
    assert_eq!(
        QuotientMetalError::Pole { sample_mask: mask, first_row: 4, sample_first_rows }.message(),
        format!(
            "Metal quotient denominator pole: sample mask {mask:#08b}, first row 4, per-sample \
             first rows {sample_first_rows:?}"
        )
    );
}
