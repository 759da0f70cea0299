//! What the errors of sessions and submissions say.

use vstd::prelude::*;
use vstd::string::StringExecFns;

use super::context::CommandStatus;
use super::quotients::QuotientMetalError;
use super::{MetalAdmissionError, MetalRequirementError};
use crate::framework::names::{append_decimal, decimal_s};

verus! {

impl MetalAdmissionError {
    /// The message as text.
    pub open spec fn text(self) -> Seq<char> {
        match self {
            MetalAdmissionError::SessionMutexPoisoned =>
                "the process-wide Metal proof mutex is poisoned"@,
            MetalAdmissionError::NoUnifiedMemoryDevice =>
                "no unified-memory Metal device is available"@,
            MetalAdmissionError::StaticPipelineUnavailable { module } => "the static Metal "@
                + module@ + " pipeline is unavailable"@,
        }
    }

    pub fn message(&self) -> (r: String)
        ensures
            r@ == self.text(),
    {
        match self {
            MetalAdmissionError::SessionMutexPoisoned => String::from_str(
                "the process-wide Metal proof mutex is poisoned",
            ),
            MetalAdmissionError::NoUnifiedMemoryDevice => String::from_str(
                "no unified-memory Metal device is available",
            ),
            MetalAdmissionError::StaticPipelineUnavailable { module } => {
                let mut s = String::from_str("the static Metal ");
                s.append(*module);
                s.append(" pipeline is unavailable");
                s
            },
        }
    }
}

impl MetalRequirementError {
    /// The message as text.
    pub open spec fn text(self) -> Seq<char> {
        match self {
            MetalRequirementError::NoSuccessfulSubmissions =>
                "the proof made no successful Metal submissions"@,
            MetalRequirementError::FailedSubmissions { count } => "the proof had "@ + decimal_s(
                count as nat,
            ) + " failed Metal submissions"@,
        }
    }

    pub fn message(&self) -> (r: String)
        ensures
            r@ == self.text(),
    {
        match self {
            MetalRequirementError::NoSuccessfulSubmissions => String::from_str(
                "the proof made no successful Metal submissions",
            ),
            MetalRequirementError::FailedSubmissions { count } => {
                let mut s = String::from_str("the proof had ");
                append_decimal(&mut s, *count);
                s.append(" failed Metal submissions");
                s
            },
        }
    }
}

impl CommandStatus {
    /// The name of the state.
    pub open spec fn text(self) -> Seq<char> {
        match self {
            CommandStatus::NotEnqueued => "NotEnqueued"@,
            CommandStatus::Enqueued => "Enqueued"@,
            CommandStatus::Committed => "Committed"@,
            CommandStatus::Scheduled => "Scheduled"@,
            CommandStatus::Completed => "Completed"@,
            CommandStatus::Error => "Error"@,
        }
    }

    pub fn name(&self) -> (r: &'static str)
        ensures
            r@ == self.text(),
    {
        match self {
            CommandStatus::NotEnqueued => "NotEnqueued",
            CommandStatus::Enqueued => "Enqueued",
            CommandStatus::Committed => "Committed",
            CommandStatus::Scheduled => "Scheduled",
            CommandStatus::Completed => "Completed",
            CommandStatus::Error => "Error",
        }
    }
}

/// A number in binary, with zeros in front of it up to a width.
pub open spec fn binary_s(n: nat, width: nat) -> Seq<char>
    decreases n + width,
{
    if n == 0 && width == 0 {
        Seq::empty()
    } else {
        let rest = if width == 0 {
            0
        } else {
            (width - 1) as nat
        };
        binary_s(n / 2, rest) + if n % 2 == 1 {
            "1"@
        } else {
            "0"@
        }
    }
}

fn append_binary(text: &mut String, n: u32, width: u32)
    ensures
        final(text)@ == old(text)@ + binary_s(n as nat, width as nat),
    decreases n + width,
{
    if n == 0 && width == 0 {
        assert(text@ =~= old(text)@ + binary_s(0, 0));
        return;
    }
    let rest: u32 = if width == 0 {
        0
    } else {
        width - 1
    };
    append_binary(text, n / 2, rest);
    text.append(
        if n % 2 == 1 {
            "1"
        } else {
            "0"
        },
    );
    assert(text@ =~= old(text)@ + binary_s(n as nat, width as nat));
}

/// A row, or that there is none.
pub open spec fn row_text(row: Option<usize>) -> Seq<char> {
    match row {
        Some(row) => "Some("@ + decimal_s(row as nat) + ")"@,
        None => "None"@,
    }
}

/// The first `k` rows, separated by commas.
pub open spec fn rows_text(rows: Seq<Option<usize>>, k: nat) -> Seq<char>
    decreases k,
{
    if k == 0 {
        Seq::empty()
    } else if k == 1 {
        row_text(rows[0])
    } else {
        rows_text(rows, (k - 1) as nat) + ", "@ + row_text(rows[k - 1])
    }
}

fn append_rows(text: &mut String, rows: &[Option<usize>; 6])
    ensures
        final(text)@ == old(text)@ + rows_text(rows@, 6),
{
    let ghost before = text@;
    for k in 0..6usize
        invariant
            before == old(text)@,
            text@ == before + rows_text(rows@, k as nat),
    {
        let ghost now = text@;
        if k > 0 {
            text.append(", ");
        }
        match rows[k] {
            Some(row) => {
                text.append("Some(");
                append_decimal(text, row as u64);
                text.append(")");
            },
            None => {
                text.append("None");
            },
        }
        assert(text@ =~= before + rows_text(rows@, (k + 1) as nat));
    }
}

impl QuotientMetalError {
    /// The message as text.
    pub open spec fn text(self) -> Seq<char> {
        match self {
            QuotientMetalError::NumeratorCommandFailed { status, batch_count, dispatch_count } =>
                "Metal quotient-numerator command failed with status "@ + status.text()
                + " after submitting "@ + decimal_s(batch_count as nat) + " stable batches in "@
                + decimal_s(dispatch_count as nat) + " ordered dispatches"@,
            QuotientMetalError::CommandFailed { status } =>
                "Metal quotient command failed with status "@ + status.text(),
            QuotientMetalError::Pole { sample_mask, first_row, sample_first_rows } =>
                "Metal quotient denominator pole: sample mask 0b"@ + binary_s(
                sample_mask as nat,
                6,
            ) + ", first row "@ + decimal_s(first_row as nat) + ", per-sample first rows ["@
                + rows_text(sample_first_rows@, 6) + "]"@,
        }
    }

    pub fn message(&self) -> (r: String)
        ensures
            r@ == self.text(),
    {
        match self {
            QuotientMetalError::NumeratorCommandFailed { status, batch_count, dispatch_count } => {
                let mut s = String::from_str("Metal quotient-numerator command failed with status ");
                s.append(status.name());
                s.append(" after submitting ");
                append_decimal(&mut s, *batch_count as u64);
                s.append(" stable batches in ");
                append_decimal(&mut s, *dispatch_count as u64);
                s.append(" ordered dispatches");
                s
            },
            QuotientMetalError::CommandFailed { status } => {
                let mut s = String::from_str("Metal quotient command failed with status ");
                s.append(status.name());
                s
            },
            QuotientMetalError::Pole { sample_mask, first_row, sample_first_rows } => {
                let mut s = String::from_str("Metal quotient denominator pole: sample mask 0b");
                append_binary(&mut s, *sample_mask, 6);
                s.append(", first row ");
                append_decimal(&mut s, *first_row as u64);
                s.append(", per-sample first rows [");
                append_rows(&mut s, sample_first_rows);
                s.append("]");
                s
            },
        }
    }
}

} // verus!
