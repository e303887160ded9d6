//! What can go wrong in a benchmark.
use crate::text;
use vstd::prelude::*;

verus! {

#[derive(Debug)]
pub enum BenchError {
    /// No case of this name.
    UnknownCase(String),
    /// The case file is of another version.
    UnsupportedSchema(u32),
    /// A payload of more than `u32::MAX` bytes.
    SequenceTooLong,
    /// Bytes that hold no message, with what the decoder says of them.
    Undecodable(String),
    WireBoundaryOverflow,
    NoBelowValue,
    AlignedBoundaryOverflow,
    /// More messages than a history can hold.
    HistoryTooDeep,
    UnknownArgument(String),
    MissingArgument(&'static str),
    /// Anything but the expected word on the control channel.
    ExpectedStart(String),
    /// What a child process reported.
    ChildReport(String),
    /// The role of a child process that ended too early.
    ExitedBeforeHandshake(String),
    /// A case that did not end well.
    CaseFailed(String),
}

impl BenchError {
    pub open spec fn text(self) -> Seq<char> {
        match self {
            BenchError::UnknownCase(id) => "unknown case: "@ + id@,
            BenchError::UnsupportedSchema(version) => "unsupported case schema "@ + text::decimal(
                version as nat,
            ),
            BenchError::SequenceTooLong => "sequence is too long"@,
            BenchError::Undecodable(reason) => reason@,
            BenchError::WireBoundaryOverflow => "wire boundary overflow"@,
            BenchError::NoBelowValue => "wire boundary has no below value"@,
            BenchError::AlignedBoundaryOverflow => "aligned wire boundary payload overflow"@,
            BenchError::HistoryTooDeep => "out of range integral type conversion attempted"@,
            BenchError::UnknownArgument(value) => "unknown argument: "@ + value@,
            BenchError::MissingArgument(name) => name@ + " is required"@,
            BenchError::ExpectedStart(line) => "expected START, got "@ + line@,
            BenchError::ChildReport(line) => line@,
            BenchError::ExitedBeforeHandshake(role) => role@ + " exited before handshake"@,
            BenchError::CaseFailed(reason) => reason@,
        }
    }

    /// The error in words.
    pub fn message(&self) -> (r: String)
        ensures
            r@ == self.text(),
    {
        match self {
            BenchError::UnknownCase(id) => "unknown case: ".to_owned().concat(id.as_str()),
            BenchError::UnsupportedSchema(version) => {
                let mut s = "unsupported case schema ".to_owned();
                text::push_decimal(&mut s, *version as u128);
                s
            },
            BenchError::SequenceTooLong => "sequence is too long".to_owned(),
            BenchError::Undecodable(reason) => reason.as_str().to_owned(),
            BenchError::WireBoundaryOverflow => "wire boundary overflow".to_owned(),
            BenchError::NoBelowValue => "wire boundary has no below value".to_owned(),
            BenchError::AlignedBoundaryOverflow => {
                "aligned wire boundary payload overflow".to_owned()
            },
            BenchError::HistoryTooDeep => {
                "out of range integral type conversion attempted".to_owned()
            },
            BenchError::UnknownArgument(value) => {
                "unknown argument: ".to_owned().concat(value.as_str())
            },
            BenchError::MissingArgument(name) => (*name).to_owned().concat(" is required"),
            BenchError::ExpectedStart(line) => {
                "expected START, got ".to_owned().concat(line.as_str())
            },
            BenchError::ChildReport(line) => line.as_str().to_owned(),
            BenchError::ExitedBeforeHandshake(role) => {
                role.as_str().to_owned().concat(" exited before handshake")
            },
            BenchError::CaseFailed(reason) => reason.as_str().to_owned(),
        }
    }
}

/// What each error says.
pub proof fn law_errors_are_worded(error: BenchError)
    ensures
        error matches BenchError::UnknownCase(id) ==> error.text() == "unknown case: "@ + id@,
        error matches BenchError::UnsupportedSchema(version) ==> error.text()
            == "unsupported case schema "@ + text::decimal(version as nat),
        error is SequenceTooLong ==> error.text() == "sequence is too long"@,
        error matches BenchError::Undecodable(reason) ==> error.text() == reason@,
        error is WireBoundaryOverflow ==> error.text() == "wire boundary overflow"@,
        error is NoBelowValue ==> error.text() == "wire boundary has no below value"@,
        error is AlignedBoundaryOverflow ==> error.text()
            == "aligned wire boundary payload overflow"@,
        error is HistoryTooDeep ==> error.text()
            == "out of range integral type conversion attempted"@,
        error matches BenchError::UnknownArgument(value) ==> error.text() == "unknown argument: "@
            + value@,
        error matches BenchError::MissingArgument(name) ==> error.text() == name@
            + " is required"@,
        error matches BenchError::ExpectedStart(line) ==> error.text() == "expected START, got "@
            + line@,
        error matches BenchError::ChildReport(line) ==> error.text() == line@,
        error matches BenchError::ExitedBeforeHandshake(role) ==> error.text() == role@
            + " exited before handshake"@,
        error matches BenchError::CaseFailed(reason) ==> error.text() == reason@,
{
}

} // verus!
