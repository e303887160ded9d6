//! What DDS operations answer.
use crate::time::Nanos;
use vstd::prelude::*;

verus! {

/// The answer of a DDS operation that did not succeed.
#[derive(Debug, Clone, Copy, PartialEq, Eq, Structural)]
pub enum DDSError {
    DdsOk,
    DdsFail,
    Unsupported,
    BadParameter,
    PreconditionNotMet,
    OutOfResources,
    NotEnabled,
    ImmutablePolicy,
    InconsistentPolicy,
    AlreadyDeleted,
    Timeout,
    NoData,
    IllegalOperation,
    NotAllowedBySecurity,
    /// A code that has no name.
    Other(i32),
}

impl DDSError {
    /// The answer that a return code stands for. Failures are negative.
    pub open spec fn of_code(code: i32) -> Self {
        if code >= 0 {
            DDSError::DdsOk
        } else if code == -1 {
            DDSError::DdsFail
        } else if code == -2 {
            DDSError::Unsupported
        } else if code == -3 {
            DDSError::BadParameter
        } else if code == -4 {
            DDSError::PreconditionNotMet
        } else if code == -5 {
            DDSError::OutOfResources
        } else if code == -6 {
            DDSError::NotEnabled
        } else if code == -7 {
            DDSError::ImmutablePolicy
        } else if code == -8 {
            DDSError::InconsistentPolicy
        } else if code == -9 {
            DDSError::AlreadyDeleted
        } else if code == -10 {
            DDSError::Timeout
        } else if code == -11 {
            DDSError::NoData
        } else if code == -12 {
            DDSError::IllegalOperation
        } else if code == -13 {
            DDSError::NotAllowedBySecurity
        } else {
            DDSError::Other(code)
        }
    }
}

impl From<i32> for DDSError {
    fn from(code: i32) -> (r: Self) {
        if code >= 0 {
            return DDSError::DdsOk;
        }
        match code {
            -1 => DDSError::DdsFail,
            -2 => DDSError::Unsupported,
            -3 => DDSError::BadParameter,
            -4 => DDSError::PreconditionNotMet,
            -5 => DDSError::OutOfResources,
            -6 => DDSError::NotEnabled,
            -7 => DDSError::ImmutablePolicy,
            -8 => DDSError::InconsistentPolicy,
            -9 => DDSError::AlreadyDeleted,
            -10 => DDSError::Timeout,
            -11 => DDSError::NoData,
            -12 => DDSError::IllegalOperation,
            -13 => DDSError::NotAllowedBySecurity,
            _ => DDSError::Other(code),
        }
    }
}

impl vstd::std_specs::convert::FromSpecImpl<i32> for DDSError {
    open spec fn obeys_from_spec() -> bool {
        true
    }

    open spec fn from_spec(code: i32) -> Self {
        DDSError::of_code(code)
    }
}

/// Nothing where a return code is no failure.
pub fn check_not_negative(code: i32) -> (r: Result<(), DDSError>)
    ensures
        r == if code >= 0 {
            Ok::<(), DDSError>(())
        } else {
            Err(DDSError::of_code(code))
        },
{
    if code >= 0 {
        Ok(())
    } else {
        Err(DDSError::from(code))
    }
}

/// Nothing where a return code is exactly the one for success.
pub fn check_ok(code: i32) -> (r: Result<(), DDSError>)
    ensures
        r == if code == 0 {
            Ok::<(), DDSError>(())
        } else {
            Err(DDSError::of_code(code))
        },
{
    if code == 0 {
        Ok(())
    } else {
        Err(DDSError::from(code))
    }
}

/// The handle of an entity that was created; zero is no handle.
pub fn check_handle(handle: i32) -> (r: Result<i32, DDSError>)
    ensures
        r == if handle > 0 {
            Ok::<i32, DDSError>(handle)
        } else {
            Err(DDSError::of_code(handle))
        },
{
    if handle > 0 {
        Ok(handle)
    } else {
        Err(DDSError::from(handle))
    }
}

/// What an asynchronous read can fail with.
#[derive(Debug, Clone, Copy, PartialEq, Eq, Structural)]
pub enum ReaderError {
    DdsError(DDSError),
    /// The reader was not made for asynchronous reads.
    ReaderNotAsync,
    RequestedDeadLineMissed,
    /// No writer for as long as the reader was told to wait.
    NoMatchedWriter { timeout: Nanos },
}

/// Which return code stands for which failure. One that stands for none is kept.
pub proof fn law_codes_name_failures(code: i32)
    ensures
        <DDSError as vstd::std_specs::convert::FromSpec<i32>>::obeys_from_spec(),
        DDSError::of_code(code) is DdsOk <==> code >= 0,
        DDSError::of_code(code) is DdsFail <==> code == -1,
        DDSError::of_code(code) is Unsupported <==> code == -2,
        DDSError::of_code(code) is BadParameter <==> code == -3,
        DDSError::of_code(code) is PreconditionNotMet <==> code == -4,
        DDSError::of_code(code) is OutOfResources <==> code == -5,
        DDSError::of_code(code) is NotEnabled <==> code == -6,
        DDSError::of_code(code) is ImmutablePolicy <==> code == -7,
        DDSError::of_code(code) is InconsistentPolicy <==> code == -8,
        DDSError::of_code(code) is AlreadyDeleted <==> code == -9,
        DDSError::of_code(code) is Timeout <==> code == -10,
        DDSError::of_code(code) is NoData <==> code == -11,
        DDSError::of_code(code) is IllegalOperation <==> code == -12,
        DDSError::of_code(code) is NotAllowedBySecurity <==> code == -13,
        DDSError::of_code(code) == DDSError::Other(code) <==> code < -13,
        <DDSError as vstd::std_specs::convert::FromSpec<i32>>::from_spec(code)
            == DDSError::of_code(code),
{
}

} // verus!
