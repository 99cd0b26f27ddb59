//! Result codes and the error taxonomy.
use vstd::prelude::*;

verus! {

/// The result code of an operation that succeeded.
pub const RES_OK: i32 = 0;
/// Unspecified failure.
pub const RES_FAIL: i32 = 1;
/// A needed resource could not be obtained.
pub const RES_RESOURCE: i32 = 2;
/// Memory could not be obtained.
pub const RES_MEMORY: i32 = 3;
/// An internal limit was reached.
pub const RES_LIMIT: i32 = 4;
/// The facility is not implemented.
pub const RES_UNIMPL: i32 = 5;
/// A system I/O error.
pub const RES_IO: i32 = 6;
/// The arena's commit limit would be exceeded.
pub const RES_COMMIT_LIMIT: i32 = 7;
/// A parameter was invalid.
pub const RES_PARAM: i32 = 8;

/// An error reported by the memory manager.
#[derive(Clone, Copy, Debug, PartialEq, Eq, Structural)]
pub enum MpsError {
    /// A failure that none of the other errors describes.
    Fail,
    /// A system I/O failure.
    Io,
    /// An internal limit was exceeded.
    Limit,
    /// Out of memory.
    Memory,
    /// A needed resource could not be obtained.
    Resource,
    /// The operation is not supported.
    Unimplemented,
    /// The arena's commit limit would be exceeded.
    CommitLimit,
    /// A parameter was invalid.
    InvalidParam,
    /// A code outside the published set, kept opaque.
    Unknown,
}

/// The error that a nonzero result code stands for.
pub open spec fn error_of_code(code: i32) -> MpsError {
    if code == RES_FAIL {
        MpsError::Fail
    } else if code == RES_IO {
        MpsError::Io
    } else if code == RES_LIMIT {
        MpsError::Limit
    } else if code == RES_MEMORY {
        MpsError::Memory
    } else if code == RES_RESOURCE {
        MpsError::Resource
    } else if code == RES_UNIMPL {
        MpsError::Unimplemented
    } else if code == RES_COMMIT_LIMIT {
        MpsError::CommitLimit
    } else if code == RES_PARAM {
        MpsError::InvalidParam
    } else {
        MpsError::Unknown
    }
}

/// The result code that stands for an error; `Unknown` reports a code
/// outside the published set.
pub open spec fn code_of_error(e: MpsError) -> i32 {
    match e {
        MpsError::Fail => RES_FAIL,
        MpsError::Io => RES_IO,
        MpsError::Limit => RES_LIMIT,
        MpsError::Memory => RES_MEMORY,
        MpsError::Resource => RES_RESOURCE,
        MpsError::Unimplemented => RES_UNIMPL,
        MpsError::CommitLimit => RES_COMMIT_LIMIT,
        MpsError::InvalidParam => RES_PARAM,
        MpsError::Unknown => RES_UNKNOWN,
    }
}

/// The code reported for an error outside the published set.
pub const RES_UNKNOWN: i32 = 47;

/// The result that a code stands for: `Ok` for zero, else the error.
pub open spec fn result_of_code(code: i32) -> Result<(), MpsError> {
    if code == RES_OK {
        Ok(())
    } else {
        Err(error_of_code(code))
    }
}

impl MpsError {
    /// The error for a nonzero result code; a code outside the published set
    /// gives `Unknown`.
    pub fn from_code(code: i32) -> (r: MpsError)
        requires
            code != RES_OK,
        ensures
            r == error_of_code(code),
    {
        match code {
            RES_FAIL => MpsError::Fail,
            RES_IO => MpsError::Io,
            RES_LIMIT => MpsError::Limit,
            RES_MEMORY => MpsError::Memory,
            RES_RESOURCE => MpsError::Resource,
            RES_UNIMPL => MpsError::Unimplemented,
            RES_COMMIT_LIMIT => MpsError::CommitLimit,
            RES_PARAM => MpsError::InvalidParam,
            _ => MpsError::Unknown,
        }
    }

    /// The result code of this error.
    pub fn code(&self) -> (r: i32)
        ensures
            r == code_of_error(*self),
            r != RES_OK,
    {
        match self {
            MpsError::Fail => RES_FAIL,
            MpsError::Io => RES_IO,
            MpsError::Limit => RES_LIMIT,
            MpsError::Memory => RES_MEMORY,
            MpsError::Resource => RES_RESOURCE,
            MpsError::Unimplemented => RES_UNIMPL,
            MpsError::CommitLimit => RES_COMMIT_LIMIT,
            MpsError::InvalidParam => RES_PARAM,
            MpsError::Unknown => RES_UNKNOWN,
        }
    }

    /// A short description of the error.
    pub fn message(&self) -> (r: &'static str) {
        match self {
            MpsError::Fail => "Unknown failure",
            MpsError::Io => "Internal IO failure",
            MpsError::Limit => "Internal limit exceeded",
            MpsError::Memory => "Insufficient memory",
            MpsError::Resource => "A needed resource couldn't be obtained",
            MpsError::Unimplemented => "Unsupported operation",
            MpsError::CommitLimit => "Exceeded arena's commit limit",
            MpsError::InvalidParam => "Invalid parameter was given",
            MpsError::Unknown => "Unknown MPS error",
        }
    }
}

/// Turns a result code into a `Result`: `Ok` for zero, else the error.
pub fn handle_res(code: i32) -> (r: Result<(), MpsError>)
    ensures
        r == result_of_code(code),
{
    if code == RES_OK {
        Ok(())
    } else {
        Err(MpsError::from_code(code))
    }
}

/// Turns a `Result` back into a result code.
pub fn res_of(r: Result<(), MpsError>) -> (code: i32)
    ensures
        code == match r {
            Ok(()) => RES_OK,
            Err(e) => code_of_error(e),
        },
{
    match r {
        Ok(()) => RES_OK,
        Err(e) => e.code(),
    }
}

/// Every published error survives the trip through its code.
pub proof fn lemma_code_round_trip(e: MpsError)
    requires
        e != MpsError::Unknown,
    ensures
        error_of_code(code_of_error(e)) == e,
        result_of_code(code_of_error(e)) == Err::<(), MpsError>(e),
{
}

} // verus!
