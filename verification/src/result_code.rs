//! The closed outcome enumeration for completed work items and mount calls.

use vstd::prelude::*;

verus! {

/// Exactly one of these is set on every completed work item; mount creation
/// reports failures with the same codes, synchronously.
#[derive(Clone, Copy, PartialEq, Eq, Structural, Debug)]
pub enum ResultCode {
    /// The operation succeeded.
    Okay,
    /// No mount matched the path, or the device reported a missing entry.
    NotFound,
    /// Mount creation failed for the given device type or path.
    InvalidDevice,
    /// A create conflicted with an existing entry.
    AlreadyExists,
    /// The device or the engine ran out of room for the data.
    OutOfSpace,
    /// The mount's permission mask forbids the operation.
    PermissionsError,
    /// The device lacks the optional capability the operation needs.
    Unsupported,
    /// A backend failure that fits no other code.
    GenericError,
}

/// The numeric wire value of each result code.
pub open spec fn code_value(rc: ResultCode) -> u32 {
    match rc {
        ResultCode::Okay => 0,
        ResultCode::NotFound => 1,
        ResultCode::InvalidDevice => 2,
        ResultCode::AlreadyExists => 3,
        ResultCode::OutOfSpace => 4,
        ResultCode::PermissionsError => 5,
        ResultCode::Unsupported => 6,
        ResultCode::GenericError => 7,
    }
}

impl ResultCode {
    /// The numeric value of this code.
    pub fn to_lamina(&self) -> (code: u32)
        ensures
            code == code_value(*self),
    {
        match self {
            ResultCode::Okay => 0,
            ResultCode::NotFound => 1,
            ResultCode::InvalidDevice => 2,
            ResultCode::AlreadyExists => 3,
            ResultCode::OutOfSpace => 4,
            ResultCode::PermissionsError => 5,
            ResultCode::Unsupported => 6,
            ResultCode::GenericError => 7,
        }
    }

    /// The code with the given numeric value.
    pub fn from_lamina(code: u32) -> (rc: ResultCode)
        requires
            code <= 7,
        ensures
            code_value(rc) == code,
    {
        if code == 0 {
            ResultCode::Okay
        } else if code == 1 {
            ResultCode::NotFound
        } else if code == 2 {
            ResultCode::InvalidDevice
        } else if code == 3 {
            ResultCode::AlreadyExists
        } else if code == 4 {
            ResultCode::OutOfSpace
        } else if code == 5 {
            ResultCode::PermissionsError
        } else if code == 6 {
            ResultCode::Unsupported
        } else {
            ResultCode::GenericError
        }
    }
}

} // verus!
