//! Operation kinds and the state of one asynchronous work item.

use vstd::prelude::*;

use crate::permissions::{
    PERMISSION_CREATE_DIR, PERMISSION_DELETE_DIR, PERMISSION_DELETE_FILE, PERMISSION_READ,
    PERMISSION_WRITE, PERMISSION_WRITE_FILE,
};
use crate::result_code::ResultCode;

verus! {

/// The kind of work a submitted item asks for, with its scalar arguments.
#[derive(Clone, Copy, PartialEq, Eq, Structural, Debug)]
pub enum Operation {
    /// Read a whole file, optionally appending a terminating zero byte.
    ReadFile { null_terminate: bool },
    /// Read at most `max_bytes` starting at `offset`.
    ReadFileSegment { offset: u64, max_bytes: u64, null_terminate: bool },
    /// Truncate and replace a whole file, creating it when missing.
    WriteFile,
    /// Overwrite starting at `offset`; the file may grow, and a gap past the
    /// old end is filled with zero bytes.
    WriteFileSegment { offset: u64 },
    /// Append to the end of a file, creating it when missing.
    AppendFile,
    /// Create a directory.
    CreateDir,
    /// Delete a directory.
    DeleteDir,
    /// Delete a file.
    DeleteFile,
    /// Report whether a file exists.
    FileExists,
}

/// The permission bits a mount must grant before the engine hands the
/// operation to the device: reads need the read bit, and every mutation needs
/// the general write bit together with its specific bit.
pub open spec fn required_permissions(op: Operation) -> u32 {
    match op {
        Operation::ReadFile { .. } => PERMISSION_READ,
        Operation::ReadFileSegment { .. } => PERMISSION_READ,
        Operation::FileExists => PERMISSION_READ,
        Operation::WriteFile => PERMISSION_WRITE | PERMISSION_WRITE_FILE,
        Operation::WriteFileSegment { .. } => PERMISSION_WRITE | PERMISSION_WRITE_FILE,
        Operation::AppendFile => PERMISSION_WRITE | PERMISSION_WRITE_FILE,
        Operation::CreateDir => PERMISSION_WRITE | PERMISSION_CREATE_DIR,
        Operation::DeleteDir => PERMISSION_WRITE | PERMISSION_DELETE_DIR,
        Operation::DeleteFile => PERMISSION_WRITE | PERMISSION_DELETE_FILE,
    }
}

/// Executable twin of [`required_permissions`].
pub fn required_permissions_of(op: Operation) -> (r: u32)
    ensures
        r == required_permissions(op),
{
    match op {
        Operation::ReadFile { .. } => PERMISSION_READ,
        Operation::ReadFileSegment { .. } => PERMISSION_READ,
        Operation::FileExists => PERMISSION_READ,
        Operation::WriteFile => PERMISSION_WRITE | PERMISSION_WRITE_FILE,
        Operation::WriteFileSegment { .. } => PERMISSION_WRITE | PERMISSION_WRITE_FILE,
        Operation::AppendFile => PERMISSION_WRITE | PERMISSION_WRITE_FILE,
        Operation::CreateDir => PERMISSION_WRITE | PERMISSION_CREATE_DIR,
        Operation::DeleteDir => PERMISSION_WRITE | PERMISSION_DELETE_DIR,
        Operation::DeleteFile => PERMISSION_WRITE | PERMISSION_DELETE_FILE,
    }
}

/// The abstract state of one work-item slot.
///
/// `input` is the caller-supplied buffer handed over at submission; `output`
/// is the engine-owned buffer a completed read produced. Once `complete` is
/// true, `result` and `output` never change until the slot is released.
#[verifier::ext_equal]
pub ghost struct SlotState {
    pub op: Operation,
    pub path: Seq<u8>,
    pub input: Seq<u8>,
    pub complete: bool,
    pub result: ResultCode,
    pub output: Option<Seq<u8>>,
}

/// One work-item slot of the context's preallocated pool.
pub struct Slot {
    pub op: Operation,
    pub path: Vec<u8>,
    pub input: Vec<u8>,
    pub complete: bool,
    pub result: ResultCode,
    pub output: Option<Vec<u8>>,
}

/// The slot pool as abstract slot states; released slots stay as `None`.
pub open spec fn slots_view(s: Seq<Option<Slot>>) -> Seq<Option<SlotState>> {
    s.map(
        |i: int, e: Option<Slot>|
            match e {
                Some(sl) => Some(sl@),
                None => None,
            },
    )
}

impl View for Slot {
    type V = SlotState;

    open spec fn view(&self) -> SlotState {
        SlotState {
            op: self.op,
            path: self.path@,
            input: self.input@,
            complete: self.complete,
            result: self.result,
            output: match self.output {
                Option::Some(v) => Option::Some(v@),
                Option::None => Option::None,
            },
        }
    }
}

} // verus!
