//! Permission masks attached to mounts.
//!
//! A mask is a bit set over the six operation categories a mount can allow.
//! `PERMISSION_DEFAULT` is the conservative subset for ordinary read/write
//! access: it permits reading and writing files but none of the destructive
//! directory operations.

use vstd::prelude::*;

verus! {

/// Allows read operations (whole reads, segment reads, existence checks).
pub const PERMISSION_READ: u32 = 0x01;

/// Gates every mutating operation; a mutation also needs its specific bit.
pub const PERMISSION_WRITE: u32 = 0x02;

/// Allows writing, rewriting and appending to files.
pub const PERMISSION_WRITE_FILE: u32 = 0x04;

/// Allows creating directories.
pub const PERMISSION_CREATE_DIR: u32 = 0x08;

/// Allows deleting files.
pub const PERMISSION_DELETE_FILE: u32 = 0x10;

/// Allows deleting directories.
pub const PERMISSION_DELETE_DIR: u32 = 0x20;

/// Every permission bit.
pub const PERMISSION_ALL: u32 = PERMISSION_READ | PERMISSION_WRITE | PERMISSION_WRITE_FILE
    | PERMISSION_CREATE_DIR | PERMISSION_DELETE_FILE | PERMISSION_DELETE_DIR;

/// The default mask: read and file-write access, no destructive directory
/// operations and no deletions.
pub const PERMISSION_DEFAULT: u32 = PERMISSION_READ | PERMISSION_WRITE | PERMISSION_WRITE_FILE;

/// `mask` grants everything in `required` when all required bits are set.
pub open spec fn mask_contains(mask: u32, required: u32) -> bool {
    mask & required == required
}

/// The permission mask of one mount.
#[derive(Clone, Copy, PartialEq, Eq, Structural, Debug)]
pub struct MountPermissions {
    pub bits: u32,
}

impl MountPermissions {
    /// A mask with exactly the given bits.
    pub fn from_bits(bits: u32) -> (r: MountPermissions)
        ensures
            r.bits == bits,
    {
        MountPermissions { bits }
    }

    /// The mask granting every permission.
    pub fn all() -> (r: MountPermissions)
        ensures
            r.bits == PERMISSION_ALL,
    {
        MountPermissions { bits: PERMISSION_ALL }
    }

    /// The mask granting nothing.
    pub fn none() -> (r: MountPermissions)
        ensures
            r.bits == 0,
    {
        MountPermissions { bits: 0 }
    }

    /// The union of two masks.
    pub fn union(self, other: MountPermissions) -> (r: MountPermissions)
        ensures
            r.bits == (self.bits | other.bits),
    {
        MountPermissions { bits: self.bits | other.bits }
    }

    /// Whether this mask grants every bit of `required`.
    pub fn contains(self, required: MountPermissions) -> (r: bool)
        ensures
            r == mask_contains(self.bits, required.bits),
    {
        self.bits & required.bits == required.bits
    }
}

impl Default for MountPermissions {
    /// The default mask used when a mount is created without explicit
    /// permissions.
    fn default() -> (r: MountPermissions)
        ensures
            r.bits == PERMISSION_DEFAULT,
    {
        MountPermissions { bits: PERMISSION_DEFAULT }
    }
}

} // verus!
