//! The mount table: ordered bindings of logical path prefixes to devices.
//!
//! Resolution picks, among the mounts whose mount point is a byte prefix of
//! the requested path, the one with the longest prefix; on equal lengths the
//! first-registered mount wins. The matched mount's relative path is the
//! request path with the prefix stripped.

use vstd::prelude::*;

use crate::device::{DeviceInterface, DeviceView, MemDevice};
use crate::permissions::MountPermissions;

verus! {

/// Caller-facing handle to one active mount: a stable index into the
/// context's mount table.
pub struct Mount {
    index: usize,
}

impl Mount {
    /// The table index this handle refers to.
    pub closed spec fn id(&self) -> int {
        self.index as int
    }

    pub(crate) fn from_index(index: usize) -> (m: Mount)
        ensures
            m.id() == index,
    {
        Mount { index }
    }

    pub(crate) fn table_index(&self) -> (i: usize)
        ensures
            i == self.id(),
    {
        self.index
    }
}

/// One entry of the mount table.
pub struct MountEntry {
    pub mount_point: Vec<u8>,
    pub permissions: MountPermissions,
    pub interface: DeviceInterface,
    pub device: MemDevice,
}

/// The abstract state of one mount: its prefix, its permission mask, the
/// interface it was created from, and the state of its device.
#[verifier::ext_equal]
pub ghost struct MountView {
    pub prefix: Seq<u8>,
    pub permissions: u32,
    pub interface: DeviceInterface,
    pub device: DeviceView,
}

impl View for MountEntry {
    type V = MountView;

    open spec fn view(&self) -> MountView {
        MountView {
            prefix: self.mount_point@,
            permissions: self.permissions.bits,
            interface: self.interface,
            device: self.device@,
        }
    }
}

impl MountEntry {
    /// The representation invariant of one table entry.
    pub open spec fn wf(&self) -> bool {
        self.device.wf()
    }
}

/// The mount table as mount views; released entries stay as `None` so that
/// handles keep stable indices.
pub open spec fn mounts_view(s: Seq<Option<MountEntry>>) -> Seq<Option<MountView>> {
    s.map(
        |i: int, e: Option<MountEntry>|
            match e {
                Some(m) => Some(m@),
                None => None,
            },
    )
}

/// `prefix` is a byte prefix of `path`.
pub open spec fn is_prefix(prefix: Seq<u8>, path: Seq<u8>) -> bool {
    prefix.len() <= path.len() && path.subrange(0, prefix.len() as int) == prefix
}

/// Executable twin of [`is_prefix`].
pub fn is_prefix_of(prefix: &Vec<u8>, path: &Vec<u8>) -> (r: bool)
    ensures
        r == is_prefix(prefix@, path@),
{
    if prefix.len() > path.len() {
        return false;
    }
    let mut i: usize = 0;
    while i < prefix.len()
        invariant
            i <= prefix@.len(),
            prefix@.len() <= path@.len(),
            forall|k: int| 0 <= k < i ==> path@[k] == prefix@[k],
        decreases prefix@.len() - i,
    {
        if path[i] != prefix[i] {
            return false;
        }
        i += 1;
    }
    proof {
        assert(path@.subrange(0, prefix@.len() as int) =~= prefix@);
    }
    true
}

/// The live mount at index `i` matches `path`.
pub open spec fn mount_matches(mounts: Seq<Option<MountView>>, i: int, path: Seq<u8>) -> bool {
    &&& 0 <= i < mounts.len()
    &&& mounts[i] is Some
    &&& is_prefix(mounts[i].unwrap().prefix, path)
}

/// The mount chosen among the first `n` table entries: the first one whose
/// prefix matches with maximal length.
pub open spec fn best_match_upto(
    mounts: Seq<Option<MountView>>,
    path: Seq<u8>,
    n: int,
) -> Option<int>
    decreases n,
{
    if n <= 0 {
        None
    } else {
        let prev = best_match_upto(mounts, path, n - 1);
        if mount_matches(mounts, n - 1, path) {
            match prev {
                None => Some(n - 1),
                Some(j) => if mounts[n - 1].unwrap().prefix.len()
                    > mounts[j].unwrap().prefix.len() {
                    Some(n - 1)
                } else {
                    Some(j)
                },
            }
        } else {
            prev
        }
    }
}

/// Which mount a path resolves to, if any.
pub open spec fn resolve_mount(mounts: Seq<Option<MountView>>, path: Seq<u8>) -> Option<int> {
    best_match_upto(mounts, path, mounts.len() as int)
}

proof fn lemma_best_match_upto_properties(mounts: Seq<Option<MountView>>, path: Seq<u8>, n: int)
    requires
        0 <= n <= mounts.len(),
    ensures
        match best_match_upto(mounts, path, n) {
            Some(i) => {
                &&& 0 <= i < n
                &&& mount_matches(mounts, i, path)
                &&& forall|j: int|
                    0 <= j < n && #[trigger] mount_matches(mounts, j, path)
                        ==> mounts[j].unwrap().prefix.len() <= mounts[i].unwrap().prefix.len()
                &&& forall|j: int|
                    0 <= j < i && #[trigger] mount_matches(mounts, j, path)
                        ==> mounts[j].unwrap().prefix.len() < mounts[i].unwrap().prefix.len()
            },
            None => forall|j: int| 0 <= j < n ==> !#[trigger] mount_matches(mounts, j, path),
        },
    decreases n,
{
    if n > 0 {
        lemma_best_match_upto_properties(mounts, path, n - 1);
    }
}

/// What resolution guarantees: the chosen mount matches the path, no other
/// matching mount has a longer prefix, every earlier matching mount has a
/// strictly shorter prefix, and resolution fails exactly when no live mount's
/// prefix matches the path.
pub proof fn lemma_resolve_mount_properties(mounts: Seq<Option<MountView>>, path: Seq<u8>)
    ensures
        match resolve_mount(mounts, path) {
            Some(i) => {
                &&& 0 <= i < mounts.len()
                &&& mount_matches(mounts, i, path)
                &&& forall|j: int|
                    0 <= j < mounts.len() && #[trigger] mount_matches(mounts, j, path)
                        ==> mounts[j].unwrap().prefix.len() <= mounts[i].unwrap().prefix.len()
                &&& forall|j: int|
                    0 <= j < i && #[trigger] mount_matches(mounts, j, path)
                        ==> mounts[j].unwrap().prefix.len() < mounts[i].unwrap().prefix.len()
            },
            None => forall|j: int|
                0 <= j < mounts.len() ==> !#[trigger] mount_matches(mounts, j, path),
        },
{
    lemma_best_match_upto_properties(mounts, path, mounts.len() as int);
}

/// Find the mount a path resolves to in the live table.
pub fn resolve_index(mounts: &Vec<Option<MountEntry>>, path: &Vec<u8>) -> (r: Option<usize>)
    ensures
        match r {
            Some(i) => resolve_mount(mounts_view(mounts@), path@) == Some(i as int),
            None => resolve_mount(mounts_view(mounts@), path@) is None,
        },
{
    let ghost mv = mounts_view(mounts@);
    let mut best: Option<usize> = None;
    let mut best_len: usize = 0;
    let mut i: usize = 0;
    while i < mounts.len()
        invariant
            i <= mounts@.len(),
            mv == mounts_view(mounts@),
            match best {
                Some(b) => {
                    &&& b < i
                    &&& best_match_upto(mv, path@, i as int) == Some(b as int)
                    &&& mv[b as int] is Some
                    &&& best_len == mv[b as int].unwrap().prefix.len()
                },
                None => best_match_upto(mv, path@, i as int) is None,
            },
        decreases mounts@.len() - i,
    {
        match &mounts[i] {
            Some(entry) => {
                if is_prefix_of(&entry.mount_point, path) {
                    proof {
                        assert(mv[i as int] == Some(entry@));
                        assert(mount_matches(mv, i as int, path@));
                    }
                    match best {
                        None => {
                            best = Some(i);
                            best_len = entry.mount_point.len();
                        },
                        Some(_) => {
                            if entry.mount_point.len() > best_len {
                                best = Some(i);
                                best_len = entry.mount_point.len();
                            }
                        },
                    }
                } else {
                    proof {
                        assert(mv[i as int] == Some(entry@));
                        assert(!mount_matches(mv, i as int, path@));
                    }
                }
            },
            None => {
                proof {
                    assert(mv[i as int] is None);
                    assert(!mount_matches(mv, i as int, path@));
                }
            },
        }
        i += 1;
    }
    best
}

/// The path with the first `count` bytes removed: the mount-relative path
/// handed to the device.
pub fn strip_prefix(path: &Vec<u8>, count: usize) -> (r: Vec<u8>)
    requires
        count <= path@.len(),
    ensures
        r@ == path@.subrange(count as int, path@.len() as int),
{
    let mut r: Vec<u8> = Vec::new();
    let mut i: usize = count;
    while i < path.len()
        invariant
            count <= i <= path@.len(),
            r@ =~= path@.subrange(count as int, i as int),
        decreases path@.len() - i,
    {
        r.push(path[i]);
        i += 1;
    }
    r
}

} // verus!
