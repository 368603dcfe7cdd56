//! Devices: the storage backends mounts bind to.
//!
//! A device is a capability set, not a concrete type. [`DeviceInterface`]
//! describes one registered device type: its numeric identifier and which
//! optional capabilities its implementation provides. [`DeviceView`] is the
//! mathematical state of one device instance, and [`spec_perform`] says what
//! each operation does to that state. [`MemDevice`] is the library's
//! memory-backed implementation, verified against [`spec_perform`].

use vstd::prelude::*;

use crate::result_code::ResultCode;
use crate::work::Operation;

verus! {

/// A registered device type: its identifier plus the optional capabilities
/// its implementation supports. Invoking an unsupported optional operation
/// completes with [`ResultCode::Unsupported`].
#[derive(Clone, Copy, PartialEq, Eq, Structural, Debug)]
pub struct DeviceInterface {
    pub device_type: u32,
    pub supports_write_file: bool,
    pub supports_delete_file: bool,
    pub supports_create_dir: bool,
    pub supports_delete_dir: bool,
}

impl DeviceInterface {
    /// A device type that supports every optional operation.
    pub fn with_all_capabilities(device_type: u32) -> (r: DeviceInterface)
        ensures
            r == (DeviceInterface {
                device_type,
                supports_write_file: true,
                supports_delete_file: true,
                supports_create_dir: true,
                supports_delete_dir: true,
            }),
    {
        DeviceInterface {
            device_type,
            supports_write_file: true,
            supports_delete_file: true,
            supports_create_dir: true,
            supports_delete_dir: true,
        }
    }

    /// A device type that supports only the required read operations.
    pub fn read_only(device_type: u32) -> (r: DeviceInterface)
        ensures
            r == (DeviceInterface {
                device_type,
                supports_write_file: false,
                supports_delete_file: false,
                supports_create_dir: false,
                supports_delete_dir: false,
            }),
    {
        DeviceInterface {
            device_type,
            supports_write_file: false,
            supports_delete_file: false,
            supports_create_dir: false,
            supports_delete_dir: false,
        }
    }
}

/// Whether a device type provides the operation; the read operations and the
/// existence check are required of every device.
pub open spec fn has_capability(iface: DeviceInterface, op: Operation) -> bool {
    match op {
        Operation::WriteFile => iface.supports_write_file,
        Operation::WriteFileSegment { .. } => iface.supports_write_file,
        Operation::AppendFile => iface.supports_write_file,
        Operation::CreateDir => iface.supports_create_dir,
        Operation::DeleteDir => iface.supports_delete_dir,
        Operation::DeleteFile => iface.supports_delete_file,
        _ => true,
    }
}

/// Executable twin of [`has_capability`].
pub fn capability_of(iface: DeviceInterface, op: Operation) -> (r: bool)
    ensures
        r == has_capability(iface, op),
{
    match op {
        Operation::WriteFile => iface.supports_write_file,
        Operation::WriteFileSegment { .. } => iface.supports_write_file,
        Operation::AppendFile => iface.supports_write_file,
        Operation::CreateDir => iface.supports_create_dir,
        Operation::DeleteDir => iface.supports_delete_dir,
        Operation::DeleteFile => iface.supports_delete_file,
        _ => true,
    }
}

/// The mathematical state of one device instance: the files it stores, each a
/// byte sequence keyed by its device-relative path, and the set of
/// directories it knows.
#[verifier::ext_equal]
pub ghost struct DeviceView {
    pub files: Map<Seq<u8>, Seq<u8>>,
    pub dirs: Set<Seq<u8>>,
}

impl DeviceView {
    /// A device holding nothing.
    pub open spec fn empty() -> DeviceView {
        DeviceView { files: Map::empty(), dirs: Set::empty() }
    }
}

/// What one device operation produced: the device state after it, its result
/// code, and the output buffer, if the operation yields one.
#[verifier::ext_equal]
pub ghost struct DeviceOutcome {
    pub device: DeviceView,
    pub result: ResultCode,
    pub output: Option<Seq<u8>>,
}

/// An outcome that leaves the device as it was and yields no output.
pub open spec fn unchanged_outcome(dev: DeviceView, rc: ResultCode) -> DeviceOutcome {
    DeviceOutcome { device: dev, result: rc, output: None }
}

/// `n` zero bytes.
pub open spec fn zero_bytes(n: int) -> Seq<u8> {
    Seq::new(n as nat, |i: int| 0u8)
}

/// The bytes a read yields: the slice of `data` starting at `offset` of at
/// most `max_bytes` bytes, clamped to the end of the file, with a single zero
/// byte appended when `null_terminate` is set.
pub open spec fn read_slice(data: Seq<u8>, offset: int, max_bytes: int, null_terminate: bool) -> Seq<
    u8,
> {
    let begin = if offset <= data.len() {
        offset
    } else {
        data.len() as int
    };
    let avail = data.len() - begin;
    let count = if max_bytes <= avail {
        max_bytes
    } else {
        avail
    };
    let body = data.subrange(begin, begin + count);
    if null_terminate {
        body.push(0u8)
    } else {
        body
    }
}

/// A file's contents after an offset write: the old bytes up to `offset`
/// (zero-filled when the file was shorter), then `data`, then whatever old
/// bytes lay beyond the written range.
pub open spec fn segment_written(old_data: Seq<u8>, offset: int, data: Seq<u8>) -> Seq<u8> {
    let head = if offset <= old_data.len() {
        old_data.subrange(0, offset)
    } else {
        old_data + zero_bytes(offset - old_data.len())
    };
    let tail = if offset + data.len() < old_data.len() {
        old_data.subrange(offset + data.len(), old_data.len() as int)
    } else {
        Seq::empty()
    };
    head + data + tail
}

/// What each operation does to a device: the single authority the in-memory
/// device and every engine-level contract are proved against.
pub open spec fn spec_perform(
    dev: DeviceView,
    op: Operation,
    path: Seq<u8>,
    input: Seq<u8>,
) -> DeviceOutcome {
    match op {
        Operation::ReadFile { null_terminate } => {
            if dev.files.contains_key(path) {
                DeviceOutcome {
                    device: dev,
                    result: ResultCode::Okay,
                    output: Some(
                        read_slice(
                            dev.files[path],
                            0,
                            dev.files[path].len() as int,
                            null_terminate,
                        ),
                    ),
                }
            } else {
                unchanged_outcome(dev, ResultCode::NotFound)
            }
        },
        Operation::ReadFileSegment { offset, max_bytes, null_terminate } => {
            if dev.files.contains_key(path) {
                DeviceOutcome {
                    device: dev,
                    result: ResultCode::Okay,
                    output: Some(
                        read_slice(
                            dev.files[path],
                            offset as int,
                            max_bytes as int,
                            null_terminate,
                        ),
                    ),
                }
            } else {
                unchanged_outcome(dev, ResultCode::NotFound)
            }
        },
        Operation::WriteFile => DeviceOutcome {
            device: DeviceView { files: dev.files.insert(path, input), dirs: dev.dirs },
            result: ResultCode::Okay,
            output: None,
        },
        Operation::WriteFileSegment { offset } => {
            let old_data = if dev.files.contains_key(path) {
                dev.files[path]
            } else {
                Seq::empty()
            };
            if offset + input.len() > usize::MAX {
                unchanged_outcome(dev, ResultCode::OutOfSpace)
            } else {
                DeviceOutcome {
                    device: DeviceView {
                        files: dev.files.insert(
                            path,
                            segment_written(old_data, offset as int, input),
                        ),
                        dirs: dev.dirs,
                    },
                    result: ResultCode::Okay,
                    output: None,
                }
            }
        },
        Operation::AppendFile => {
            let old_data = if dev.files.contains_key(path) {
                dev.files[path]
            } else {
                Seq::empty()
            };
            if old_data.len() + input.len() > usize::MAX {
                unchanged_outcome(dev, ResultCode::OutOfSpace)
            } else {
                DeviceOutcome {
                    device: DeviceView {
                        files: dev.files.insert(path, old_data + input),
                        dirs: dev.dirs,
                    },
                    result: ResultCode::Okay,
                    output: None,
                }
            }
        },
        Operation::CreateDir => {
            if dev.dirs.contains(path) || dev.files.contains_key(path) {
                unchanged_outcome(dev, ResultCode::AlreadyExists)
            } else {
                DeviceOutcome {
                    device: DeviceView { files: dev.files, dirs: dev.dirs.insert(path) },
                    result: ResultCode::Okay,
                    output: None,
                }
            }
        },
        Operation::DeleteDir => {
            if dev.dirs.contains(path) {
                DeviceOutcome {
                    device: DeviceView { files: dev.files, dirs: dev.dirs.remove(path) },
                    result: ResultCode::Okay,
                    output: None,
                }
            } else {
                unchanged_outcome(dev, ResultCode::NotFound)
            }
        },
        Operation::DeleteFile => {
            if dev.files.contains_key(path) {
                DeviceOutcome {
                    device: DeviceView { files: dev.files.remove(path), dirs: dev.dirs },
                    result: ResultCode::Okay,
                    output: None,
                }
            } else {
                unchanged_outcome(dev, ResultCode::NotFound)
            }
        },
        Operation::FileExists => DeviceOutcome {
            device: dev,
            result: ResultCode::Okay,
            output: Some(
                if dev.files.contains_key(path) {
                    seq![1u8]
                } else {
                    seq![0u8]
                },
            ),
        },
    }
}

/// Law: writing a buffer to a path and then reading that path whole, without
/// a terminator, yields exactly the written buffer.
pub proof fn lemma_write_read_round_trip(dev: DeviceView, path: Seq<u8>, data: Seq<u8>)
    ensures
        ({
            let w = spec_perform(dev, Operation::WriteFile, path, data);
            let r = spec_perform(
                w.device,
                Operation::ReadFile { null_terminate: false },
                path,
                Seq::empty(),
            );
            &&& w.result == ResultCode::Okay
            &&& r.result == ResultCode::Okay
            &&& r.output == Some(data)
            &&& r.device == w.device
        }),
{
    let w = spec_perform(dev, Operation::WriteFile, path, data);
    assert(w.device.files[path] == data);
    assert(read_slice(data, 0, data.len() as int, false) =~= data);
}

/// One stored file of the in-memory device.
pub struct MemFile {
    pub path: Vec<u8>,
    pub data: Vec<u8>,
}

/// The library's memory-backed device: a flat store of files keyed by their
/// device-relative path, plus the set of created directories.
pub struct MemDevice {
    files: Vec<MemFile>,
    dirs: Vec<Vec<u8>>,
}

/// The path key of the file at index `i`.
spec fn file_key(s: Seq<MemFile>, i: int) -> Seq<u8> {
    s[i].path@
}

/// The path of the directory entry at index `i`.
spec fn dir_key(s: Seq<Vec<u8>>, i: int) -> Seq<u8> {
    s[i]@
}

/// The file store as a map from path to contents.
spec fn files_map(s: Seq<MemFile>) -> Map<Seq<u8>, Seq<u8>>
    decreases s.len(),
{
    if s.len() == 0 {
        Map::empty()
    } else {
        files_map(s.drop_last()).insert(s.last().path@, s.last().data@)
    }
}

/// The directory entries as a set of paths.
spec fn dirs_set(s: Seq<Vec<u8>>) -> Set<Seq<u8>>
    decreases s.len(),
{
    if s.len() == 0 {
        Set::empty()
    } else {
        dirs_set(s.drop_last()).insert(s.last()@)
    }
}

spec fn distinct_file_keys(s: Seq<MemFile>) -> bool {
    forall|i: int, j: int| 0 <= i < j < s.len() ==> file_key(s, i) != file_key(s, j)
}

spec fn distinct_dir_keys(s: Seq<Vec<u8>>) -> bool {
    forall|i: int, j: int| 0 <= i < j < s.len() ==> dir_key(s, i) != dir_key(s, j)
}

proof fn lemma_files_map_absent(s: Seq<MemFile>, p: Seq<u8>)
    requires
        forall|i: int| 0 <= i < s.len() ==> file_key(s, i) != p,
    ensures
        !files_map(s).contains_key(p),
    decreases s.len(),
{
    if s.len() > 0 {
        assert(file_key(s, s.len() - 1) != p);
        assert forall|i: int| 0 <= i < s.len() - 1 implies file_key(s.drop_last(), i) != p by {
            assert(s.drop_last()[i] == s[i]);
            assert(file_key(s, i) != p);
        }
        lemma_files_map_absent(s.drop_last(), p);
    }
}

proof fn lemma_files_map_at(s: Seq<MemFile>, i: int)
    requires
        distinct_file_keys(s),
        0 <= i < s.len(),
    ensures
        files_map(s).contains_key(s[i].path@),
        files_map(s)[s[i].path@] == s[i].data@,
    decreases s.len(),
{
    if i < s.len() - 1 {
        assert forall|k1: int, k2: int| 0 <= k1 < k2 < s.len() - 1 implies file_key(
            s.drop_last(),
            k1,
        ) != file_key(s.drop_last(), k2) by {
            assert(s.drop_last()[k1] == s[k1]);
            assert(s.drop_last()[k2] == s[k2]);
            assert(file_key(s, k1) != file_key(s, k2));
        }
        lemma_files_map_at(s.drop_last(), i);
        assert(s.drop_last()[i] == s[i]);
        assert(file_key(s, i) != file_key(s, s.len() - 1));
    }
}

proof fn lemma_files_map_update(s: Seq<MemFile>, i: int, f: MemFile)
    requires
        distinct_file_keys(s),
        0 <= i < s.len(),
        f.path@ == s[i].path@,
    ensures
        files_map(s.update(i, f)) =~= files_map(s).insert(f.path@, f.data@),
    decreases s.len(),
{
    let t = s.update(i, f);
    if i == s.len() - 1 {
        assert(t.drop_last() =~= s.drop_last());
        assert(t.last() == f);
    } else {
        assert forall|k1: int, k2: int| 0 <= k1 < k2 < s.len() - 1 implies file_key(
            s.drop_last(),
            k1,
        ) != file_key(s.drop_last(), k2) by {
            assert(s.drop_last()[k1] == s[k1]);
            assert(s.drop_last()[k2] == s[k2]);
            assert(file_key(s, k1) != file_key(s, k2));
        }
        lemma_files_map_update(s.drop_last(), i, f);
        assert(t.drop_last() =~= s.drop_last().update(i, f));
        assert(t.last() == s.last());
        assert(file_key(s, i) != file_key(s, s.len() - 1));
        assert(files_map(t) =~= files_map(s).insert(f.path@, f.data@));
    }
}

proof fn lemma_files_map_push(s: Seq<MemFile>, f: MemFile)
    ensures
        files_map(s.push(f)) =~= files_map(s).insert(f.path@, f.data@),
{
    assert(s.push(f).drop_last() =~= s);
    assert(s.push(f).last() == f);
}

proof fn lemma_files_map_remove(s: Seq<MemFile>, i: int)
    requires
        distinct_file_keys(s),
        0 <= i < s.len(),
    ensures
        files_map(s.remove(i)) =~= files_map(s).remove(s[i].path@),
    decreases s.len(),
{
    let t = s.remove(i);
    let p = s[i].path@;
    if i == s.len() - 1 {
        assert(t =~= s.drop_last());
        assert forall|k: int| 0 <= k < s.len() - 1 implies file_key(s.drop_last(), k) != p by {
            assert(s.drop_last()[k] == s[k]);
            assert(file_key(s, k) != file_key(s, s.len() - 1));
        }
        lemma_files_map_absent(s.drop_last(), p);
        assert(files_map(t) =~= files_map(s).remove(p));
    } else {
        assert forall|k1: int, k2: int| 0 <= k1 < k2 < s.len() - 1 implies file_key(
            s.drop_last(),
            k1,
        ) != file_key(s.drop_last(), k2) by {
            assert(s.drop_last()[k1] == s[k1]);
            assert(s.drop_last()[k2] == s[k2]);
            assert(file_key(s, k1) != file_key(s, k2));
        }
        lemma_files_map_remove(s.drop_last(), i);
        assert(t.drop_last() =~= s.drop_last().remove(i));
        assert(t.last() == s.last());
        assert(s.drop_last()[i] == s[i]);
        assert(file_key(s, i) != file_key(s, s.len() - 1));
        assert(files_map(t) =~= files_map(s).remove(p));
    }
}

proof fn lemma_dirs_set_absent(s: Seq<Vec<u8>>, p: Seq<u8>)
    requires
        forall|i: int| 0 <= i < s.len() ==> dir_key(s, i) != p,
    ensures
        !dirs_set(s).contains(p),
    decreases s.len(),
{
    if s.len() > 0 {
        assert(dir_key(s, s.len() - 1) != p);
        assert forall|i: int| 0 <= i < s.len() - 1 implies dir_key(s.drop_last(), i) != p by {
            assert(s.drop_last()[i] == s[i]);
            assert(dir_key(s, i) != p);
        }
        lemma_dirs_set_absent(s.drop_last(), p);
    }
}

proof fn lemma_dirs_set_at(s: Seq<Vec<u8>>, i: int)
    requires
        0 <= i < s.len(),
    ensures
        dirs_set(s).contains(s[i]@),
    decreases s.len(),
{
    if i < s.len() - 1 {
        lemma_dirs_set_at(s.drop_last(), i);
        assert(s.drop_last()[i] == s[i]);
    }
}

proof fn lemma_dirs_set_push(s: Seq<Vec<u8>>, p: Vec<u8>)
    ensures
        dirs_set(s.push(p)) =~= dirs_set(s).insert(p@),
{
    assert(s.push(p).drop_last() =~= s);
    assert(s.push(p).last() == p);
}

proof fn lemma_dirs_set_remove(s: Seq<Vec<u8>>, i: int)
    requires
        distinct_dir_keys(s),
        0 <= i < s.len(),
    ensures
        dirs_set(s.remove(i)) =~= dirs_set(s).remove(s[i]@),
    decreases s.len(),
{
    let t = s.remove(i);
    let p = s[i]@;
    if i == s.len() - 1 {
        assert(t =~= s.drop_last());
        assert forall|k: int| 0 <= k < s.len() - 1 implies dir_key(s.drop_last(), k) != p by {
            assert(s.drop_last()[k] == s[k]);
            assert(dir_key(s, k) != dir_key(s, s.len() - 1));
        }
        lemma_dirs_set_absent(s.drop_last(), p);
        assert(dirs_set(t) =~= dirs_set(s).remove(p));
    } else {
        assert forall|k1: int, k2: int| 0 <= k1 < k2 < s.len() - 1 implies dir_key(
            s.drop_last(),
            k1,
        ) != dir_key(s.drop_last(), k2) by {
            assert(s.drop_last()[k1] == s[k1]);
            assert(s.drop_last()[k2] == s[k2]);
            assert(dir_key(s, k1) != dir_key(s, k2));
        }
        lemma_dirs_set_remove(s.drop_last(), i);
        assert(t.drop_last() =~= s.drop_last().remove(i));
        assert(t.last() == s.last());
        assert(s.drop_last()[i] == s[i]);
        assert(dir_key(s, i) != dir_key(s, s.len() - 1));
        assert(dirs_set(t) =~= dirs_set(s).remove(p));
    }
}

/// Whether two byte vectors hold the same bytes.
pub fn bytes_eq(a: &Vec<u8>, b: &Vec<u8>) -> (r: bool)
    ensures
        r == (a@ == b@),
{
    if a.len() != b.len() {
        return false;
    }
    let mut i: usize = 0;
    while i < a.len()
        invariant
            i <= a.len(),
            a@.len() == b@.len(),
            forall|k: int| 0 <= k < i ==> a@[k] == b@[k],
        decreases a.len() - i,
    {
        if a[i] != b[i] {
            return false;
        }
        i += 1;
    }
    proof {
        assert(a@ =~= b@);
    }
    true
}

/// A fresh copy of a byte vector.
pub fn copy_bytes(v: &Vec<u8>) -> (r: Vec<u8>)
    ensures
        r@ == v@,
{
    vstd::slice::slice_to_vec(v.as_slice())
}

impl View for MemDevice {
    type V = DeviceView;

    closed spec fn view(&self) -> DeviceView {
        DeviceView { files: files_map(self.files@), dirs: dirs_set(self.dirs@) }
    }
}

impl MemDevice {
    /// The representation invariant: no path occurs twice in either table.
    pub closed spec fn wf(&self) -> bool {
        distinct_file_keys(self.files@) && distinct_dir_keys(self.dirs@)
    }

    /// A device holding no files and no directories.
    pub fn new() -> (d: MemDevice)
        ensures
            d.wf(),
            d@ == DeviceView::empty(),
    {
        let d = MemDevice { files: Vec::new(), dirs: Vec::new() };
        proof {
            assert(d@ =~= DeviceView::empty());
        }
        d
    }

    fn find_file(&self, path: &Vec<u8>) -> (r: Option<usize>)
        ensures
            match r {
                Some(i) => i < self.files@.len() && self.files@[i as int].path@ == path@,
                None => forall|i: int| 0 <= i < self.files@.len() ==> file_key(self.files@, i)
                    != path@,
            },
    {
        let mut i: usize = 0;
        while i < self.files.len()
            invariant
                i <= self.files@.len(),
                forall|k: int| 0 <= k < i ==> file_key(self.files@, k) != path@,
            decreases self.files@.len() - i,
        {
            if bytes_eq(&self.files[i].path, path) {
                return Some(i);
            }
            i += 1;
        }
        None
    }

    fn find_dir(&self, path: &Vec<u8>) -> (r: Option<usize>)
        ensures
            match r {
                Some(i) => i < self.dirs@.len() && self.dirs@[i as int]@ == path@,
                None => forall|i: int| 0 <= i < self.dirs@.len() ==> dir_key(self.dirs@, i)
                    != path@,
            },
    {
        let mut i: usize = 0;
        while i < self.dirs.len()
            invariant
                i <= self.dirs@.len(),
                forall|k: int| 0 <= k < i ==> dir_key(self.dirs@, k) != path@,
            decreases self.dirs@.len() - i,
        {
            if bytes_eq(&self.dirs[i], path) {
                return Some(i);
            }
            i += 1;
        }
        None
    }

    /// Run one operation against this device: the device call a worker makes
    /// once the mount and its permissions have been checked.
    pub fn perform(&mut self, op: Operation, path: &Vec<u8>, input: &Vec<u8>) -> (r: (
        ResultCode,
        Option<Vec<u8>>,
    ))
        requires
            old(self).wf(),
        ensures
            final(self).wf(),
            ({
                let o = spec_perform(old(self)@, op, path@, input@);
                &&& final(self)@ == o.device
                &&& r.0 == o.result
                &&& (match r.1 {
                    Some(v) => o.output == Some(v@),
                    None => o.output is None,
                })
            }),
    {
        match op {
            Operation::ReadFile { null_terminate } => {
                match self.find_file(path) {
                    Some(i) => {
                        proof {
                            lemma_files_map_at(self.files@, i as int);
                        }
                        let out = build_read(
                            &self.files[i].data,
                            0,
                            self.files[i].data.len() as u64,
                            null_terminate,
                        );
                        (ResultCode::Okay, Some(out))
                    },
                    None => {
                        proof {
                            lemma_files_map_absent(self.files@, path@);
                        }
                        (ResultCode::NotFound, None)
                    },
                }
            },
            Operation::ReadFileSegment { offset, max_bytes, null_terminate } => {
                match self.find_file(path) {
                    Some(i) => {
                        proof {
                            lemma_files_map_at(self.files@, i as int);
                        }
                        let out = build_read(&self.files[i].data, offset, max_bytes, null_terminate);
                        (ResultCode::Okay, Some(out))
                    },
                    None => {
                        proof {
                            lemma_files_map_absent(self.files@, path@);
                        }
                        (ResultCode::NotFound, None)
                    },
                }
            },
            Operation::WriteFile => {
                let new_data = copy_bytes(input);
                self.store_file(path, new_data);
                (ResultCode::Okay, None)
            },
            Operation::WriteFileSegment { offset } => {
                let fits: bool = offset <= usize::MAX as u64 && (offset as usize) <= usize::MAX
                    - input.len();
                if !fits {
                    (ResultCode::OutOfSpace, None)
                } else {
                    let off = offset as usize;
                    match self.find_file(path) {
                        Some(i) => {
                            proof {
                                lemma_files_map_at(self.files@, i as int);
                            }
                            let new_data = build_segment(&self.files[i].data, off, input);
                            self.store_file(path, new_data);
                            (ResultCode::Okay, None)
                        },
                        None => {
                            proof {
                                lemma_files_map_absent(self.files@, path@);
                            }
                            let empty_data: Vec<u8> = Vec::new();
                            let new_data = build_segment(&empty_data, off, input);
                            self.store_file(path, new_data);
                            (ResultCode::Okay, None)
                        },
                    }
                }
            },
            Operation::AppendFile => {
                match self.find_file(path) {
                    Some(i) => {
                        proof {
                            lemma_files_map_at(self.files@, i as int);
                        }
                        if input.len() > usize::MAX - self.files[i].data.len() {
                            (ResultCode::OutOfSpace, None)
                        } else {
                            let new_data = build_append(&self.files[i].data, input);
                            self.store_file(path, new_data);
                            (ResultCode::Okay, None)
                        }
                    },
                    None => {
                        proof {
                            lemma_files_map_absent(self.files@, path@);
                            vstd::std_specs::vec::axiom_spec_len(input);
                        }
                        let new_data = copy_bytes(input);
                        proof {
                            assert(new_data@ =~= Seq::<u8>::empty() + input@);
                        }
                        self.store_file(path, new_data);
                        (ResultCode::Okay, None)
                    },
                }
            },
            Operation::CreateDir => {
                match self.find_dir(path) {
                    Some(i) => {
                        proof {
                            lemma_dirs_set_at(self.dirs@, i as int);
                        }
                        (ResultCode::AlreadyExists, None)
                    },
                    None => {
                        match self.find_file(path) {
                            Some(j) => {
                                proof {
                                    lemma_files_map_at(self.files@, j as int);
                                }
                                (ResultCode::AlreadyExists, None)
                            },
                            None => {
                                proof {
                                    lemma_dirs_set_absent(self.dirs@, path@);
                                    lemma_files_map_absent(self.files@, path@);
                                }
                                let ghost dirs0 = self.dirs@;
                                let entry = copy_bytes(path);
                                let ghost g = entry;
                                self.dirs.push(entry);
                                proof {
                                    lemma_dirs_set_push(dirs0, g);
                                    assert forall|k1: int, k2: int|
                                        0 <= k1 < k2 < self.dirs@.len() implies dir_key(
                                        self.dirs@,
                                        k1,
                                    ) != dir_key(self.dirs@, k2) by {
                                        if k2 == dirs0.len() as int {
                                            assert(dir_key(self.dirs@, k2) == path@);
                                            assert(dir_key(self.dirs@, k1) == dir_key(dirs0, k1));
                                        } else {
                                            assert(dir_key(self.dirs@, k1) == dir_key(dirs0, k1));
                                            assert(dir_key(self.dirs@, k2) == dir_key(dirs0, k2));
                                        }
                                    }
                                }
                                (ResultCode::Okay, None)
                            },
                        }
                    },
                }
            },
            Operation::DeleteDir => {
                match self.find_dir(path) {
                    Some(i) => {
                        proof {
                            lemma_dirs_set_at(self.dirs@, i as int);
                            lemma_dirs_set_remove(self.dirs@, i as int);
                        }
                        let ghost dirs0 = self.dirs@;
                        self.dirs.remove(i);
                        proof {
                            assert forall|k1: int, k2: int|
                                0 <= k1 < k2 < self.dirs@.len() implies dir_key(self.dirs@, k1)
                                != dir_key(self.dirs@, k2) by {
                                let m1: int = if k1 < i as int {
                                    k1
                                } else {
                                    k1 + 1
                                };
                                let m2: int = if k2 < i as int {
                                    k2
                                } else {
                                    k2 + 1
                                };
                                assert(self.dirs@[k1] == dirs0[m1]);
                                assert(self.dirs@[k2] == dirs0[m2]);
                                assert(dir_key(dirs0, m1) != dir_key(dirs0, m2));
                            }
                        }
                        (ResultCode::Okay, None)
                    },
                    None => {
                        proof {
                            lemma_dirs_set_absent(self.dirs@, path@);
                        }
                        (ResultCode::NotFound, None)
                    },
                }
            },
            Operation::DeleteFile => {
                match self.find_file(path) {
                    Some(i) => {
                        proof {
                            lemma_files_map_at(self.files@, i as int);
                            lemma_files_map_remove(self.files@, i as int);
                        }
                        let ghost files0 = self.files@;
                        self.files.remove(i);
                        proof {
                            assert forall|k1: int, k2: int|
                                0 <= k1 < k2 < self.files@.len() implies file_key(self.files@, k1)
                                != file_key(self.files@, k2) by {
                                let m1: int = if k1 < i as int {
                                    k1
                                } else {
                                    k1 + 1
                                };
                                let m2: int = if k2 < i as int {
                                    k2
                                } else {
                                    k2 + 1
                                };
                                assert(self.files@[k1] == files0[m1]);
                                assert(self.files@[k2] == files0[m2]);
                                assert(file_key(files0, m1) != file_key(files0, m2));
                            }
                        }
                        (ResultCode::Okay, None)
                    },
                    None => {
                        proof {
                            lemma_files_map_absent(self.files@, path@);
                        }
                        (ResultCode::NotFound, None)
                    },
                }
            },
            Operation::FileExists => {
                let mut out: Vec<u8> = Vec::new();
                match self.find_file(path) {
                    Some(i) => {
                        proof {
                            lemma_files_map_at(self.files@, i as int);
                        }
                        out.push(1u8);
                        proof {
                            assert(out@ =~= seq![1u8]);
                        }
                    },
                    None => {
                        proof {
                            lemma_files_map_absent(self.files@, path@);
                        }
                        out.push(0u8);
                        proof {
                            assert(out@ =~= seq![0u8]);
                        }
                    },
                }
                (ResultCode::Okay, Some(out))
            },
        }
    }

    /// Put `data` at `path`, replacing any file already there.
    fn store_file(&mut self, path: &Vec<u8>, data: Vec<u8>)
        requires
            old(self).wf(),
        ensures
            final(self).wf(),
            final(self)@.files == old(self)@.files.insert(path@, data@),
            final(self)@.dirs == old(self)@.dirs,
    {
        let ghost files0 = self.files@;
        match self.find_file(path) {
            Some(i) => {
                let entry = MemFile { path: copy_bytes(path), data };
                let ghost g = entry;
                self.files.set(i, entry);
                proof {
                    lemma_files_map_update(files0, i as int, g);
                    assert forall|k1: int, k2: int|
                        0 <= k1 < k2 < self.files@.len() implies file_key(self.files@, k1)
                        != file_key(self.files@, k2) by {
                        assert(file_key(self.files@, k1) == file_key(files0, k1));
                        assert(file_key(self.files@, k2) == file_key(files0, k2));
                    }
                    assert(self@.files =~= old(self)@.files.insert(path@, g.data@));
                }
            },
            None => {
                let entry = MemFile { path: copy_bytes(path), data };
                let ghost g = entry;
                self.files.push(entry);
                proof {
                    lemma_files_map_push(files0, g);
                    assert forall|k1: int, k2: int|
                        0 <= k1 < k2 < self.files@.len() implies file_key(self.files@, k1)
                        != file_key(self.files@, k2) by {
                        if k2 == files0.len() as int {
                            assert(file_key(self.files@, k2) == path@);
                            assert(file_key(self.files@, k1) == file_key(files0, k1));
                        } else {
                            assert(file_key(self.files@, k1) == file_key(files0, k1));
                            assert(file_key(self.files@, k2) == file_key(files0, k2));
                        }
                    }
                    assert(self@.files =~= old(self)@.files.insert(path@, g.data@));
                }
            },
        }
    }
}

/// The bytes a read returns, built as [`read_slice`] describes.
fn build_read(data: &Vec<u8>, offset: u64, max_bytes: u64, null_terminate: bool) -> (out: Vec<u8>)
    ensures
        out@ == read_slice(data@, offset as int, max_bytes as int, null_terminate),
{
    let len = data.len();
    let begin: usize = if offset <= len as u64 {
        offset as usize
    } else {
        len
    };
    let avail = len - begin;
    let count: usize = if max_bytes <= avail as u64 {
        max_bytes as usize
    } else {
        avail
    };
    let mut out: Vec<u8> = Vec::new();
    let mut i: usize = 0;
    while i < count
        invariant
            i <= count,
            begin + count <= data@.len(),
            data@.len() <= usize::MAX,
            out@ =~= data@.subrange(begin as int, begin + i),
        decreases count - i,
    {
        out.push(data[begin + i]);
        i += 1;
    }
    if null_terminate {
        out.push(0u8);
    }
    proof {
        assert(out@ =~= read_slice(data@, offset as int, max_bytes as int, null_terminate));
    }
    out
}

/// A file's contents after an offset write, built as [`segment_written`]
/// describes.
fn build_segment(old_data: &Vec<u8>, offset: usize, input: &Vec<u8>) -> (out: Vec<u8>)
    ensures
        out@ == segment_written(old_data@, offset as int, input@),
{
    let head_len: usize = if offset <= old_data.len() {
        offset
    } else {
        old_data.len()
    };
    let ghost head: Seq<u8> = if offset <= old_data@.len() {
        old_data@.subrange(0, offset as int)
    } else {
        old_data@ + zero_bytes(offset - old_data@.len())
    };
    let mut out: Vec<u8> = Vec::new();
    let mut i: usize = 0;
    while i < head_len
        invariant
            i <= head_len,
            head_len <= old_data@.len(),
            out@ =~= old_data@.subrange(0, i as int),
        decreases head_len - i,
    {
        out.push(old_data[i]);
        i += 1;
    }
    while i < offset
        invariant
            head_len <= i <= offset,
            head_len as int == if offset <= old_data@.len() {
                offset as int
            } else {
                old_data@.len() as int
            },
            out@ =~= old_data@.subrange(0, head_len as int) + zero_bytes(i - head_len),
        decreases offset - i,
    {
        out.push(0u8);
        i += 1;
    }
    proof {
        assert(out@ =~= head);
    }
    let mut j: usize = 0;
    while j < input.len()
        invariant
            j <= input@.len(),
            out@ =~= head + input@.subrange(0, j as int),
        decreases input@.len() - j,
    {
        out.push(input[j]);
        j += 1;
    }
    proof {
        assert(out@ =~= head + input@);
    }
    // Old bytes beyond the written range survive; the tail is empty whenever
    // the written range reaches the old end of the file.
    if input.len() <= usize::MAX - offset && offset + input.len() < old_data.len() {
        let start: usize = offset + input.len();
        let mut k: usize = start;
        while k < old_data.len()
            invariant
                start <= k <= old_data@.len(),
                out@ =~= head + input@ + old_data@.subrange(start as int, k as int),
            decreases old_data@.len() - k,
        {
            out.push(old_data[k]);
            k += 1;
        }
    }
    proof {
        assert(out@ =~= segment_written(old_data@, offset as int, input@));
    }
    out
}

/// The concatenation of a file's contents and an appended buffer.
fn build_append(old_data: &Vec<u8>, input: &Vec<u8>) -> (out: Vec<u8>)
    requires
        old_data@.len() + input@.len() <= usize::MAX,
    ensures
        out@ == old_data@ + input@,
{
    let mut out = copy_bytes(old_data);
    let mut j: usize = 0;
    while j < input.len()
        invariant
            j <= input@.len(),
            out@ =~= old_data@ + input@.subrange(0, j as int),
        decreases input@.len() - j,
    {
        out.push(input[j]);
        j += 1;
    }
    proof {
        assert(out@ =~= old_data@ + input@);
    }
    out
}

} // verus!

