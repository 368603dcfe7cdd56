//! The context: the process-facing façade that owns the device registry, the
//! mount table, the work-item pool and the pending queue.
//!
//! A context is driven explicitly: [`LaminaFS::process_next`] is one worker
//! turn on the queue head, and the wait operations drive the queue until
//! their item is complete. A threaded host wraps the context in a lock, runs
//! `process_next` on its worker threads, and parks a submitter whenever
//! `submit` reports exhaustion, retrying once a slot is released.

use vstd::prelude::*;
use vstd::string::StrSliceExecFns;
use vstd::string::StringSliceAdditionalSpecFns;

use crate::device::{capability_of, copy_bytes, DeviceInterface, DeviceView, MemDevice};
use crate::engine::{
    can_submit, context_wf, first_free_upto, free_slot, item_complete, item_live, item_pending,
    engine_outcome, lemma_context_wf_congruence, lemma_free_slot_properties, lemma_release_wf,
    lemma_run_until_properties, lemma_step_completes_head_only, lemma_submit_wf, released,
    run_until, step, submit_slot, submitted, ContextView,
};
use crate::mount::{
    lemma_resolve_mount_properties, mounts_view, resolve_index, strip_prefix, Mount, MountEntry,
    MountView,
};
use crate::permissions::{MountPermissions, PERMISSION_DEFAULT};
use crate::result_code::ResultCode;
use crate::work::{required_permissions_of, slots_view, Operation, Slot, SlotState};

verus! {

/// Queue bound used when a context is created without explicit capacities.
pub const DEFAULT_QUEUE_CAPACITY: u64 = 64;

/// Pool bound used when a context is created without explicit capacities.
pub const DEFAULT_POOL_CAPACITY: u64 = 64;

/// The device-type identifier the built-in memory device is registered under
/// when a context is created.
pub const MEMORY_DEVICE_TYPE: u32 = 0;

/// The abstract state a fresh context starts in: one registered device type
/// — the built-in memory device, with every capability — and no mounts, no
/// slots, no queued work.
pub open spec fn initial_context(queue_capacity: u64, pool_capacity: u64) -> ContextView {
    ContextView {
        registry: seq![
            DeviceInterface {
                device_type: MEMORY_DEVICE_TYPE,
                supports_write_file: true,
                supports_delete_file: true,
                supports_create_dir: true,
                supports_delete_dir: true,
            },
        ],
        mounts: Seq::empty(),
        slots: Seq::empty(),
        queue: Seq::empty(),
        queue_capacity,
        pool_capacity,
    }
}

/// The first interface with the given identifier among the first `n`
/// registered.
pub open spec fn find_interface_upto(
    registry: Seq<DeviceInterface>,
    device_type: u32,
    n: int,
) -> Option<DeviceInterface>
    decreases n,
{
    if n <= 0 {
        None
    } else {
        match find_interface_upto(registry, device_type, n - 1) {
            Some(x) => Some(x),
            None => if registry[n - 1].device_type == device_type {
                Some(registry[n - 1])
            } else {
                None
            },
        }
    }
}

/// The first registered device interface with the given identifier.
pub open spec fn find_interface(
    registry: Seq<DeviceInterface>,
    device_type: u32,
) -> Option<DeviceInterface> {
    find_interface_upto(registry, device_type, registry.len() as int)
}

/// The engine context: owns the registry, the mount table, the work-item
/// pool and the FIFO queue of pending items.
pub struct LaminaFS {
    registry: Vec<DeviceInterface>,
    mounts: Vec<Option<MountEntry>>,
    slots: Vec<Option<Slot>>,
    queue: Vec<usize>,
    queue_capacity: u64,
    pool_capacity: u64,
}

impl View for LaminaFS {
    type V = ContextView;

    closed spec fn view(&self) -> ContextView {
        ContextView {
            registry: self.registry@,
            mounts: mounts_view(self.mounts@),
            slots: slots_view(self.slots@),
            queue: self.queue@.map(|i: int, v: usize| v as int),
            queue_capacity: self.queue_capacity,
            pool_capacity: self.pool_capacity,
        }
    }
}

impl LaminaFS {
    /// The representation invariant: the abstract state is well formed and
    /// every live mount's device is.
    pub closed spec fn wf(&self) -> bool {
        &&& context_wf(self@)
        &&& forall|i: int|
            0 <= i < self.mounts@.len() && (#[trigger] self.mounts@[i]) is Some
                ==> self.mounts@[i].unwrap().wf()
    }

    /// A fresh context with the default capacities.
    pub fn new() -> (fs: LaminaFS)
        ensures
            fs.wf(),
            fs@ == initial_context(DEFAULT_QUEUE_CAPACITY, DEFAULT_POOL_CAPACITY),
    {
        LaminaFS::new_with_capacity(DEFAULT_QUEUE_CAPACITY, DEFAULT_POOL_CAPACITY)
    }

    /// A fresh context bounding the queue and the work-item pool as given.
    pub fn new_with_capacity(work_item_queue_size: u64, work_item_pool_size: u64) -> (fs: LaminaFS)
        ensures
            fs.wf(),
            fs@ == initial_context(work_item_queue_size, work_item_pool_size),
    {
        let mut registry: Vec<DeviceInterface> = Vec::new();
        registry.push(DeviceInterface::with_all_capabilities(MEMORY_DEVICE_TYPE));
        let fs = LaminaFS {
            registry,
            mounts: Vec::new(),
            slots: Vec::new(),
            queue: Vec::new(),
            queue_capacity: work_item_queue_size,
            pool_capacity: work_item_pool_size,
        };
        proof {
            let init = initial_context(work_item_queue_size, work_item_pool_size);
            assert(fs@.registry =~= init.registry);
            assert(fs@.mounts =~= init.mounts);
            assert(fs@.slots =~= init.slots);
            assert(fs@.queue =~= init.queue);
            assert(fs@ =~= init);
        }
        fs
    }

    /// Register one more device type; later mounts may name its identifier.
    /// The first registration wins when two share an identifier.
    pub fn register_device_interface(&mut self, interface: DeviceInterface)
        requires
            old(self).wf(),
        ensures
            final(self).wf(),
            final(self)@ == (ContextView { registry: old(self)@.registry.push(interface), ..old(self)@ }),
    {
        self.registry.push(interface);
        proof {
            assert(self@ =~= (ContextView {
                registry: old(self)@.registry.push(interface),
                ..old(self)@
            }));
            lemma_context_wf_congruence(old(self)@, self@);
        }
    }

    fn lookup_interface(&self, device_type: u32) -> (r: Option<DeviceInterface>)
        ensures
            r == find_interface(self.registry@, device_type),
    {
        let mut found: Option<DeviceInterface> = None;
        let mut i: usize = 0;
        while i < self.registry.len()
            invariant
                i <= self.registry@.len(),
                found == find_interface_upto(self.registry@, device_type, i as int),
            decreases self.registry@.len() - i,
        {
            if found.is_none() && self.registry[i].device_type == device_type {
                found = Some(self.registry[i]);
            }
            i += 1;
        }
        found
    }

    /// Bind a path prefix to a fresh device instance of the given type,
    /// gated by the given permission mask. Returns the mount handle, or
    /// `InvalidDevice` — synchronously — when no such device type is
    /// registered.
    pub fn create_mount_with_permissions(
        &mut self,
        device_type: u32,
        mount_point: &str,
        _device_path: &str,
        permissions: MountPermissions,
    ) -> (r: Result<Mount, ResultCode>)
        requires
            old(self).wf(),
        ensures
            final(self).wf(),
            match r {
                Ok(m) => {
                    &&& find_interface(old(self)@.registry, device_type) is Some
                    &&& m.id() == old(self)@.mounts.len()
                    &&& final(self)@ == (ContextView {
                        mounts: old(self)@.mounts.push(
                            Some(
                                MountView {
                                    prefix: mount_point.spec_bytes(),
                                    permissions: permissions.bits,
                                    interface: find_interface(
                                        old(self)@.registry,
                                        device_type,
                                    ).unwrap(),
                                    device: DeviceView::empty(),
                                },
                            ),
                        ),
                        ..old(self)@
                    })
                },
                Err(code) => {
                    &&& code == ResultCode::InvalidDevice
                    &&& find_interface(old(self)@.registry, device_type) is None
                    &&& final(self)@ == old(self)@
                },
            },
    {
        match self.lookup_interface(device_type) {
            None => Err(ResultCode::InvalidDevice),
            Some(interface) => {
                let index = self.mounts.len();
                let entry = MountEntry {
                    mount_point: mount_point.as_bytes_vec(),
                    permissions,
                    interface,
                    device: MemDevice::new(),
                };
                let ghost g = entry;
                self.mounts.push(Some(entry));
                proof {
                    assert(g@ == (MountView {
                        prefix: mount_point.spec_bytes(),
                        permissions: permissions.bits,
                        interface: find_interface(old(self)@.registry, device_type).unwrap(),
                        device: DeviceView::empty(),
                    }));
                    assert(mounts_view(self.mounts@) =~= mounts_view(old(self).mounts@).push(
                        Some(g@),
                    ));
                    assert(self@ =~= (ContextView {
                        mounts: old(self)@.mounts.push(Some(g@)),
                        ..old(self)@
                    }));
                    lemma_context_wf_congruence(old(self)@, self@);
                    assert forall|i: int|
                        0 <= i < self.mounts@.len() && (#[trigger] self.mounts@[i]) is Some
                        implies self.mounts@[i].unwrap().wf() by {
                        if i < old(self).mounts@.len() {
                            assert(self.mounts@[i] == old(self).mounts@[i]);
                        }
                    }
                }
                Ok(Mount::from_index(index))
            },
        }
    }

    /// Bind a path prefix with the default permission mask.
    pub fn create_mount(&mut self, device_type: u32, mount_point: &str, device_path: &str) -> (r:
        Result<Mount, ResultCode>)
        requires
            old(self).wf(),
        ensures
            final(self).wf(),
            match r {
                Ok(m) => {
                    &&& find_interface(old(self)@.registry, device_type) is Some
                    &&& m.id() == old(self)@.mounts.len()
                    &&& final(self)@ == (ContextView {
                        mounts: old(self)@.mounts.push(
                            Some(
                                MountView {
                                    prefix: mount_point.spec_bytes(),
                                    permissions: PERMISSION_DEFAULT,
                                    interface: find_interface(
                                        old(self)@.registry,
                                        device_type,
                                    ).unwrap(),
                                    device: DeviceView::empty(),
                                },
                            ),
                        ),
                        ..old(self)@
                    })
                },
                Err(code) => {
                    &&& code == ResultCode::InvalidDevice
                    &&& find_interface(old(self)@.registry, device_type) is None
                    &&& final(self)@ == old(self)@
                },
            },
    {
        self.create_mount_with_permissions(
            device_type,
            mount_point,
            device_path,
            MountPermissions::default(),
        )
    }

    /// Remove a mount from the table, destroying its device. Operations
    /// already queued against it resolve as if it never existed.
    pub fn release_mount(&mut self, mount: Mount)
        requires
            old(self).wf(),
            0 <= mount.id() < old(self)@.mounts.len(),
            old(self)@.mounts[mount.id()] is Some,
        ensures
            final(self).wf(),
            final(self)@ == (ContextView {
                mounts: old(self)@.mounts.update(mount.id(), None),
                ..old(self)@
            }),
    {
        let i = mount.table_index();
        self.mounts.set(i, None);
        proof {
            assert(mounts_view(self.mounts@) =~= mounts_view(old(self).mounts@).update(
                mount.id(),
                None,
            ));
            assert(self@ =~= (ContextView {
                mounts: old(self)@.mounts.update(mount.id(), None),
                ..old(self)@
            }));
            lemma_context_wf_congruence(old(self)@, self@);
            assert forall|j: int|
                0 <= j < self.mounts@.len() && (#[trigger] self.mounts@[j]) is Some
                implies self.mounts@[j].unwrap().wf() by {
                assert(self.mounts@[j] == old(self).mounts@[j]);
            }
        }
    }

    fn find_free_slot(&self) -> (r: Option<usize>)
        ensures
            match r {
                Some(i) => free_slot(self@) == Some(i as int),
                None => free_slot(self@) is None,
            },
    {
        let ghost sv = slots_view(self.slots@);
        let mut found: Option<usize> = None;
        let mut i: usize = 0;
        while i < self.slots.len()
            invariant
                i <= self.slots@.len(),
                sv == slots_view(self.slots@),
                match found {
                    Some(f) => f < i && first_free_upto(sv, i as int) == Some(f as int),
                    None => first_free_upto(sv, i as int) is None,
                },
            decreases self.slots@.len() - i,
        {
            if found.is_none() {
                match &self.slots[i] {
                    None => {
                        proof {
                            assert(sv[i as int] is None);
                        }
                        found = Some(i);
                    },
                    Some(_) => {
                        proof {
                            assert(sv[i as int] is Some);
                        }
                    },
                }
            }
            i += 1;
        }
        found
    }

    /// Allocate a slot, record the request and append it to the queue.
    /// Returns `None` — leaving the context untouched — exactly when the
    /// pool and queue bounds forbid another item; a threaded host then
    /// blocks the submitter and retries after a release.
    fn submit(&mut self, op: Operation, path: &str, input: Vec<u8>) -> (r: Option<WorkItem>)
        requires
            old(self).wf(),
        ensures
            final(self).wf(),
            r is Some <==> can_submit(old(self)@),
            r is Some ==> final(self)@ == submitted(old(self)@, op, path.spec_bytes(), input@)
                && r.unwrap().id() == submit_slot(old(self)@) && item_pending(
                final(self)@,
                r.unwrap().id(),
            ),
            r is None ==> final(self)@ == old(self)@,
    {
        if (self.queue.len() as u64) >= self.queue_capacity {
            return None;
        }
        let free = self.find_free_slot();
        if free.is_none() && (self.slots.len() as u64) >= self.pool_capacity {
            return None;
        }
        let slot_index: usize = match free {
            Some(i) => i,
            None => self.slots.len(),
        };
        let ghost gin = input@;
        let new_slot = Slot {
            op,
            path: path.as_bytes_vec(),
            input,
            complete: false,
            result: ResultCode::GenericError,
            output: None,
        };
        let ghost g = new_slot;
        proof {
            lemma_free_slot_properties(old(self)@);
        }
        match free {
            Some(i) => self.slots.set(i, Some(new_slot)),
            None => self.slots.push(Some(new_slot)),
        };
        self.queue.push(slot_index);
        proof {
            assert(g@ == (SlotState {
                op,
                path: path.spec_bytes(),
                input: gin,
                complete: false,
                result: ResultCode::GenericError,
                output: None,
            }));
            assert(slot_index as int == submit_slot(old(self)@));
            if free_slot(old(self)@) is Some {
                assert(slots_view(self.slots@) =~= old(self)@.slots.update(
                    slot_index as int,
                    Some(g@),
                ));
            } else {
                assert(slots_view(self.slots@) =~= old(self)@.slots.push(Some(g@)));
            }
            assert(self@.queue =~= old(self)@.queue.push(slot_index as int));
            assert(self@ =~= submitted(old(self)@, op, path.spec_bytes(), gin));
            lemma_submit_wf(old(self)@, op, path.spec_bytes(), gin);
            assert forall|j: int|
                0 <= j < self.mounts@.len() && (#[trigger] self.mounts@[j]) is Some
                implies self.mounts@[j].unwrap().wf() by {
                assert(self.mounts@[j] == old(self).mounts@[j]);
            }
        }
        Some(WorkItem { slot: slot_index })
    }

    /// One worker turn: dequeue the oldest pending item, resolve its path to
    /// the most specific mount, check the permission mask, check the device
    /// capability, run the device operation, and store the result and output
    /// into the item, marking it complete. Returns whether an item was
    /// pending at all.
    #[verifier::rlimit(50)]
    pub fn process_next(&mut self) -> (processed: bool)
        requires
            old(self).wf(),
        ensures
            final(self).wf(),
            processed == (old(self)@.queue.len() > 0),
            processed ==> final(self)@ == step(old(self)@),
            !processed ==> final(self)@ == old(self)@,
    {
        if self.queue.len() == 0 {
            return false;
        }
        let h = self.queue.remove(0);
        proof {
            assert(old(self)@.queue[0] == h as int);
            assert(item_pending(old(self)@, h as int));
            assert(self@.queue =~= old(self)@.queue.subrange(1, old(self)@.queue.len() as int));
        }
        let op: Operation;
        let path: Vec<u8>;
        let input: Vec<u8>;
        match &self.slots[h] {
            Some(s) => {
                op = s.op;
                path = copy_bytes(&s.path);
                input = copy_bytes(&s.input);
            },
            None => {
                // The queue holds only live pending slots.
                proof {
                    assert(false);
                }
                return false;
            },
        }
        let ghost slot0 = old(self)@.slots[h as int].unwrap();
        let ghost eo = engine_outcome(old(self)@.mounts, slot0.path, slot0.op, slot0.input);
        let rc: ResultCode;
        let out: Option<Vec<u8>>;
        let resolved = resolve_index(&self.mounts, &path);
        proof {
            lemma_resolve_mount_properties(old(self)@.mounts, slot0.path);
        }
        match resolved {
            None => {
                rc = ResultCode::NotFound;
                out = None;
            },
            Some(mi) => {
                let mut taken: Option<MountEntry> = None;
                self.mounts.set_and_swap(mi, &mut taken);
                match taken {
                    None => {
                        // Resolution picked a live mount.
                        proof {
                            assert(false);
                        }
                        return false;
                    },
                    Some(mut entry) => {
                        let required = MountPermissions::from_bits(required_permissions_of(op));
                        if !entry.permissions.contains(required) {
                            rc = ResultCode::PermissionsError;
                            out = None;
                        } else if !capability_of(entry.interface, op) {
                            rc = ResultCode::Unsupported;
                            out = None;
                        } else {
                            let plen = entry.mount_point.len();
                            let rel = strip_prefix(&path, plen);
                            let result = entry.device.perform(op, &rel, &input);
                            rc = result.0;
                            out = result.1;
                        }
                        let mut back: Option<MountEntry> = Some(entry);
                        self.mounts.set_and_swap(mi, &mut back);
                        proof {
                            assert(mounts_view(self.mounts@) =~= eo.mounts);
                        }
                    },
                }
            },
        }
        self.slots.set(h, Some(Slot { op, path, input, complete: true, result: rc, output: out }));
        proof {
            assert(slots_view(self.slots@) =~= step(old(self)@).slots);
            assert(self@ =~= step(old(self)@));
            lemma_step_completes_head_only(old(self)@);
            assert forall|j: int|
                0 <= j < self.mounts@.len() && (#[trigger] self.mounts@[j]) is Some
                implies self.mounts@[j].unwrap().wf() by {}
        }
        true
    }

    /// Submit a whole-file read; the output buffer holds the file's bytes,
    /// with one zero byte appended when `null_terminate` is set.
    pub fn read_file(&mut self, path: &str, null_terminate: bool) -> (r: Option<WorkItem>)
        requires
            old(self).wf(),
        ensures
            final(self).wf(),
            r is Some <==> can_submit(old(self)@),
            r is Some ==> final(self)@ == submitted(
                old(self)@,
                Operation::ReadFile { null_terminate },
                path.spec_bytes(),
                Seq::empty(),
            ) && r.unwrap().id() == submit_slot(old(self)@),
            r is None ==> final(self)@ == old(self)@,
    {
        self.submit(Operation::ReadFile { null_terminate }, path, Vec::new())
    }

    /// Submit a segment read of at most `max_bytes` bytes from `offset`.
    pub fn read_file_segment(
        &mut self,
        path: &str,
        offset: u64,
        max_bytes: u64,
        null_terminate: bool,
    ) -> (r: Option<WorkItem>)
        requires
            old(self).wf(),
        ensures
            final(self).wf(),
            r is Some <==> can_submit(old(self)@),
            r is Some ==> final(self)@ == submitted(
                old(self)@,
                Operation::ReadFileSegment { offset, max_bytes, null_terminate },
                path.spec_bytes(),
                Seq::empty(),
            ) && r.unwrap().id() == submit_slot(old(self)@),
            r is None ==> final(self)@ == old(self)@,
    {
        self.submit(
            Operation::ReadFileSegment { offset, max_bytes, null_terminate },
            path,
            Vec::new(),
        )
    }

    /// Submit a whole-file write: truncate and replace, creating the file
    /// when missing.
    pub fn write_file(&mut self, path: &str, buffer: Vec<u8>) -> (r: Option<WorkItem>)
        requires
            old(self).wf(),
        ensures
            final(self).wf(),
            r is Some <==> can_submit(old(self)@),
            r is Some ==> final(self)@ == submitted(
                old(self)@,
                Operation::WriteFile,
                path.spec_bytes(),
                buffer@,
            ) && r.unwrap().id() == submit_slot(old(self)@),
            r is None ==> final(self)@ == old(self)@,
    {
        self.submit(Operation::WriteFile, path, buffer)
    }

    /// Submit an offset write; the file may grow, and a gap past its old end
    /// is zero-filled.
    pub fn write_file_segment(&mut self, path: &str, offset: u64, buffer: Vec<u8>) -> (r: Option<
        WorkItem,
    >)
        requires
            old(self).wf(),
        ensures
            final(self).wf(),
            r is Some <==> can_submit(old(self)@),
            r is Some ==> final(self)@ == submitted(
                old(self)@,
                Operation::WriteFileSegment { offset },
                path.spec_bytes(),
                buffer@,
            ) && r.unwrap().id() == submit_slot(old(self)@),
            r is None ==> final(self)@ == old(self)@,
    {
        self.submit(Operation::WriteFileSegment { offset }, path, buffer)
    }

    /// Submit an append, creating the file when missing.
    pub fn append_file(&mut self, path: &str, buffer: Vec<u8>) -> (r: Option<WorkItem>)
        requires
            old(self).wf(),
        ensures
            final(self).wf(),
            r is Some <==> can_submit(old(self)@),
            r is Some ==> final(self)@ == submitted(
                old(self)@,
                Operation::AppendFile,
                path.spec_bytes(),
                buffer@,
            ) && r.unwrap().id() == submit_slot(old(self)@),
            r is None ==> final(self)@ == old(self)@,
    {
        self.submit(Operation::AppendFile, path, buffer)
    }

    /// Submit a directory creation.
    pub fn create_dir(&mut self, path: &str) -> (r: Option<WorkItem>)
        requires
            old(self).wf(),
        ensures
            final(self).wf(),
            r is Some <==> can_submit(old(self)@),
            r is Some ==> final(self)@ == submitted(
                old(self)@,
                Operation::CreateDir,
                path.spec_bytes(),
                Seq::empty(),
            ) && r.unwrap().id() == submit_slot(old(self)@),
            r is None ==> final(self)@ == old(self)@,
    {
        self.submit(Operation::CreateDir, path, Vec::new())
    }

    /// Submit a directory deletion.
    pub fn delete_dir(&mut self, path: &str) -> (r: Option<WorkItem>)
        requires
            old(self).wf(),
        ensures
            final(self).wf(),
            r is Some <==> can_submit(old(self)@),
            r is Some ==> final(self)@ == submitted(
                old(self)@,
                Operation::DeleteDir,
                path.spec_bytes(),
                Seq::empty(),
            ) && r.unwrap().id() == submit_slot(old(self)@),
            r is None ==> final(self)@ == old(self)@,
    {
        self.submit(Operation::DeleteDir, path, Vec::new())
    }

    /// Submit a file deletion.
    pub fn delete_file(&mut self, path: &str) -> (r: Option<WorkItem>)
        requires
            old(self).wf(),
        ensures
            final(self).wf(),
            r is Some <==> can_submit(old(self)@),
            r is Some ==> final(self)@ == submitted(
                old(self)@,
                Operation::DeleteFile,
                path.spec_bytes(),
                Seq::empty(),
            ) && r.unwrap().id() == submit_slot(old(self)@),
            r is None ==> final(self)@ == old(self)@,
    {
        self.submit(Operation::DeleteFile, path, Vec::new())
    }

    /// Submit an existence check; the completed item's one-byte output holds
    /// one when the file exists and zero when it does not, and its result
    /// code is `Okay` either way.
    pub fn file_exists(&mut self, path: &str) -> (r: Option<WorkItem>)
        requires
            old(self).wf(),
        ensures
            final(self).wf(),
            r is Some <==> can_submit(old(self)@),
            r is Some ==> final(self)@ == submitted(
                old(self)@,
                Operation::FileExists,
                path.spec_bytes(),
                Seq::empty(),
            ) && r.unwrap().id() == submit_slot(old(self)@),
            r is None ==> final(self)@ == old(self)@,
    {
        self.submit(Operation::FileExists, path, Vec::new())
    }
}

/// Caller-facing handle to one asynchronous work item: a stable index into
/// the context's slot pool. It is `Pending` until a worker turn settles it
/// and `Complete` — immutably — from then until it is released.
pub struct WorkItem {
    slot: usize,
}

impl WorkItem {
    /// The pool index this handle refers to.
    pub closed spec fn id(&self) -> int {
        self.slot as int
    }

    /// Whether the item has completed, without blocking.
    pub fn poll(&self, fs: &LaminaFS) -> (r: bool)
        requires
            item_live(fs@, self.id()),
        ensures
            r == item_complete(fs@, self.id()),
    {
        match &fs.slots[self.slot] {
            Some(s) => s.complete,
            None => false,
        }
    }

    /// Block until the item is complete: drive queued items, oldest first,
    /// until this one's worker turn has run. A no-op when already complete.
    pub fn wait(&self, fs: &mut LaminaFS)
        requires
            old(fs).wf(),
            item_live(old(fs)@, self.id()),
        ensures
            final(fs).wf(),
            final(fs)@ == run_until(old(fs)@, self.id()),
            item_complete(final(fs)@, self.id()),
    {
        proof {
            lemma_run_until_properties(old(fs)@, self.id());
        }
        let mut done = self.poll(fs);
        while !done
            invariant
                fs.wf(),
                item_live(fs@, self.id()),
                done == item_complete(fs@, self.id()),
                run_until(old(fs)@, self.id()) == run_until(fs@, self.id()),
            decreases fs@.queue.len(),
        {
            proof {
                assert(item_pending(fs@, self.id()));
                assert(fs@.queue.contains(self.id()));
            }
            fs.process_next();
            done = self.poll(fs);
        }
    }

    /// Block until complete, then return the item's result code.
    pub fn get_result(&self, fs: &mut LaminaFS) -> (rc: ResultCode)
        requires
            old(fs).wf(),
            item_live(old(fs)@, self.id()),
        ensures
            final(fs).wf(),
            final(fs)@ == run_until(old(fs)@, self.id()),
            item_complete(final(fs)@, self.id()),
            rc == final(fs)@.slots[self.id()].unwrap().result,
    {
        self.wait(fs);
        match &fs.slots[self.slot] {
            Some(s) => s.result,
            None => ResultCode::GenericError,
        }
    }

    /// Block until complete, then return the output buffer's length in
    /// bytes, zero when the operation produced none.
    pub fn get_bytes(&self, fs: &mut LaminaFS) -> (n: usize)
        requires
            old(fs).wf(),
            item_live(old(fs)@, self.id()),
        ensures
            final(fs).wf(),
            final(fs)@ == run_until(old(fs)@, self.id()),
            item_complete(final(fs)@, self.id()),
            n == (match final(fs)@.slots[self.id()].unwrap().output {
                Some(o) => o.len(),
                None => 0,
            }),
    {
        self.wait(fs);
        match &fs.slots[self.slot] {
            Some(s) => match &s.output {
                Some(v) => v.len(),
                None => 0,
            },
            None => 0,
        }
    }

    /// Block until complete, then return a copy of the output buffer, empty
    /// when the operation produced none.
    pub fn get_buffer(&self, fs: &mut LaminaFS) -> (buf: Vec<u8>)
        requires
            old(fs).wf(),
            item_live(old(fs)@, self.id()),
        ensures
            final(fs).wf(),
            final(fs)@ == run_until(old(fs)@, self.id()),
            item_complete(final(fs)@, self.id()),
            buf@ == (match final(fs)@.slots[self.id()].unwrap().output {
                Some(o) => o,
                None => Seq::<u8>::empty(),
            }),
    {
        self.wait(fs);
        match &fs.slots[self.slot] {
            Some(s) => match &s.output {
                Some(v) => copy_bytes(v),
                None => Vec::new(),
            },
            None => Vec::new(),
        }
    }

    /// Wait for completion, then hand the slot back to the context's pool.
    /// Consuming the handle makes a second release impossible.
    pub fn release(self, fs: &mut LaminaFS)
        requires
            old(fs).wf(),
            item_live(old(fs)@, self.id()),
        ensures
            final(fs).wf(),
            final(fs)@ == released(run_until(old(fs)@, self.id()), self.id()),
    {
        self.wait(fs);
        let ghost waited = fs@;
        fs.slots.set(self.slot, None);
        proof {
            assert(slots_view(fs.slots@) =~= waited.slots.update(self.id(), None));
            assert(fs@ =~= released(waited, self.id()));
            lemma_release_wf(waited, self.id());
            assert forall|j: int|
                0 <= j < fs.mounts@.len() && (#[trigger] fs.mounts@[j]) is Some
                implies fs.mounts@[j].unwrap().wf() by {}
        }
    }
}

} // verus!
