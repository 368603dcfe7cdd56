//! The engine's abstract semantics.
//!
//! [`ContextView`] is the whole mathematical state of a context.
//! [`engine_outcome`] says what one operation yields: resolution, then the
//! permission check, then the capability check, and only then the device
//! call. [`step`] is one worker turn on the queue head, and [`run_until`]
//! drives the queue until a target item is complete — the blocking `wait` of
//! a threaded host maps to exactly this function. The laws the engine obeys
//! are stated and proved here.

use vstd::prelude::*;

use crate::device::{has_capability, read_slice, spec_perform, DeviceInterface};
use crate::mount::{
    best_match_upto, lemma_resolve_mount_properties, mount_matches, resolve_mount, MountView,
};
use crate::permissions::mask_contains;
use crate::result_code::ResultCode;
use crate::work::{required_permissions, Operation, SlotState};

verus! {

/// The whole abstract state of one context.
#[verifier::ext_equal]
pub ghost struct ContextView {
    /// The registered device types, in registration order.
    pub registry: Seq<DeviceInterface>,
    /// The mount table; released mounts stay as `None` so indices are stable.
    pub mounts: Seq<Option<MountView>>,
    /// The work-item pool; released slots are `None`.
    pub slots: Seq<Option<SlotState>>,
    /// Indices of pending slots, in submission order.
    pub queue: Seq<int>,
    /// The bound on how many items may sit in the queue.
    pub queue_capacity: u64,
    /// The bound on how many work-item slots may exist at once.
    pub pool_capacity: u64,
}

/// What processing one operation against a mount table yields.
#[verifier::ext_equal]
pub ghost struct EngineOutcome {
    pub mounts: Seq<Option<MountView>>,
    pub result: ResultCode,
    pub output: Option<Seq<u8>>,
}

/// The engine semantics of one operation: resolve the path to the most
/// specific mount, fail with `NotFound` when none matches, fail with
/// `PermissionsError` before the device is reached when the mount's mask
/// lacks a required bit, fail with `Unsupported` when the device type lacks
/// the optional capability, and otherwise hand the relative path to the
/// device.
pub open spec fn engine_outcome(
    mounts: Seq<Option<MountView>>,
    path: Seq<u8>,
    op: Operation,
    input: Seq<u8>,
) -> EngineOutcome {
    match resolve_mount(mounts, path) {
        None => EngineOutcome { mounts, result: ResultCode::NotFound, output: None },
        Some(i) => {
            let m = mounts[i].unwrap();
            if !mask_contains(m.permissions, required_permissions(op)) {
                EngineOutcome { mounts, result: ResultCode::PermissionsError, output: None }
            } else if !has_capability(m.interface, op) {
                EngineOutcome { mounts, result: ResultCode::Unsupported, output: None }
            } else {
                let rel = path.subrange(m.prefix.len() as int, path.len() as int);
                let o = spec_perform(m.device, op, rel, input);
                EngineOutcome {
                    mounts: mounts.update(i, Some(MountView { device: o.device, ..m })),
                    result: o.result,
                    output: o.output,
                }
            }
        },
    }
}

/// Slot `s` exists in this context.
pub open spec fn item_live(cv: ContextView, s: int) -> bool {
    0 <= s < cv.slots.len() && cv.slots[s] is Some
}

/// Slot `s` exists and is still waiting for a worker.
pub open spec fn item_pending(cv: ContextView, s: int) -> bool {
    item_live(cv, s) && !cv.slots[s].unwrap().complete
}

/// Slot `s` exists and its result is settled.
pub open spec fn item_complete(cv: ContextView, s: int) -> bool {
    item_live(cv, s) && cv.slots[s].unwrap().complete
}

/// A well-formed context: every queued index is a pending slot, no index is
/// queued twice, every pending slot is queued, and both tables respect their
/// capacities.
pub open spec fn context_wf(cv: ContextView) -> bool {
    &&& forall|k: int| 0 <= k < cv.queue.len() ==> item_pending(cv, #[trigger] cv.queue[k])
    &&& forall|k1: int, k2: int|
        0 <= k1 < k2 < cv.queue.len() ==> cv.queue[k1] != cv.queue[k2]
    &&& forall|s: int| #[trigger] item_pending(cv, s) ==> cv.queue.contains(s)
    &&& cv.slots.len() <= cv.pool_capacity
    &&& cv.queue.len() <= cv.queue_capacity
}

/// One worker turn: dequeue the head item, run it against the mount table,
/// store its result and output, and mark it complete.
pub open spec fn step(cv: ContextView) -> ContextView
    recommends
        cv.queue.len() > 0,
{
    let h = cv.queue[0];
    let rest = cv.queue.subrange(1, cv.queue.len() as int);
    if 0 <= h < cv.slots.len() && cv.slots[h] is Some {
        let slot = cv.slots[h].unwrap();
        let eo = engine_outcome(cv.mounts, slot.path, slot.op, slot.input);
        ContextView {
            mounts: eo.mounts,
            slots: cv.slots.update(
                h,
                Some(
                    SlotState {
                        complete: true,
                        result: eo.result,
                        output: eo.output,
                        ..slot
                    },
                ),
            ),
            queue: rest,
            ..cv
        }
    } else {
        ContextView { queue: rest, ..cv }
    }
}

/// Worker turns in submission order until the target item is complete; this
/// is what blocking on an item means.
pub open spec fn run_until(cv: ContextView, t: int) -> ContextView
    decreases cv.queue.len(),
{
    if item_pending(cv, t) && cv.queue.len() > 0 {
        run_until(step(cv), t)
    } else {
        cv
    }
}

/// The first free slot of the pool among the first `n`, lowest index first.
pub open spec fn first_free_upto(slots: Seq<Option<SlotState>>, n: int) -> Option<int>
    decreases n,
{
    if n <= 0 {
        None
    } else {
        match first_free_upto(slots, n - 1) {
            Some(i) => Some(i),
            None => if slots[n - 1] is None {
                Some(n - 1)
            } else {
                None
            },
        }
    }
}

/// The slot a submission would reuse, if any slot is free.
pub open spec fn free_slot(cv: ContextView) -> Option<int> {
    first_free_upto(cv.slots, cv.slots.len() as int)
}

/// Submission succeeds exactly when a slot can be had — one is free, or the
/// pool may still grow — and the queue is below its capacity. When it cannot,
/// a threaded host blocks the submitter until a slot is released.
pub open spec fn can_submit(cv: ContextView) -> bool {
    &&& free_slot(cv) is Some || cv.slots.len() < cv.pool_capacity
    &&& cv.queue.len() < cv.queue_capacity
}

/// The slot index a submission uses: the first free slot, else a fresh one.
pub open spec fn submit_slot(cv: ContextView) -> int {
    match free_slot(cv) {
        Some(i) => i,
        None => cv.slots.len() as int,
    }
}

/// The context after submitting one operation: the chosen slot holds the new
/// pending item — its result code is a placeholder until a worker settles it
/// — and the slot's index joins the tail of the queue.
pub open spec fn submitted(
    cv: ContextView,
    op: Operation,
    path: Seq<u8>,
    input: Seq<u8>,
) -> ContextView {
    let t = submit_slot(cv);
    let slot = SlotState {
        op,
        path,
        input,
        complete: false,
        result: ResultCode::GenericError,
        output: None,
    };
    ContextView {
        slots: if free_slot(cv) is Some {
            cv.slots.update(t, Some(slot))
        } else {
            cv.slots.push(Some(slot))
        },
        queue: cv.queue.push(t),
        ..cv
    }
}

/// The context after a completed item's slot is handed back to the pool.
pub open spec fn released(cv: ContextView, t: int) -> ContextView {
    ContextView { slots: cv.slots.update(t, None), ..cv }
}

proof fn lemma_first_free_upto_properties(slots: Seq<Option<SlotState>>, n: int)
    requires
        0 <= n <= slots.len(),
    ensures
        match first_free_upto(slots, n) {
            Some(i) => 0 <= i < n && slots[i] is None,
            None => forall|j: int| 0 <= j < n ==> slots[j] is Some,
        },
    decreases n,
{
    if n > 0 {
        lemma_first_free_upto_properties(slots, n - 1);
    }
}

/// What [`free_slot`] guarantees: a returned index is a free slot of the
/// pool, and `None` means every slot is taken.
pub proof fn lemma_free_slot_properties(cv: ContextView)
    ensures
        match free_slot(cv) {
            Some(i) => 0 <= i < cv.slots.len() && cv.slots[i] is None,
            None => forall|j: int| 0 <= j < cv.slots.len() ==> cv.slots[j] is Some,
        },
{
    lemma_first_free_upto_properties(cv.slots, cv.slots.len() as int);
}

/// Law: an operation submitted against a path that no live mount's prefix
/// matches completes with `NotFound`, whatever the operation kind; no mount
/// is touched and no output is produced.
pub proof fn lemma_unmounted_path_not_found(
    mounts: Seq<Option<MountView>>,
    path: Seq<u8>,
    op: Operation,
    input: Seq<u8>,
)
    requires
        forall|j: int| 0 <= j < mounts.len() ==> !#[trigger] mount_matches(mounts, j, path),
    ensures
        engine_outcome(mounts, path, op, input) == (EngineOutcome {
            mounts,
            result: ResultCode::NotFound,
            output: None,
        }),
{
    lemma_resolve_mount_properties(mounts, path);
    match resolve_mount(mounts, path) {
        Some(i) => {
            assert(mount_matches(mounts, i, path));
            assert(false);
        },
        None => {},
    }
}

/// Law: when the resolved mount's permission mask lacks a bit the operation
/// requires, the operation completes with `PermissionsError` and the device
/// is never invoked — every mount, its device state included, is left
/// exactly as it was, and no output is produced.
pub proof fn lemma_missing_permission_rejected(
    mounts: Seq<Option<MountView>>,
    path: Seq<u8>,
    op: Operation,
    input: Seq<u8>,
    i: int,
)
    requires
        resolve_mount(mounts, path) == Some(i),
        !mask_contains(mounts[i].unwrap().permissions, required_permissions(op)),
    ensures
        engine_outcome(mounts, path, op, input) == (EngineOutcome {
            mounts,
            result: ResultCode::PermissionsError,
            output: None,
        }),
{
}

/// Law: one worker turn settles exactly the queue head — it becomes
/// complete, every other slot is untouched, and the context stays well
/// formed, so a settled slot can never reenter the queue or be written
/// again.
pub proof fn lemma_step_completes_head_only(cv: ContextView)
    requires
        context_wf(cv),
        cv.queue.len() > 0,
    ensures
        item_complete(step(cv), cv.queue[0]),
        forall|s: int|
            0 <= s < cv.slots.len() && s != cv.queue[0] ==> step(cv).slots[s] == cv.slots[s],
        step(cv).slots.len() == cv.slots.len(),
        step(cv).queue == cv.queue.subrange(1, cv.queue.len() as int),
        context_wf(step(cv)),
{
    let h = cv.queue[0];
    assert(item_pending(cv, h));
    let sc = step(cv);
    let rest = cv.queue.subrange(1, cv.queue.len() as int);
    assert forall|k: int| 0 <= k < rest.len() implies item_pending(sc, #[trigger] rest[k]) by {
        assert(rest[k] == cv.queue[k + 1]);
        assert(item_pending(cv, cv.queue[k + 1]));
        assert(cv.queue[0] != cv.queue[k + 1]);
    }
    assert forall|s: int| #[trigger] item_pending(sc, s) implies sc.queue.contains(s) by {
        assert(s != h);
        assert(item_pending(cv, s));
        assert(cv.queue.contains(s));
        let k = choose|k: int| 0 <= k < cv.queue.len() && cv.queue[k] == s;
        assert(k != 0);
        assert(rest[k - 1] == s);
    }
}

/// Law: driving the queue until an item is settled keeps the context well
/// formed, completes the item, empties only what was ahead of it in the
/// queue, and never rewrites an already settled slot — once complete, a
/// slot's result and output are frozen until it is released.
pub proof fn lemma_run_until_properties(cv: ContextView, t: int)
    requires
        context_wf(cv),
    ensures
        context_wf(run_until(cv, t)),
        run_until(cv, t).slots.len() == cv.slots.len(),
        run_until(cv, t).queue.len() <= cv.queue.len(),
        run_until(cv, t).queue_capacity == cv.queue_capacity,
        run_until(cv, t).pool_capacity == cv.pool_capacity,
        run_until(cv, t).registry == cv.registry,
        item_live(cv, t) ==> item_complete(run_until(cv, t), t),
        forall|s: int|
            #[trigger] item_complete(cv, s) ==> run_until(cv, t).slots[s] == cv.slots[s],
    decreases cv.queue.len(),
{
    if item_pending(cv, t) && cv.queue.len() > 0 {
        lemma_step_completes_head_only(cv);
        lemma_run_until_properties(step(cv), t);
        assert forall|s: int| #[trigger] item_complete(cv, s) implies run_until(cv, t).slots[s]
            == cv.slots[s] by {
            assert(s != cv.queue[0]);
            assert(step(cv).slots[s] == cv.slots[s]);
            assert(item_complete(step(cv), s));
        }
    } else {
        if item_pending(cv, t) {
            assert(cv.queue.contains(t));
        }
    }
}

/// Law: blocking on an item is idempotent — once it has run to completion,
/// running again changes nothing, so a second `wait` observes the same
/// result code and the same buffer as the first.
pub proof fn lemma_run_until_idempotent(cv: ContextView, t: int)
    ensures
        run_until(run_until(cv, t), t) == run_until(cv, t),
    decreases cv.queue.len(),
{
    if item_pending(cv, t) && cv.queue.len() > 0 {
        lemma_run_until_idempotent(step(cv), t);
    }
}

/// Well-formedness reads only the slots, the queue and the capacities, so it
/// carries over to any context that agrees on those: registering a device
/// type or changing the mount table never breaks it.
pub proof fn lemma_context_wf_congruence(a: ContextView, b: ContextView)
    requires
        context_wf(a),
        b.slots == a.slots,
        b.queue == a.queue,
        b.queue_capacity == a.queue_capacity,
        b.pool_capacity == a.pool_capacity,
    ensures
        context_wf(b),
{
    assert forall|k: int| 0 <= k < b.queue.len() implies item_pending(b, #[trigger] b.queue[k]) by {
        assert(item_pending(a, a.queue[k]));
    }
    assert forall|s: int| #[trigger] item_pending(b, s) implies b.queue.contains(s) by {
        assert(item_pending(a, s));
        assert(a.queue.contains(s));
    }
}

/// Law: releasing a completed item's slot keeps the context well formed.
pub proof fn lemma_release_wf(cv: ContextView, t: int)
    requires
        context_wf(cv),
        item_complete(cv, t),
    ensures
        context_wf(released(cv, t)),
{
    let rv = released(cv, t);
    assert forall|k: int| 0 <= k < rv.queue.len() implies item_pending(rv, #[trigger] rv.queue[k]) by {
        assert(item_pending(cv, cv.queue[k]));
        assert(cv.queue[k] != t);
    }
    assert forall|s: int| #[trigger] item_pending(rv, s) implies rv.queue.contains(s) by {
        assert(s != t);
        assert(item_pending(cv, s));
    }
}

/// Law: a successful submission keeps the context well formed; the chosen
/// slot holds the new pending item and stands last in the queue.
pub proof fn lemma_submit_wf(cv: ContextView, op: Operation, path: Seq<u8>, input: Seq<u8>)
    requires
        context_wf(cv),
        can_submit(cv),
    ensures
        context_wf(submitted(cv, op, path, input)),
        item_pending(submitted(cv, op, path, input), submit_slot(cv)),
        submitted(cv, op, path, input).queue == cv.queue.push(submit_slot(cv)),
{
    lemma_free_slot_properties(cv);
    let t = submit_slot(cv);
    let sv = submitted(cv, op, path, input);
    assert forall|k: int| 0 <= k < cv.queue.len() implies cv.queue[k] != t by {
        assert(item_pending(cv, cv.queue[k]));
    }
    assert forall|k: int| 0 <= k < sv.queue.len() implies item_pending(sv, #[trigger] sv.queue[k]) by {
        if k < cv.queue.len() {
            assert(sv.queue[k] == cv.queue[k]);
            assert(item_pending(cv, cv.queue[k]));
            assert(cv.queue[k] != t);
        } else {
            assert(sv.queue[k] == t);
        }
    }
    assert forall|s: int| #[trigger] item_pending(sv, s) implies sv.queue.contains(s) by {
        if s == t {
            assert(sv.queue[sv.queue.len() - 1] == t);
        } else {
            assert(item_pending(cv, s));
            assert(cv.queue.contains(s));
            let k = choose|k: int| 0 <= k < cv.queue.len() && cv.queue[k] == s;
            assert(sv.queue[k] == s);
        }
    }
}

/// Law: with a pool of a single slot and that slot taken, nothing can be
/// submitted; after blocking on the item and releasing its slot, submission
/// is possible again whenever the queue is bounded by anything at all.
pub proof fn lemma_backpressure(cv: ContextView, t: int)
    requires
        context_wf(cv),
        cv.pool_capacity == 1,
        item_live(cv, t),
    ensures
        !can_submit(cv),
        cv.queue_capacity > 0 ==> can_submit(released(run_until(cv, t), t)),
{
    assert(cv.slots.len() == 1);
    assert(t == 0);
    assert(first_free_upto(cv.slots, 0) is None);
    assert(free_slot(cv) is None);
    lemma_run_until_properties(cv, t);
    let done = run_until(cv, t);
    if done.queue.len() > 0 {
        assert(item_pending(done, done.queue[0]));
        assert(done.queue[0] == t);
        assert(false);
    }
    let rv = released(done, t);
    assert(first_free_upto(rv.slots, 0) is None);
    assert(rv.slots[0] is None);
    assert(free_slot(rv) == Some(0int));
}

/// Law: submitting one operation on an idle context and blocking on it
/// completes the item with exactly the engine outcome of that operation —
/// its result code, its output buffer, and the device effect on the mount
/// table. Together with the resolution and permission laws this pins the
/// result code of a submission against an unmounted path or an
/// under-privileged mount.
pub proof fn lemma_submit_then_wait(cv: ContextView, op: Operation, path: Seq<u8>, input: Seq<u8>)
    requires
        context_wf(cv),
        can_submit(cv),
        cv.queue.len() == 0,
    ensures
        ({
            let t = submit_slot(cv);
            let done = run_until(submitted(cv, op, path, input), t);
            let eo = engine_outcome(cv.mounts, path, op, input);
            &&& item_complete(done, t)
            &&& done.slots[t].unwrap().result == eo.result
            &&& done.slots[t].unwrap().output == eo.output
            &&& done.mounts == eo.mounts
        }),
{
    lemma_submit_wf(cv, op, path, input);
    lemma_free_slot_properties(cv);
    let t = submit_slot(cv);
    let sv = submitted(cv, op, path, input);
    assert(sv.queue.len() == 1);
    assert(sv.queue[0] == t);
    assert(sv.mounts == cv.mounts);
    assert(sv.slots[t].unwrap().path == path);
    assert(sv.slots[t].unwrap().op == op);
    assert(sv.slots[t].unwrap().input == input);
    let st = step(sv);
    assert(item_complete(st, t));
    assert(run_until(sv, t) == run_until(st, t));
    assert(run_until(st, t) == st);
}

proof fn lemma_best_match_same_structure(
    m1: Seq<Option<MountView>>,
    m2: Seq<Option<MountView>>,
    path: Seq<u8>,
    n: int,
)
    requires
        m1.len() == m2.len(),
        forall|j: int| 0 <= j < m1.len() ==> ((#[trigger] m1[j]) is Some <==> m2[j] is Some),
        forall|j: int|
            0 <= j < m1.len() && (#[trigger] m1[j]) is Some ==> m1[j].unwrap().prefix
                == m2[j].unwrap().prefix,
        0 <= n <= m1.len(),
    ensures
        best_match_upto(m1, path, n) == best_match_upto(m2, path, n),
    decreases n,
{
    if n > 0 {
        lemma_best_match_same_structure(m1, m2, path, n - 1);
        lemma_best_match_upto_bound(m1, path, n - 1);
    }
}

proof fn lemma_best_match_upto_bound(mounts: Seq<Option<MountView>>, path: Seq<u8>, n: int)
    requires
        0 <= n,
    ensures
        best_match_upto(mounts, path, n) is Some ==> {
            let i = best_match_upto(mounts, path, n).unwrap();
            0 <= i < n && mounts[i] is Some
        },
    decreases n,
{
    if n > 0 {
        lemma_best_match_upto_bound(mounts, path, n - 1);
    }
}

/// Law: resolution sees only which table entries are live and what their
/// prefixes are; device activity on a mount never changes how paths resolve.
pub proof fn lemma_resolve_same_structure(
    m1: Seq<Option<MountView>>,
    m2: Seq<Option<MountView>>,
    path: Seq<u8>,
)
    requires
        m1.len() == m2.len(),
        forall|j: int| 0 <= j < m1.len() ==> ((#[trigger] m1[j]) is Some <==> m2[j] is Some),
        forall|j: int|
            0 <= j < m1.len() && (#[trigger] m1[j]) is Some ==> m1[j].unwrap().prefix
                == m2[j].unwrap().prefix,
    ensures
        resolve_mount(m1, path) == resolve_mount(m2, path),
{
    lemma_best_match_same_structure(m1, m2, path, m1.len() as int);
}

/// Law: writing a buffer to a path and then reading that path whole, through
/// the same table, yields exactly the written buffer, provided the resolved
/// mount grants the write and read bits and its device type supports
/// writing.
pub proof fn lemma_engine_write_read_round_trip(
    mounts: Seq<Option<MountView>>,
    path: Seq<u8>,
    data: Seq<u8>,
    i: int,
)
    requires
        resolve_mount(mounts, path) == Some(i),
        mask_contains(
            mounts[i].unwrap().permissions,
            required_permissions(Operation::WriteFile),
        ),
        mask_contains(
            mounts[i].unwrap().permissions,
            required_permissions(Operation::ReadFile { null_terminate: false }),
        ),
        mounts[i].unwrap().interface.supports_write_file,
    ensures
        ({
            let w = engine_outcome(mounts, path, Operation::WriteFile, data);
            let r = engine_outcome(
                w.mounts,
                path,
                Operation::ReadFile { null_terminate: false },
                Seq::empty(),
            );
            &&& w.result == ResultCode::Okay
            &&& r.result == ResultCode::Okay
            &&& r.output == Some(data)
        }),
{
    lemma_resolve_mount_properties(mounts, path);
    let m = mounts[i].unwrap();
    let rel = path.subrange(m.prefix.len() as int, path.len() as int);
    let w = engine_outcome(mounts, path, Operation::WriteFile, data);
    assert forall|j: int| 0 <= j < mounts.len() implies ((#[trigger] mounts[j]) is Some
        <==> w.mounts[j] is Some) by {}
    assert forall|j: int|
        0 <= j < mounts.len() && (#[trigger] mounts[j]) is Some implies mounts[j].unwrap().prefix
        == w.mounts[j].unwrap().prefix by {}
    lemma_resolve_same_structure(mounts, w.mounts, path);
    let m2 = w.mounts[i].unwrap();
    assert(m2.device.files[rel] == data);
    assert(read_slice(data, 0, data.len() as int, false) =~= data);
}

} // verus!
