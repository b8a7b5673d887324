//! The bookkeeping behind the MiniRust intrinsics that programs under test
//! call natively: the table of locks and the table of thread handles.
//!
//! The tables are plain values here; whoever runs the program keeps them
//! behind a mutex, does the waiting (a failed `acquire` parks the thread
//! and tries again) and the thread work itself.
use vstd::prelude::*;

verus! {

/// The state of a lock.
#[derive(Clone, Copy, PartialEq, Eq, Structural, Debug)]
pub enum LockState {
    Open,
    Locked,
}

/// The lock table after creating a lock, and the new lock's id.
pub open spec fn spec_create_lock(locks: Seq<LockState>) -> (Seq<LockState>, int) {
    (locks.push(LockState::Open), locks.len() as int)
}

/// The lock table after one attempt to take lock `id`, and whether it was taken.
pub open spec fn spec_acquire(locks: Seq<LockState>, id: int) -> (Seq<LockState>, bool) {
    if locks[id] == LockState::Open {
        (locks.update(id, LockState::Locked), true)
    } else {
        (locks, false)
    }
}

/// The lock table after opening lock `id`.
pub open spec fn spec_release(locks: Seq<LockState>, id: int) -> Seq<LockState> {
    locks.update(id, LockState::Open)
}

/// The handle table after recording a new thread's handle, and its id.
pub open spec fn spec_spawn<H>(handles: Seq<Option<H>>, handle: H) -> (Seq<Option<H>>, int) {
    let base = if handles.len() == 0 {
        seq![None]
    } else {
        handles
    };
    (base.push(Some(handle)), base.len() as int)
}

/// Creates a new lock, open, and returns its id: the next free index.
pub fn create_lock(locks: &mut Vec<LockState>) -> (id: usize)
    requires
        old(locks)@.len() < usize::MAX,
    ensures
        (final(locks)@, id as int) == spec_create_lock(old(locks)@),
{
    let id = locks.len();
    locks.push(LockState::Open);
    id
}

/// One attempt to take a lock: an open lock is taken (`true`); a locked one
/// is left as it is (`false`), and the caller waits and tries again.
pub fn acquire(locks: &mut Vec<LockState>, lock_id: usize) -> (acquired: bool)
    requires
        lock_id < old(locks)@.len(),
    ensures
        (final(locks)@, acquired) == spec_acquire(old(locks)@, lock_id as int),
{
    if locks[lock_id] == LockState::Open {
        locks.set(lock_id, LockState::Locked);
        true
    } else {
        false
    }
}

/// Opens a lock (waiting threads are then woken to try again).
pub fn release(locks: &mut Vec<LockState>, lock_id: usize)
    requires
        lock_id < old(locks)@.len(),
    ensures
        final(locks)@ == spec_release(old(locks)@, lock_id as int),
{
    locks.set(lock_id, LockState::Open);
}

/// Records the handle of a new thread and returns the thread's id. Id 0 is
/// never handed out: its slot is reserved when the table is first used.
pub fn spawn<H>(join_handles: &mut Vec<Option<H>>, handle: H) -> (id: usize)
    requires
        old(join_handles)@.len() + 2 < usize::MAX,
    ensures
        (final(join_handles)@, id as int) == spec_spawn(old(join_handles)@, handle),
{
    if join_handles.len() == 0 {
        join_handles.push(None);
    }
    join_handles.push(Some(handle));
    // The index of the handle just pushed.
    join_handles.len() - 1
}

/// Takes the handle of a thread out of the table, to be joined; its slot
/// is left empty, so a thread is joined once.
pub fn join<H>(join_handles: &mut Vec<Option<H>>, thread_id: usize) -> (handle: H)
    requires
        thread_id < old(join_handles)@.len(),
        old(join_handles)@[thread_id as int] is Some,
    ensures
        Some(handle) == old(join_handles)@[thread_id as int],
        final(join_handles)@ == old(join_handles)@.update(thread_id as int, None),
{
    let ghost before = join_handles@;
    join_handles.push(None);
    let taken = join_handles.swap_remove(thread_id);
    proof {
        assert(join_handles@ =~= before.update(thread_id as int, None));
    }
    taken.unwrap()
}

// ---------------------------------------------------------------------------
// Laws
// ---------------------------------------------------------------------------

/// A new lock is open, so the first attempt to take it succeeds; the other
/// locks are untouched.
pub proof fn law_new_lock_is_open(locks: Seq<LockState>)
    ensures
        ({
            let (after, id) = spec_create_lock(locks);
            &&& spec_acquire(after, id).1
            &&& forall|i: int| 0 <= i < locks.len() ==> after[i] == locks[i]
        }),
{
}

/// Once released, a lock can be taken again.
pub proof fn law_acquire_after_release(locks: Seq<LockState>, id: int)
    requires
        0 <= id < locks.len(),
    ensures
        spec_acquire(spec_release(locks, id), id) == (locks.update(id, LockState::Locked), true),
{
    assert(spec_release(locks, id).update(id, LockState::Locked) =~= locks.update(id, LockState::Locked));
}

/// A lock that is held cannot be taken: the attempt fails and changes nothing.
pub proof fn law_acquire_held(locks: Seq<LockState>, id: int)
    requires
        0 <= id < locks.len(),
        locks[id] == LockState::Locked,
    ensures
        spec_acquire(locks, id) == (locks, false),
{
}

/// Taking a lock and releasing it leaves the table as it was.
pub proof fn law_acquire_release_roundtrip(locks: Seq<LockState>, id: int)
    requires
        0 <= id < locks.len(),
        locks[id] == LockState::Open,
    ensures
        spec_release(spec_acquire(locks, id).0, id) == locks,
{
    assert(spec_release(spec_acquire(locks, id).0, id) =~= locks);
}

/// The id a thread gets is never 0 and names the slot holding its handle,
/// and the handles recorded before stay where they were.
pub proof fn law_spawn_then_join<H>(handles: Seq<Option<H>>, handle: H)
    ensures
        ({
            let (after, id) = spec_spawn(handles, handle);
            &&& 0 < id < after.len()
            &&& after[id] == Some(handle)
            &&& forall|i: int| 0 < i < handles.len() ==> after[i] == handles[i]
        }),
{
}

} // verus!
