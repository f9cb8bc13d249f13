//! `semaphore.h`

use crate::environment::{lemma_mem_change_keeps_wf, Environment};
use crate::libc::mode_t;
use crate::mem::{reserved_size, ConstPtr, GuestData, GuestUSize, MutPtr, VAddr};
use crate::scheduler::{
    lemma_close_keeps_wf, lemma_open_keeps_wf, SemaphoreView, ThreadID, ThreadState,
};
use std::collections::{HashMap, HashSet};
use vstd::prelude::*;

verus! {

/// What the guest sees of a semaphore: a cell whose address is the handle.
pub type sem_t = i32;

/// The semaphores that are open, by the address of their guest cell.
pub struct State {
    pub semaphores: HashMap<VAddr, SemaphoreHostObject>,
}

/// The host's side of a semaphore.
pub struct SemaphoreHostObject {
    /// Units that a wait can take without blocking.
    pub value: i32,
    /// Threads blocked until a post hands them a unit.
    pub waiting: HashSet<ThreadID>,
}

impl View for SemaphoreHostObject {
    type V = SemaphoreView;

    open spec fn view(&self) -> SemaphoreView {
        SemaphoreView { count: self.value as int, waiting: self.waiting@ }
    }
}

impl View for State {
    type V = Map<VAddr, SemaphoreView>;

    open spec fn view(&self) -> Map<VAddr, SemaphoreView> {
        Map::new(
            |sem: VAddr| self.semaphores@.contains_key(sem),
            |sem: VAddr| self.semaphores@[sem]@,
        )
    }
}

impl State {
    pub fn new() -> (state: Self)
        ensures
            state@ == Map::<VAddr, SemaphoreView>::empty(),
    {
        let state = State { semaphores: HashMap::new() };
        assert(state@ =~= Map::<VAddr, SemaphoreView>::empty());
        state
    }
}

/// Bytes of guest memory behind a semaphore handle.
pub const SEM_SIZE: GuestUSize = 4;

/// Opens a semaphore with `value` units and no waiter. The handle is the
/// address of a fresh guest cell that holds zero.
pub fn sem_open(
    env: &mut Environment,
    _name: ConstPtr<u8>,
    _oflag: i32,
    _mode: mode_t,
    value: u32,
) -> (sem: MutPtr<sem_t>)
    requires
        old(env).wf(),
        old(env).mem.can_alloc(SEM_SIZE),
        value <= i32::MAX,
    ensures
        final(env).wf(),
        !sem.is_null(),
        !old(env).mem@.live.contains_key(sem.addr()),
        !old(env).sched().semaphores.contains_key(sem.addr()),
        final(env).sched() == old(env).sched().open(sem.addr(), value as int),
        final(env).mem@.live == old(env).mem@.live.insert(sem.addr(), SEM_SIZE),
        final(env).mem@.bytes == old(env).mem@.stored(sem.addr() as int, 0i32.guest_bytes()),
        final(env).mem.free_bytes() == old(env).mem.free_bytes() - reserved_size(SEM_SIZE),
        final(env).objc == old(env).objc,
        final(env).threads == old(env).threads,
        final(env).current_thread == old(env).current_thread,
        final(env).libc_state.errno == old(env).libc_state.errno,
        final(env).libc_state.network == old(env).libc_state.network,
{
    broadcast use vstd::std_specs::hash::group_hash_axioms;

    proof {
        i32::lemma_layout(0i32);
    }
    let sem: MutPtr<sem_t> = env.mem.alloc_and_write(0i32);
    let ghost allocated = *env;
    proof {
        env.mem.lemma_wf();
        lemma_mem_change_keeps_wf(old(env), env);
        let h = old(env).handles();
        if h.semaphores.contains(sem.addr()) {
            assert(h.live.contains(sem.addr()));
        }
    }
    env.libc_state.pthread.semaphore.semaphores.insert(
        sem.to_bits(),
        SemaphoreHostObject { value: value as i32, waiting: HashSet::new() },
    );
    proof {
        let before = old(env).sched();
        let after = before.open(sem.addr(), value as int);
        lemma_open_keeps_wf(before, sem.addr(), value as int);
        assert(env.sched().threads =~= after.threads);
        assert(env.sched().semaphores =~= after.semaphores);
        let h = allocated.handles();
        let g = env.handles();
        assert(h.wf());
        assert(g.live == h.live);
        assert(g.cells == h.cells);
        assert(g.services == h.services);
        assert(g.objects == h.objects);
        assert(g.semaphores =~= h.semaphores.insert(sem.addr()));
        assert(!old(env).handles().live.contains(sem.addr()));
        assert forall|thread: ThreadID| #[trigger] g.cells.contains_key(thread) implies !g.semaphores.contains(
            g.cells[thread],
        ) by {
            assert(old(env).handles().cells.contains_key(thread));
        }
        if old(env).handles().services.contains(sem.addr()) {
            assert(old(env).handles().live.contains(sem.addr()));
        }
        if old(env).handles().objects.contains(sem.addr()) {
            assert(old(env).handles().live.contains(sem.addr()));
        }
    }
    sem
}

/// Posts on `sem`: wakes its first waiter or, with none, adds a unit.
pub fn sem_post(env: &mut Environment, sem: MutPtr<sem_t>) -> (result: i32)
    requires
        old(env).wf(),
        old(env).sched().semaphores.contains_key(sem.addr()),
        old(env).sched().has_waiter(sem.addr()) || old(env).sched().semaphores[sem.addr()].count
            < i32::MAX,
    ensures
        result == 0,
        final(env).wf(),
        final(env).sched() == old(env).sched().post(sem.addr()),
        final(env).same_but_sched(old(env)),
{
    env.unsleep_sem(sem);
    0
}

/// Waits on `sem`: takes a unit, or blocks the running thread until a post
/// hands it one.
pub fn sem_wait(env: &mut Environment, sem: MutPtr<sem_t>) -> (result: i32)
    requires
        old(env).wf(),
        old(env).sched().semaphores.contains_key(sem.addr()),
        old(env).thread_states()[old(env).current_thread as int] == ThreadState::Runnable,
    ensures
        result == 0,
        final(env).wf(),
        final(env).sched() == old(env).sched().wait(sem.addr(), old(env).current_thread, true),
        final(env).same_but_sched(old(env)),
{
    env.sleep_sem(sem, true);
    0
}

/// Takes a unit of `sem` if there is one, and fails without waiting, and
/// without any change, if there is none. No thread is blocked by it, and
/// none joins the waiters.
pub fn sem_trywait(env: &mut Environment, sem: MutPtr<sem_t>) -> (result: i32)
    requires
        old(env).wf(),
        old(env).sched().semaphores.contains_key(sem.addr()),
    ensures
        result == if old(env).sched().available(sem.addr()) {
            0i32
        } else {
            -1i32
        },
        final(env).wf(),
        final(env).sched() == old(env).sched().wait(sem.addr(), old(env).current_thread, false),
        result == -1 ==> final(env).sched() == old(env).sched(),
        final(env).thread_states() == old(env).thread_states(),
        final(env).sched().semaphores[sem.addr()].waiting == old(
            env,
        ).sched().semaphores[sem.addr()].waiting,
        final(env).sched().semaphores[sem.addr()].count == old(
            env,
        ).sched().semaphores[sem.addr()].count - if result == 0 {
            1int
        } else {
            0int
        },
        final(env).same_but_sched(old(env)),
{
    if env.sleep_sem(sem, false) {
        0
    } else {
        -1
    }
}

/// Names are not kept, so there is nothing to remove.
pub fn sem_unlink(_env: &mut Environment, _name: ConstPtr<u8>) -> (result: i32)
    ensures
        result == 0,
        *final(_env) == *old(_env),
{
    0
}

/// Closes `sem`, on which no thread waits: the semaphore is forgotten and
/// its guest cell freed.
pub fn sem_close(env: &mut Environment, sem: MutPtr<sem_t>) -> (result: i32)
    requires
        old(env).wf(),
        old(env).sched().semaphores.contains_key(sem.addr()),
        !old(env).sched().has_waiter(sem.addr()),
    ensures
        result == 0,
        final(env).wf(),
        final(env).sched() == old(env).sched().close(sem.addr()),
        final(env).mem@.live == old(env).mem@.live.remove(sem.addr()),
        final(env).mem@.bytes == old(env).mem@.bytes,
        final(env).mem.free_bytes() == old(env).mem.free_bytes(),
        final(env).objc == old(env).objc,
        final(env).threads == old(env).threads,
        final(env).current_thread == old(env).current_thread,
        final(env).libc_state.errno == old(env).libc_state.errno,
        final(env).libc_state.network == old(env).libc_state.network,
{
    broadcast use vstd::std_specs::hash::group_hash_axioms;

    let ghost h = old(env).handles();
    proof {
        assert(h.semaphores.contains(sem.addr()));
        assert(h.live.contains(sem.addr()));
    }
    env.libc_state.pthread.semaphore.semaphores.remove(&sem.to_bits());
    env.mem.free(sem.cast());
    proof {
        let before = old(env).sched();
        let after = before.close(sem.addr());
        lemma_close_keeps_wf(before, sem.addr());
        assert(env.sched().threads =~= after.threads);
        assert(env.sched().semaphores =~= after.semaphores);
        let g = env.handles();
        assert(h.wf());
        assert(g.cells == h.cells);
        assert(g.services == h.services);
        assert(g.objects == h.objects);
        assert(g.semaphores =~= h.semaphores.remove(sem.addr()));
        assert(g.live =~= h.live.remove(sem.addr()));
        assert forall|thread: ThreadID| #[trigger] g.cells.contains_key(thread) implies g.live.contains(
            g.cells[thread],
        ) by {
            assert(h.cells.contains_key(thread));
        }
        assert forall|addr: VAddr| #[trigger] g.services.contains(addr) implies g.live.contains(
            addr,
        ) by {
            assert(h.services.contains(addr));
            assert(!h.semaphores.contains(addr));
        }
        assert forall|addr: VAddr| #[trigger] g.objects.contains(addr) implies g.live.contains(
            addr,
        ) by {
            assert(h.objects.contains(addr));
            assert(!h.semaphores.contains(addr));
        }
    }
    0
}

} // verus!
