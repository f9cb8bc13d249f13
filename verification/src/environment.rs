//! Everything a host function may touch while it stands in for a guest one:
//! guest memory, the object table, the C library's state and the guest's
//! threads.

use crate::libc;
use crate::libc::pthread::semaphore::{sem_t, SemaphoreHostObject};
use crate::mem::{Mem, MutPtr, MutVoidPtr, VAddr};
use crate::objc::ObjC;
use crate::scheduler::{
    lemma_exit_keeps_wf, lemma_first_waiter, lemma_post_keeps_wf, lemma_spawn_keeps_wf,
    lemma_wait_keeps_wf, BlockReason,
    SchedView, SemaphoreView, ThreadID, ThreadState,
};
use vstd::prelude::*;

verus! {

/// A guest thread.
pub struct Thread {
    pub state: ThreadState,
}

/// Which guest allocations serve as handles, and for what.
pub struct Handles {
    /// Base addresses of the live allocations.
    pub live: Set<VAddr>,
    /// Semaphore handles.
    pub semaphores: Set<VAddr>,
    /// Error cell of each thread that has one.
    pub cells: Map<ThreadID, VAddr>,
    /// Service reference handles.
    pub services: Set<VAddr>,
    /// Objects.
    pub objects: Set<VAddr>,
}

impl Handles {
    /// `addr` is the error cell of some thread.
    pub open spec fn is_cell(self, addr: VAddr) -> bool {
        exists|thread: ThreadID| #[trigger] self.cells.contains_key(thread) && self.cells[thread] == addr
    }

    /// `addr` serves as a handle of some kind.
    pub open spec fn owns(self, addr: VAddr) -> bool {
        ||| self.semaphores.contains(addr)
        ||| self.services.contains(addr)
        ||| self.objects.contains(addr)
        ||| self.is_cell(addr)
    }

    /// Every handle is a live allocation, and no allocation serves as two
    /// handles.
    pub open spec fn wf(self) -> bool {
        &&& forall|thread: ThreadID| #[trigger]
            self.cells.contains_key(thread) ==> {
                &&& self.live.contains(self.cells[thread])
                &&& !self.semaphores.contains(self.cells[thread])
                &&& !self.services.contains(self.cells[thread])
                &&& !self.objects.contains(self.cells[thread])
            }
        &&& forall|a: ThreadID, b: ThreadID|
            #![trigger self.cells.contains_key(a), self.cells.contains_key(b)]
            self.cells.contains_key(a) && self.cells.contains_key(b) && a != b ==> self.cells[a]
                != self.cells[b]
        &&& forall|addr: VAddr| #[trigger]
            self.semaphores.contains(addr) ==> {
                &&& self.live.contains(addr)
                &&& !self.services.contains(addr)
                &&& !self.objects.contains(addr)
            }
        &&& forall|addr: VAddr| #[trigger]
            self.services.contains(addr) ==> {
                &&& self.live.contains(addr)
                &&& !self.objects.contains(addr)
            }
        &&& forall|addr: VAddr| #[trigger] self.objects.contains(addr) ==> self.live.contains(addr)
    }
}

/// A handle is a live allocation; so a fresh allocation is no handle yet.
pub proof fn lemma_owned_is_live(h: Handles, addr: VAddr)
    requires
        h.wf(),
        h.owns(addr),
    ensures
        h.live.contains(addr),
{
}

/// The state of the guest as the host keeps it.
pub struct Environment {
    pub mem: Mem,
    pub objc: ObjC,
    pub libc_state: libc::State,
    pub threads: Vec<Thread>,
    /// The thread that runs, or that ran last where none runs.
    pub current_thread: ThreadID,
}

impl Environment {
    /// The state of each thread.
    pub open spec fn thread_states(&self) -> Seq<ThreadState> {
        self.threads@.map_values(|thread: Thread| thread.state)
    }

    /// The threads and semaphores, as the scheduler sees them.
    pub open spec fn sched(&self) -> SchedView {
        SchedView { threads: self.thread_states(), semaphores: self.libc_state.pthread.semaphore@ }
    }

    /// Which guest allocations serve as handles in this environment.
    pub open spec fn handles(&self) -> Handles {
        Handles {
            live: self.mem@.live.dom(),
            semaphores: self.libc_state.pthread.semaphore.semaphores@.dom(),
            cells: self.libc_state.errno.cells(),
            services: self.libc_state.network.service_refs@.dom(),
            objects: self.objc@.dom(),
        }
    }

    /// Every part is well-formed by itself, the running thread exists, error
    /// cells belong to threads that exist, threads and semaphores agree on
    /// who waits for what, and handles are live allocations with one use each.
    pub open spec fn wf(&self) -> bool {
        &&& self.mem.wf()
        &&& self.objc.wf()
        &&& self.libc_state.network.service_refs.wf()
        &&& self.libc_state.errno.backed_by(self.mem@)
        &&& self.current_thread < self.threads@.len()
        &&& forall|thread: ThreadID| #[trigger]
            self.libc_state.errno.cells().contains_key(thread) ==> thread < self.threads@.len()
        &&& self.sched().wf()
        &&& self.handles().wf()
    }

    /// Everything but guest memory is as in `other`.
    pub open spec fn same_but_mem(&self, other: &Environment) -> bool {
        &&& self.objc == other.objc
        &&& self.libc_state == other.libc_state
        &&& self.threads == other.threads
        &&& self.current_thread == other.current_thread
    }

    /// Everything but threads and semaphores is as in `other`.
    pub open spec fn same_but_sched(&self, other: &Environment) -> bool {
        &&& self.mem == other.mem
        &&& self.objc == other.objc
        &&& self.libc_state.errno == other.libc_state.errno
        &&& self.libc_state.network == other.libc_state.network
        &&& self.current_thread == other.current_thread
    }

    /// An environment over `mem_size` bytes of zeroed guest memory, with the
    /// main thread, number 0, running and nothing else in it.
    pub fn new(mem_size: u32) -> (env: Environment)
        requires
            mem_size >= crate::mem::NULL_PAGE_SIZE,
        ensures
            env.wf(),
            env.current_thread == 0,
            env.thread_states() == seq![ThreadState::Runnable],
            env.sched().semaphores == Map::<VAddr, SemaphoreView>::empty(),
            env.mem@.bytes == Seq::new(mem_size as nat, |i: int| 0u8),
            env.mem@.live == Map::<VAddr, u32>::empty(),
            env.mem.free_bytes() == mem_size - crate::mem::NULL_PAGE_SIZE,
            env.handles().cells == Map::<ThreadID, VAddr>::empty(),
            env.handles().services == Set::<VAddr>::empty(),
            env.handles().objects == Set::<VAddr>::empty(),
    {
        let mut threads: Vec<Thread> = Vec::new();
        threads.push(Thread { state: ThreadState::Runnable });
        let env = Environment {
            mem: Mem::new(mem_size),
            objc: ObjC::new(),
            libc_state: libc::State::new(),
            threads,
            current_thread: 0,
        };
        proof {
            assert(env.thread_states() =~= seq![ThreadState::Runnable]);
            assert(env.libc_state.pthread.semaphore.semaphores@.dom() =~= env.sched().semaphores.dom());
            assert(env.handles().services =~= Set::<VAddr>::empty());
            assert(env.handles().objects =~= Set::<VAddr>::empty());
        }
        env
    }

    /// Whether `thread` can run.
    pub fn is_runnable(&self, thread: ThreadID) -> (runnable: bool)
        ensures
            runnable <==> thread < self.threads@.len() && self.thread_states()[thread as int]
                == ThreadState::Runnable,
    {
        if thread < self.threads.len() {
            match self.threads[thread].state {
                ThreadState::Runnable => true,
                _ => false,
            }
        } else {
            false
        }
    }

    /// Adds a thread that can run and gives its number.
    pub fn new_thread(&mut self) -> (thread: ThreadID)
        requires
            old(self).wf(),
        ensures
            final(self).wf(),
            thread == old(self).threads@.len(),
            final(self).sched() == old(self).sched().spawn(),
            final(self).same_but_sched(old(self)),
            final(self).libc_state.pthread == old(self).libc_state.pthread,
    {
        let thread = self.threads.len();
        self.threads.push(Thread { state: ThreadState::Runnable });
        proof {
            assert(self.thread_states() =~= old(self).thread_states().push(ThreadState::Runnable));
            lemma_spawn_keeps_wf(old(self).sched());
        }
        thread
    }

    /// The running thread has come to its end.
    pub fn exit_current_thread(&mut self)
        requires
            old(self).wf(),
            old(self).thread_states()[old(self).current_thread as int] == ThreadState::Runnable,
        ensures
            final(self).wf(),
            final(self).sched() == old(self).sched().exit(old(self).current_thread),
            final(self).same_but_sched(old(self)),
            final(self).libc_state.pthread == old(self).libc_state.pthread,
    {
        let thread = self.current_thread;
        self.threads[thread] = Thread { state: ThreadState::Terminated };
        proof {
            assert(self.thread_states() =~= old(self).thread_states().update(
                thread as int,
                ThreadState::Terminated,
            ));
            lemma_exit_keeps_wf(old(self).sched(), thread);
        }
    }

    /// The thread that round-robin scheduling turns to next: the first one
    /// that can run, looking from the thread after `current` onwards and
    /// around, `current` itself last.
    pub open spec fn next_runnable(states: Seq<ThreadState>, current: ThreadID) -> Option<
        ThreadID,
    > {
        if exists|step: int| Self::runnable_at(states, current, step) {
            let step = choose|step: int| Self::first_runnable_at(states, current, step);
            Some(ring_index(current as int, step, states.len() as int) as ThreadID)
        } else {
            None
        }
    }

    /// The thread `step` places after `current`, counting around, can run.
    pub open spec fn runnable_at(states: Seq<ThreadState>, current: ThreadID, step: int) -> bool {
        &&& 1 <= step <= states.len()
        &&& states[ring_index(current as int, step, states.len() as int)] == ThreadState::Runnable
    }

    /// `step` is the least number of places after `current` at which a
    /// thread can run.
    pub open spec fn first_runnable_at(
        states: Seq<ThreadState>,
        current: ThreadID,
        step: int,
    ) -> bool {
        &&& Self::runnable_at(states, current, step)
        &&& forall|earlier: int|
            1 <= earlier < step ==> !Self::runnable_at(states, current, earlier)
    }

    /// Hands control to the next thread that can run, if there is one, and
    /// says which. With none, nothing changes: every thread waits for a post
    /// from outside the guest, or has ended.
    pub fn schedule(&mut self) -> (next: Option<ThreadID>)
        requires
            old(self).wf(),
        ensures
            final(self).wf(),
            next == Self::next_runnable(old(self).thread_states(), old(self).current_thread),
            next matches Some(thread) ==> final(self).current_thread == thread
                && final(self).thread_states()[thread as int] == ThreadState::Runnable,
            next is None ==> final(self).current_thread == old(self).current_thread && forall|
                thread: int,
            |
                0 <= thread < old(self).threads@.len() ==> old(self).thread_states()[thread]
                    != ThreadState::Runnable,
            final(self).mem == old(self).mem,
            final(self).objc == old(self).objc,
            final(self).libc_state == old(self).libc_state,
            final(self).threads == old(self).threads,
    {
        let count: usize = self.threads.len();
        let current: usize = self.current_thread;
        let ghost states = self.thread_states();
        let mut tried: usize = 0;
        let mut candidate: usize = if current + 1 == count {
            0
        } else {
            current + 1
        };
        while tried < count
            invariant
                0 <= tried <= count,
                count == self.threads@.len(),
                count == states.len(),
                current < count,
                states == self.thread_states(),
                *self == *old(self),
                self.wf(),
                current == old(self).current_thread,
                tried < count ==> candidate == ring_index(
                    current as int,
                    tried + 1,
                    count as int,
                ),
                forall|earlier: int|
                    1 <= earlier <= tried ==> !Self::runnable_at(states, current, earlier),
            decreases count - tried,
        {
            if self.is_runnable(candidate) {
                proof {
                    let step = tried + 1;
                    assert(Self::first_runnable_at(states, current, step));
                    let chosen = choose|s: int| Self::first_runnable_at(states, current, s);
                    assert(chosen == step) by {
                        if chosen < step {
                            assert(!Self::runnable_at(states, current, chosen));
                        }
                        if step < chosen {
                            assert(!Self::runnable_at(states, current, step));
                        }
                    }
                }
                self.current_thread = candidate;
                return Some(candidate);
            }
            candidate = if candidate + 1 == count {
                0
            } else {
                candidate + 1
            };
            tried = tried + 1;
        }
        proof {
            assert forall|thread: int| 0 <= thread < count implies states[thread]
                != ThreadState::Runnable by {
                let step = if thread > current {
                    thread - current
                } else {
                    thread - current + count
                };
                assert(ring_index(current as int, step, count as int) == thread);
                assert(!Self::runnable_at(states, current, step));
            }
            assert forall|step: int| !Self::runnable_at(states, current, step) by {
                if 1 <= step <= count {
                    assert(!Self::runnable_at(states, current, step));
                }
            }
        }
        None
    }

    /// A wait on `sem` by the running thread. The result says whether the
    /// wait succeeds: at once, where a unit was there to take, or, for a
    /// blocking wait, once a post has woken the thread, which is blocked
    /// until then. A wait that is neither changes nothing.
    pub fn sleep_sem(&mut self, sem: MutPtr<sem_t>, blocking: bool) -> (success: bool)
        requires
            old(self).wf(),
            old(self).sched().semaphores.contains_key(sem.addr()),
            blocking ==> old(self).thread_states()[old(self).current_thread as int]
                == ThreadState::Runnable,
        ensures
            final(self).wf(),
            final(self).sched() == old(self).sched().wait(
                sem.addr(),
                old(self).current_thread,
                blocking,
            ),
            success == (old(self).sched().available(sem.addr()) || blocking),
            final(self).same_but_sched(old(self)),
    {
        broadcast use vstd::std_specs::hash::group_hash_axioms;

        let thread: ThreadID = self.current_thread;
        let key: VAddr = sem.to_bits();
        let ghost before = self.sched();
        let ghost after = before.wait(key, thread, blocking);
        proof {
            lemma_wait_keeps_wf(before, key, thread, blocking);
        }
        let mut host: SemaphoreHostObject = self.libc_state.pthread.semaphore.semaphores.remove(
            &key,
        ).unwrap();
        let success = if host.value > 0 {
            host.value = host.value - 1;
            self.libc_state.pthread.semaphore.semaphores.insert(key, host);
            true
        } else if blocking {
            host.waiting.insert(thread);
            self.libc_state.pthread.semaphore.semaphores.insert(key, host);
            self.threads[thread] = Thread {
                state: ThreadState::Blocked(BlockReason::Semaphore(key)),
            };
            true
        } else {
            self.libc_state.pthread.semaphore.semaphores.insert(key, host);
            false
        };
        proof {
            assert(self.sched().threads =~= after.threads);
            assert(self.sched().semaphores =~= after.semaphores);
            assert(self.libc_state.pthread.semaphore.semaphores@.dom() =~= old(
                self,
            ).libc_state.pthread.semaphore.semaphores@.dom());
        }
        success
    }

    /// A post on `sem`, from the guest or from outside it: the waiter with
    /// the lowest number is handed the unit and can run again, or, with no
    /// waiter, the count goes up by one. The result names the thread woken.
    /// Which thread is running plays no part in it.
    pub fn unsleep_sem(&mut self, sem: MutPtr<sem_t>) -> (woken: Option<ThreadID>)
        requires
            old(self).wf(),
            old(self).sched().semaphores.contains_key(sem.addr()),
            old(self).sched().has_waiter(sem.addr()) || old(self).sched().semaphores[sem.addr()].count
                < i32::MAX,
        ensures
            final(self).wf(),
            final(self).sched() == old(self).sched().post(sem.addr()),
            woken == if old(self).sched().has_waiter(sem.addr()) {
                Some(old(self).sched().first_waiter(sem.addr()))
            } else {
                None
            },
            final(self).same_but_sched(old(self)),
    {
        broadcast use vstd::std_specs::hash::group_hash_axioms;

        let key: VAddr = sem.to_bits();
        let ghost before = self.sched();
        let ghost after = before.post(key);
        proof {
            lemma_post_keeps_wf(before, key);
        }
        let mut host: SemaphoreHostObject = self.libc_state.pthread.semaphore.semaphores.remove(
            &key,
        ).unwrap();
        let count: usize = self.threads.len();
        let mut first: usize = 0;
        while first < count && !host.waiting.contains(&first)
            invariant
                0 <= first <= count,
                forall|thread: ThreadID| thread < first ==> !host.waiting@.contains(thread),
            decreases count - first,
        {
            first = first + 1;
        }
        let woken = if first < count {
            proof {
                assert(before.semaphores[key].waiting.contains(first));
                lemma_first_waiter(before, key);
                let chosen = before.first_waiter(key);
                assert(chosen == first) by {
                    if chosen < first {
                        assert(!host.waiting@.contains(chosen));
                    }
                }
            }
            host.waiting.remove(&first);
            self.libc_state.pthread.semaphore.semaphores.insert(key, host);
            self.threads[first] = Thread { state: ThreadState::Runnable };
            Some(first)
        } else {
            proof {
                if before.has_waiter(key) {
                    let thread = choose|thread: ThreadID|
                        before.semaphores[key].waiting.contains(thread);
                    assert(before.blocked_on(thread, key));
                    assert(!host.waiting@.contains(thread));
                }
            }
            host.value = host.value + 1;
            self.libc_state.pthread.semaphore.semaphores.insert(key, host);
            None
        };
        proof {
            assert(self.sched().threads =~= after.threads);
            assert(self.sched().semaphores =~= after.semaphores);
            assert(self.libc_state.pthread.semaphore.semaphores@.dom() =~= old(
                self,
            ).libc_state.pthread.semaphore.semaphores@.dom());
        }
        woken
    }

    /// Whether `sem` names an open semaphore.
    pub fn is_semaphore(&self, sem: VAddr) -> (open: bool)
        ensures
            open == self.sched().semaphores.contains_key(sem),
    {
        broadcast use vstd::std_specs::hash::group_hash_axioms;

        self.libc_state.pthread.semaphore.semaphores.contains_key(&sem)
    }

    /// The count of the semaphore `sem`.
    pub fn semaphore_count(&self, sem: VAddr) -> (count: i32)
        requires
            self.sched().semaphores.contains_key(sem),
        ensures
            count == self.sched().semaphores[sem].count,
    {
        broadcast use vstd::std_specs::hash::group_hash_axioms;

        self.libc_state.pthread.semaphore.semaphores.get(&sem).unwrap().value
    }

    /// Whether a thread waits on the semaphore `sem`.
    pub fn semaphore_has_waiter(&self, sem: VAddr) -> (waited: bool)
        requires
            self.wf(),
            self.sched().semaphores.contains_key(sem),
        ensures
            waited == self.sched().has_waiter(sem),
    {
        broadcast use vstd::std_specs::hash::group_hash_axioms;

        let host = self.libc_state.pthread.semaphore.semaphores.get(&sem).unwrap();
        let count: usize = self.threads.len();
        let mut thread: usize = 0;
        while thread < count
            invariant
                0 <= thread <= count,
                self.sched().semaphores.contains_key(sem),
                host.waiting@ == self.sched().semaphores[sem].waiting,
                forall|earlier: ThreadID| earlier < thread ==> !host.waiting@.contains(earlier),
            decreases count - thread,
        {
            if host.waiting.contains(&thread) {
                assert(self.sched().semaphores[sem].waiting.contains(thread));
                return true;
            }
            thread = thread + 1;
        }
        proof {
            if self.sched().has_waiter(sem) {
                let waiter = choose|waiter: ThreadID|
                    self.sched().semaphores[sem].waiting.contains(waiter);
                assert(self.sched().blocked_on(waiter, sem));
                assert(!host.waiting@.contains(waiter));
            }
        }
        false
    }

    /// Whether `addr` serves as a handle of some kind.
    pub fn owns(&self, addr: VAddr) -> (owned: bool)
        requires
            self.wf(),
        ensures
            owned == self.handles().owns(addr),
    {
        broadcast use vstd::std_specs::hash::group_hash_axioms;

        if self.libc_state.pthread.semaphore.semaphores.contains_key(&addr) {
            return true;
        }
        if self.libc_state.network.service_refs.contains_handle(addr) {
            return true;
        }
        if self.objc.is_object(MutVoidPtr::from_bits(addr)) {
            return true;
        }
        let count: usize = self.threads.len();
        let mut thread: usize = 0;
        while thread < count
            invariant
                0 <= thread <= count,
                count == self.threads@.len(),
                forall|t: ThreadID|
                    t < thread && #[trigger] self.handles().cells.contains_key(t)
                        ==> self.handles().cells[t] != addr,
            decreases count - thread,
        {
            match self.libc_state.errno.cell(thread) {
                Some(cell) => {
                    if cell.to_bits() == addr {
                        assert(self.handles().cells.contains_key(thread));
                        return true;
                    }
                },
                None => {},
            }
            thread = thread + 1;
        }
        proof {
            if self.handles().is_cell(addr) {
                let t = choose|t: ThreadID| #[trigger]
                    self.handles().cells.contains_key(t) && self.handles().cells[t] == addr;
                assert(t < count);
            }
        }
        false
    }

    /// Frees a live guest allocation that serves as no handle.
    pub fn free(&mut self, ptr: MutVoidPtr)
        requires
            old(self).wf(),
            old(self).mem@.live.contains_key(ptr.addr()),
            !old(self).handles().owns(ptr.addr()),
        ensures
            final(self).wf(),
            final(self).mem@.live == old(self).mem@.live.remove(ptr.addr()),
            final(self).mem@.bytes == old(self).mem@.bytes,
            final(self).mem.free_bytes() == old(self).mem.free_bytes(),
            final(self).same_but_mem(old(self)),
    {
        self.mem.free(ptr);
        proof {
            lemma_mem_change_keeps_wf(old(self), self);
        }
    }
}

/// A change to guest memory alone keeps the environment well-formed, as
/// long as every allocation that serves as a handle stays live at its size.
pub proof fn lemma_mem_change_keeps_wf(before: &Environment, after: &Environment)
    requires
        before.wf(),
        after.same_but_mem(before),
        after.mem.wf(),
        forall|addr: VAddr|
            before.mem@.live.contains_key(addr) && #[trigger] before.handles().owns(addr) ==> {
                &&& after.mem@.live.contains_key(addr)
                &&& after.mem@.live[addr] == before.mem@.live[addr]
            },
    ensures
        after.wf(),
{
    let h = before.handles();
    let g = after.handles();
    assert(h.wf());
    assert(g.semaphores == h.semaphores);
    assert(g.services == h.services);
    assert(g.objects == h.objects);
    assert(g.cells == h.cells);
    assert(after.sched() == before.sched());
    assert forall|thread: ThreadID| #[trigger] g.cells.contains_key(thread) implies {
        &&& g.live.contains(g.cells[thread])
        &&& after.mem@.live[g.cells[thread]] == before.mem@.live[g.cells[thread]]
    } by {
        assert(h.is_cell(h.cells[thread]));
        assert(h.owns(h.cells[thread]));
    }
    assert forall|addr: VAddr| #[trigger] g.semaphores.contains(addr) implies g.live.contains(
        addr,
    ) by {
        assert(h.owns(addr));
    }
    assert forall|addr: VAddr| #[trigger] g.services.contains(addr) implies g.live.contains(
        addr,
    ) by {
        assert(h.owns(addr));
    }
    assert forall|addr: VAddr| #[trigger] g.objects.contains(addr) implies g.live.contains(
        addr,
    ) by {
        assert(h.owns(addr));
    }
}

/// Memory changes do not change what serves as a handle.
pub proof fn lemma_same_owners(before: &Environment, after: &Environment, addr: VAddr)
    requires
        after.same_but_mem(before),
    ensures
        after.handles().owns(addr) == before.handles().owns(addr),
{
    let h = before.handles();
    let g = after.handles();
    assert(g.cells == h.cells);
    assert(g.semaphores == h.semaphores);
    assert(g.services == h.services);
    assert(g.objects == h.objects);
    if h.is_cell(addr) {
        let t = choose|t: ThreadID| #[trigger] h.cells.contains_key(t) && h.cells[t] == addr;
        assert(g.cells.contains_key(t));
    }
    if g.is_cell(addr) {
        let t = choose|t: ThreadID| #[trigger] g.cells.contains_key(t) && g.cells[t] == addr;
        assert(h.cells.contains_key(t));
    }
}

/// The place `step` places after `current` in a ring of `count` places,
/// for a step of at most `count`.
pub open spec fn ring_index(current: int, step: int, count: int) -> int {
    if current + step < count {
        current + step
    } else {
        current + step - count
    }
}

} // verus!
