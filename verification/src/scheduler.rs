//! The cooperative scheduler's view of guest threads and semaphores.
//!
//! One guest thread runs at a time. A thread gives up control only where it
//! blocks, and a semaphore is the one thing it can block on. This module
//! states, as plain mathematics, what each semaphore operation does to the
//! threads and the semaphores, and proves what follows: counts never go
//! negative, a post wakes exactly one waiter or raises the count by one, and
//! a blocked thread is never forgotten.

use crate::mem::VAddr;
use vstd::prelude::*;

verus! {

/// Names a guest thread: its index among the threads, stable for its lifetime.
pub type ThreadID = usize;

/// What a blocked thread waits for.
#[derive(Clone, Copy, Debug, PartialEq, Eq, Structural)]
pub enum BlockReason {
    /// A post on the semaphore with this handle.
    Semaphore(VAddr),
}

/// What a guest thread is doing.
#[derive(Clone, Copy, Debug, PartialEq, Eq, Structural)]
pub enum ThreadState {
    Runnable,
    Blocked(BlockReason),
    Terminated,
}

/// A semaphore as the scheduler sees it.
pub struct SemaphoreView {
    pub count: int,
    pub waiting: Set<ThreadID>,
}

/// The threads and the semaphores, as the scheduler sees them.
pub struct SchedView {
    pub threads: Seq<ThreadState>,
    pub semaphores: Map<VAddr, SemaphoreView>,
}

/// One step of a history of semaphore operations.
pub enum SemaphoreOp {
    Open { sem: VAddr, initial: int },
    Wait { sem: VAddr, thread: ThreadID, blocking: bool },
    Post { sem: VAddr },
}

impl SchedView {
    /// `thread` is blocked on `sem`.
    pub open spec fn blocked_on(self, thread: ThreadID, sem: VAddr) -> bool {
        thread < self.threads.len() && self.threads[thread as int] == ThreadState::Blocked(
            BlockReason::Semaphore(sem),
        )
    }

    /// Some thread waits on `sem`.
    pub open spec fn has_waiter(self, sem: VAddr) -> bool {
        exists|thread: ThreadID| self.semaphores[sem].waiting.contains(thread)
    }

    /// `thread` waits on `sem` and no waiter on `sem` has a lower number.
    pub open spec fn is_first_waiter(self, sem: VAddr, thread: ThreadID) -> bool {
        &&& self.semaphores[sem].waiting.contains(thread)
        &&& forall|other: ThreadID| #[trigger]
            self.semaphores[sem].waiting.contains(other) ==> thread <= other
    }

    /// The waiter that the next post on `sem` wakes: the one with the lowest
    /// number.
    pub open spec fn first_waiter(self, sem: VAddr) -> ThreadID {
        choose|thread: ThreadID| self.is_first_waiter(sem, thread)
    }

    /// Counts are not negative; a semaphore with waiters has count zero; the
    /// waiters of a semaphore are exactly the threads blocked on it.
    pub open spec fn wf(self) -> bool {
        &&& forall|sem: VAddr| #[trigger]
            self.semaphores.contains_key(sem) ==> {
                &&& self.semaphores[sem].count >= 0
                &&& self.has_waiter(sem) ==> self.semaphores[sem].count == 0
            }
        &&& forall|sem: VAddr, thread: ThreadID|
            self.semaphores.contains_key(sem) && #[trigger] self.semaphores[sem].waiting.contains(
                thread,
            ) ==> self.blocked_on(thread, sem)
        &&& forall|thread: ThreadID, sem: VAddr| #[trigger]
            self.blocked_on(thread, sem) ==> self.semaphores.contains_key(sem)
                && self.semaphores[sem].waiting.contains(thread)
    }

    /// A fresh semaphore with the given count and no waiter.
    pub open spec fn open(self, sem: VAddr, initial: int) -> SchedView {
        SchedView {
            semaphores: self.semaphores.insert(
                sem,
                SemaphoreView { count: initial, waiting: Set::empty() },
            ),
            ..self
        }
    }

    /// Whether a wait on `sem` can take a unit of the count at once.
    pub open spec fn available(self, sem: VAddr) -> bool {
        self.semaphores[sem].count > 0
    }

    /// A wait by `thread`: take a unit if there is one; else block if asked
    /// to; else change nothing.
    pub open spec fn wait(self, sem: VAddr, thread: ThreadID, blocking: bool) -> SchedView {
        let semaphore = self.semaphores[sem];
        if semaphore.count > 0 {
            SchedView {
                semaphores: self.semaphores.insert(
                    sem,
                    SemaphoreView { count: semaphore.count - 1, ..semaphore },
                ),
                ..self
            }
        } else if blocking {
            SchedView {
                threads: self.threads.update(
                    thread as int,
                    ThreadState::Blocked(BlockReason::Semaphore(sem)),
                ),
                semaphores: self.semaphores.insert(
                    sem,
                    SemaphoreView { waiting: semaphore.waiting.insert(thread), ..semaphore },
                ),
            }
        } else {
            self
        }
    }

    /// A post: hand the unit to the first waiter and make it runnable, or,
    /// with no waiter, add the unit to the count.
    pub open spec fn post(self, sem: VAddr) -> SchedView {
        let semaphore = self.semaphores[sem];
        if self.has_waiter(sem) {
            let woken = self.first_waiter(sem);
            SchedView {
                threads: self.threads.update(woken as int, ThreadState::Runnable),
                semaphores: self.semaphores.insert(
                    sem,
                    SemaphoreView { waiting: semaphore.waiting.remove(woken), ..semaphore },
                ),
            }
        } else {
            SchedView {
                semaphores: self.semaphores.insert(
                    sem,
                    SemaphoreView { count: semaphore.count + 1, ..semaphore },
                ),
                ..self
            }
        }
    }

    /// The semaphore is forgotten.
    pub open spec fn close(self, sem: VAddr) -> SchedView {
        SchedView { semaphores: self.semaphores.remove(sem), ..self }
    }

    /// One more thread, ready to run.
    pub open spec fn spawn(self) -> SchedView {
        SchedView { threads: self.threads.push(ThreadState::Runnable), ..self }
    }

    /// The thread has run to its end.
    pub open spec fn exit(self, thread: ThreadID) -> SchedView {
        SchedView { threads: self.threads.update(thread as int, ThreadState::Terminated), ..self }
    }

    /// `count` posts on `sem`, one after the other.
    pub open spec fn posts(self, sem: VAddr, count: nat) -> SchedView
        decreases count,
    {
        if count == 0 {
            self
        } else {
            self.post(sem).posts(sem, (count - 1) as nat)
        }
    }

    /// Whether `op` may be done in this state: the semaphore it names exists
    /// (for `Open`: does not exist yet, and the count is not negative), and a
    /// thread that may block is one that runs.
    pub open spec fn admits(self, op: SemaphoreOp) -> bool {
        match op {
            SemaphoreOp::Open { sem, initial } => !self.semaphores.contains_key(sem) && initial
                >= 0,
            SemaphoreOp::Wait { sem, thread, blocking } => self.semaphores.contains_key(sem)
                && thread < self.threads.len() && (blocking ==> self.threads[thread as int]
                == ThreadState::Runnable),
            SemaphoreOp::Post { sem } => self.semaphores.contains_key(sem),
        }
    }

    /// The state after `op`.
    pub open spec fn apply(self, op: SemaphoreOp) -> SchedView {
        match op {
            SemaphoreOp::Open { sem, initial } => self.open(sem, initial),
            SemaphoreOp::Wait { sem, thread, blocking } => self.wait(sem, thread, blocking),
            SemaphoreOp::Post { sem } => self.post(sem),
        }
    }

    /// Every operation of `ops` may be done in the state that the ones before
    /// it lead to.
    pub open spec fn admits_all(self, ops: Seq<SemaphoreOp>) -> bool
        decreases ops.len(),
    {
        if ops.len() == 0 {
            true
        } else {
            self.admits(ops[0]) && self.apply(ops[0]).admits_all(ops.drop_first())
        }
    }

    /// The state after all of `ops`, in order.
    pub open spec fn run(self, ops: Seq<SemaphoreOp>) -> SchedView
        decreases ops.len(),
    {
        if ops.len() == 0 {
            self
        } else {
            self.apply(ops[0]).run(ops.drop_first())
        }
    }
}

/// With a waiter on `sem`, the first waiter exists and is a waiter.
pub proof fn lemma_first_waiter(s: SchedView, sem: VAddr)
    requires
        s.has_waiter(sem),
    ensures
        s.is_first_waiter(sem, s.first_waiter(sem)),
{
    let some = choose|thread: ThreadID| s.semaphores[sem].waiting.contains(thread);
    lemma_least_waiter(s, sem, some);
}

/// Among the waiters up to `bound`, one has the lowest number.
proof fn lemma_least_waiter(s: SchedView, sem: VAddr, bound: ThreadID)
    requires
        s.semaphores[sem].waiting.contains(bound),
    ensures
        exists|thread: ThreadID| s.is_first_waiter(sem, thread),
    decreases bound,
{
    if exists|lower: ThreadID| lower < bound && s.semaphores[sem].waiting.contains(lower) {
        let lower = choose|lower: ThreadID|
            lower < bound && s.semaphores[sem].waiting.contains(lower);
        lemma_least_waiter(s, sem, lower);
    } else {
        assert(s.is_first_waiter(sem, bound));
    }
}

/// Opening a fresh semaphore keeps the state well-formed.
pub proof fn lemma_open_keeps_wf(s: SchedView, sem: VAddr, initial: int)
    requires
        s.wf(),
        !s.semaphores.contains_key(sem),
        initial >= 0,
    ensures
        s.open(sem, initial).wf(),
{
    let after = s.open(sem, initial);
    assert(!after.has_waiter(sem));
    assert forall|other: VAddr| #[trigger] after.semaphores.contains_key(other) implies {
        &&& after.semaphores[other].count >= 0
        &&& after.has_waiter(other) ==> after.semaphores[other].count == 0
    } by {
        if other != sem {
            assert(s.semaphores.contains_key(other));
            if after.has_waiter(other) {
                let thread = choose|thread: ThreadID|
                    after.semaphores[other].waiting.contains(thread);
                assert(s.semaphores[other].waiting.contains(thread));
            }
        }
    }
    assert forall|thread: ThreadID, other: VAddr| #[trigger]
        after.blocked_on(thread, other) implies after.semaphores.contains_key(other)
        && after.semaphores[other].waiting.contains(thread) by {
        assert(s.blocked_on(thread, other));
    }
}

/// A wait keeps the state well-formed. A wait that may block is for a
/// thread that runs; one that does not block is for any thread.
pub proof fn lemma_wait_keeps_wf(s: SchedView, sem: VAddr, thread: ThreadID, blocking: bool)
    requires
        s.wf(),
        s.semaphores.contains_key(sem),
        thread < s.threads.len(),
        blocking ==> s.threads[thread as int] == ThreadState::Runnable,
    ensures
        s.wait(sem, thread, blocking).wf(),
        s.wait(sem, thread, blocking).semaphores.dom() == s.semaphores.dom(),
        s.wait(sem, thread, blocking).threads.len() == s.threads.len(),
{
    let after = s.wait(sem, thread, blocking);
    assert(after.semaphores.dom() =~= s.semaphores.dom());
    if s.semaphores[sem].count > 0 {
        assert(!s.has_waiter(sem));
        assert forall|other: VAddr| #[trigger] after.semaphores.contains_key(other) implies {
            &&& after.semaphores[other].count >= 0
            &&& after.has_waiter(other) ==> after.semaphores[other].count == 0
        } by {
            assert(s.semaphores.contains_key(other));
            if after.has_waiter(other) {
                let t = choose|t: ThreadID| after.semaphores[other].waiting.contains(t);
                assert(s.semaphores[other].waiting.contains(t));
            }
        }
        assert forall|t: ThreadID, other: VAddr| #[trigger]
            after.blocked_on(t, other) implies after.semaphores.contains_key(other)
            && after.semaphores[other].waiting.contains(t) by {
            assert(s.blocked_on(t, other));
        }
    } else if blocking {
        assert forall|other: VAddr| #[trigger] after.semaphores.contains_key(other) implies {
            &&& after.semaphores[other].count >= 0
            &&& after.has_waiter(other) ==> after.semaphores[other].count == 0
        } by {
            assert(s.semaphores.contains_key(other));
            if other != sem && after.has_waiter(other) {
                let t = choose|t: ThreadID| after.semaphores[other].waiting.contains(t);
                assert(s.semaphores[other].waiting.contains(t));
            }
        }
        assert forall|other: VAddr, t: ThreadID|
            after.semaphores.contains_key(other) && #[trigger] after.semaphores[other].waiting.contains(
                t,
            ) implies after.blocked_on(t, other) by {
            if other == sem && t == thread {
            } else {
                assert(s.semaphores[other].waiting.contains(t));
                assert(s.blocked_on(t, other));
            }
        }
        assert forall|t: ThreadID, other: VAddr| #[trigger]
            after.blocked_on(t, other) implies after.semaphores.contains_key(other)
            && after.semaphores[other].waiting.contains(t) by {
            if t != thread {
                assert(s.blocked_on(t, other));
            }
        }
    }
}

/// A post keeps the state well-formed. It either wakes exactly one waiter,
/// leaving the count and every other thread as they were, or, with no
/// waiter, raises the count by exactly one and touches no thread.
pub proof fn lemma_post_keeps_wf(s: SchedView, sem: VAddr)
    requires
        s.wf(),
        s.semaphores.contains_key(sem),
    ensures
        s.post(sem).wf(),
        s.post(sem).semaphores.dom() == s.semaphores.dom(),
        s.post(sem).threads.len() == s.threads.len(),
        forall|other: VAddr|
            other != sem && #[trigger] s.semaphores.contains_key(other) ==> s.post(
                sem,
            ).semaphores[other] == s.semaphores[other],
        s.has_waiter(sem) ==> {
            let woken = s.first_waiter(sem);
            &&& s.blocked_on(woken, sem)
            &&& s.post(sem).threads == s.threads.update(woken as int, ThreadState::Runnable)
            &&& s.post(sem).semaphores[sem].count == s.semaphores[sem].count
            &&& s.post(sem).semaphores[sem].waiting == s.semaphores[sem].waiting.remove(woken)
        },
        !s.has_waiter(sem) ==> {
            &&& s.post(sem).threads == s.threads
            &&& s.post(sem).semaphores[sem].count == s.semaphores[sem].count + 1
            &&& s.post(sem).semaphores[sem].waiting == s.semaphores[sem].waiting
        },
{
    let after = s.post(sem);
    assert(after.semaphores.dom() =~= s.semaphores.dom());
    if s.has_waiter(sem) {
        lemma_first_waiter(s, sem);
        let woken = s.first_waiter(sem);
        assert(s.blocked_on(woken, sem));
        assert forall|other: VAddr| #[trigger] after.semaphores.contains_key(other) implies {
            &&& after.semaphores[other].count >= 0
            &&& after.has_waiter(other) ==> after.semaphores[other].count == 0
        } by {
            assert(s.semaphores.contains_key(other));
            if other != sem && after.has_waiter(other) {
                let t = choose|t: ThreadID| after.semaphores[other].waiting.contains(t);
                assert(s.semaphores[other].waiting.contains(t));
            }
        }
        assert forall|other: VAddr, t: ThreadID|
            after.semaphores.contains_key(other) && #[trigger] after.semaphores[other].waiting.contains(
                t,
            ) implies after.blocked_on(t, other) by {
            assert(s.semaphores[other].waiting.contains(t));
            assert(s.blocked_on(t, other));
            if t == woken {
                assert(s.blocked_on(woken, sem));
            }
        }
        assert forall|t: ThreadID, other: VAddr| #[trigger]
            after.blocked_on(t, other) implies after.semaphores.contains_key(other)
            && after.semaphores[other].waiting.contains(t) by {
            assert(s.blocked_on(t, other));
        }
    } else {
        assert forall|other: VAddr| #[trigger] after.semaphores.contains_key(other) implies {
            &&& after.semaphores[other].count >= 0
            &&& after.has_waiter(other) ==> after.semaphores[other].count == 0
        } by {
            assert(s.semaphores.contains_key(other));
            if after.has_waiter(other) {
                let t = choose|t: ThreadID| after.semaphores[other].waiting.contains(t);
                assert(s.semaphores[other].waiting.contains(t));
            }
        }
        assert forall|t: ThreadID, other: VAddr| #[trigger]
            after.blocked_on(t, other) implies after.semaphores.contains_key(other)
            && after.semaphores[other].waiting.contains(t) by {
            assert(s.blocked_on(t, other));
        }
    }
}

/// Closing a semaphore that nothing waits on keeps the state well-formed.
pub proof fn lemma_close_keeps_wf(s: SchedView, sem: VAddr)
    requires
        s.wf(),
        s.semaphores.contains_key(sem),
        !s.has_waiter(sem),
    ensures
        s.close(sem).wf(),
{
    let after = s.close(sem);
    assert forall|other: VAddr| #[trigger] after.semaphores.contains_key(other) implies {
        &&& after.semaphores[other].count >= 0
        &&& after.has_waiter(other) ==> after.semaphores[other].count == 0
    } by {
        assert(s.semaphores.contains_key(other));
        if after.has_waiter(other) {
            let t = choose|t: ThreadID| after.semaphores[other].waiting.contains(t);
            assert(s.semaphores[other].waiting.contains(t));
        }
    }
    assert forall|t: ThreadID, other: VAddr| #[trigger]
        after.blocked_on(t, other) implies after.semaphores.contains_key(other)
        && after.semaphores[other].waiting.contains(t) by {
        assert(s.blocked_on(t, other));
    }
}

/// A new thread keeps the state well-formed.
pub proof fn lemma_spawn_keeps_wf(s: SchedView)
    requires
        s.wf(),
    ensures
        s.spawn().wf(),
{
    let after = s.spawn();
    assert forall|other: VAddr| #[trigger] after.semaphores.contains_key(other) implies {
        &&& after.semaphores[other].count >= 0
        &&& after.has_waiter(other) ==> after.semaphores[other].count == 0
    } by {
        if after.has_waiter(other) {
            let t = choose|t: ThreadID| after.semaphores[other].waiting.contains(t);
            assert(s.semaphores[other].waiting.contains(t));
        }
    }
    assert forall|other: VAddr, t: ThreadID|
        after.semaphores.contains_key(other) && #[trigger] after.semaphores[other].waiting.contains(
            t,
        ) implies after.blocked_on(t, other) by {
        assert(s.blocked_on(t, other));
    }
    assert forall|t: ThreadID, other: VAddr| #[trigger]
        after.blocked_on(t, other) implies after.semaphores.contains_key(other)
        && after.semaphores[other].waiting.contains(t) by {
        assert(s.blocked_on(t, other));
    }
}

/// A running thread that ends keeps the state well-formed.
pub proof fn lemma_exit_keeps_wf(s: SchedView, thread: ThreadID)
    requires
        s.wf(),
        thread < s.threads.len(),
        s.threads[thread as int] == ThreadState::Runnable,
    ensures
        s.exit(thread).wf(),
{
    let after = s.exit(thread);
    assert forall|other: VAddr| #[trigger] after.semaphores.contains_key(other) implies {
        &&& after.semaphores[other].count >= 0
        &&& after.has_waiter(other) ==> after.semaphores[other].count == 0
    } by {
        if after.has_waiter(other) {
            let t = choose|t: ThreadID| after.semaphores[other].waiting.contains(t);
            assert(s.semaphores[other].waiting.contains(t));
        }
    }
    assert forall|other: VAddr, t: ThreadID|
        after.semaphores.contains_key(other) && #[trigger] after.semaphores[other].waiting.contains(
            t,
        ) implies after.blocked_on(t, other) by {
        assert(s.blocked_on(t, other));
    }
    assert forall|t: ThreadID, other: VAddr| #[trigger]
        after.blocked_on(t, other) implies after.semaphores.contains_key(other)
        && after.semaphores[other].waiting.contains(t) by {
        assert(s.blocked_on(t, other));
    }
}

/// Semaphore safety: whatever operations are done, in whatever order, the
/// state stays well-formed, so no count is ever negative.
pub proof fn lemma_counts_never_negative(s: SchedView, ops: Seq<SemaphoreOp>)
    requires
        s.wf(),
        s.admits_all(ops),
    ensures
        s.run(ops).wf(),
        forall|sem: VAddr| #[trigger]
            s.run(ops).semaphores.contains_key(sem) ==> s.run(ops).semaphores[sem].count >= 0,
    decreases ops.len(),
{
    if ops.len() > 0 {
        match ops[0] {
            SemaphoreOp::Open { sem, initial } => lemma_open_keeps_wf(s, sem, initial),
            SemaphoreOp::Wait { sem, thread, blocking } => lemma_wait_keeps_wf(
                s,
                sem,
                thread,
                blocking,
            ),
            SemaphoreOp::Post { sem } => lemma_post_keeps_wf(s, sem),
        }
        lemma_counts_never_negative(s.apply(ops[0]), ops.drop_first());
    }
}

/// No lost wakeup, one post: a thread blocked on a semaphore is among its
/// waiters, so a post wakes a waiter and does not go to the count; and where
/// the thread is the only waiter, it is the one that runs again.
pub proof fn lemma_post_wakes_a_waiter(s: SchedView, sem: VAddr, thread: ThreadID)
    requires
        s.wf(),
        s.blocked_on(thread, sem),
    ensures
        s.has_waiter(sem),
        s.post(sem).semaphores[sem].count == s.semaphores[sem].count,
        s.post(sem).threads[s.first_waiter(sem) as int] == ThreadState::Runnable,
        (forall|other: ThreadID| #[trigger]
            s.semaphores[sem].waiting.contains(other) ==> other == thread) ==> s.post(
            sem,
        ).threads[thread as int] == ThreadState::Runnable,
        s.first_waiter(sem) != thread ==> s.post(sem).blocked_on(thread, sem),
{
    assert(s.semaphores[sem].waiting.contains(thread));
    lemma_post_keeps_wf(s, sem);
    lemma_first_waiter(s, sem);
}

/// No lost wakeup, in general: after as many posts as there are waiters with
/// a number up to the thread's own, a thread blocked on the semaphore runs
/// again. The state keeps no record of who posts, so this holds alike of
/// posts that guest threads make and of posts that reach the guest from
/// outside.
pub proof fn lemma_no_lost_wakeup(s: SchedView, sem: VAddr, thread: ThreadID)
    requires
        s.wf(),
        s.blocked_on(thread, sem),
    ensures
        s.posts(sem, waiters_up_to(s, sem, thread)).threads[thread as int]
            == ThreadState::Runnable,
    decreases waiters_up_to(s, sem, thread),
{
    assert(s.semaphores[sem].waiting.contains(thread));
    lemma_post_keeps_wf(s, sem);
    lemma_first_waiter(s, sem);
    let woken = s.first_waiter(sem);
    let after = s.post(sem);
    lemma_waiters_up_to_positive(s, sem, thread, thread);
    if woken == thread {
        lemma_waiters_none_below(s, sem, thread, thread);
        assert(waiters_up_to(s, sem, thread) == 1);
        assert(after.posts(sem, 0) == after);
    } else {
        assert(after.blocked_on(thread, sem));
        lemma_waiters_after_post(s, sem, thread);
        lemma_no_lost_wakeup(after, sem, thread);
    }
}

/// Number of waiters on `sem` whose number is at most `bound`.
pub open spec fn waiters_up_to(s: SchedView, sem: VAddr, bound: ThreadID) -> nat
    decreases bound,
{
    let here: nat = if s.semaphores[sem].waiting.contains(bound) {
        1
    } else {
        0
    };
    if bound == 0 {
        here
    } else {
        here + waiters_up_to(s, sem, (bound - 1) as ThreadID)
    }
}

/// A waiter at or below the bound is counted.
proof fn lemma_waiters_up_to_positive(s: SchedView, sem: VAddr, bound: ThreadID, waiter: ThreadID)
    requires
        s.semaphores[sem].waiting.contains(waiter),
        waiter <= bound,
    ensures
        waiters_up_to(s, sem, bound) >= 1,
    decreases bound,
{
    if waiter < bound {
        lemma_waiters_up_to_positive(s, sem, (bound - 1) as ThreadID, waiter);
    }
}

/// Where the first waiter is `first`, it is the only one counted up to
/// itself, and none is counted below it.
proof fn lemma_waiters_none_below(s: SchedView, sem: VAddr, first: ThreadID, bound: ThreadID)
    requires
        s.is_first_waiter(sem, first),
        bound <= first,
    ensures
        waiters_up_to(s, sem, bound) == if bound == first {
            1nat
        } else {
            0nat
        },
    decreases bound,
{
    if bound > 0 {
        lemma_waiters_none_below(s, sem, first, (bound - 1) as ThreadID);
    }
}

/// A post that wakes a waiter below `thread` lowers the count of waiters up
/// to `thread` by one.
proof fn lemma_waiters_after_post(s: SchedView, sem: VAddr, thread: ThreadID)
    requires
        s.semaphores.contains_key(sem),
        s.has_waiter(sem),
        s.is_first_waiter(sem, s.first_waiter(sem)),
        s.first_waiter(sem) < thread,
    ensures
        waiters_up_to(s.post(sem), sem, thread) + 1 == waiters_up_to(s, sem, thread),
{
    lemma_waiters_removed(s, s.post(sem), sem, s.first_waiter(sem), thread);
}

/// Taking the first waiter out lowers the count up to any bound at or above
/// it by one.
proof fn lemma_waiters_removed(
    s: SchedView,
    after: SchedView,
    sem: VAddr,
    first: ThreadID,
    bound: ThreadID,
)
    requires
        s.is_first_waiter(sem, first),
        after.semaphores[sem].waiting == s.semaphores[sem].waiting.remove(first),
        first <= bound,
    ensures
        waiters_up_to(after, sem, bound) + 1 == waiters_up_to(s, sem, bound),
    decreases bound,
{
    if bound == first {
        lemma_waiters_none_below(s, sem, first, bound);
        lemma_no_waiters_below(after, sem, first, bound);
    } else {
        lemma_waiters_removed(s, after, sem, first, (bound - 1) as ThreadID);
    }
}

/// With no waiter numbered up to `bound`, none is counted.
proof fn lemma_no_waiters_below(after: SchedView, sem: VAddr, first: ThreadID, bound: ThreadID)
    requires
        forall|t: ThreadID| t <= first ==> !after.semaphores[sem].waiting.contains(t),
        bound <= first,
    ensures
        waiters_up_to(after, sem, bound) == 0,
    decreases bound,
{
    if bound > 0 {
        lemma_no_waiters_below(after, sem, first, (bound - 1) as ThreadID);
    }
}

} // verus!
