//! `errno.h`

use crate::environment::Environment;
use crate::mem::{reserved_size, GuestData, GuestUSize, Mem, MemView, MutPtr, Ptr, VAddr};
use crate::scheduler::ThreadID;
use std::collections::HashMap;
use vstd::prelude::*;

verus! {

pub const EPERM: i32 = 1;

pub const EDEADLK: i32 = 11;

pub const EINVAL: i32 = 22;

/// Bytes of guest memory that an error cell occupies.
pub const CELL_SIZE: GuestUSize = 4;

/// The error cell of each thread that has touched its error code. A cell is
/// a four-byte guest allocation, made on first use and kept for good.
pub struct State {
    errnos: HashMap<ThreadID, VAddr>,
}

impl State {
    /// The address of each thread's cell.
    pub closed spec fn cells(&self) -> Map<ThreadID, VAddr> {
        self.errnos@
    }

    /// Every cell is a live allocation of `mem`, four bytes long, and no two
    /// threads share a cell.
    pub open spec fn backed_by(&self, mem: MemView) -> bool {
        &&& forall|thread: ThreadID| #[trigger]
            self.cells().contains_key(thread) ==> mem.live.contains_key(self.cells()[thread])
                && mem.live[self.cells()[thread]] == CELL_SIZE
        &&& forall|a: ThreadID, b: ThreadID|
            #![trigger self.cells().contains_key(a), self.cells().contains_key(b)]
            self.cells().contains_key(a) && self.cells().contains_key(b) && a != b
                ==> self.cells()[a] != self.cells()[b]
    }

    /// What the cell of `thread` holds in `mem`.
    pub open spec fn value_of(&self, mem: MemView, thread: ThreadID) -> Seq<u8> {
        mem.range(self.cells()[thread] as int, CELL_SIZE as int)
    }

    pub fn new() -> (state: Self)
        ensures
            state.cells() == Map::<ThreadID, VAddr>::empty(),
    {
        State { errnos: HashMap::new() }
    }

    /// The cell of `thread`, if it has one yet.
    pub fn cell(&self, thread: ThreadID) -> (cell: Option<MutPtr<i32>>)
        ensures
            cell == if self.cells().contains_key(thread) {
                Some(MutPtr::<i32>::at(self.cells()[thread]))
            } else {
                None
            },
    {
        broadcast use vstd::std_specs::hash::group_hash_axioms;

        match self.errnos.get(&thread) {
            Some(addr) => Some(Ptr::from_bits(*addr)),
            None => None,
        }
    }

    /// The cell of `thread`. On the first call for a thread the cell is
    /// allocated and holds zero; every later call gives the same cell and
    /// changes nothing.
    pub fn errno_for_thread(&mut self, mem: &mut Mem, thread: ThreadID) -> (cell: MutPtr<i32>)
        requires
            old(mem).wf(),
            old(self).backed_by(old(mem)@),
            old(self).cells().contains_key(thread) || old(mem).can_alloc(CELL_SIZE),
        ensures
            final(mem).wf(),
            final(self).backed_by(final(mem)@),
            final(self).cells() == old(self).cells().insert(thread, cell.addr()),
            final(mem)@.in_bounds(cell.addr() as int, CELL_SIZE as int),
            forall|other: ThreadID|
                #![trigger old(self).cells().contains_key(other)]
                old(self).cells().contains_key(other) ==> final(self).value_of(final(mem)@, other)
                    == old(self).value_of(old(mem)@, other),
            old(self).cells().contains_key(thread) ==> {
                &&& cell.addr() == old(self).cells()[thread]
                &&& *final(self) == *old(self)
                &&& *final(mem) == *old(mem)
            },
            !old(self).cells().contains_key(thread) ==> {
                &&& !old(mem)@.live.contains_key(cell.addr())
                &&& final(mem)@.live == old(mem)@.live.insert(cell.addr(), CELL_SIZE)
                &&& final(mem)@.bytes == old(mem)@.stored(cell.addr() as int, 0i32.guest_bytes())
                &&& final(mem).free_bytes() == old(mem).free_bytes() - reserved_size(CELL_SIZE)
            },
    {
        broadcast use vstd::std_specs::hash::group_hash_axioms;

        proof {
            i32::lemma_layout(0i32);
            mem.lemma_wf();
        }
        match self.errnos.get(&thread) {
            Some(addr) => {
                assert(self.cells() =~= old(self).cells().insert(thread, *addr));
                Ptr::from_bits(*addr)
            },
            None => {
                let cell = mem.alloc_and_write(0i32);
                self.errnos.insert(thread, cell.to_bits());
                proof {
                    mem.lemma_wf();
                }
                cell
            },
        }
    }

    /// Stores `errno` in the cell of `thread`, which is made first where the
    /// thread has none.
    pub fn set_errno_for_thread(&mut self, mem: &mut Mem, thread: ThreadID, errno: i32)
        requires
            old(mem).wf(),
            old(self).backed_by(old(mem)@),
            old(self).cells().contains_key(thread) || old(mem).can_alloc(CELL_SIZE),
        ensures
            final(mem).wf(),
            final(self).backed_by(final(mem)@),
            final(self).cells().contains_key(thread),
            final(mem)@.bytes == old(mem)@.stored(
                final(self).cells()[thread] as int,
                errno.guest_bytes(),
            ),
            forall|other: ThreadID|
                #![trigger old(self).cells().contains_key(other)]
                old(self).cells().contains_key(other) && other != thread ==> old(
                    self,
                ).value_of(old(mem)@, other) == final(self).value_of(final(mem)@, other),
            final(mem)@.range(final(self).cells()[thread] as int, CELL_SIZE as int)
                == errno.guest_bytes(),
            old(self).cells().contains_key(thread) ==> {
                &&& final(self).cells() == old(self).cells()
                &&& final(mem)@.live == old(mem)@.live
                &&& final(mem).free_bytes() == old(mem).free_bytes()
            },
            !old(self).cells().contains_key(thread) ==> {
                &&& !old(mem)@.live.contains_key(final(self).cells()[thread])
                &&& final(self).cells() == old(self).cells().insert(
                    thread,
                    final(self).cells()[thread],
                )
                &&& final(mem)@.live == old(mem)@.live.insert(
                    final(self).cells()[thread],
                    CELL_SIZE,
                )
                &&& final(mem).free_bytes() == old(mem).free_bytes() - reserved_size(CELL_SIZE)
            },
    {
        proof {
            i32::lemma_layout(0i32);
            i32::lemma_layout(errno);
        }
        let ptr = self.errno_for_thread(mem, thread);
        let ghost between = mem@;
        proof {
            mem.lemma_wf();
        }
        mem.write(ptr, errno);
        proof {
            assert(mem@.bytes =~= old(mem)@.stored(ptr.addr() as int, errno.guest_bytes()));
            assert(mem@.range(ptr.addr() as int, CELL_SIZE as int) =~= errno.guest_bytes());
            assert forall|other: ThreadID|
                #![trigger old(self).cells().contains_key(other)]
                old(self).cells().contains_key(other) && other != thread implies old(
                self,
            ).value_of(old(mem)@, other) == self.value_of(mem@, other) by {
                let place = old(self).cells()[other];
                assert(self.cells().contains_key(other) && self.cells().contains_key(thread));
                assert(self.cells()[other] == place);
                assert(place != ptr.addr());
                assert(between.live.contains_key(place) && between.live.contains_key(ptr.addr()));
                assert(self.value_of(mem@, other) =~= self.value_of(between, other));
            }
        }
    }
}

/// The address of the running thread's error cell.
pub fn __error(env: &mut Environment) -> (cell: MutPtr<i32>)
    requires
        old(env).wf(),
        old(env).handles().cells.contains_key(old(env).current_thread) || old(env).mem.can_alloc(
            CELL_SIZE,
        ),
    ensures
        final(env).wf(),
        final(env).handles().cells == old(env).handles().cells.insert(
            old(env).current_thread,
            cell.addr(),
        ),
        old(env).handles().cells.contains_key(old(env).current_thread) ==> {
            &&& cell.addr() == old(env).handles().cells[old(env).current_thread]
            &&& *final(env) == *old(env)
        },
        !old(env).handles().cells.contains_key(old(env).current_thread) ==> {
            &&& !old(env).mem@.live.contains_key(cell.addr())
            &&& final(env).mem@.live == old(env).mem@.live.insert(cell.addr(), CELL_SIZE)
            &&& final(env).mem@.bytes == old(env).mem@.stored(
                cell.addr() as int,
                0i32.guest_bytes(),
            )
        },
        final(env).objc == old(env).objc,
        final(env).threads == old(env).threads,
        final(env).current_thread == old(env).current_thread,
        final(env).libc_state.network == old(env).libc_state.network,
        final(env).libc_state.pthread == old(env).libc_state.pthread,
{
    let thread = env.current_thread;
    let cell = env.libc_state.errno.errno_for_thread(&mut env.mem, thread);
    proof {
        lemma_cell_keeps_env_wf(old(env), env, thread, cell.addr());
    }
    cell
}

/// An environment whose only change is what `errno_for_thread` does to the
/// cells and to memory is still well-formed.
pub proof fn lemma_cell_keeps_env_wf(
    before: &Environment,
    after: &Environment,
    thread: ThreadID,
    cell: VAddr,
)
    requires
        before.wf(),
        thread < before.threads@.len(),
        after.mem.wf(),
        after.libc_state.errno.backed_by(after.mem@),
        after.objc == before.objc,
        after.threads == before.threads,
        after.current_thread == before.current_thread,
        after.libc_state.network == before.libc_state.network,
        after.libc_state.pthread == before.libc_state.pthread,
        after.libc_state.errno.cells() == before.libc_state.errno.cells().insert(thread, cell),
        before.libc_state.errno.cells().contains_key(thread) ==> {
            &&& before.libc_state.errno.cells()[thread] == cell
            &&& after.mem@.live.dom() == before.mem@.live.dom()
        },
        !before.libc_state.errno.cells().contains_key(thread) ==> {
            &&& !before.mem@.live.contains_key(cell)
            &&& after.mem@.live.dom() == before.mem@.live.dom().insert(cell)
        },
    ensures
        after.wf(),
{
    let h = before.handles();
    let g = after.handles();
    assert(h.wf());
    assert(g.semaphores == h.semaphores);
    assert(g.services == h.services);
    assert(g.objects == h.objects);
    assert(forall|addr: VAddr| h.live.contains(addr) ==> g.live.contains(addr));
    if before.libc_state.errno.cells().contains_key(thread) {
        assert(g.cells =~= h.cells);
    } else {
        assert forall|t: ThreadID| #[trigger] g.cells.contains_key(t) implies {
            &&& g.live.contains(g.cells[t])
            &&& !g.semaphores.contains(g.cells[t])
            &&& !g.services.contains(g.cells[t])
            &&& !g.objects.contains(g.cells[t])
        } by {
            if t != thread {
                assert(h.cells.contains_key(t));
            } else {
                assert(!h.live.contains(cell));
                assert(g.live.contains(cell));
                if h.semaphores.contains(cell) {
                    assert(h.live.contains(cell));
                }
                if h.services.contains(cell) {
                    assert(h.live.contains(cell));
                }
                if h.objects.contains(cell) {
                    assert(h.live.contains(cell));
                }
            }
        }
        assert forall|a: ThreadID, b: ThreadID|
            #![trigger g.cells.contains_key(a), g.cells.contains_key(b)]
            g.cells.contains_key(a) && g.cells.contains_key(b) && a != b implies g.cells[a]
            != g.cells[b] by {
            if a != thread {
                assert(h.cells.contains_key(a));
            }
            if b != thread {
                assert(h.cells.contains_key(b));
            }
        }
    }
}

} // verus!
