//! Core Foundation.

pub mod time;

use crate::environment::Environment;
use crate::mem::VAddr;
use crate::objc::{id, ObjectEntry};
use crate::scheduler::ThreadID;
use vstd::prelude::*;

verus! {

/// A reference to an object of any type.
pub type CFTypeRef = id;

/// A count or an index; signed, and a slot wide.
pub type CFIndex = i32;

/// Adds an owner to `object` and gives it back.
pub fn CFRetain(env: &mut Environment, object: CFTypeRef) -> (retained: CFTypeRef)
    requires
        old(env).wf(),
        !object.is_null(),
        old(env).objc@.contains_key(object.addr()),
        old(env).objc@[object.addr()].refcount < u32::MAX,
    ensures
        final(env).wf(),
        retained == object,
        final(env).objc@ == old(env).objc@.insert(
            object.addr(),
            (ObjectEntry {
                refcount: (old(env).objc@[object.addr()].refcount + 1) as u32,
                host_object: old(env).objc@[object.addr()].host_object,
            }),
        ),
        final(env).mem == old(env).mem,
        final(env).threads == old(env).threads,
        final(env).current_thread == old(env).current_thread,
        final(env).libc_state == old(env).libc_state,
{
    env.objc.retain(object);
    proof {
        let h = old(env).handles();
        let g = env.handles();
        assert(g.objects =~= h.objects);
        assert(g.live == h.live);
        assert(g.cells == h.cells);
        assert(g.services == h.services);
        assert(g.semaphores == h.semaphores);
        assert(env.sched() == old(env).sched());
    }
    object
}

/// Drops an owner of `object`. With the last owner gone the object is
/// removed and its guest memory freed.
pub fn CFRelease(env: &mut Environment, object: CFTypeRef)
    requires
        old(env).wf(),
        !object.is_null(),
        old(env).objc@.contains_key(object.addr()),
    ensures
        final(env).wf(),
        old(env).objc@[object.addr()].refcount == 1 ==> {
            &&& final(env).objc@ == old(env).objc@.remove(object.addr())
            &&& final(env).mem@ == old(env).mem@.free(object.addr())
        },
        old(env).objc@[object.addr()].refcount != 1 ==> {
            &&& final(env).objc@ == old(env).objc@.insert(
                object.addr(),
                (ObjectEntry {
                    refcount: (old(env).objc@[object.addr()].refcount - 1) as u32,
                    host_object: old(env).objc@[object.addr()].host_object,
                }),
            )
            &&& final(env).mem@ == old(env).mem@
        },
        final(env).mem.free_bytes() == old(env).mem.free_bytes(),
        final(env).threads == old(env).threads,
        final(env).current_thread == old(env).current_thread,
        final(env).libc_state == old(env).libc_state,
{
    proof {
        assert(old(env).objc.backed_by(old(env).mem@)) by {
            let h = old(env).handles();
            assert forall|o: VAddr| #[trigger] old(env).objc@.contains_key(o) implies old(
                env,
            ).mem@.live.contains_key(o) by {
                assert(h.objects.contains(o));
            }
        }
    }
    let freed = env.objc.release(object, &mut env.mem);
    proof {
        let h = old(env).handles();
        let g = env.handles();
        assert(h.wf());
        assert(g.cells == h.cells);
        assert(g.services == h.services);
        assert(g.semaphores == h.semaphores);
        assert(env.sched() == old(env).sched());
        assert(h.objects.contains(object.addr()));
        if freed {
            assert(g.objects =~= h.objects.remove(object.addr()));
            assert(g.live =~= h.live.remove(object.addr()));
            assert(env.mem@ =~= old(env).mem@.free(object.addr()));
            assert forall|thread: ThreadID| #[trigger] g.cells.contains_key(thread) implies g.live.contains(
                g.cells[thread],
            ) by {
                assert(h.cells.contains_key(thread));
            }
            assert forall|addr: VAddr| #[trigger] g.semaphores.contains(addr) implies g.live.contains(
                addr,
            ) by {
                assert(h.semaphores.contains(addr));
            }
            assert forall|addr: VAddr| #[trigger] g.services.contains(addr) implies g.live.contains(
                addr,
            ) by {
                assert(h.services.contains(addr));
            }
            assert forall|thread: ThreadID| #[trigger]
                env.libc_state.errno.cells().contains_key(thread) implies env.mem@.live.contains_key(
                env.libc_state.errno.cells()[thread],
            ) && env.mem@.live[env.libc_state.errno.cells()[thread]]
                == crate::libc::errno::CELL_SIZE by {
                assert(h.cells.contains_key(thread));
            }
        } else {
            assert(g.objects =~= h.objects);
            assert(g.live == h.live);
            assert(env.mem@ =~= old(env).mem@);
        }
    }
}

} // verus!
