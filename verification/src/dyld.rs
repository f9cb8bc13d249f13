//! The table of exported symbols.
//!
//! A guest binary calls host code by name. Each name that the host
//! implements has one entry here, with the number of argument slots that the
//! implementation takes. Looking a name up changes nothing and always gives
//! the same answer.

use crate::abi::{read_next_arg, write_next_arg, GuestArg};
use crate::environment::Environment;
use crate::frameworks::core_foundation::time::CFTimeZoneCopySystem;
use crate::frameworks::core_foundation::{CFIndex, CFTypeRef};
use crate::frameworks::core_graphics::cg_image::{
    image_of, is_image, kCGImageAlphaLast, CFDataGetBytes, CFDataGetLength, CFRange,
    CGColorSpaceName, CGDataProviderCopyData, CGImageGetAlphaInfo, CGImageGetColorSpace,
    CGImageGetDataProvider, CGImageGetHeight, CGImageGetWidth, CGImageRelease, CGImageRetain,
};
use crate::libc::errno::{__error, CELL_SIZE};
use crate::libc::network::sockets::{if_indextoname, if_nameindex, interface_name};
use crate::libc::network::INTERFACE_INDEX;
use crate::libc::pthread::semaphore::{
    sem_close, sem_open, sem_post, sem_t, sem_trywait, sem_unlink, sem_wait, SEM_SIZE,
};
use crate::mem::{le_bytes_u32, ConstPtr, MutPtr};
use crate::objc::{AnyHostObject, ObjectEntry, OBJECT_SIZE};
use crate::scheduler::ThreadState;
use vstd::prelude::*;

verus! {

/// The host functions that stand in for guest symbols.
#[derive(Clone, Copy, Debug, PartialEq, Eq, Structural)]
pub enum HostFunction {
    sem_open,
    sem_post,
    sem_wait,
    sem_trywait,
    sem_unlink,
    sem_close,
    __error,
    if_nameindex,
    if_indextoname,
    CGImageRelease,
    CGImageRetain,
    CGImageGetAlphaInfo,
    CGImageGetColorSpace,
    CGImageGetWidth,
    CGImageGetHeight,
    CGImageGetDataProvider,
    CGDataProviderCopyData,
    CFDataGetLength,
    CFDataGetBytes,
    CFTimeZoneCopySystem,
}

/// An exported symbol: its name, the number of argument slots of its
/// implementation, and the implementation.
pub struct Export {
    pub name: Vec<u8>,
    pub arity: usize,
    pub function: HostFunction,
}

/// What a name resolves to.
#[derive(Clone, Copy, Debug, PartialEq, Eq, Structural)]
pub struct Resolved {
    pub arity: usize,
    pub function: HostFunction,
}

/// Why a symbol was not registered.
#[derive(Clone, Copy, Debug, PartialEq, Eq, Structural)]
pub enum ExportError {
    /// The name has an entry already.
    DuplicateName,
}

/// What to do about a call of a symbol that has no entry.
#[derive(Clone, Copy, Debug, PartialEq, Eq, Structural)]
pub enum MissingSymbolPolicy {
    /// Stop the guest.
    HardStop,
    /// Go on as if the call had returned, with no register and no byte of
    /// guest memory changed.
    NoOpStub,
}

/// What became of the call of a symbol by name.
pub enum Lookup {
    /// The symbol has an entry; the call goes to it.
    Found(Resolved),
    /// The symbol has no entry. Its name is given back for the report, with
    /// what the policy says to do next.
    Missing { name: Vec<u8>, policy: MissingSymbolPolicy },
}

/// The exported symbols.
pub struct Dyld {
    exports: Vec<Export>,
}

impl View for Dyld {
    type V = Map<Seq<u8>, Resolved>;

    /// The entries, by name.
    closed spec fn view(&self) -> Map<Seq<u8>, Resolved> {
        Map::new(
            |name: Seq<u8>| exists|i: int| self.names_at(i, name),
            |name: Seq<u8>|
                {
                    let i = choose|i: int| self.names_at(i, name);
                    Resolved { arity: self.exports@[i].arity, function: self.exports@[i].function }
                },
        )
    }
}

impl Dyld {
    /// The entry at index `i` has the name `name`.
    spec fn names_at(&self, i: int, name: Seq<u8>) -> bool {
        0 <= i < self.exports@.len() && self.exports@[i].name@ == name
    }

    /// No two entries have the same name.
    pub closed spec fn wf(&self) -> bool {
        forall|i: int, j: int|
            0 <= i < j < self.exports@.len() ==> self.exports@[i].name@ != self.exports@[j].name@
    }

    /// A table without entries: no name resolves, and the count is zero.
    pub fn new() -> (dyld: Self)
        ensures
            dyld.wf(),
            dyld@ == Map::<Seq<u8>, Resolved>::empty(),
            dyld.entry_count() == 0,
    {
        let dyld = Dyld { exports: Vec::new() };
        assert(dyld@ =~= Map::<Seq<u8>, Resolved>::empty());
        dyld
    }

    /// Number of entries.
    pub fn len(&self) -> (count: usize)
        ensures
            count == self.entry_count(),
    {
        self.exports.len()
    }

    /// Number of entries.
    pub closed spec fn entry_count(&self) -> nat {
        self.exports@.len()
    }

    /// Index of the entry named `name`, if there is one.
    fn position(&self, name: &[u8]) -> (found: Option<usize>)
        requires
            self.wf(),
        ensures
            match found {
                Some(i) => self.names_at(i as int, name@),
                None => forall|i: int| !self.names_at(i, name@),
            },
    {
        let mut i: usize = 0;
        while i < self.exports.len()
            invariant
                0 <= i <= self.exports@.len(),
                forall|k: int| 0 <= k < i ==> self.exports@[k].name@ != name@,
            decreases self.exports@.len() - i,
        {
            if same_bytes(self.exports[i].name.as_slice(), name) {
                return Some(i);
            }
            i = i + 1;
        }
        None
    }

    /// What `name` resolves to, or `None` where it has no entry.
    pub fn resolve(&self, name: &[u8]) -> (found: Option<Resolved>)
        requires
            self.wf(),
        ensures
            found == if self@.contains_key(name@) {
                Some(self@[name@])
            } else {
                None
            },
    {
        match self.position(name) {
            Some(i) => {
                proof {
                    let chosen = choose|k: int| self.names_at(k, name@);
                    assert(chosen == i) by {
                        if chosen < i {
                            assert(self.exports@[chosen].name@ != self.exports@[i as int].name@);
                        }
                        if i < chosen {
                            assert(self.exports@[i as int].name@ != self.exports@[chosen].name@);
                        }
                    }
                }
                Some(Resolved { arity: self.exports[i].arity, function: self.exports[i].function })
            },
            None => None,
        }
    }

    /// Adds an entry. A name that has an entry already is refused, and the
    /// table is left as it was.
    pub fn register(&mut self, name: Vec<u8>, arity: usize, function: HostFunction) -> (outcome:
        Result<(), ExportError>)
        requires
            old(self).wf(),
        ensures
            final(self).wf(),
            outcome == if old(self)@.contains_key(name@) {
                Err::<(), ExportError>(ExportError::DuplicateName)
            } else {
                Ok::<(), ExportError>(())
            },
            final(self)@ == if old(self)@.contains_key(name@) {
                old(self)@
            } else {
                old(self)@.insert(name@, (Resolved { arity, function }))
            },
            final(self).entry_count() == if old(self)@.contains_key(name@) {
                old(self).entry_count()
            } else {
                old(self).entry_count() + 1
            },
    {
        match self.position(name.as_slice()) {
            Some(_) => Err(ExportError::DuplicateName),
            None => {
                let ghost added = name@;
                self.exports.push(Export { name, arity, function });
                proof {
                    let last = old(self).exports@.len() as int;
                    assert(self.names_at(last, added));
                    assert forall|key: Seq<u8>| #[trigger]
                        self@.contains_key(key) <==> old(self)@.insert(
                            added,
                            (Resolved { arity, function }),
                        ).contains_key(key) by {
                        if self@.contains_key(key) {
                            let i = choose|i: int| self.names_at(i, key);
                            if i != last {
                                assert(old(self).names_at(i, key));
                            }
                        }
                        if old(self)@.contains_key(key) {
                            let i = choose|i: int| old(self).names_at(i, key);
                            assert(self.names_at(i, key));
                        }
                    }
                    assert forall|key: Seq<u8>| #[trigger] self@.contains_key(key) implies self@[key]
                        == old(self)@.insert(added, (Resolved { arity, function }))[key] by {
                        let i = choose|i: int| self.names_at(i, key);
                        if key == added {
                            assert(i == last) by {
                                if i != last {
                                    assert(old(self).names_at(i, added));
                                }
                            }
                        } else {
                            assert(old(self).names_at(i, key));
                            let j = choose|j: int| old(self).names_at(j, key);
                            assert(i == j) by {
                                if i < j {
                                    assert(old(self).exports@[i].name@ != old(self).exports@[j].name@);
                                }
                                if j < i {
                                    assert(old(self).exports@[j].name@ != old(self).exports@[i].name@);
                                }
                            }
                        }
                    }
                    assert(self@ =~= old(self)@.insert(added, (Resolved { arity, function })));
                    assert forall|i: int, j: int|
                        0 <= i < j < self.exports@.len() implies self.exports@[i].name@
                        != self.exports@[j].name@ by {
                        if j == last {
                            assert(!old(self).names_at(i, added));
                        }
                    }
                }
                Ok(())
            },
        }
    }

    /// Looks up the symbol that the guest calls. A symbol without an entry
    /// is reported by name, together with what the policy says to do.
    pub fn lookup(&self, name: &[u8], policy: MissingSymbolPolicy) -> (lookup: Lookup)
        requires
            self.wf(),
        ensures
            match lookup {
                Lookup::Found(resolved) => self@.contains_key(name@) && resolved == self@[name@],
                Lookup::Missing { name: reported, policy: chosen } => {
                    &&& !self@.contains_key(name@)
                    &&& reported@ == name@
                    &&& chosen == policy
                },
            },
    {
        match self.resolve(name) {
            Some(resolved) => Lookup::Found(resolved),
            None => Lookup::Missing { name: vstd::slice::slice_to_vec(name), policy },
        }
    }
}

/// Number of argument slots that a host function takes.
pub open spec fn arity_of(function: HostFunction) -> nat {
    match function {
        HostFunction::sem_open => 4,
        HostFunction::CFDataGetBytes => 4,
        HostFunction::if_indextoname => 2,
        HostFunction::__error => 0,
        HostFunction::CFTimeZoneCopySystem => 0,
        _ => 1,
    }
}

pub fn arity(function: HostFunction) -> (count: usize)
    ensures
        count == arity_of(function),
{
    match function {
        HostFunction::sem_open => 4,
        HostFunction::CFDataGetBytes => 4,
        HostFunction::if_indextoname => 2,
        HostFunction::__error => 0,
        HostFunction::CFTimeZoneCopySystem => 0,
        _ => 1,
    }
}

/// Why a call of a host function was not carried out.
#[derive(Clone, Copy, Debug, PartialEq, Eq, Structural)]
pub enum Trap {
    /// The argument window holds fewer slots than the function takes.
    MissingArguments,
    /// The function cannot work on these arguments in this state.
    Refused,
}

/// Whether a host function can work on the arguments in `window`.
pub open spec fn accepts(env: &Environment, function: HostFunction, window: Seq<u32>) -> bool {
    let sched = env.sched();
    let running = sched.threads[env.current_thread as int] == ThreadState::Runnable;
    match function {
        HostFunction::sem_open => env.mem.can_alloc(SEM_SIZE) && window[3] <= i32::MAX,
        HostFunction::sem_post => sched.semaphores.contains_key(window[0]) && (sched.has_waiter(
            window[0],
        ) || sched.semaphores[window[0]].count < i32::MAX),
        HostFunction::sem_wait => sched.semaphores.contains_key(window[0]) && running,
        HostFunction::sem_trywait => sched.semaphores.contains_key(window[0]),
        HostFunction::sem_unlink => true,
        HostFunction::sem_close => sched.semaphores.contains_key(window[0]) && !sched.has_waiter(
            window[0],
        ),
        HostFunction::__error => env.handles().cells.contains_key(env.current_thread)
            || env.mem.can_alloc(CELL_SIZE),
        HostFunction::if_nameindex => true,
        HostFunction::if_indextoname => window[0] == INTERFACE_INDEX && env.mem@.in_bounds(
            window[1] as int,
            4,
        ),
        HostFunction::CGImageRelease => window[0] == 0 || env.objc@.contains_key(window[0]),
        HostFunction::CGImageRetain => window[0] == 0 || (env.objc@.contains_key(window[0])
            && env.objc@[window[0]].refcount < u32::MAX),
        HostFunction::CGImageGetAlphaInfo => true,
        HostFunction::CGImageGetColorSpace => env.mem.can_alloc(OBJECT_SIZE),
        HostFunction::CGImageGetWidth => is_image(&env.objc, window[0]),
        HostFunction::CGImageGetHeight => is_image(&env.objc, window[0]),
        HostFunction::CGImageGetDataProvider => true,
        HostFunction::CGDataProviderCopyData => true,
        HostFunction::CFDataGetLength => is_image(&env.objc, window[0]) && image_of(
            &env.objc,
            window[0],
        ).data().len() <= CFIndex::MAX,
        HostFunction::CFDataGetBytes => is_image(&env.objc, window[0]) && env.mem@.in_bounds(
            window[3] as int,
            image_of(&env.objc, window[0]).data().len() as int,
        ),
        HostFunction::CFTimeZoneCopySystem => true,
    }
}

/// What a host function that returns nothing leaves in the return slots.
pub open spec fn nothing() -> Seq<u32> {
    Seq::<u32>::empty()
}

/// What a call of a host function has done: `returned` holds the slots of
/// its return value, and `after` is the environment that the call leaves.
pub open spec fn carried_out(
    before: &Environment,
    after: &Environment,
    function: HostFunction,
    window: Seq<u32>,
    returned: Seq<u32>,
) -> bool {
    let sched = before.sched();
    let thread = before.current_thread;
    match function {
        HostFunction::sem_open => {
            &&& returned.len() == 1
            &&& returned[0] != 0
            &&& !before.mem@.live.contains_key(returned[0])
            &&& after.sched() == sched.open(returned[0], window[3] as int)
            &&& after.mem@ == before.mem@.allocate(returned[0], SEM_SIZE).write(
                returned[0] as int,
                le_bytes_u32(0),
            )
            &&& after.objc == before.objc
            &&& after.current_thread == before.current_thread
            &&& after.libc_state.errno == before.libc_state.errno
            &&& after.libc_state.network == before.libc_state.network
        },
        HostFunction::sem_post => {
            &&& returned == seq![0u32]
            &&& after.sched() == sched.post(window[0])
            &&& after.same_but_sched(before)
        },
        HostFunction::sem_wait => {
            &&& returned == seq![0u32]
            &&& after.sched() == sched.wait(window[0], thread, true)
            &&& after.same_but_sched(before)
        },
        HostFunction::sem_trywait => {
            &&& returned == (if sched.available(window[0]) {
                0i32
            } else {
                -1i32
            }).slots()
            &&& after.sched() == sched.wait(window[0], thread, false)
            &&& after.same_but_sched(before)
        },
        HostFunction::sem_unlink => returned == seq![0u32] && *after == *before,
        HostFunction::sem_close => {
            &&& returned == seq![0u32]
            &&& after.sched() == sched.close(window[0])
            &&& after.mem@ == before.mem@.free(window[0])
            &&& after.objc == before.objc
            &&& after.current_thread == before.current_thread
            &&& after.libc_state.errno == before.libc_state.errno
            &&& after.libc_state.network == before.libc_state.network
        },
        HostFunction::__error => {
            &&& returned.len() == 1
            &&& after.handles().cells == before.handles().cells.insert(thread, returned[0])
            &&& before.handles().cells.contains_key(thread) ==> *after == *before
                && returned[0] == before.handles().cells[thread]
            &&& !before.handles().cells.contains_key(thread) ==> {
                &&& !before.mem@.live.contains_key(returned[0])
                &&& after.mem@ == before.mem@.allocate(returned[0], CELL_SIZE).write(
                    returned[0] as int,
                    le_bytes_u32(0),
                )
                &&& after.objc == before.objc
                &&& after.threads == before.threads
                &&& after.current_thread == before.current_thread
                &&& after.libc_state.network == before.libc_state.network
                &&& after.libc_state.pthread == before.libc_state.pthread
            }
        },
        HostFunction::if_nameindex => returned == seq![0u32] && *after == *before,
        HostFunction::if_indextoname => {
            &&& returned == seq![window[1]]
            &&& after.mem@ == before.mem@.write(window[1] as int, interface_name())
            &&& after.same_but_mem(before)
        },
        HostFunction::CGImageRelease => {
            &&& returned == nothing()
            &&& window[0] == 0 ==> *after == *before
            &&& window[0] != 0 && before.objc@[window[0]].refcount == 1 ==> {
                &&& after.objc@ == before.objc@.remove(window[0])
                &&& after.mem@ == before.mem@.free(window[0])
            }
            &&& window[0] != 0 && before.objc@[window[0]].refcount != 1 ==> {
                &&& after.objc@ == before.objc@.insert(
                    window[0],
                    (ObjectEntry {
                        refcount: (before.objc@[window[0]].refcount - 1) as u32,
                        host_object: before.objc@[window[0]].host_object,
                    }),
                )
                &&& after.mem@ == before.mem@
            }
            &&& after.threads == before.threads
            &&& after.current_thread == before.current_thread
            &&& after.libc_state == before.libc_state
        },
        HostFunction::CGImageRetain => {
            &&& returned == seq![window[0]]
            &&& window[0] == 0 ==> *after == *before
            &&& window[0] != 0 ==> after.objc@ == before.objc@.insert(
                window[0],
                (ObjectEntry {
                    refcount: (before.objc@[window[0]].refcount + 1) as u32,
                    host_object: before.objc@[window[0]].host_object,
                }),
            )
            &&& after.mem == before.mem
            &&& after.threads == before.threads
            &&& after.current_thread == before.current_thread
            &&& after.libc_state == before.libc_state
        },
        HostFunction::CGImageGetAlphaInfo => returned == seq![kCGImageAlphaLast] && *after
            == *before,
        HostFunction::CGImageGetColorSpace => {
            &&& returned.len() == 1
            &&& returned[0] != 0
            &&& !before.mem@.live.contains_key(returned[0])
            &&& !before.objc@.contains_key(returned[0])
            &&& after.objc@ == before.objc@.insert(
                returned[0],
                (ObjectEntry {
                    refcount: 1,
                    host_object: AnyHostObject::CGColorSpace(CGColorSpaceName::GenericRGB),
                }),
            )
            &&& after.mem@ == before.mem@.allocate(returned[0], OBJECT_SIZE).write(
                returned[0] as int,
                seq![0u8, 0u8, 0u8, 0u8],
            )
            &&& after.threads == before.threads
            &&& after.current_thread == before.current_thread
            &&& after.libc_state == before.libc_state
        },
        HostFunction::CGImageGetWidth => returned == seq![
            image_of(&before.objc, window[0]).width(),
        ] && *after == *before,
        HostFunction::CGImageGetHeight => returned == seq![
            image_of(&before.objc, window[0]).height(),
        ] && *after == *before,
        HostFunction::CGImageGetDataProvider => returned == seq![window[0]] && *after == *before,
        HostFunction::CGDataProviderCopyData => returned == seq![window[0]] && *after == *before,
        HostFunction::CFDataGetLength => returned == seq![
            image_of(&before.objc, window[0]).data().len() as u32,
        ] && *after == *before,
        HostFunction::CFDataGetBytes => {
            &&& returned == nothing()
            &&& after.mem@ == before.mem@.write(
                window[3] as int,
                image_of(&before.objc, window[0]).data(),
            )
            &&& after.same_but_mem(before)
        },
        HostFunction::CFTimeZoneCopySystem => returned == seq![0u32] && *after == *before,
    }
}

/// Whether `object` is an image object.
fn is_image_object(env: &Environment, object: CFTypeRef) -> (image: bool)
    ensures
        image == is_image(&env.objc, object.addr()),
{
    if !env.objc.is_object(object) {
        return false;
    }
    match env.objc.borrow(object) {
        AnyHostObject::CGImage(_) => true,
        _ => false,
    }
}

/// Whether a host function can work on the arguments in `window`.
pub fn check_call(env: &Environment, function: HostFunction, window: &[u32]) -> (accepted: bool)
    requires
        env.wf(),
        window@.len() >= arity_of(function),
    ensures
        accepted == accepts(env, function, window@),
{
    let accepted = match function {
        HostFunction::sem_open => env.mem.has_room(SEM_SIZE) && window[3] <= 0x7fff_ffff,
        HostFunction::sem_post => {
            if !env.is_semaphore(window[0]) {
                false
            } else {
                env.semaphore_has_waiter(window[0]) || env.semaphore_count(window[0]) < i32::MAX
            }
        },
        HostFunction::sem_wait => env.is_semaphore(window[0]) && env.is_runnable(
            env.current_thread,
        ),
        HostFunction::sem_trywait => env.is_semaphore(window[0]),
        HostFunction::sem_unlink => true,
        HostFunction::sem_close => {
            if !env.is_semaphore(window[0]) {
                false
            } else {
                !env.semaphore_has_waiter(window[0])
            }
        },
        HostFunction::__error => env.libc_state.errno.cell(env.current_thread).is_some()
            || env.mem.has_room(CELL_SIZE),
        HostFunction::if_nameindex => true,
        HostFunction::if_indextoname => window[0] == INTERFACE_INDEX && env.mem.is_valid_range(
            window[1],
            4,
        ),
        HostFunction::CGImageRelease => window[0] == 0 || env.objc.is_object(
            CFTypeRef::from_bits(window[0]),
        ),
        HostFunction::CGImageRetain => {
            if window[0] == 0 {
                true
            } else {
                match env.objc.refcount(CFTypeRef::from_bits(window[0])) {
                    Some(count) => count < u32::MAX,
                    None => false,
                }
            }
        },
        HostFunction::CGImageGetAlphaInfo => true,
        HostFunction::CGImageGetColorSpace => env.mem.has_room(OBJECT_SIZE),
        HostFunction::CGImageGetWidth => is_image_object(env, CFTypeRef::from_bits(window[0])),
        HostFunction::CGImageGetHeight => is_image_object(env, CFTypeRef::from_bits(window[0])),
        HostFunction::CGImageGetDataProvider => true,
        HostFunction::CGDataProviderCopyData => true,
        HostFunction::CFDataGetLength => {
            let data = CFTypeRef::from_bits(window[0]);
            if !is_image_object(env, data) {
                false
            } else {
                crate::frameworks::core_graphics::cg_image::borrow_image(&env.objc, data).len()
                    <= 0x7fff_ffff
            }
        },
        HostFunction::CFDataGetBytes => {
            let data = CFTypeRef::from_bits(window[0]);
            if !is_image_object(env, data) {
                false
            } else {
                let len = crate::frameworks::core_graphics::cg_image::borrow_image(
                    &env.objc,
                    data,
                ).len();
                len <= 0xffff_ffff && env.mem.is_valid_range(window[3], len as u32)
            }
        },
        HostFunction::CFTimeZoneCopySystem => true,
    };
    proof {
        env.mem.lemma_wf();
    }
    accepted
}

/// Calls a host function on behalf of the guest: takes its arguments out
/// of the argument window, each by its own slot count, lets the function
/// work, and packs what it returns into return slots. A call that the
/// function cannot work on is refused, and nothing is changed.
pub fn call_host_function(env: &mut Environment, function: HostFunction, window: &[u32]) -> (outcome:
    Result<Vec<u32>, Trap>)
    requires
        old(env).wf(),
    ensures
        final(env).wf(),
        match outcome {
            Err(trap) => {
                &&& *final(env) == *old(env)
                &&& trap == if window@.len() < arity_of(function) {
                    Trap::MissingArguments
                } else {
                    Trap::Refused
                }
                &&& window@.len() < arity_of(function) || !accepts(old(env), function, window@)
            },
            Ok(returned) => {
                &&& window@.len() >= arity_of(function)
                &&& accepts(old(env), function, window@)
                &&& carried_out(old(env), final(env), function, window@, returned@)
            },
        },
{
    if window.len() < arity(function) {
        return Err(Trap::MissingArguments);
    }
    if !check_call(env, function, window) {
        return Err(Trap::Refused);
    }
    proof {
        u32::lemma_round_trip(0u32);
        i32::lemma_round_trip(0i32);
        u16::lemma_round_trip(0u16);
        ConstPtr::<u8>::lemma_round_trip(ConstPtr::<u8>::at(0));
        MutPtr::<u8>::lemma_round_trip(MutPtr::<u8>::at(0));
        MutPtr::<sem_t>::lemma_round_trip(MutPtr::<sem_t>::at(0));
        CFTypeRef::lemma_round_trip(CFTypeRef::at(0));
        CFRange::lemma_round_trip(CFRange { location: 0, length: 0 });
    }
    let mut returned: Vec<u32> = Vec::new();
    let mut offset: usize = 0;
    match function {
        HostFunction::sem_open => {
            let name: ConstPtr<u8> = read_next_arg(window, &mut offset);
            let oflag: i32 = read_next_arg(window, &mut offset);
            let mode: u16 = read_next_arg(window, &mut offset);
            let value: u32 = read_next_arg(window, &mut offset);
            let sem = sem_open(env, name, oflag, mode, value);
            write_next_arg(&mut returned, sem);
        },
        HostFunction::sem_post => {
            let sem: MutPtr<sem_t> = read_next_arg(window, &mut offset);
            let result = sem_post(env, sem);
            write_next_arg(&mut returned, result);
            assert(0i32 as u32 == 0u32) by (bit_vector);
        },
        HostFunction::sem_wait => {
            let sem: MutPtr<sem_t> = read_next_arg(window, &mut offset);
            let result = sem_wait(env, sem);
            write_next_arg(&mut returned, result);
            assert(0i32 as u32 == 0u32) by (bit_vector);
        },
        HostFunction::sem_trywait => {
            let sem: MutPtr<sem_t> = read_next_arg(window, &mut offset);
            let result = sem_trywait(env, sem);
            write_next_arg(&mut returned, result);
        },
        HostFunction::sem_unlink => {
            let name: ConstPtr<u8> = read_next_arg(window, &mut offset);
            let result = sem_unlink(env, name);
            write_next_arg(&mut returned, result);
            assert(0i32 as u32 == 0u32) by (bit_vector);
        },
        HostFunction::sem_close => {
            let sem: MutPtr<sem_t> = read_next_arg(window, &mut offset);
            let result = sem_close(env, sem);
            write_next_arg(&mut returned, result);
            assert(0i32 as u32 == 0u32) by (bit_vector);
            assert(env.mem@ =~= old(env).mem@.free(window@[0]));
        },
        HostFunction::__error => {
            let cell = __error(env);
            write_next_arg(&mut returned, cell);
        },
        HostFunction::if_nameindex => {
            let ifname: ConstPtr<u8> = read_next_arg(window, &mut offset);
            let result = if_nameindex(env, ifname);
            write_next_arg(&mut returned, result);
            assert(0i32 as u32 == 0u32) by (bit_vector);
        },
        HostFunction::if_indextoname => {
            let ifindex: u32 = read_next_arg(window, &mut offset);
            let ifname: ConstPtr<u8> = read_next_arg(window, &mut offset);
            let name = if_indextoname(env, ifindex, ifname);
            write_next_arg(&mut returned, name);
        },
        HostFunction::CGImageRelease => {
            let image: CFTypeRef = read_next_arg(window, &mut offset);
            CGImageRelease(env, image);
        },
        HostFunction::CGImageRetain => {
            let image: CFTypeRef = read_next_arg(window, &mut offset);
            let retained = CGImageRetain(env, image);
            write_next_arg(&mut returned, retained);
        },
        HostFunction::CGImageGetAlphaInfo => {
            let image: CFTypeRef = read_next_arg(window, &mut offset);
            let info = CGImageGetAlphaInfo(env, image);
            write_next_arg(&mut returned, info);
        },
        HostFunction::CGImageGetColorSpace => {
            let image: CFTypeRef = read_next_arg(window, &mut offset);
            let space = CGImageGetColorSpace(env, image);
            write_next_arg(&mut returned, space);
        },
        HostFunction::CGImageGetWidth => {
            let image: CFTypeRef = read_next_arg(window, &mut offset);
            let width = CGImageGetWidth(env, image);
            write_next_arg(&mut returned, width);
        },
        HostFunction::CGImageGetHeight => {
            let image: CFTypeRef = read_next_arg(window, &mut offset);
            let height = CGImageGetHeight(env, image);
            write_next_arg(&mut returned, height);
        },
        HostFunction::CGImageGetDataProvider => {
            let image: CFTypeRef = read_next_arg(window, &mut offset);
            let provider = CGImageGetDataProvider(env, image);
            write_next_arg(&mut returned, provider);
        },
        HostFunction::CGDataProviderCopyData => {
            let provider: CFTypeRef = read_next_arg(window, &mut offset);
            let data = CGDataProviderCopyData(env, provider);
            write_next_arg(&mut returned, data);
        },
        HostFunction::CFDataGetLength => {
            let data: CFTypeRef = read_next_arg(window, &mut offset);
            let length = CFDataGetLength(env, data);
            write_next_arg(&mut returned, length);
        },
        HostFunction::CFDataGetBytes => {
            let data: CFTypeRef = read_next_arg(window, &mut offset);
            let range: CFRange = read_next_arg(window, &mut offset);
            let buffer: MutPtr<u8> = read_next_arg(window, &mut offset);
            CFDataGetBytes(env, data, range, buffer);
        },
        HostFunction::CFTimeZoneCopySystem => {
            let zone = CFTimeZoneCopySystem(env);
            write_next_arg(&mut returned, zone);
        },
    }
    Ok(returned)
}

/// What became of the call of a symbol by name.
pub enum SymbolCall {
    /// The call was carried out; these are the slots of its return value.
    Returned(Vec<u32>),
    /// The symbol has an entry, but the call was not carried out.
    Trapped(Trap),
    /// The symbol has no entry. Its name is given back for the report, with
    /// what the policy says to do next.
    Missing { name: Vec<u8>, policy: MissingSymbolPolicy },
}

impl Dyld {
    /// Calls the symbol `name` on behalf of the guest, with the arguments in
    /// `window`. A symbol without an entry is reported by name and nothing
    /// is changed; so is a call with fewer argument slots than the entry
    /// asks for, or one that the function cannot work on.
    pub fn call_symbol(
        &self,
        env: &mut Environment,
        name: &[u8],
        window: &[u32],
        policy: MissingSymbolPolicy,
    ) -> (outcome: SymbolCall)
        requires
            self.wf(),
            old(env).wf(),
        ensures
            final(env).wf(),
            match outcome {
                SymbolCall::Missing { name: reported, policy: chosen } => {
                    &&& !self@.contains_key(name@)
                    &&& reported@ == name@
                    &&& chosen == policy
                    &&& *final(env) == *old(env)
                },
                SymbolCall::Trapped(trap) => {
                    &&& self@.contains_key(name@)
                    &&& *final(env) == *old(env)
                    &&& trap == if window@.len() < self@[name@].arity || window@.len() < arity_of(
                        self@[name@].function,
                    ) {
                        Trap::MissingArguments
                    } else {
                        Trap::Refused
                    }
                    &&& trap == Trap::Refused ==> !accepts(
                        old(env),
                        self@[name@].function,
                        window@,
                    )
                },
                SymbolCall::Returned(returned) => {
                    &&& self@.contains_key(name@)
                    &&& window@.len() >= self@[name@].arity
                    &&& window@.len() >= arity_of(self@[name@].function)
                    &&& accepts(old(env), self@[name@].function, window@)
                    &&& carried_out(
                        old(env),
                        final(env),
                        self@[name@].function,
                        window@,
                        returned@,
                    )
                },
            },
    {
        match self.lookup(name, policy) {
            Lookup::Missing { name, policy } => SymbolCall::Missing { name, policy },
            Lookup::Found(resolved) => {
                if window.len() < resolved.arity {
                    return SymbolCall::Trapped(Trap::MissingArguments);
                }
                match call_host_function(env, resolved.function, window) {
                    Ok(returned) => SymbolCall::Returned(returned),
                    Err(trap) => SymbolCall::Trapped(trap),
                }
            },
        }
    }
}

/// Whether two byte strings are the same.
pub fn same_bytes(a: &[u8], b: &[u8]) -> (same: bool)
    ensures
        same == (a@ == b@),
{
    if a.len() != b.len() {
        return false;
    }
    let mut i: usize = 0;
    while i < a.len()
        invariant
            0 <= i <= a@.len(),
            a@.len() == b@.len(),
            forall|k: int| 0 <= k < i ==> a@[k] == b@[k],
        decreases a@.len() - i,
    {
        if a[i] != b[i] {
            return false;
        }
        i = i + 1;
    }
    assert(a@ =~= b@);
    true
}

} // verus!
