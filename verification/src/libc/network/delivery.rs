//! Carrying out queued completions on the guest thread.
//!
//! A completion is delivered in two steps around the call of the guest
//! function: `begin` finds the guest handle of the service, copies the
//! completion's data into fresh guest allocations and packs the arguments;
//! `finish` frees the copies once the guest function has returned. A
//! completion whose service was closed meanwhile has no handle to be
//! delivered with: `service_known` tells, and `begin` is not for it.

use crate::abi::{write_next_arg, GuestFunction};
use crate::environment::{lemma_mem_change_keeps_wf, Environment};
use crate::handle_map::{handle_of, has_resource};
use crate::libc::network::{
    Completion, CompletionView, DNSServiceRef, HostServiceRef, INTERFACE_INDEX,
};
use crate::mem::{
    lemma_write_keeps_elsewhere, lemma_write_reads_back, reserved_size, ConstPtr, GuestUSize,
    MemView, MutPtr, MutVoidPtr, VAddr,
};
use vstd::prelude::*;

verus! {

/// A call of a guest function that the host is about to make.
pub struct GuestCall {
    pub function: GuestFunction,
    /// The argument slots, in order.
    pub args: Vec<u32>,
    /// Guest allocations that hold the call's data and are to be freed, in
    /// this order, once the call has returned.
    pub temporaries: Vec<MutVoidPtr>,
}

impl MemView {
    /// The view after `data` has been stored in a new block at `base`.
    pub open spec fn with_block(self, base: VAddr, data: Seq<u8>) -> MemView {
        self.allocate(base, data.len() as GuestUSize).write(base as int, data)
    }
}

/// Guest memory that carrying out a completion takes.
pub open spec fn bytes_needed(completion: CompletionView) -> int {
    match completion {
        CompletionView::BrowseReply { service_name, regtype, reply_domain, .. } => reserved_size(
            (service_name.len() + 1) as GuestUSize,
        ) + reserved_size((regtype.len() + 1) as GuestUSize) + reserved_size(
            (reply_domain.len() + 1) as GuestUSize,
        ),
        CompletionView::ResolveReply { fullname, host_target, txt_record, .. } => reserved_size(
            (fullname.len() + 1) as GuestUSize,
        ) + reserved_size((host_target.len() + 1) as GuestUSize) + reserved_size(
            (txt_record.len() + 1) as GuestUSize,
        ),
        CompletionView::RegisterReply { name, regtype, domain, .. } => reserved_size(
            (name.len() + 1) as GuestUSize,
        ) + reserved_size((regtype.len() + 1) as GuestUSize) + reserved_size(
            (domain.len() + 1) as GuestUSize,
        ),
        CompletionView::QueryRecordReply { fullname, rdata, .. } => reserved_size(
            (fullname.len() + 1) as GuestUSize,
        ) + reserved_size(rdata.len() as GuestUSize),
    }
}

/// Every piece of data of the completion is short enough to be given a
/// guest allocation.
pub open spec fn data_fits_guest(completion: CompletionView) -> bool {
    match completion {
        CompletionView::BrowseReply { service_name, regtype, reply_domain, .. } => {
            &&& service_name.len() < GuestUSize::MAX
            &&& regtype.len() < GuestUSize::MAX
            &&& reply_domain.len() < GuestUSize::MAX
        },
        CompletionView::ResolveReply { fullname, host_target, txt_record, .. } => {
            &&& fullname.len() < GuestUSize::MAX
            &&& host_target.len() < GuestUSize::MAX
            &&& txt_record.len() < GuestUSize::MAX
        },
        CompletionView::RegisterReply { name, regtype, domain, .. } => {
            &&& name.len() < GuestUSize::MAX
            &&& regtype.len() < GuestUSize::MAX
            &&& domain.len() < GuestUSize::MAX
        },
        CompletionView::QueryRecordReply { fullname, rdata, .. } => {
            &&& fullname.len() < GuestUSize::MAX
            &&& rdata.len() <= u16::MAX
        },
    }
}

/// The host reference whose guest handle the completion's call is given.
pub open spec fn service_of(completion: CompletionView) -> HostServiceRef {
    match completion {
        CompletionView::BrowseReply { sd_ref, .. } => sd_ref,
        CompletionView::ResolveReply { sd_ref, .. } => sd_ref,
        CompletionView::RegisterReply { sd_ref, .. } => sd_ref,
        CompletionView::QueryRecordReply { sd_ref, .. } => sd_ref,
    }
}

/// The argument slots of the completion's call, where `handle` is the guest
/// handle of its service and `buffers` are the addresses of the guest
/// copies of its data, in the order of the completion's fields.
pub open spec fn call_args(completion: CompletionView, handle: VAddr, buffers: Seq<VAddr>) -> Seq<
    u32,
> {
    match completion {
        CompletionView::BrowseReply { flags, error_code, .. } => seq![
            handle,
            flags,
            INTERFACE_INDEX,
            error_code as u32,
            buffers[0],
            buffers[1],
            buffers[2],
            0u32,
        ],
        CompletionView::ResolveReply { flags, error_code, port, txt_len, .. } => seq![
            handle,
            flags,
            INTERFACE_INDEX,
            error_code as u32,
            buffers[0],
            buffers[1],
            port as u32,
            txt_len as u32,
            buffers[2],
            0u32,
        ],
        CompletionView::RegisterReply { flags, error_code, .. } => seq![
            handle,
            flags,
            error_code as u32,
            buffers[0],
            buffers[1],
            buffers[2],
            0u32,
        ],
        CompletionView::QueryRecordReply {
            flags,
            error_code,
            rrtype,
            rrclass,
            rdata,
            ttl,
            ..
        } => seq![
            handle,
            flags,
            INTERFACE_INDEX,
            error_code as u32,
            buffers[0],
            rrtype as u32,
            rrclass as u32,
            rdata.len() as u32,
            buffers[1],
            ttl,
            0u32,
        ],
    }
}

/// The addresses of the guest copies of the completion's data, as they
/// stand among the argument slots `args` of its call, in the order of the
/// completion's fields.
pub open spec fn buffers_of(completion: CompletionView, args: Seq<u32>) -> Seq<VAddr> {
    match completion {
        CompletionView::BrowseReply { .. } => seq![args[4], args[5], args[6]],
        CompletionView::ResolveReply { .. } => seq![args[4], args[5], args[8]],
        CompletionView::RegisterReply { .. } => seq![args[3], args[4], args[5]],
        CompletionView::QueryRecordReply { .. } => seq![args[4], args[8]],
    }
}

/// The guest function that the completion's call goes to.
pub open spec fn call_target(completion: CompletionView) -> GuestFunction {
    match completion {
        CompletionView::BrowseReply { callback, .. } => callback,
        CompletionView::ResolveReply { callback, .. } => callback,
        CompletionView::RegisterReply { callback, .. } => callback,
        CompletionView::QueryRecordReply { callback, .. } => callback,
    }
}

/// The data of the completion that is copied into guest memory, piece by
/// piece in the order of copying, each as the bytes that are stored: every
/// string with a zero byte behind it, record data as it is.
pub open spec fn call_data(completion: CompletionView) -> Seq<Seq<u8>> {
    match completion {
        CompletionView::BrowseReply { service_name, regtype, reply_domain, .. } => seq![
            service_name.push(0u8),
            regtype.push(0u8),
            reply_domain.push(0u8),
        ],
        CompletionView::ResolveReply { fullname, host_target, txt_record, .. } => seq![
            fullname.push(0u8),
            host_target.push(0u8),
            txt_record.push(0u8),
        ],
        CompletionView::RegisterReply { name, regtype, domain, .. } => seq![
            name.push(0u8),
            regtype.push(0u8),
            domain.push(0u8),
        ],
        CompletionView::QueryRecordReply { fullname, rdata, .. } => seq![
            fullname.push(0u8),
            rdata,
        ],
    }
}

/// The buffers in the order in which they are freed after the call.
pub open spec fn free_order(completion: CompletionView, buffers: Seq<VAddr>) -> Seq<VAddr> {
    match completion {
        CompletionView::BrowseReply { .. } => seq![buffers[2], buffers[1], buffers[0]],
        CompletionView::ResolveReply { .. } => seq![buffers[0], buffers[1], buffers[2]],
        CompletionView::RegisterReply { .. } => seq![buffers[0], buffers[1], buffers[2]],
        CompletionView::QueryRecordReply { .. } => seq![buffers[0], buffers[1]],
    }
}

/// Guest memory after the pieces of `data` have been stored, one after the
/// other, in new blocks at `buffers`.
pub open spec fn with_blocks(mem: MemView, buffers: Seq<VAddr>, data: Seq<Seq<u8>>) -> MemView
    decreases data.len(),
{
    if data.len() == 0 {
        mem
    } else {
        with_blocks(mem, buffers.drop_last(), data.drop_last()).with_block(
            buffers.last(),
            data.last(),
        )
    }
}

/// `buffers` are the places of the guest copies that `begin` has made of
/// the completion's data: as many as there are pieces, each a block that
/// was not live before, no two the same, and each holding its piece.
pub open spec fn buffers_hold(
    before: MemView,
    after: MemView,
    completion: CompletionView,
    buffers: Seq<VAddr>,
) -> bool {
    let data = call_data(completion);
    &&& buffers.len() == data.len()
    &&& after == with_blocks(before, buffers, data)
    &&& forall|i: int|
        0 <= i < buffers.len() ==> {
            &&& !before.live.contains_key(#[trigger] buffers[i])
            &&& after.live.contains_key(buffers[i])
            &&& after.range(buffers[i] as int, data[i].len() as int) == data[i]
        }
    &&& forall|i: int, j: int| 0 <= i < j < buffers.len() ==> buffers[i] != buffers[j]
}

/// The addresses of the pointers in `temporaries`.
pub open spec fn addresses(temporaries: Seq<MutVoidPtr>) -> Seq<VAddr> {
    temporaries.map_values(|ptr: MutVoidPtr| ptr.addr())
}

impl Completion {
    /// The host reference whose guest handle the completion's call is given.
    pub fn service(&self) -> (service: HostServiceRef)
        ensures
            service == service_of(self@),
    {
        match self {
            Completion::BrowseReply { sd_ref, .. } => *sd_ref,
            Completion::ResolveReply { sd_ref, .. } => *sd_ref,
            Completion::RegisterReply { sd_ref, .. } => *sd_ref,
            Completion::QueryRecordReply { sd_ref, .. } => *sd_ref,
        }
    }

    /// Whether the completion's service still has a guest handle. It has
    /// none where the service was closed while the completion was on its
    /// way.
    pub fn service_known(&self, env: &Environment) -> (known: bool)
        requires
            env.wf(),
        ensures
            known == has_resource(env.libc_state.network.service_refs@, service_of(self@)),
    {
        env.libc_state.network.service_refs.contains_resource(self.service())
    }

    /// Whether the guest has room for the completion's data.
    pub fn fits(&self, env: &Environment) -> (fits: bool)
        requires
            env.wf(),
        ensures
            fits == (data_fits_guest(self@) && bytes_needed(self@) <= env.mem.free_bytes()),
    {
        let free: u64 = env.mem.available() as u64;
        match self {
            Completion::BrowseReply { service_name, regtype, reply_domain, .. } => {
                three_strings_fit(service_name, regtype, reply_domain, free)
            },
            Completion::ResolveReply { fullname, host_target, txt_record, .. } => {
                three_strings_fit(fullname, host_target, txt_record, free)
            },
            Completion::RegisterReply { name, regtype, domain, .. } => {
                three_strings_fit(name, regtype, domain, free)
            },
            Completion::QueryRecordReply { fullname, rdata, .. } => {
                if fullname.len() >= 0xffff_ffff || rdata.len() > 0xffff {
                    false
                } else {
                    proof {
                        crate::mem::lemma_reserved_size((fullname@.len() + 1) as GuestUSize);
                        crate::mem::lemma_reserved_size(rdata@.len() as GuestUSize);
                    }
                    crate::mem::reserve_for(fullname.len() as u32 + 1) + crate::mem::reserve_for(
                        rdata.len() as u32,
                    ) <= free
                }
            },
        }
    }

    /// Makes the completion ready to be delivered: finds the guest handle
    /// of its service by the host's reference, copies its data into fresh
    /// guest allocations and packs the arguments of the call. The service
    /// must still have a handle; the table of services is left as it is.
    pub fn begin(&self, env: &mut Environment) -> (call: GuestCall)
        requires
            old(env).wf(),
            has_resource(old(env).libc_state.network.service_refs@, service_of(self@)),
            data_fits_guest(self@),
            bytes_needed(self@) <= old(env).mem.free_bytes(),
        ensures
            final(env).wf(),
            final(env).same_but_mem(old(env)),
            final(env).mem.free_bytes() == old(env).mem.free_bytes() - bytes_needed(self@),
            call.function == call_target(self@),
            call.args@ == call_args(
                self@,
                handle_of(old(env).libc_state.network.service_refs@, service_of(self@)),
                buffers_of(self@, call.args@),
            ),
            buffers_hold(
                old(env).mem@,
                final(env).mem@,
                self@,
                buffers_of(self@, call.args@),
            ),
            call.temporaries@.len() == call_data(self@).len(),
            addresses(call.temporaries@) == free_order(self@, buffers_of(self@, call.args@)),
    {
        let handle = match env.libc_state.network.service_refs.handle(self.service()) {
            Some(handle) => handle,
            None => vstd::pervasive::unreached(),
        };
        let guest_sd_ref = DNSServiceRef::from_bits(handle);
        let mut args: Vec<u32> = Vec::new();
        let mut temporaries: Vec<MutVoidPtr> = Vec::new();
        match self {
            Completion::BrowseReply {
                callback,
                flags,
                error_code,
                service_name,
                regtype,
                reply_domain,
                ..
            } => {
                let buffers = copy_three_strings(env, service_name, regtype, reply_domain);
                write_next_arg(&mut args, guest_sd_ref);
                write_next_arg(&mut args, *flags);
                write_next_arg(&mut args, INTERFACE_INDEX);
                write_next_arg(&mut args, *error_code);
                write_next_arg(&mut args, buffers.0.cast_const());
                write_next_arg(&mut args, buffers.1.cast_const());
                write_next_arg(&mut args, buffers.2.cast_const());
                write_next_arg(&mut args, MutVoidPtr::null());
                temporaries.push(buffers.2.cast());
                temporaries.push(buffers.1.cast());
                temporaries.push(buffers.0.cast());
                proof {
                    let places = seq![buffers.0.addr(), buffers.1.addr(), buffers.2.addr()];
                    assert(buffers_hold(old(env).mem@, env.mem@, self@, places));
                    assert(args@ =~= call_args(self@, handle, places));
                    assert(buffers_of(self@, args@) =~= places);
                    assert(addresses(temporaries@) =~= free_order(self@, places));
                }
                GuestCall { function: *callback, args, temporaries }
            },
            Completion::ResolveReply {
                callback,
                flags,
                error_code,
                fullname,
                host_target,
                port,
                txt_len,
                txt_record,
                ..
            } => {
                let buffers = copy_three_strings(env, fullname, host_target, txt_record);
                write_next_arg(&mut args, guest_sd_ref);
                write_next_arg(&mut args, *flags);
                write_next_arg(&mut args, INTERFACE_INDEX);
                write_next_arg(&mut args, *error_code);
                write_next_arg(&mut args, buffers.0.cast_const());
                write_next_arg(&mut args, buffers.1.cast_const());
                write_next_arg(&mut args, *port);
                write_next_arg(&mut args, *txt_len);
                write_next_arg(&mut args, buffers.2.cast_const());
                write_next_arg(&mut args, MutVoidPtr::null());
                temporaries.push(buffers.0.cast());
                temporaries.push(buffers.1.cast());
                temporaries.push(buffers.2.cast());
                proof {
                    let places = seq![buffers.0.addr(), buffers.1.addr(), buffers.2.addr()];
                    assert(buffers_hold(old(env).mem@, env.mem@, self@, places));
                    assert(args@ =~= call_args(self@, handle, places));
                    assert(buffers_of(self@, args@) =~= places);
                    assert(addresses(temporaries@) =~= free_order(self@, places));
                }
                GuestCall { function: *callback, args, temporaries }
            },
            Completion::RegisterReply {
                callback,
                flags,
                error_code,
                name,
                regtype,
                domain,
                ..
            } => {
                let buffers = copy_three_strings(env, name, regtype, domain);
                write_next_arg(&mut args, guest_sd_ref);
                write_next_arg(&mut args, *flags);
                write_next_arg(&mut args, *error_code);
                write_next_arg(&mut args, buffers.0.cast_const());
                write_next_arg(&mut args, buffers.1.cast_const());
                write_next_arg(&mut args, buffers.2.cast_const());
                write_next_arg(&mut args, MutVoidPtr::null());
                temporaries.push(buffers.0.cast());
                temporaries.push(buffers.1.cast());
                temporaries.push(buffers.2.cast());
                proof {
                    let places = seq![buffers.0.addr(), buffers.1.addr(), buffers.2.addr()];
                    assert(buffers_hold(old(env).mem@, env.mem@, self@, places));
                    assert(args@ =~= call_args(self@, handle, places));
                    assert(buffers_of(self@, args@) =~= places);
                    assert(addresses(temporaries@) =~= free_order(self@, places));
                }
                GuestCall { function: *callback, args, temporaries }
            },
            Completion::QueryRecordReply {
                callback,
                flags,
                error_code,
                fullname,
                rrtype,
                rrclass,
                rdata,
                ttl,
                ..
            } => {
                let rdlen: u16 = rdata.len() as u16;
                let buffers = copy_string_and_block(env, fullname, rdata);
                write_next_arg(&mut args, guest_sd_ref);
                write_next_arg(&mut args, *flags);
                write_next_arg(&mut args, INTERFACE_INDEX);
                write_next_arg(&mut args, *error_code);
                write_next_arg(&mut args, buffers.0.cast_const());
                write_next_arg(&mut args, *rrtype);
                write_next_arg(&mut args, *rrclass);
                write_next_arg(&mut args, rdlen);
                write_next_arg(&mut args, buffers.1.cast_const());
                write_next_arg(&mut args, *ttl);
                write_next_arg(&mut args, MutVoidPtr::null());
                temporaries.push(buffers.0.cast());
                temporaries.push(buffers.1.cast());
                proof {
                    let places = seq![buffers.0.addr(), buffers.1.addr()];
                    assert(buffers_hold(old(env).mem@, env.mem@, self@, places));
                    assert(args@ =~= call_args(self@, handle, places));
                    assert(buffers_of(self@, args@) =~= places);
                    assert(addresses(temporaries@) =~= free_order(self@, places));
                }
                GuestCall { function: *callback, args, temporaries }
            },
        }
    }
}

/// Copies a string, with a zero byte behind it, and a block of data into
/// fresh guest allocations, and gives their places.
fn copy_string_and_block(env: &mut Environment, text: &Vec<u8>, data: &Vec<u8>) -> (places: (
    MutPtr<u8>,
    MutPtr<u8>,
))
    requires
        old(env).wf(),
        text@.len() < GuestUSize::MAX,
        data@.len() <= GuestUSize::MAX,
        reserved_size((text@.len() + 1) as GuestUSize) + reserved_size(data@.len() as GuestUSize)
            <= old(env).mem.free_bytes(),
    ensures
        final(env).wf(),
        final(env).same_but_mem(old(env)),
        final(env).mem@ == with_blocks(
            old(env).mem@,
            seq![places.0.addr(), places.1.addr()],
            seq![text@.push(0u8), data@],
        ),
        !old(env).mem@.live.contains_key(places.0.addr()),
        !old(env).mem@.live.contains_key(places.1.addr()),
        final(env).mem@.live.contains_key(places.0.addr()),
        final(env).mem@.live.contains_key(places.1.addr()),
        places.0.addr() != places.1.addr(),
        final(env).mem@.range(places.0.addr() as int, text@.len() as int + 1) == text@.push(0u8),
        final(env).mem@.range(places.1.addr() as int, data@.len() as int) == data@,
        final(env).mem.free_bytes() == old(env).mem.free_bytes() - reserved_size(
            (text@.len() + 1) as GuestUSize,
        ) - reserved_size(data@.len() as GuestUSize),
{
    proof {
        crate::mem::lemma_reserved_size((text@.len() + 1) as GuestUSize);
        crate::mem::lemma_reserved_size(data@.len() as GuestUSize);
    }
    let ghost m0 = env.mem@;
    let first = env.mem.alloc_and_write_cstr(text.as_slice());
    let ghost e1 = *env;
    let ghost m1 = env.mem@;
    proof {
        lemma_mem_change_keeps_wf(old(env), env);
        env.mem.lemma_wf();
    }
    let second: MutPtr<u8> = env.mem.allocate(data.len() as u32).cast();
    let ghost e2 = *env;
    proof {
        lemma_mem_change_keeps_wf(&e1, env);
    }
    env.mem.write_bytes(second, data.as_slice());
    proof {
        lemma_mem_change_keeps_wf(&e2, env);
        let m2 = env.mem@;
        let p = first.addr();
        let q = second.addr();
        let dt = text@.push(0u8);
        let dd = data@;
        reveal_with_fuel(with_blocks, 3);
        assert(m1 =~= m0.with_block(p, dt));
        assert(m2 =~= m1.with_block(q, dd));
        let places = seq![p, q];
        let pieces = seq![dt, dd];
        assert(places.drop_last() =~= seq![p]);
        assert(pieces.drop_last() =~= seq![dt]);
        assert(seq![p].drop_last() =~= Seq::<VAddr>::empty());
        assert(seq![dt].drop_last() =~= Seq::<Seq<u8>>::empty());
        assert(with_blocks(m0, seq![p], seq![dt]) == m1);
        assert(with_blocks(m0, places, pieces) == m2);
        lemma_write_reads_back(m0.allocate(p, dt.len() as GuestUSize), p as int, dt);
        lemma_write_reads_back(m1.allocate(q, dd.len() as GuestUSize), q as int, dd);
        assert(m1.live.contains_key(p));
        lemma_write_keeps_elsewhere(
            m1.allocate(q, dd.len() as GuestUSize),
            q as int,
            dd,
            p as int,
            dt.len() as int,
        );
    }
    (first, second)
}

/// Whether three strings, each with its terminator, fit into `free` bytes
/// of guest memory.
fn three_strings_fit(a: &Vec<u8>, b: &Vec<u8>, c: &Vec<u8>, free: u64) -> (fits: bool)
    ensures
        fits == (a@.len() < GuestUSize::MAX && b@.len() < GuestUSize::MAX && c@.len()
            < GuestUSize::MAX && reserved_size((a@.len() + 1) as GuestUSize) + reserved_size(
            (b@.len() + 1) as GuestUSize,
        ) + reserved_size((c@.len() + 1) as GuestUSize) <= free),
{
    if a.len() >= 0xffff_ffff || b.len() >= 0xffff_ffff || c.len() >= 0xffff_ffff {
        return false;
    }
    let need_a: u64 = crate::mem::reserve_for(a.len() as u32 + 1);
    let need_b: u64 = crate::mem::reserve_for(b.len() as u32 + 1);
    let need_c: u64 = crate::mem::reserve_for(c.len() as u32 + 1);
    proof {
        crate::mem::lemma_reserved_size((a@.len() + 1) as GuestUSize);
        crate::mem::lemma_reserved_size((b@.len() + 1) as GuestUSize);
        crate::mem::lemma_reserved_size((c@.len() + 1) as GuestUSize);
    }
    need_a + need_b + need_c <= free
}

/// Copies three strings into fresh guest allocations, each with a zero byte
/// behind it, and gives their places.
fn copy_three_strings(env: &mut Environment, a: &Vec<u8>, b: &Vec<u8>, c: &Vec<u8>) -> (places: (
    MutPtr<u8>,
    MutPtr<u8>,
    MutPtr<u8>,
))
    requires
        old(env).wf(),
        a@.len() < GuestUSize::MAX,
        b@.len() < GuestUSize::MAX,
        c@.len() < GuestUSize::MAX,
        reserved_size((a@.len() + 1) as GuestUSize) + reserved_size((b@.len() + 1) as GuestUSize)
            + reserved_size((c@.len() + 1) as GuestUSize) <= old(env).mem.free_bytes(),
    ensures
        final(env).wf(),
        final(env).same_but_mem(old(env)),
        final(env).mem@ == with_blocks(
            old(env).mem@,
            seq![places.0.addr(), places.1.addr(), places.2.addr()],
            seq![a@.push(0u8), b@.push(0u8), c@.push(0u8)],
        ),
        !old(env).mem@.live.contains_key(places.0.addr()),
        !old(env).mem@.live.contains_key(places.1.addr()),
        !old(env).mem@.live.contains_key(places.2.addr()),
        final(env).mem@.live.contains_key(places.0.addr()),
        final(env).mem@.live.contains_key(places.1.addr()),
        final(env).mem@.live.contains_key(places.2.addr()),
        places.0.addr() != places.1.addr(),
        places.0.addr() != places.2.addr(),
        places.1.addr() != places.2.addr(),
        final(env).mem@.range(places.0.addr() as int, a@.len() as int + 1) == a@.push(0u8),
        final(env).mem@.range(places.1.addr() as int, b@.len() as int + 1) == b@.push(0u8),
        final(env).mem@.range(places.2.addr() as int, c@.len() as int + 1) == c@.push(0u8),
        final(env).mem.free_bytes() == old(env).mem.free_bytes() - reserved_size(
            (a@.len() + 1) as GuestUSize,
        ) - reserved_size((b@.len() + 1) as GuestUSize) - reserved_size(
            (c@.len() + 1) as GuestUSize,
        ),
{
    proof {
        crate::mem::lemma_reserved_size((a@.len() + 1) as GuestUSize);
        crate::mem::lemma_reserved_size((b@.len() + 1) as GuestUSize);
        crate::mem::lemma_reserved_size((c@.len() + 1) as GuestUSize);
    }
    let ghost m0 = env.mem@;
    let first = env.mem.alloc_and_write_cstr(a.as_slice());
    let ghost e1 = *env;
    let ghost m1 = env.mem@;
    proof {
        lemma_mem_change_keeps_wf(old(env), env);
        env.mem.lemma_wf();
    }
    let second = env.mem.alloc_and_write_cstr(b.as_slice());
    let ghost e2 = *env;
    let ghost m2 = env.mem@;
    proof {
        lemma_mem_change_keeps_wf(&e1, env);
        env.mem.lemma_wf();
    }
    let third = env.mem.alloc_and_write_cstr(c.as_slice());
    let ghost m3 = env.mem@;
    proof {
        lemma_mem_change_keeps_wf(&e2, env);
        env.mem.lemma_wf();
        let p = first.addr();
        let q = second.addr();
        let r = third.addr();
        let da = a@.push(0u8);
        let db = b@.push(0u8);
        let dc = c@.push(0u8);
        assert(m1 =~= m0.with_block(p, da));
        assert(m2 =~= m1.with_block(q, db));
        assert(m3 =~= m2.with_block(r, dc));
        let places = seq![p, q, r];
        let data = seq![da, db, dc];
        assert(places.drop_last() =~= seq![p, q]);
        assert(data.drop_last() =~= seq![da, db]);
        assert(seq![p, q].drop_last() =~= seq![p]);
        assert(seq![da, db].drop_last() =~= seq![da]);
        assert(seq![p].drop_last() =~= Seq::<VAddr>::empty());
        assert(seq![da].drop_last() =~= Seq::<Seq<u8>>::empty());
        reveal_with_fuel(with_blocks, 4);
        assert(with_blocks(m0, seq![p], seq![da]) == m1);
        assert(with_blocks(m0, seq![p, q], seq![da, db]) == m2);
        assert(with_blocks(m0, places, data) == m3);
        lemma_write_reads_back(m0.allocate(p, da.len() as GuestUSize), p as int, da);
        lemma_write_reads_back(m1.allocate(q, db.len() as GuestUSize), q as int, db);
        lemma_write_reads_back(m2.allocate(r, dc.len() as GuestUSize), r as int, dc);
        assert(m1.live.contains_key(p));
        assert(m2.live.contains_key(q));
        lemma_write_keeps_elsewhere(
            m1.allocate(q, db.len() as GuestUSize),
            q as int,
            db,
            p as int,
            da.len() as int,
        );
        assert(m2.range(p as int, da.len() as int) == da);
        assert(m2.live.contains_key(p));
        lemma_write_keeps_elsewhere(
            m2.allocate(r, dc.len() as GuestUSize),
            r as int,
            dc,
            p as int,
            da.len() as int,
        );
        lemma_write_keeps_elsewhere(
            m2.allocate(r, dc.len() as GuestUSize),
            r as int,
            dc,
            q as int,
            db.len() as int,
        );
    }
    (first, second, third)
}

/// Whether the temporaries of a call can be freed: each is a live guest
/// allocation that serves as no handle, and no two are the same.
pub open spec fn can_free_all(env: &Environment, temporaries: Seq<MutVoidPtr>) -> bool {
    &&& forall|i: int|
        0 <= i < temporaries.len() ==> {
            &&& env.mem@.live.contains_key(#[trigger] temporaries[i].addr())
            &&& !env.handles().owns(temporaries[i].addr())
        }
    &&& forall|i: int, j: int|
        0 <= i < j < temporaries.len() ==> temporaries[i].addr() != temporaries[j].addr()
}

/// Guest memory after the blocks at `temporaries` have been given back.
pub open spec fn without_blocks(mem: MemView, temporaries: Seq<MutVoidPtr>) -> MemView
    decreases temporaries.len(),
{
    if temporaries.len() == 0 {
        mem
    } else {
        without_blocks(mem, temporaries.drop_last()).free(temporaries.last().addr())
    }
}

impl GuestCall {
    /// Whether the temporaries are still there to be freed. The guest ran
    /// since they were made, and may have freed them itself.
    pub fn temporaries_intact(&self, env: &Environment) -> (intact: bool)
        requires
            env.wf(),
        ensures
            intact == can_free_all(env, self.temporaries@),
    {
        let count: usize = self.temporaries.len();
        let mut i: usize = 0;
        while i < count
            invariant
                0 <= i <= count,
                count == self.temporaries@.len(),
                env.wf(),
                can_free_all(env, self.temporaries@.subrange(0, i as int)),
            decreases count - i,
        {
            let ptr = self.temporaries[i];
            let ghost checked = self.temporaries@.subrange(0, i as int);
            let ghost next = self.temporaries@.subrange(0, i + 1);
            if env.mem.allocation_size(ptr).is_none() || env.owns(ptr.to_bits()) {
                return false;
            }
            let mut j: usize = 0;
            while j < i
                invariant
                    0 <= j <= i < count,
                    count == self.temporaries@.len(),
                    ptr == self.temporaries@[i as int],
                    forall|k: int| 0 <= k < j ==> self.temporaries@[k].addr() != ptr.addr(),
                decreases i - j,
            {
                if self.temporaries[j].to_bits() == ptr.to_bits() {
                    return false;
                }
                j = j + 1;
            }
            proof {
                assert forall|a: int| 0 <= a < next.len() implies {
                    &&& env.mem@.live.contains_key(#[trigger] next[a].addr())
                    &&& !env.handles().owns(next[a].addr())
                } by {
                    if a < i {
                        assert(next[a] == checked[a]);
                    }
                }
                assert forall|a: int, b: int| 0 <= a < b < next.len() implies next[a].addr()
                    != next[b].addr() by {
                    if b < i {
                        assert(next[a] == checked[a] && next[b] == checked[b]);
                    }
                }
            }
            i = i + 1;
        }
        assert(self.temporaries@.subrange(0, count as int) =~= self.temporaries@);
        true
    }

    /// Frees the temporaries of the call, in their order, after the guest
    /// function has returned.
    pub fn finish(self, env: &mut Environment)
        requires
            old(env).wf(),
            can_free_all(old(env), self.temporaries@),
        ensures
            final(env).wf(),
            final(env).same_but_mem(old(env)),
            final(env).mem@ == without_blocks(old(env).mem@, self.temporaries@),
            final(env).mem@.bytes == old(env).mem@.bytes,
            forall|i: int|
                0 <= i < self.temporaries@.len() ==> !final(env).mem@.live.contains_key(
                    #[trigger] self.temporaries@[i].addr(),
                ),
            final(env).mem.free_bytes() == old(env).mem.free_bytes(),
    {
        let count: usize = self.temporaries.len();
        let mut i: usize = 0;
        while i < count
            invariant
                0 <= i <= count,
                count == self.temporaries@.len(),
                env.wf(),
                env.same_but_mem(old(env)),
                can_free_all(old(env), self.temporaries@),
                env.mem@ == without_blocks(old(env).mem@, self.temporaries@.subrange(0, i as int)),
                env.mem@.bytes == old(env).mem@.bytes,
                env.mem.free_bytes() == old(env).mem.free_bytes(),
                forall|k: int|
                    0 <= k < i ==> !env.mem@.live.contains_key(
                        #[trigger] self.temporaries@[k].addr(),
                    ),
                forall|k: int|
                    i <= k < count ==> env.mem@.live.contains_key(
                        #[trigger] self.temporaries@[k].addr(),
                    ),
            decreases count - i,
        {
            let ptr = self.temporaries[i];
            let ghost done = self.temporaries@.subrange(0, i as int);
            let ghost next = self.temporaries@.subrange(0, i + 1);
            proof {
                assert(env.handles().cells == old(env).handles().cells);
                assert(env.handles().semaphores == old(env).handles().semaphores);
                assert(env.handles().services == old(env).handles().services);
                assert(env.handles().objects == old(env).handles().objects);
                assert(!old(env).handles().owns(self.temporaries@[i as int].addr()));
            }
            env.free(ptr);
            proof {
                assert(next.drop_last() =~= done);
                assert(next.last() == ptr);
                assert forall|k: int| i + 1 <= k < count implies env.mem@.live.contains_key(
                    #[trigger] self.temporaries@[k].addr(),
                ) by {
                    assert(self.temporaries@[i as int].addr() != self.temporaries@[k].addr());
                }
            }
            i = i + 1;
        }
        assert(self.temporaries@.subrange(0, count as int) =~= self.temporaries@);
    }
}

} // verus!
