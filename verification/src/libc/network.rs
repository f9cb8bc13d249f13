//! Sockets, interfaces and service discovery.
//!
//! The host does the network's work; this module decides what to ask of it
//! and what the guest gets to see of the answer. A call that needs the host
//! comes in two halves: the first checks the guest's arguments and says what
//! to ask, the second takes the host's answer and finishes the call.
//! Completions that the host delivers later, on threads of its own, are
//! written down and queued; they reach guest memory only when the guest
//! thread carries them out.

pub mod delivery;
pub mod interfaces;
pub mod sockets;

pub use self::delivery::GuestCall;
pub use self::interfaces::{
    can_freeifaddrs, can_getifaddrs, freeifaddrs, getifaddrs, ifaddrs, listed_count, HostAddress,
    HostInterface,
};
pub use self::sockets::{
    bind, bind_finished, if_indextoname, if_nameindex, in_addr, recvfrom, select,
    select_finished, sendto, sendto_finished, sockaddr_in, swapped_u16, swapped_u32, Datagram,
    HostInetAddress, SelectRequest, SendRequest, AF_INET, RECEIVE_BUFFER_SIZE,
};

use crate::abi::GuestFunction;
use crate::environment::{lemma_mem_change_keeps_wf, Environment};
use crate::frameworks::foundation::ns_run_loop::{enqueued, CallbackQueue};
use crate::handle_map::{has_resource, HostResource};
use crate::mem::{
    le_bytes_u32, le_value_u32, lemma_le_round_trip_u32, lemma_write_reads_back, reserved_size,
    ConstPtr, GuestData, GuestUSize, MemView, MutPtr, MutVoidPtr, VAddr,
};
use crate::scheduler::ThreadID;
use vstd::prelude::*;
use vstd::slice::slice_to_vec;

verus! {

/// The host's answer when a service call went well.
pub const kDNSServiceErr_NoError: i32 = 0;

pub const kDNSServiceFlagsNoAutoRename: u32 = 0x8;

pub const kDNSServiceFlagsForceMulticast: u32 = 0x400;

/// Record type of a host address.
pub const kDNSServiceType_A: u16 = 1;

/// Record class of the internet.
pub const kDNSServiceClass_IN: u16 = 1;

/// Number by which the guest knows its one network interface.
pub const INTERFACE_INDEX: u32 = 2;

pub type dnssd_sock_t = i32;

/// What a service reference points to in guest memory: one byte that only
/// has to exist.
pub struct _DNSServiceRef_t {
    pub _unused: u8,
}

/// A service reference as the guest holds it.
pub type DNSServiceRef = MutPtr<_DNSServiceRef_t>;

/// A service reference as the host holds it.
pub type HostServiceRef = HostResource;

impl GuestData for _DNSServiceRef_t {
    const SIZE: GuestUSize = 1;

    open spec fn guest_bytes(self) -> Seq<u8> {
        seq![self._unused]
    }

    open spec fn from_guest_bytes(bytes: Seq<u8>) -> Self {
        _DNSServiceRef_t { _unused: bytes[0] }
    }

    fn store(&self) -> (bytes: Vec<u8>) {
        let mut bytes: Vec<u8> = Vec::new();
        bytes.push(self._unused);
        assert(bytes@ =~= seq![self._unused]);
        bytes
    }

    fn load(bytes: &[u8]) -> (value: Self) {
        _DNSServiceRef_t { _unused: bytes[0] }
    }

    proof fn lemma_layout(value: Self) {
    }
}

/// The service references that are open: guest handle to host reference.
pub struct State {
    pub service_refs: crate::handle_map::HandleMap,
}

impl State {
    pub fn new() -> (state: Self)
        ensures
            state.service_refs.wf(),
            state.service_refs@ == Map::<VAddr, HostResource>::empty(),
    {
        State { service_refs: crate::handle_map::HandleMap::new() }
    }
}

/// What to ask of the host's service discovery.
pub enum ServiceRequest {
    Browse { flags: u32, interface_index: u32, regtype: Vec<u8> },
    Resolve { flags: u32, interface_index: u32, name: Vec<u8>, regtype: Vec<u8>, domain: Vec<u8> },
    Register { flags: u32, interface_index: u32, name: Vec<u8>, regtype: Vec<u8>, port: u16 },
    QueryRecord { flags: u32, interface_index: u32, fullname: Vec<u8>, rrtype: u16, rrclass: u16 },
}

/// A service request with its strings as sequences of bytes.
pub enum ServiceRequestView {
    Browse { flags: u32, interface_index: u32, regtype: Seq<u8> },
    Resolve { flags: u32, interface_index: u32, name: Seq<u8>, regtype: Seq<u8>, domain: Seq<u8> },
    Register { flags: u32, interface_index: u32, name: Seq<u8>, regtype: Seq<u8>, port: u16 },
    QueryRecord { flags: u32, interface_index: u32, fullname: Seq<u8>, rrtype: u16, rrclass: u16 },
}

impl View for ServiceRequest {
    type V = ServiceRequestView;

    open spec fn view(&self) -> ServiceRequestView {
        match *self {
            ServiceRequest::Browse { flags, interface_index, regtype } => ServiceRequestView::Browse {
                flags,
                interface_index,
                regtype: regtype@,
            },
            ServiceRequest::Resolve {
                flags,
                interface_index,
                name,
                regtype,
                domain,
            } => ServiceRequestView::Resolve {
                flags,
                interface_index,
                name: name@,
                regtype: regtype@,
                domain: domain@,
            },
            ServiceRequest::Register {
                flags,
                interface_index,
                name,
                regtype,
                port,
            } => ServiceRequestView::Register {
                flags,
                interface_index,
                name: name@,
                regtype: regtype@,
                port,
            },
            ServiceRequest::QueryRecord {
                flags,
                interface_index,
                fullname,
                rrtype,
                rrclass,
            } => ServiceRequestView::QueryRecord {
                flags,
                interface_index,
                fullname: fullname@,
                rrtype,
                rrclass,
            },
        }
    }
}

/// A service call that has passed its checks: what to ask of the host, and
/// the guest function that is to hear of the replies.
pub struct ServiceCall {
    pub request: ServiceRequest,
    pub callback: GuestFunction,
}

/// First half of browsing for services of a type. Only the main thread may
/// ask; no domain and no context are taken.
pub fn DNSServiceBrowse(
    env: &Environment,
    _sdRef: MutPtr<DNSServiceRef>,
    _flags: u32,
    _interfaceIndex: u32,
    regtype: ConstPtr<u8>,
    domain: ConstPtr<u8>,
    callBack: GuestFunction,
    context: MutVoidPtr,
) -> (call: ServiceCall)
    requires
        env.wf(),
        domain.is_null(),
        context.is_null(),
        env.current_thread == 0,
        env.mem@.has_cstr(regtype.addr() as int),
    ensures
        call.callback == callBack,
        call.request@ == (ServiceRequestView::Browse {
            flags: 0,
            interface_index: 0,
            regtype: env.mem@.cstr(regtype.addr() as int),
        }),
{
    let service_type = slice_to_vec(env.mem.cstr_at(regtype));
    ServiceCall {
        request: ServiceRequest::Browse { flags: 0, interface_index: 0, regtype: service_type },
        callback: callBack,
    }
}

/// First half of resolving a service by name. Only the main thread may ask,
/// with multicast forced and on the one interface.
pub fn DNSServiceResolve(
    env: &Environment,
    _sdRef: MutPtr<DNSServiceRef>,
    flags: u32,
    interfaceIndex: u32,
    name: ConstPtr<u8>,
    regtype: ConstPtr<u8>,
    domain: ConstPtr<u8>,
    callBack: GuestFunction,
    _context: MutVoidPtr,
) -> (call: ServiceCall)
    requires
        env.wf(),
        flags == kDNSServiceFlagsForceMulticast,
        interfaceIndex == INTERFACE_INDEX,
        env.current_thread == 0,
        env.mem@.has_cstr(name.addr() as int),
        env.mem@.has_cstr(regtype.addr() as int),
        env.mem@.has_cstr(domain.addr() as int),
    ensures
        call.callback == callBack,
        call.request@ == (ServiceRequestView::Resolve {
            flags,
            interface_index: 0,
            name: env.mem@.cstr(name.addr() as int),
            regtype: env.mem@.cstr(regtype.addr() as int),
            domain: env.mem@.cstr(domain.addr() as int),
        }),
{
    let name_str = slice_to_vec(env.mem.cstr_at(name));
    let regtype_str = slice_to_vec(env.mem.cstr_at(regtype));
    let domain_str = slice_to_vec(env.mem.cstr_at(domain));
    ServiceCall {
        request: ServiceRequest::Resolve {
            flags,
            interface_index: 0,
            name: name_str,
            regtype: regtype_str,
            domain: domain_str,
        },
        callback: callBack,
    }
}

/// First half of registering a service. Only the main thread may ask, without
/// automatic renaming; no domain, host, text record or context is taken.
pub fn DNSServiceRegister(
    env: &Environment,
    _sdRef: MutPtr<DNSServiceRef>,
    flags: u32,
    _interfaceIndex: u32,
    name: ConstPtr<u8>,
    regtype: ConstPtr<u8>,
    domain: ConstPtr<u8>,
    host: ConstPtr<u8>,
    port: u16,
    txtLen: u16,
    txtRecord: ConstPtr<u8>,
    callBack: GuestFunction,
    context: MutVoidPtr,
) -> (call: ServiceCall)
    requires
        env.wf(),
        flags == kDNSServiceFlagsNoAutoRename,
        domain.is_null(),
        host.is_null(),
        txtLen == 0,
        txtRecord.is_null(),
        context.is_null(),
        env.current_thread == 0,
        env.mem@.has_cstr(name.addr() as int),
        env.mem@.has_cstr(regtype.addr() as int),
    ensures
        call.callback == callBack,
        call.request@ == (ServiceRequestView::Register {
            flags,
            interface_index: 0,
            name: env.mem@.cstr(name.addr() as int),
            regtype: env.mem@.cstr(regtype.addr() as int),
            port,
        }),
{
    let name_str = slice_to_vec(env.mem.cstr_at(name));
    let regtype_str = slice_to_vec(env.mem.cstr_at(regtype));
    ServiceCall {
        request: ServiceRequest::Register {
            flags,
            interface_index: 0,
            name: name_str,
            regtype: regtype_str,
            port,
        },
        callback: callBack,
    }
}

/// First half of querying for the address record of a name. Only the main
/// thread may ask, with multicast forced and on the one interface; no
/// context is taken.
pub fn DNSServiceQueryRecord(
    env: &Environment,
    _sdRef: MutPtr<DNSServiceRef>,
    flags: u32,
    interfaceIndex: u32,
    fullname: ConstPtr<u8>,
    rrtype: u16,
    rrclass: u16,
    callBack: GuestFunction,
    context: MutVoidPtr,
) -> (call: ServiceCall)
    requires
        env.wf(),
        flags == kDNSServiceFlagsForceMulticast,
        interfaceIndex == INTERFACE_INDEX,
        rrtype == kDNSServiceType_A,
        rrclass == kDNSServiceClass_IN,
        context.is_null(),
        env.current_thread == 0,
        env.mem@.has_cstr(fullname.addr() as int),
    ensures
        call.callback == callBack,
        call.request@ == (ServiceRequestView::QueryRecord {
            flags,
            interface_index: 0,
            fullname: env.mem@.cstr(fullname.addr() as int),
            rrtype,
            rrclass,
        }),
{
    let fullname_str = slice_to_vec(env.mem.cstr_at(fullname));
    ServiceCall {
        request: ServiceRequest::QueryRecord {
            flags,
            interface_index: 0,
            fullname: fullname_str,
            rrtype,
            rrclass,
        },
        callback: callBack,
    }
}

/// The handle that a finished service call has stored at `sd_ref`.
pub open spec fn stored_handle(mem: MemView, sd_ref: VAddr) -> VAddr {
    le_value_u32(mem.range(sd_ref as int, 4))
}

/// Second half of a service call: `error` and `service_ref` are what the
/// host answered. Where the host failed, the guest gets a negative result
/// and nothing changes. Where it succeeded, a fresh one-byte allocation
/// becomes the guest's handle for `service_ref`, the handle is stored at
/// `sd_ref`, and the result is zero.
pub fn service_call_finished(
    env: &mut Environment,
    sd_ref: MutPtr<DNSServiceRef>,
    error: i32,
    service_ref: HostServiceRef,
) -> (result: i32)
    requires
        old(env).wf(),
        error == kDNSServiceErr_NoError ==> {
            &&& old(env).mem@.in_bounds(sd_ref.addr() as int, 4)
            &&& old(env).mem.can_alloc(1)
            &&& !has_resource(old(env).libc_state.network.service_refs@, service_ref)
        },
    ensures
        final(env).wf(),
        result == if error == kDNSServiceErr_NoError {
            0i32
        } else {
            -1i32
        },
        error != kDNSServiceErr_NoError ==> *final(env) == *old(env),
        error == kDNSServiceErr_NoError ==> {
            let handle = stored_handle(final(env).mem@, sd_ref.addr());
            &&& !old(env).mem@.live.contains_key(handle)
            &&& !old(env).libc_state.network.service_refs@.contains_key(handle)
            &&& final(env).libc_state.network.service_refs@ == old(
                env,
            ).libc_state.network.service_refs@.insert(handle, service_ref)
            &&& final(env).mem@ == old(env).mem@.allocate(handle, 1).write(
                handle as int,
                seq![0u8],
            ).write(sd_ref.addr() as int, le_bytes_u32(handle))
            &&& final(env).mem.free_bytes() == old(env).mem.free_bytes() - reserved_size(1)
            &&& final(env).objc == old(env).objc
            &&& final(env).threads == old(env).threads
            &&& final(env).current_thread == old(env).current_thread
            &&& final(env).libc_state.errno == old(env).libc_state.errno
            &&& final(env).libc_state.pthread == old(env).libc_state.pthread
        },
{
    if error != kDNSServiceErr_NoError {
        return -1;
    }
    proof {
        _DNSServiceRef_t::lemma_layout(_DNSServiceRef_t { _unused: 0 });
    }
    let guest_service_ref: DNSServiceRef = env.mem.alloc_and_write(_DNSServiceRef_t { _unused: 0 });
    let handle: VAddr = guest_service_ref.to_bits();
    proof {
        DNSServiceRef::lemma_layout(guest_service_ref);
        lemma_mem_change_keeps_wf(old(env), env);
    }
    let ghost allocated = *env;
    env.mem.write(sd_ref, guest_service_ref);
    proof {
        lemma_mem_change_keeps_wf(&allocated, env);
        lemma_write_reads_back(allocated.mem@, sd_ref.addr() as int, le_bytes_u32(handle));
        lemma_le_round_trip_u32(handle);
        assert(env.mem@ =~= old(env).mem@.allocate(handle, 1).write(
            handle as int,
            seq![0u8],
        ).write(sd_ref.addr() as int, le_bytes_u32(handle)));
        let h = old(env).handles();
        if h.services.contains(handle) {
            assert(h.live.contains(handle));
        }
    }
    let ghost written = *env;
    let outcome = env.libc_state.network.service_refs.register(handle, service_ref);
    proof {
        assert(outcome.is_ok());
        let h = written.handles();
        let g = env.handles();
        assert(h.wf());
        assert(g.live == h.live);
        assert(g.cells == h.cells);
        assert(g.semaphores == h.semaphores);
        assert(g.objects == h.objects);
        assert(g.services =~= h.services.insert(handle));
        assert(env.sched() == written.sched());
        let o = old(env).handles();
        assert(!o.live.contains(handle));
        assert forall|thread: ThreadID| #[trigger] g.cells.contains_key(thread) implies !g.services.contains(
            g.cells[thread],
        ) by {
            assert(o.cells.contains_key(thread));
        }
        assert forall|addr: VAddr| #[trigger] g.semaphores.contains(addr) implies !g.services.contains(
            addr,
        ) by {
            assert(o.semaphores.contains(addr));
        }
        if o.objects.contains(handle) {
            assert(o.live.contains(handle));
        }
    }
    0
}

/// The host's reference behind a guest's service reference, which is the
/// host socket's owner; `None` where the guest's reference names no open
/// service.
pub fn DNSServiceRefSockFD(env: &Environment, sdRef: DNSServiceRef) -> (service_ref: Option<
    HostServiceRef,
>)
    ensures
        service_ref == if env.libc_state.network.service_refs@.contains_key(sdRef.addr()) {
            Some(env.libc_state.network.service_refs@[sdRef.addr()])
        } else {
            None
        },
{
    env.libc_state.network.service_refs.resource(sdRef.to_bits())
}

/// First half of processing pending replies: the host's reference behind
/// the guest's, which must name an open service.
pub fn DNSServiceProcessResult(env: &Environment, sdRef: DNSServiceRef) -> (service_ref:
    HostServiceRef)
    requires
        env.libc_state.network.service_refs@.contains_key(sdRef.addr()),
    ensures
        service_ref == env.libc_state.network.service_refs@[sdRef.addr()],
{
    match env.libc_state.network.service_refs.resource(sdRef.to_bits()) {
        Some(service_ref) => service_ref,
        None => vstd::pervasive::unreached(),
    }
}

/// Second half of processing pending replies: zero where the host reported
/// no error, a negative result otherwise.
pub fn process_result_finished(error: i32) -> (result: i32)
    ensures
        result == if error == kDNSServiceErr_NoError {
            0i32
        } else {
            -1i32
        },
{
    if error != kDNSServiceErr_NoError {
        return -1;
    }
    0
}

/// Closes a service reference: its entry is removed and its guest byte is
/// freed. The result is the host's reference, which is the host's to close;
/// `None`, and no change, where the guest's reference names no open service.
pub fn DNSServiceRefDeallocate(env: &mut Environment, sdRef: DNSServiceRef) -> (service_ref: Option<
    HostServiceRef,
>)
    requires
        old(env).wf(),
    ensures
        final(env).wf(),
        service_ref == if old(env).libc_state.network.service_refs@.contains_key(sdRef.addr()) {
            Some(old(env).libc_state.network.service_refs@[sdRef.addr()])
        } else {
            None
        },
        final(env).libc_state.network.service_refs@ == old(
            env,
        ).libc_state.network.service_refs@.remove(sdRef.addr()),
        service_ref is None ==> *final(env) == *old(env),
        service_ref is Some ==> final(env).mem@ == old(env).mem@.free(sdRef.addr()),
        final(env).objc == old(env).objc,
        final(env).threads == old(env).threads,
        final(env).current_thread == old(env).current_thread,
        final(env).libc_state.errno == old(env).libc_state.errno,
        final(env).libc_state.pthread == old(env).libc_state.pthread,
{
    let handle: VAddr = sdRef.to_bits();
    if !env.libc_state.network.service_refs.contains_handle(handle) {
        proof {
            assert(old(env).libc_state.network.service_refs@.remove(handle) =~= old(
                env,
            ).libc_state.network.service_refs@);
        }
        return None;
    }
    let ghost h = old(env).handles();
    proof {
        assert(h.services.contains(handle));
        assert(h.live.contains(handle));
    }
    let removed = env.libc_state.network.service_refs.remove(handle);
    env.mem.free(sdRef.cast());
    proof {
        let g = env.handles();
        assert(h.wf());
        assert(g.cells == h.cells);
        assert(g.semaphores == h.semaphores);
        assert(g.objects == h.objects);
        assert(g.services =~= h.services.remove(handle));
        assert(g.live =~= h.live.remove(handle));
        assert(env.sched() == old(env).sched());
        assert(env.mem@ =~= old(env).mem@.free(handle));
        assert forall|thread: ThreadID| #[trigger] g.cells.contains_key(thread) implies g.live.contains(
            g.cells[thread],
        ) by {
            assert(h.cells.contains_key(thread));
        }
        assert forall|addr: VAddr| #[trigger] g.semaphores.contains(addr) implies g.live.contains(
            addr,
        ) by {
            assert(h.semaphores.contains(addr));
        }
        assert forall|addr: VAddr| #[trigger] g.objects.contains(addr) implies g.live.contains(
            addr,
        ) by {
            assert(h.objects.contains(addr));
            assert(!h.services.contains(addr));
        }
    }
    removed
}

/// What a completion of the host's service discovery wants done on the
/// guest thread. It owns copies of all data that came with the completion.
pub enum Completion {
    BrowseReply {
        callback: GuestFunction,
        sd_ref: HostServiceRef,
        flags: u32,
        error_code: i32,
        service_name: Vec<u8>,
        regtype: Vec<u8>,
        reply_domain: Vec<u8>,
    },
    ResolveReply {
        callback: GuestFunction,
        sd_ref: HostServiceRef,
        flags: u32,
        error_code: i32,
        fullname: Vec<u8>,
        host_target: Vec<u8>,
        port: u16,
        txt_len: u16,
        txt_record: Vec<u8>,
    },
    RegisterReply {
        callback: GuestFunction,
        sd_ref: HostServiceRef,
        flags: u32,
        error_code: i32,
        name: Vec<u8>,
        regtype: Vec<u8>,
        domain: Vec<u8>,
    },
    QueryRecordReply {
        callback: GuestFunction,
        sd_ref: HostServiceRef,
        flags: u32,
        error_code: i32,
        fullname: Vec<u8>,
        rrtype: u16,
        rrclass: u16,
        rdata: Vec<u8>,
        ttl: u32,
    },
}

/// A completion with its data as sequences of bytes.
pub enum CompletionView {
    BrowseReply {
        callback: GuestFunction,
        sd_ref: HostServiceRef,
        flags: u32,
        error_code: i32,
        service_name: Seq<u8>,
        regtype: Seq<u8>,
        reply_domain: Seq<u8>,
    },
    ResolveReply {
        callback: GuestFunction,
        sd_ref: HostServiceRef,
        flags: u32,
        error_code: i32,
        fullname: Seq<u8>,
        host_target: Seq<u8>,
        port: u16,
        txt_len: u16,
        txt_record: Seq<u8>,
    },
    RegisterReply {
        callback: GuestFunction,
        sd_ref: HostServiceRef,
        flags: u32,
        error_code: i32,
        name: Seq<u8>,
        regtype: Seq<u8>,
        domain: Seq<u8>,
    },
    QueryRecordReply {
        callback: GuestFunction,
        sd_ref: HostServiceRef,
        flags: u32,
        error_code: i32,
        fullname: Seq<u8>,
        rrtype: u16,
        rrclass: u16,
        rdata: Seq<u8>,
        ttl: u32,
    },
}

impl View for Completion {
    type V = CompletionView;

    open spec fn view(&self) -> CompletionView {
        match *self {
            Completion::BrowseReply {
                callback,
                sd_ref,
                flags,
                error_code,
                service_name,
                regtype,
                reply_domain,
            } => CompletionView::BrowseReply {
                callback,
                sd_ref,
                flags,
                error_code,
                service_name: service_name@,
                regtype: regtype@,
                reply_domain: reply_domain@,
            },
            Completion::ResolveReply {
                callback,
                sd_ref,
                flags,
                error_code,
                fullname,
                host_target,
                port,
                txt_len,
                txt_record,
            } => CompletionView::ResolveReply {
                callback,
                sd_ref,
                flags,
                error_code,
                fullname: fullname@,
                host_target: host_target@,
                port,
                txt_len,
                txt_record: txt_record@,
            },
            Completion::RegisterReply {
                callback,
                sd_ref,
                flags,
                error_code,
                name,
                regtype,
                domain,
            } => CompletionView::RegisterReply {
                callback,
                sd_ref,
                flags,
                error_code,
                name: name@,
                regtype: regtype@,
                domain: domain@,
            },
            Completion::QueryRecordReply {
                callback,
                sd_ref,
                flags,
                error_code,
                fullname,
                rrtype,
                rrclass,
                rdata,
                ttl,
            } => CompletionView::QueryRecordReply {
                callback,
                sd_ref,
                flags,
                error_code,
                fullname: fullname@,
                rrtype,
                rrclass,
                rdata: rdata@,
                ttl,
            },
        }
    }
}

/// Whether a reply of the host is passed on to the guest: a reply to a
/// registration always, any other only where it reports no error.
pub open spec fn is_queued(reply: CompletionView) -> bool {
    match reply {
        CompletionView::BrowseReply { error_code, .. } => error_code == kDNSServiceErr_NoError,
        CompletionView::ResolveReply { error_code, .. } => error_code == kDNSServiceErr_NoError,
        CompletionView::RegisterReply { .. } => true,
        CompletionView::QueryRecordReply { error_code, .. } => error_code
            == kDNSServiceErr_NoError,
    }
}

/// The queue after the host has delivered `reply`.
pub open spec fn after_reply(queue: Seq<CompletionView>, reply: CompletionView) -> Seq<
    CompletionView,
> {
    if is_queued(reply) {
        enqueued(queue, reply)
    } else {
        queue
    }
}

/// The queue after the host has delivered `replies`, in order.
pub open spec fn after_replies(queue: Seq<CompletionView>, replies: Seq<CompletionView>) -> Seq<
    CompletionView,
>
    decreases replies.len(),
{
    if replies.len() == 0 {
        queue
    } else {
        after_reply(after_replies(queue, replies.drop_last()), replies.last())
    }
}

/// Those of `replies` that are passed on to the guest, in order.
pub open spec fn queued_of(replies: Seq<CompletionView>) -> Seq<CompletionView>
    decreases replies.len(),
{
    if replies.len() == 0 {
        Seq::<CompletionView>::empty()
    } else if is_queued(replies.last()) {
        queued_of(replies.drop_last()).push(replies.last())
    } else {
        queued_of(replies.drop_last())
    }
}

/// Whatever replies the host delivers, of whatever kinds and in whatever
/// mix, the queue then holds what it held, followed by those replies that
/// are passed on, in the order of their delivery.
pub proof fn lemma_replies_keep_order(queue: Seq<CompletionView>, replies: Seq<CompletionView>)
    ensures
        after_replies(queue, replies) == queue + queued_of(replies),
    decreases replies.len(),
{
    if replies.len() == 0 {
        assert(queue + queued_of(replies) =~= queue);
    } else {
        lemma_replies_keep_order(queue, replies.drop_last());
        assert(after_replies(queue, replies) =~= queue + queued_of(replies));
    }
}

/// The host reports what browsing has found. A report of an error is
/// dropped; any other is queued for the guest thread.
pub fn browse_callback(
    queue: &mut CallbackQueue,
    callback: GuestFunction,
    sd_ref: HostServiceRef,
    flags: u32,
    _interface_index: u32,
    error_code: i32,
    service_name: Vec<u8>,
    regtype: Vec<u8>,
    reply_domain: Vec<u8>,
)
    ensures
        final(queue)@ == after_reply(
            old(queue)@,
            (CompletionView::BrowseReply {
                callback,
                sd_ref,
                flags,
                error_code,
                service_name: service_name@,
                regtype: regtype@,
                reply_domain: reply_domain@,
            }),
        ),
{
    if error_code != kDNSServiceErr_NoError {
        return ;
    }
    queue.enqueue(
        Completion::BrowseReply {
            callback,
            sd_ref,
            flags,
            error_code,
            service_name,
            regtype,
            reply_domain,
        },
    );
}

/// The host reports where a service is. A report of an error is dropped;
/// any other is queued for the guest thread. The text record comes whole:
/// as many bytes as `txt_len` says, zero bytes among them or not.
pub fn resolve_callback(
    queue: &mut CallbackQueue,
    callback: GuestFunction,
    sd_ref: HostServiceRef,
    flags: u32,
    _interface_index: u32,
    error_code: i32,
    fullname: Vec<u8>,
    host_target: Vec<u8>,
    port: u16,
    txt_len: u16,
    txt_record: Vec<u8>,
)
    requires
        txt_record@.len() == txt_len,
    ensures
        final(queue)@ == after_reply(
            old(queue)@,
            (CompletionView::ResolveReply {
                callback,
                sd_ref,
                flags,
                error_code,
                fullname: fullname@,
                host_target: host_target@,
                port,
                txt_len,
                txt_record: txt_record@,
            }),
        ),
{
    if error_code != kDNSServiceErr_NoError {
        return ;
    }
    queue.enqueue(
        Completion::ResolveReply {
            callback,
            sd_ref,
            flags,
            error_code,
            fullname,
            host_target,
            port,
            txt_len,
            txt_record,
        },
    );
}

/// The host reports how a registration went, with the name, type and
/// domain under which the service now stands. The report is queued for the
/// guest thread whatever it says.
pub fn register_callback(
    queue: &mut CallbackQueue,
    callback: GuestFunction,
    sd_ref: HostServiceRef,
    flags: u32,
    error_code: i32,
    name: Vec<u8>,
    regtype: Vec<u8>,
    domain: Vec<u8>,
)
    ensures
        final(queue)@ == after_reply(
            old(queue)@,
            (CompletionView::RegisterReply {
                callback,
                sd_ref,
                flags,
                error_code,
                name: name@,
                regtype: regtype@,
                domain: domain@,
            }),
        ),
{
    queue.enqueue(
        Completion::RegisterReply { callback, sd_ref, flags, error_code, name, regtype, domain },
    );
}

/// The host reports an address record of a name: four bytes of data. A
/// report of an error is dropped; any other is queued for the guest thread.
pub fn query_record_callback(
    queue: &mut CallbackQueue,
    callback: GuestFunction,
    sd_ref: HostServiceRef,
    flags: u32,
    _interface_index: u32,
    error_code: i32,
    fullname: Vec<u8>,
    rrtype: u16,
    rrclass: u16,
    rdata: Vec<u8>,
    ttl: u32,
)
    requires
        rdata@.len() == 4,
    ensures
        final(queue)@ == after_reply(
            old(queue)@,
            (CompletionView::QueryRecordReply {
                callback,
                sd_ref,
                flags,
                error_code,
                fullname: fullname@,
                rrtype,
                rrclass,
                rdata: rdata@,
                ttl,
            }),
        ),
{
    if error_code != kDNSServiceErr_NoError {
        return ;
    }
    queue.enqueue(
        Completion::QueryRecordReply {
            callback,
            sd_ref,
            flags,
            error_code,
            fullname,
            rrtype,
            rrclass,
            rdata,
            ttl,
        },
    );
}

} // verus!
