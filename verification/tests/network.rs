use guest_bridge::abi::GuestFunction;
use guest_bridge::frameworks::foundation::ns_run_loop::CallbackQueue;
use guest_bridge::libc::network::{
    bind, bind_finished, browse_callback, can_freeifaddrs, freeifaddrs, getifaddrs,
    if_indextoname, if_nameindex, query_record_callback, recvfrom, register_callback,
    resolve_callback, select, sendto, sendto_finished, service_call_finished, swapped_u16,
    swapped_u32, Completion, DNSServiceBrowse, DNSServiceProcessResult,
    DNSServiceQueryRecord, DNSServiceRefDeallocate, DNSServiceRefSockFD, DNSServiceRegister,
    DNSServiceResolve, Datagram, HostAddress, HostInetAddress, HostInterface, ServiceRequest,
    ifaddrs, in_addr, kDNSServiceFlagsForceMulticast, kDNSServiceFlagsNoAutoRename, sockaddr_in,
    DNSServiceRef,
};
use guest_bridge::libc::network::sockets::socket;
use guest_bridge::libc::network::{
    can_getifaddrs, listed_count, process_result_finished, select_finished,
};
use guest_bridge::libc::time::timeval;
use guest_bridge::mem::{ConstPtr, MutPtr, MutVoidPtr, Ptr};
use guest_bridge::Environment;

fn callback() -> GuestFunction {
    GuestFunction::from_addr_with_thumb_bit(0x4001)
}

fn open_service(env: &mut Environment, host_ref: usize) -> DNSServiceRef {
    let out: MutPtr<DNSServiceRef> = env.mem.allocate(4).cast();
    assert_eq!(service_call_finished(env, out, 0, host_ref), 0);
    env.mem.read(out)
}

#[test]
fn browse_request_carries_the_type_read_from_guest_memory() {
    let mut env = Environment::new(0x10000);
    let regtype = env.mem.alloc_and_write_cstr(b"_doom._udp.");
    let call = DNSServiceBrowse(
        &env,
        Ptr::null(),
        5,
        9,
        regtype.cast_const(),
        Ptr::null(),
        callback(),
        Ptr::null(),
    );
    assert_eq!(call.callback, callback());
    match call.request {
        ServiceRequest::Browse { flags, interface_index, regtype } => {
            assert_eq!(flags, 0);
            assert_eq!(interface_index, 0);
            assert_eq!(regtype, b"_doom._udp.".to_vec());
        }
        _ => panic!("not a browse request"),
    }
}

#[test]
fn resolve_register_and_query_requests_carry_their_arguments() {
    let mut env = Environment::new(0x10000);
    let name = env.mem.alloc_and_write_cstr(b"player").cast_const();
    let regtype = env.mem.alloc_and_write_cstr(b"_doom._udp.").cast_const();
    let domain = env.mem.alloc_and_write_cstr(b"local.").cast_const();

    let call = DNSServiceResolve(
        &env,
        Ptr::null(),
        kDNSServiceFlagsForceMulticast,
        2,
        name,
        regtype,
        domain,
        callback(),
        Ptr::null(),
    );
    match call.request {
        ServiceRequest::Resolve { flags, interface_index, name, regtype, domain } => {
            assert_eq!(flags, 0x400);
            assert_eq!(interface_index, 0);
            assert_eq!(name, b"player".to_vec());
            assert_eq!(regtype, b"_doom._udp.".to_vec());
            assert_eq!(domain, b"local.".to_vec());
        }
        _ => panic!("not a resolve request"),
    }

    let call = DNSServiceRegister(
        &env,
        Ptr::null(),
        kDNSServiceFlagsNoAutoRename,
        0,
        name,
        regtype,
        Ptr::null(),
        Ptr::null(),
        14666,
        0,
        Ptr::null(),
        callback(),
        Ptr::null(),
    );
    match call.request {
        ServiceRequest::Register { flags, interface_index, name, regtype, port } => {
            assert_eq!(flags, 0x8);
            assert_eq!(interface_index, 0);
            assert_eq!(name, b"player".to_vec());
            assert_eq!(regtype, b"_doom._udp.".to_vec());
            assert_eq!(port, 14666);
        }
        _ => panic!("not a register request"),
    }

    let call = DNSServiceQueryRecord(
        &env,
        Ptr::null(),
        kDNSServiceFlagsForceMulticast,
        2,
        name,
        1,
        1,
        callback(),
        Ptr::null(),
    );
    match call.request {
        ServiceRequest::QueryRecord { flags, interface_index, fullname, rrtype, rrclass } => {
            assert_eq!(flags, 0x400);
            assert_eq!(interface_index, 0);
            assert_eq!(fullname, b"player".to_vec());
            assert_eq!((rrtype, rrclass), (1, 1));
        }
        _ => panic!("not a query request"),
    }
}

#[test]
fn host_failure_of_a_service_call_becomes_a_negative_result() {
    let mut env = Environment::new(0x10000);
    let out: MutPtr<DNSServiceRef> = env.mem.allocate(4).cast();
    let free = env.mem.available();
    assert_eq!(service_call_finished(&mut env, out, -65537, 42), -1);
    assert_eq!(env.mem.available(), free);
    assert!(env.mem.read(out).is_null());
    assert_eq!(env.libc_state.network.service_refs.len(), 0);
    assert_eq!(process_result_finished(-65563), -1);
    assert_eq!(process_result_finished(0), 0);
}

#[test]
fn finished_service_call_registers_a_fresh_handle() {
    let mut env = Environment::new(0x10000);
    let first = open_service(&mut env, 42);
    let second = open_service(&mut env, 43);
    assert!(!first.is_null() && !second.is_null());
    assert!(first.to_bits() != second.to_bits());
    assert_eq!(env.mem.allocation_size(first), Some(1));
    assert_eq!(DNSServiceRefSockFD(&env, first), Some(42));
    assert_eq!(DNSServiceRefSockFD(&env, second), Some(43));
    assert_eq!(env.libc_state.network.service_refs.handle(42), Some(first.to_bits()));
    assert_eq!(env.libc_state.network.service_refs.handle(43), Some(second.to_bits()));
    assert!(env.owns(first.to_bits()));
}

#[test]
fn deallocated_service_reference_no_longer_resolves() {
    let mut env = Environment::new(0x10000);
    let first = open_service(&mut env, 42);
    let second = open_service(&mut env, 43);
    assert_eq!(DNSServiceRefDeallocate(&mut env, first), Some(42));
    assert_eq!(DNSServiceRefSockFD(&env, first), None);
    assert_eq!(env.libc_state.network.service_refs.handle(42), None);
    assert_eq!(env.mem.allocation_size(first), None);
    assert_eq!(DNSServiceRefDeallocate(&mut env, first), None);
    assert_eq!(DNSServiceRefSockFD(&env, second), Some(43));
}

#[test]
fn completions_with_an_error_are_dropped_except_registrations() {
    let mut queue = CallbackQueue::new();
    browse_callback(&mut queue, callback(), 1, 0, 0, -1, vec![], vec![], vec![]);
    resolve_callback(&mut queue, callback(), 1, 0, 0, -1, vec![], vec![], 0, 0, vec![]);
    query_record_callback(&mut queue, callback(), 1, 0, 0, -1, vec![], 1, 1, vec![1, 2, 3, 4], 0);
    assert_eq!(queue.len(), 0);
    register_callback(&mut queue, callback(), 1, 0, -65548, vec![], vec![], vec![]);
    assert_eq!(queue.len(), 1);
    browse_callback(&mut queue, callback(), 1, 0, 0, 0, vec![], vec![], vec![]);
    assert_eq!(queue.len(), 2);
}

fn tag(completion: &Completion) -> u32 {
    match completion {
        Completion::BrowseReply { flags, .. } => *flags,
        Completion::ResolveReply { flags, .. } => *flags,
        Completion::RegisterReply { error_code, .. } => *error_code as u32,
        Completion::QueryRecordReply { ttl, .. } => *ttl,
    }
}

#[test]
fn drain_hands_out_entries_in_the_order_of_their_arrival() {
    let mut queue = CallbackQueue::new();
    browse_callback(&mut queue, callback(), 1, 1, 0, 0, vec![], vec![], vec![]);
    register_callback(&mut queue, callback(), 1, 0, 2, vec![], vec![], vec![]);
    query_record_callback(&mut queue, callback(), 1, 0, 0, 0, vec![], 1, 1, vec![1, 2, 3, 4], 3);
    let mut pass = queue.drain();
    assert_eq!(queue.len(), 0);
    assert_eq!(pass.len(), 3);
    assert_eq!(pass.next_entry().map(|c| tag(&c)), Some(1));
    assert_eq!(pass.next_entry().map(|c| tag(&c)), Some(2));
    assert_eq!(pass.next_entry().map(|c| tag(&c)), Some(3));
    assert!(pass.next_entry().is_none());
    assert!(pass.next_entry().is_none());
}

#[test]
fn entries_enqueued_during_a_drain_wait_for_the_next_one() {
    let mut queue = CallbackQueue::new();
    register_callback(&mut queue, callback(), 1, 0, 1, vec![], vec![], vec![]);
    let mut pass = queue.drain();
    register_callback(&mut queue, callback(), 1, 0, 2, vec![], vec![], vec![]);
    assert_eq!(pass.next_entry().map(|c| tag(&c)), Some(1));
    assert!(pass.next_entry().is_none());
    assert_eq!(queue.len(), 1);
    let mut next = queue.drain();
    assert_eq!(next.next_entry().map(|c| tag(&c)), Some(2));
    assert!(next.next_entry().is_none());
}

#[test]
fn browse_reply_is_delivered_with_guest_copies_that_are_freed_afterwards() {
    let mut env = Environment::new(0x10000);
    let handle = open_service(&mut env, 42);
    let mut queue = CallbackQueue::new();
    // The completion arrives where nothing of the guest is at hand.
    browse_callback(
        &mut queue,
        callback(),
        42,
        2,
        7,
        0,
        b"player".to_vec(),
        b"_doom._udp.".to_vec(),
        b"local.".to_vec(),
    );
    let free_before = env.mem.available();

    let mut pass = queue.drain();
    let completion = pass.next_entry().unwrap();
    assert!(completion.fits(&env));
    let call = completion.begin(&mut env);
    assert_eq!(call.function, callback());
    assert_eq!(call.args.len(), 8);
    assert_eq!(call.args[0], handle.to_bits());
    assert_eq!(call.args[1], 2);
    assert_eq!(call.args[2], 2);
    assert_eq!(call.args[3], 0);
    assert_eq!(call.args[7], 0);
    let name: ConstPtr<u8> = Ptr::from_bits(call.args[4]);
    let regtype: ConstPtr<u8> = Ptr::from_bits(call.args[5]);
    let domain: ConstPtr<u8> = Ptr::from_bits(call.args[6]);
    assert_eq!(env.mem.cstr_at(name), b"player");
    assert_eq!(env.mem.cstr_at(regtype), b"_doom._udp.");
    assert_eq!(env.mem.cstr_at(domain), b"local.");
    assert_eq!(env.mem.allocation_size(name), Some(7));
    assert_eq!(
        call.temporaries.iter().map(|p| p.to_bits()).collect::<Vec<u32>>(),
        vec![call.args[6], call.args[5], call.args[4]]
    );
    assert!(env.mem.available() < free_before);

    assert!(call.temporaries_intact(&env));
    call.finish(&mut env);
    assert_eq!(env.mem.allocation_size(name), None);
    assert_eq!(env.mem.allocation_size(regtype), None);
    assert_eq!(env.mem.allocation_size(domain), None);
    // The handle stays until it is deallocated.
    assert_eq!(DNSServiceRefSockFD(&env, handle), Some(42));
    assert_eq!(env.mem.allocation_size(handle), Some(1));
    assert!(pass.next_entry().is_none());
}

#[test]
fn resolve_reply_packs_ten_slots() {
    let mut env = Environment::new(0x10000);
    let handle = open_service(&mut env, 7);
    let completion = Completion::ResolveReply {
        callback: callback(),
        sd_ref: 7,
        flags: 1,
        error_code: 0,
        fullname: b"player._doom._udp.local.".to_vec(),
        host_target: b"host.local.".to_vec(),
        port: 0x4a39,
        txt_len: 5,
        txt_record: b"\x04a=bc".to_vec(),
    };
    let call = completion.begin(&mut env);
    assert_eq!(call.args.len(), 10);
    assert_eq!(
        (call.args[0], call.args[1], call.args[2], call.args[3]),
        (handle.to_bits(), 1, 2, 0)
    );
    assert_eq!((call.args[6], call.args[7], call.args[9]), (0x4a39, 5, 0));
    assert_eq!(env.mem.cstr_at(ConstPtr::<u8>::from_bits(call.args[4])), b"player._doom._udp.local.");
    assert_eq!(env.mem.cstr_at(ConstPtr::<u8>::from_bits(call.args[5])), b"host.local.");
    assert_eq!(env.mem.cstr_at(ConstPtr::<u8>::from_bits(call.args[8])), b"\x04a=bc");
    assert_eq!(
        call.temporaries.iter().map(|p| p.to_bits()).collect::<Vec<u32>>(),
        vec![call.args[4], call.args[5], call.args[8]]
    );
    call.finish(&mut env);
}

#[test]
fn register_reply_is_delivered_with_the_handle_and_guest_copies_of_the_strings() {
    let mut env = Environment::new(0x10000);
    let handle = open_service(&mut env, 42);
    let mut queue = CallbackQueue::new();
    register_callback(
        &mut queue,
        callback(),
        42,
        8,
        -65548,
        b"player".to_vec(),
        b"_doom._udp.".to_vec(),
        b"local.".to_vec(),
    );
    let completion = queue.drain().next_entry().unwrap();
    assert_eq!(completion.service(), 42);
    assert!(completion.service_known(&env));
    assert!(completion.fits(&env));
    let free = env.mem.available();
    let call = completion.begin(&mut env);
    assert_eq!(call.function, callback());
    assert_eq!(call.args.len(), 7);
    assert_eq!(call.args[0], handle.to_bits());
    assert_eq!(call.args[1], 8);
    assert_eq!(call.args[2], (-65548i32) as u32);
    assert_eq!(call.args[6], 0);
    assert_eq!(env.mem.cstr_at(ConstPtr::<u8>::from_bits(call.args[3])), b"player");
    assert_eq!(env.mem.cstr_at(ConstPtr::<u8>::from_bits(call.args[4])), b"_doom._udp.");
    assert_eq!(env.mem.cstr_at(ConstPtr::<u8>::from_bits(call.args[5])), b"local.");
    assert_eq!(
        call.temporaries.iter().map(|p| p.to_bits()).collect::<Vec<u32>>(),
        vec![call.args[3], call.args[4], call.args[5]]
    );
    assert_eq!(env.mem.available(), free - 48);
    let buffers = [call.args[3], call.args[4], call.args[5]];
    assert!(call.temporaries_intact(&env));
    call.finish(&mut env);
    for buffer in buffers {
        assert_eq!(env.mem.allocation_size(ConstPtr::<u8>::from_bits(buffer)), None);
    }
    // The table of services is as it was.
    assert_eq!(DNSServiceRefSockFD(&env, handle), Some(42));
    assert_eq!(env.libc_state.network.service_refs.len(), 1);
}

fn query_reply(sd_ref: usize, rdata: Vec<u8>) -> Completion {
    Completion::QueryRecordReply {
        callback: callback(),
        sd_ref,
        flags: 2,
        error_code: 0,
        fullname: b"host.local.".to_vec(),
        rrtype: 1,
        rrclass: 1,
        rdata,
        ttl: 120,
    }
}

#[test]
fn query_record_reply_copies_the_name_and_the_record_data() {
    let mut env = Environment::new(0x10000);
    let handle = open_service(&mut env, 9);
    let completion = query_reply(9, vec![192, 168, 1, 20]);
    let call = completion.begin(&mut env);
    assert_eq!(call.args.len(), 11);
    assert_eq!(&call.args[0..4], &[handle.to_bits(), 2, 2, 0]);
    assert_eq!(&call.args[5..8], &[1, 1, 4]);
    assert_eq!((call.args[9], call.args[10]), (120, 0));
    let name: ConstPtr<u8> = Ptr::from_bits(call.args[4]);
    let data: ConstPtr<u8> = Ptr::from_bits(call.args[8]);
    assert_eq!(env.mem.cstr_at(name), b"host.local.");
    assert_eq!(env.mem.bytes_at(data, 4), &[192, 168, 1, 20]);
    assert_eq!(
        call.temporaries.iter().map(|p| p.to_bits()).collect::<Vec<u32>>(),
        vec![call.args[4], call.args[8]]
    );
    call.finish(&mut env);
    assert_eq!(env.mem.allocation_size(name), None);
    assert_eq!(env.mem.allocation_size(data), None);
    assert_eq!(DNSServiceRefSockFD(&env, handle), Some(9));
}

#[test]
fn completion_for_a_closed_service_is_detected() {
    let mut env = Environment::new(0x10000);
    let handle = open_service(&mut env, 42);
    let other = open_service(&mut env, 43);
    let mut queue = CallbackQueue::new();
    browse_callback(&mut queue, callback(), 42, 0, 0, 0, b"a".to_vec(), b"b".to_vec(), b"c".to_vec());
    register_callback(&mut queue, callback(), 42, 0, 0, vec![], vec![], vec![]);
    register_callback(&mut queue, callback(), 43, 0, 0, vec![], vec![], vec![]);
    let mut pass = queue.drain();
    let first = pass.next_entry().unwrap();
    assert!(first.service_known(&env));
    DNSServiceRefDeallocate(&mut env, handle);
    assert!(!first.service_known(&env));
    assert!(!pass.next_entry().unwrap().service_known(&env));
    // A completion for a service that is still open is not touched by that.
    let third = pass.next_entry().unwrap();
    assert!(third.service_known(&env));
    assert_eq!(third.begin(&mut env).args[0], other.to_bits());
}

#[test]
fn processing_results_takes_the_host_reference_of_an_open_service() {
    let mut env = Environment::new(0x10000);
    let first = open_service(&mut env, 42);
    let second = open_service(&mut env, 43);
    assert_eq!(DNSServiceProcessResult(&env, first), 42);
    assert_eq!(DNSServiceProcessResult(&env, second), 43);
}

#[test]
fn completion_that_does_not_fit_is_told_apart() {
    // Room for the name, sixteen bytes, and for thirty-two bytes of data.
    let env = Environment::new(0x1030);
    assert!(!query_reply(1, vec![0; 33]).fits(&env));
    assert!(query_reply(1, vec![0; 32]).fits(&env));
    let env = Environment::new(0x102f);
    assert!(!query_reply(1, vec![0; 32]).fits(&env));
}

#[test]
fn temporaries_freed_by_the_guest_are_noticed() {
    let mut env = Environment::new(0x10000);
    open_service(&mut env, 1);
    let call = query_reply(1, vec![1, 2, 3, 4]).begin(&mut env);
    assert!(call.temporaries_intact(&env));
    env.mem.free(call.temporaries[1]);
    assert!(!call.temporaries_intact(&env));
}

#[test]
fn failed_readiness_wait_gives_the_guest_a_negative_result() {
    assert_eq!(select_finished(Ok(1)), 1);
    assert_eq!(select_finished(Ok(0)), 0);
    assert_eq!(select_finished(Err(9)), -1);
    assert_eq!(select_finished(Err(4)), -1);
}

fn interfaces() -> Vec<HostInterface> {
    vec![
        HostInterface { name: b"lo".to_vec(), address: Some(HostAddress::Inet(HostInetAddress { ip: 0x7f00_0001, port: 0 })) },
        HostInterface { name: b"en0".to_vec(), address: None },
        HostInterface { name: b"en0".to_vec(), address: Some(HostAddress::Other) },
        HostInterface { name: b"en0".to_vec(), address: Some(HostAddress::Inet(HostInetAddress { ip: 0xc0a8_0114, port: 0 })) },
        HostInterface { name: b"en0".to_vec(), address: Some(HostAddress::Inet(HostInetAddress { ip: 0x0a00_0002, port: 7 })) },
        HostInterface { name: b"en1".to_vec(), address: Some(HostAddress::Inet(HostInetAddress { ip: 1, port: 0 })) },
    ]
}

#[test]
fn interface_list_holds_the_visible_interfaces_last_reported_first() {
    let mut env = Environment::new(0x10000);
    let ifap: MutPtr<MutPtr<ifaddrs>> = env.mem.allocate(4).cast();
    assert_eq!(getifaddrs(&mut env, ifap, &interfaces()), 0);

    let first = env.mem.read(ifap);
    assert!(!first.is_null());
    let node: ifaddrs = env.mem.read(first);
    assert_eq!(env.mem.cstr_at(node.ifa_name), b"en0");
    assert_eq!(node.ifa_flags, 0);
    assert!(node.ifa_netmask.is_null() && node.ifa_dstaddr.is_null() && node.ifa_data.is_null());
    let address: sockaddr_in = env.mem.read(node.ifa_addr);
    assert_eq!(address.sin_len, 0);
    assert_eq!(address.sin_family, 2);
    assert_eq!(address.sin_port, 7);
    assert_eq!(env.mem.bytes_at(node.ifa_addr.cast::<u8>().offset(4), 4), &[10, 0, 0, 2]);

    let second: MutPtr<ifaddrs> = node.ifa_next.cast();
    assert!(!second.is_null());
    let node: ifaddrs = env.mem.read(second);
    assert_eq!(env.mem.cstr_at(node.ifa_name), b"en0");
    assert_eq!(env.mem.bytes_at(node.ifa_addr.cast::<u8>().offset(4), 4), &[192, 168, 1, 20]);
    assert!(node.ifa_next.is_null());
}

#[test]
fn interface_list_is_empty_when_nothing_is_visible() {
    let mut env = Environment::new(0x10000);
    let ifap: MutPtr<MutPtr<ifaddrs>> = env.mem.alloc_and_write(MutPtr::<ifaddrs>::from_bits(0x1234));
    let free = env.mem.available();
    assert_eq!(getifaddrs(&mut env, ifap, &Vec::new()), 0);
    assert!(env.mem.read(ifap).is_null());
    assert_eq!(env.mem.available(), free);
}

#[test]
fn freeing_the_interface_list_frees_nodes_and_names_only() {
    let mut env = Environment::new(0x10000);
    let ifap: MutPtr<MutPtr<ifaddrs>> = env.mem.allocate(4).cast();
    getifaddrs(&mut env, ifap, &interfaces());
    let first = env.mem.read(ifap);
    let node: ifaddrs = env.mem.read(first);
    let second: MutPtr<ifaddrs> = node.ifa_next.cast();
    let second_node: ifaddrs = env.mem.read(second);

    assert!(can_freeifaddrs(&env, first));
    freeifaddrs(&mut env, first);
    assert_eq!(env.mem.allocation_size(first), None);
    assert_eq!(env.mem.allocation_size(node.ifa_name), None);
    assert_eq!(env.mem.allocation_size(second), None);
    assert_eq!(env.mem.allocation_size(second_node.ifa_name), None);
    assert_eq!(env.mem.allocation_size(node.ifa_addr), Some(16));
    assert_eq!(env.mem.allocation_size(second_node.ifa_addr), Some(16));
    assert_eq!(env.mem.allocation_size(ifap), Some(4));
    // A second time round there is nothing left to free.
    assert!(!can_freeifaddrs(&env, first));
    assert!(can_freeifaddrs(&env, Ptr::null()));
    freeifaddrs(&mut env, Ptr::null());
}

#[test]
fn a_list_that_runs_into_a_handle_or_in_a_circle_cannot_be_freed() {
    let mut env = Environment::new(0x10000);
    let name = env.mem.alloc_and_write_cstr(b"en0");
    let node: MutPtr<ifaddrs> = env.mem.allocate(28).cast();
    env.mem.write(
        node,
        ifaddrs {
            ifa_next: node.cast(),
            ifa_name: name,
            ifa_flags: 0,
            ifa_addr: Ptr::null(),
            ifa_netmask: Ptr::null(),
            ifa_dstaddr: Ptr::null(),
            ifa_data: Ptr::null(),
        },
    );
    assert!(!can_freeifaddrs(&env, node));

    let cell = guest_bridge::libc::errno::__error(&mut env);
    env.mem.write(
        node,
        ifaddrs {
            ifa_next: Ptr::null(),
            ifa_name: cell.cast(),
            ifa_flags: 0,
            ifa_addr: Ptr::null(),
            ifa_netmask: Ptr::null(),
            ifa_dstaddr: Ptr::null(),
            ifa_data: Ptr::null(),
        },
    );
    assert!(!can_freeifaddrs(&env, node));
    assert!(!can_freeifaddrs(&env, MutPtr::from_bits(0xffff_fff0)));
}

#[test]
fn interface_name_and_index() {
    let mut env = Environment::new(0x10000);
    let buffer: MutPtr<u8> = env.mem.allocate(16).cast();
    env.mem.write_bytes(buffer, &[0xaa; 16]);
    let name = if_indextoname(&mut env, 2, buffer.cast_const());
    assert_eq!(name.to_bits(), buffer.to_bits());
    assert_eq!(env.mem.bytes_at(buffer, 5), b"en0\0\xaa");
    assert_eq!(if_nameindex(&env, buffer.cast_const()), 0);
}

#[test]
fn byte_swaps() {
    assert_eq!(swapped_u16(0x1234), 0x3412);
    assert_eq!(swapped_u16(0x00ff), 0xff00);
    assert_eq!(swapped_u32(0x1122_3344), 0x4433_2211);
    assert_eq!(swapped_u32(0xc0a8_0114), 0x1401_a8c0);
}

fn guest_address(env: &mut Environment, octets: [u8; 4], port_bytes: [u8; 2]) -> MutPtr<sockaddr_in> {
    let address: MutPtr<sockaddr_in> = env.mem.allocate(16).cast();
    let mut bytes = vec![0u8, 2, port_bytes[0], port_bytes[1]];
    bytes.extend_from_slice(&octets);
    bytes.extend_from_slice(&[0; 8]);
    env.mem.write_bytes(address.cast(), &bytes);
    address
}

#[test]
fn bind_hands_the_host_the_address_and_the_port_in_host_order() {
    let mut env = Environment::new(0x10000);
    // Port 14666 in network byte order.
    let address = guest_address(&mut env, [192, 168, 1, 20], [0x39, 0x4a]);
    let target = bind(&env, 5, address.cast_const(), 16);
    assert_eq!(target.ip(), 0xc0a8_0114);
    assert_eq!(target.port(), 14666);
    assert_eq!(target, nix::sys::socket::SockaddrIn::new(192, 168, 1, 20, 14666));
    assert_eq!(bind_finished(Ok(())), 0);
    assert_eq!(bind_finished(Err(98)), -1);
}

#[test]
fn sendto_copies_the_data_and_hands_the_port_on_as_stored() {
    let mut env = Environment::new(0x10000);
    let address = guest_address(&mut env, [10, 0, 0, 2], [0x39, 0x4a]);
    let buffer: MutPtr<u8> = env.mem.allocate(5).cast();
    env.mem.write_bytes(buffer, b"hello");
    let request = sendto(
        &env,
        5,
        buffer.cast_const().cast(),
        5,
        0,
        address.cast_const(),
        Ptr::null(),
    );
    assert_eq!(request.data, b"hello".to_vec());
    assert_eq!(request.destination.ip(), 0x0a00_0002);
    assert_eq!(request.destination.port(), 0x4a39);
    assert_eq!(sendto_finished(Ok(5)), 5);
    assert_eq!(sendto_finished(Ok(0)), 0);
    assert_eq!(sendto_finished(Err(11)), -1);
}

#[test]
fn socket_result_is_the_descriptor_or_negative() {
    let env = Environment::new(0x10000);
    assert_eq!(socket(&env, 2, 2, 17, Ok(9)), 9);
    assert_eq!(socket(&env, 30, 1, 6, Ok(0)), 0);
    assert_eq!(socket(&env, 2, 2, 17, Err(24)), -1);
}

#[test]
fn select_waits_for_the_highest_descriptor_of_the_sets() {
    let mut env = Environment::new(0x10000);
    let timeout: MutPtr<timeval> = env.mem.alloc_and_write(timeval { tv_sec: 3, tv_usec: 250_000 });
    let request = select(&env, 8, Ptr::null(), Ptr::null(), Ptr::null(), timeout);
    assert_eq!(request.sock, 7);
    assert_eq!(request.seconds, 3);
    assert_eq!(request.microseconds, 250_000);
    env.mem.write(timeout, timeval { tv_sec: -1, tv_usec: -2 });
    let request = select(&env, 1, Ptr::null(), Ptr::null(), Ptr::null(), timeout);
    assert_eq!((request.sock, request.seconds, request.microseconds), (0, -1, -2));
}

#[test]
fn received_datagram_is_stored_with_its_sender() {
    let mut env = Environment::new(0x10000);
    let buffer: MutVoidPtr = env.mem.allocate(64);
    let address: MutPtr<sockaddr_in> = env.mem.allocate(16).cast();
    let datagram = Datagram {
        data: vec![1, 2, 3],
        sender: Some(HostInetAddress { ip: 0xc0a8_0114, port: 14666 }),
    };
    let result = recvfrom(&mut env, 5, buffer, 64, 0, address, Ptr::null(), Ok(datagram));
    assert_eq!(result, 3);
    assert_eq!(env.mem.bytes_at(buffer.cast::<u8>(), 4), &[1, 2, 3, 0]);
    let sender: sockaddr_in = env.mem.read(address);
    assert_eq!(sender.sin_len, 0);
    assert_eq!(sender.sin_family, 2);
    assert_eq!(sender.sin_port, 14666);
    assert_eq!(sender.sin_addr.s_addr, 0x1401_a8c0);
    assert_eq!(sender.sin_zero, 0);
    assert_eq!(env.mem.bytes_at(address.cast::<u8>(), 8), &[0, 2, 0x4a, 0x39, 192, 168, 1, 20]);
    let cell = env.libc_state.errno.cell(0).unwrap();
    assert_eq!(env.mem.read(cell), 0);
}

#[test]
fn receive_error_goes_to_the_error_cell() {
    let mut env = Environment::new(0x10000);
    let buffer: MutVoidPtr = env.mem.allocate(64);
    let address: MutPtr<sockaddr_in> = env.mem.allocate(16).cast();
    let result = recvfrom(&mut env, 5, buffer, 64, 0, address, Ptr::null(), Err(11));
    assert_eq!(result, -1);
    let cell = env.libc_state.errno.cell(0).unwrap();
    assert_eq!(env.mem.read(cell), 11);
    assert_eq!(env.mem.bytes_at(buffer.cast::<u8>(), 4), &[0, 0, 0, 0]);
    // The next reception that goes well clears it.
    let datagram = Datagram { data: vec![], sender: Some(HostInetAddress { ip: 1, port: 2 }) };
    assert_eq!(recvfrom(&mut env, 5, buffer, 64, 0, address, Ptr::null(), Ok(datagram)), 0);
    assert_eq!(env.mem.read(cell), 0);
}

#[test]
fn guest_structures_have_their_layout() {
    let mut env = Environment::new(0x10000);
    let address: MutPtr<sockaddr_in> = env.mem.alloc_and_write(sockaddr_in {
        sin_len: 1,
        sin_family: 2,
        sin_port: 0x0304,
        sin_addr: in_addr { s_addr: 0x0807_0605 },
        sin_zero: 0x100f_0e0d_0c0b_0a09,
    });
    assert_eq!(
        env.mem.bytes_at(address.cast::<u8>(), 16),
        &[1, 2, 4, 3, 5, 6, 7, 8, 9, 10, 11, 12, 13, 14, 15, 16]
    );
    assert_eq!(env.mem.allocation_size(address), Some(16));
    let node: MutPtr<ifaddrs> = env.mem.alloc_and_write(ifaddrs {
        ifa_next: Ptr::from_bits(1),
        ifa_name: Ptr::from_bits(2),
        ifa_flags: 3,
        ifa_addr: Ptr::from_bits(4),
        ifa_netmask: Ptr::from_bits(5),
        ifa_dstaddr: Ptr::from_bits(6),
        ifa_data: Ptr::from_bits(7),
    });
    assert_eq!(env.mem.allocation_size(node), Some(28));
    let bytes = env.mem.bytes_at(node.cast::<u8>(), 28).to_vec();
    for field in 0..7 {
        assert_eq!(&bytes[field * 4..field * 4 + 4], &[field as u8 + 1, 0, 0, 0]);
    }
}

#[test]
fn building_the_interface_list_needs_room_and_a_settled_place() {
    assert_eq!(listed_count(&interfaces()), 2);
    assert_eq!(listed_count(&Vec::new()), 0);

    // Two nodes of 64 bytes each on top of the cell for the list's address.
    let mut env = Environment::new(0x1000 + 16 + 128);
    let ifap: MutPtr<MutPtr<ifaddrs>> = env.mem.allocate(4).cast();
    assert!(can_getifaddrs(&env, ifap, &interfaces()));
    assert!(env.mem.is_settled(ifap.to_bits(), 4));
    // A place in the space that the allocator has yet to hand out will not do.
    assert!(!env.mem.is_settled(ifap.to_bits() + 16, 4));
    assert!(!can_getifaddrs(&env, MutPtr::from_bits(ifap.to_bits() + 16), &interfaces()));
    assert!(!can_getifaddrs(&env, MutPtr::null(), &interfaces()));
    assert_eq!(getifaddrs(&mut env, ifap, &interfaces()), 0);
    assert_eq!(env.mem.available(), 0);

    let mut env = Environment::new(0x1000 + 16 + 127);
    let ifap: MutPtr<MutPtr<ifaddrs>> = env.mem.allocate(4).cast();
    assert!(!can_getifaddrs(&env, ifap, &interfaces()));
    assert!(can_getifaddrs(&env, ifap, &Vec::new()));
}

#[test]
fn freeing_through_the_environment_spares_handles() {
    let mut env = Environment::new(0x10000);
    let plain = env.mem.allocate(8);
    let handle = open_service(&mut env, 5);
    assert!(!env.owns(plain.to_bits()));
    assert!(env.owns(handle.to_bits()));
    env.free(plain);
    assert_eq!(env.mem.allocation_size(plain), None);
    assert_eq!(env.mem.allocation_size(handle), Some(1));
}
