//! The guest's list of interface addresses.
//!
//! The list is built in guest memory from what the host reports: a chain of
//! nodes, each with a name and an address in allocations of their own. The
//! guest frees it node by node.

use crate::environment::{lemma_mem_change_keeps_wf, lemma_same_owners, Environment};
use crate::libc::network::sockets::{
    guest_sockaddr, in_addr, sockaddr_in, sockaddr_in_of, swapped_u32, HostInetAddress, AF_INET,
};
use crate::libc::network::stored_handle;
use crate::mem::{
    le_bytes_u32, le_value_u32, lemma_le_round_trip_u32, lemma_write_keeps_elsewhere,
    lemma_write_reads_back, reserved_size, GuestData, GuestUSize, MemView, MutPtr, MutVoidPtr,
    Ptr, VAddr,
};
use vstd::prelude::*;

verus! {

/// A node of the guest's list of interface addresses.
pub struct ifaddrs {
    /// The next node, or null.
    pub ifa_next: MutVoidPtr,
    /// The interface's name, a zero-terminated string.
    pub ifa_name: MutPtr<u8>,
    pub ifa_flags: u32,
    pub ifa_addr: MutPtr<sockaddr_in>,
    pub ifa_netmask: MutPtr<sockaddr_in>,
    pub ifa_dstaddr: MutPtr<sockaddr_in>,
    pub ifa_data: MutVoidPtr,
}

/// Bytes of guest memory that a node occupies.
pub const IFADDRS_SIZE: GuestUSize = 28;

/// Bytes of guest memory that a socket address occupies.
pub const SOCKADDR_IN_SIZE: GuestUSize = 16;

/// The node that twenty-eight bytes of guest memory stand for.
pub open spec fn ifaddrs_of(bytes: Seq<u8>) -> ifaddrs {
    ifaddrs {
        ifa_next: Ptr::at(le_value_u32(bytes.subrange(0, 4))),
        ifa_name: Ptr::at(le_value_u32(bytes.subrange(4, 8))),
        ifa_flags: le_value_u32(bytes.subrange(8, 12)),
        ifa_addr: Ptr::at(le_value_u32(bytes.subrange(12, 16))),
        ifa_netmask: Ptr::at(le_value_u32(bytes.subrange(16, 20))),
        ifa_dstaddr: Ptr::at(le_value_u32(bytes.subrange(20, 24))),
        ifa_data: Ptr::at(le_value_u32(bytes.subrange(24, 28))),
    }
}

impl GuestData for ifaddrs {
    const SIZE: GuestUSize = 28;

    open spec fn guest_bytes(self) -> Seq<u8> {
        le_bytes_u32(self.ifa_next.addr()) + le_bytes_u32(self.ifa_name.addr()) + le_bytes_u32(
            self.ifa_flags,
        ) + le_bytes_u32(self.ifa_addr.addr()) + le_bytes_u32(self.ifa_netmask.addr())
            + le_bytes_u32(self.ifa_dstaddr.addr()) + le_bytes_u32(self.ifa_data.addr())
    }

    open spec fn from_guest_bytes(bytes: Seq<u8>) -> Self {
        ifaddrs_of(bytes)
    }

    fn store(&self) -> (bytes: Vec<u8>) {
        let mut bytes = self.ifa_next.to_bits().store();
        let mut name = self.ifa_name.to_bits().store();
        bytes.append(&mut name);
        let mut flags = self.ifa_flags.store();
        bytes.append(&mut flags);
        let mut addr = self.ifa_addr.to_bits().store();
        bytes.append(&mut addr);
        let mut netmask = self.ifa_netmask.to_bits().store();
        bytes.append(&mut netmask);
        let mut dstaddr = self.ifa_dstaddr.to_bits().store();
        bytes.append(&mut dstaddr);
        let mut data = self.ifa_data.to_bits().store();
        bytes.append(&mut data);
        assert(bytes@ =~= self.guest_bytes());
        bytes
    }

    fn load(bytes: &[u8]) -> (value: Self) {
        proof {
            u32::lemma_layout(0u32);
        }
        ifaddrs {
            ifa_next: Ptr::from_bits(u32::load(&bytes[0..4])),
            ifa_name: Ptr::from_bits(u32::load(&bytes[4..8])),
            ifa_flags: u32::load(&bytes[8..12]),
            ifa_addr: Ptr::from_bits(u32::load(&bytes[12..16])),
            ifa_netmask: Ptr::from_bits(u32::load(&bytes[16..20])),
            ifa_dstaddr: Ptr::from_bits(u32::load(&bytes[20..24])),
            ifa_data: Ptr::from_bits(u32::load(&bytes[24..28])),
        }
    }

    proof fn lemma_layout(value: Self) {
        let bytes = value.guest_bytes();
        assert(bytes.subrange(0, 4) =~= le_bytes_u32(value.ifa_next.addr()));
        assert(bytes.subrange(4, 8) =~= le_bytes_u32(value.ifa_name.addr()));
        assert(bytes.subrange(8, 12) =~= le_bytes_u32(value.ifa_flags));
        assert(bytes.subrange(12, 16) =~= le_bytes_u32(value.ifa_addr.addr()));
        assert(bytes.subrange(16, 20) =~= le_bytes_u32(value.ifa_netmask.addr()));
        assert(bytes.subrange(20, 24) =~= le_bytes_u32(value.ifa_dstaddr.addr()));
        assert(bytes.subrange(24, 28) =~= le_bytes_u32(value.ifa_data.addr()));
        lemma_le_round_trip_u32(value.ifa_next.addr());
        lemma_le_round_trip_u32(value.ifa_name.addr());
        lemma_le_round_trip_u32(value.ifa_flags);
        lemma_le_round_trip_u32(value.ifa_addr.addr());
        lemma_le_round_trip_u32(value.ifa_netmask.addr());
        lemma_le_round_trip_u32(value.ifa_dstaddr.addr());
        lemma_le_round_trip_u32(value.ifa_data.addr());
    }
}

/// An address of an interface as the host reports it.
#[derive(Clone, Copy, Debug, PartialEq, Eq, Structural)]
pub enum HostAddress {
    /// An address of the internet.
    Inet(HostInetAddress),
    /// An address of any other family.
    Other,
}

/// An interface as the host reports it.
pub struct HostInterface {
    pub name: Vec<u8>,
    pub address: Option<HostAddress>,
}

/// An interface with its name as a sequence of bytes.
pub struct HostInterfaceView {
    pub name: Seq<u8>,
    pub address: Option<HostAddress>,
}

impl View for HostInterface {
    type V = HostInterfaceView;

    open spec fn view(&self) -> HostInterfaceView {
        HostInterfaceView { name: self.name@, address: self.address }
    }
}

/// What a node of the guest's list says of an interface.
pub struct ListedInterface {
    pub name: Seq<u8>,
    pub address: sockaddr_in,
}

/// The name of the one interface that the guest gets to see.
pub open spec fn visible_interface() -> Seq<u8> {
    seq![0x65u8, 0x6eu8, 0x30u8]
}

/// Whether the guest gets to see an interface: only the one with the
/// visible name, and only with an address of the internet.
pub open spec fn is_listed(interface: HostInterfaceView) -> bool {
    interface.name == visible_interface() && interface.address matches Some(HostAddress::Inet(_))
}

/// What the guest's list says of an interface that it gets to see.
pub open spec fn listing(interface: HostInterfaceView) -> ListedInterface {
    ListedInterface {
        name: interface.name,
        address: guest_sockaddr(interface.address->0->Inet_0),
    }
}

/// The guest's list for what the host reports: one node for each interface
/// that the guest gets to see, the one that the host reports last first.
pub open spec fn listed(interfaces: Seq<HostInterfaceView>) -> Seq<ListedInterface>
    decreases interfaces.len(),
{
    if interfaces.len() == 0 {
        Seq::<ListedInterface>::empty()
    } else if is_listed(interfaces.last()) {
        seq![listing(interfaces.last())] + listed(interfaces.drop_last())
    } else {
        listed(interfaces.drop_last())
    }
}

/// Guest memory that one node of the list takes, with its name and address.
pub open spec fn node_cost() -> int {
    reserved_size(SOCKADDR_IN_SIZE) + reserved_size((visible_interface().len() + 1) as GuestUSize)
        + reserved_size(IFADDRS_SIZE)
}

/// The node stored at `node`.
pub open spec fn node_at(mem: MemView, node: VAddr) -> ifaddrs {
    ifaddrs_of(mem.range(node as int, IFADDRS_SIZE as int))
}

/// `base` is a live block of `size` bytes that lies between `floor` and
/// `ceiling`, inside the space.
pub open spec fn is_block(mem: MemView, base: VAddr, size: int, floor: int, ceiling: int) -> bool {
    &&& floor <= base
    &&& base + size <= ceiling
    &&& mem.live.contains_key(base)
    &&& mem.live[base] == size
    &&& base + size <= mem.bytes.len()
}

/// Guest memory holds, from `head` on, a list that says `entries`, in
/// order, and ends with a null pointer. Each node, each name and each
/// address is a live block of its own between `floor` and `ceiling`; the
/// address of a node lies below its name, the name below the node, and the
/// rest of the list below all three.
pub open spec fn is_interface_list(
    mem: MemView,
    head: VAddr,
    entries: Seq<ListedInterface>,
    floor: int,
    ceiling: int,
) -> bool
    decreases entries.len(),
{
    if entries.len() == 0 {
        head == 0
    } else {
        let node = node_at(mem, head);
        let name = entries[0].name.push(0u8);
        &&& head != 0
        &&& is_block(mem, head, IFADDRS_SIZE as int, floor, ceiling)
        &&& node.ifa_flags == 0
        &&& node.ifa_netmask.is_null()
        &&& node.ifa_dstaddr.is_null()
        &&& node.ifa_data.is_null()
        &&& is_block(mem, node.ifa_name.addr(), name.len() as int, floor, head as int)
        &&& mem.range(node.ifa_name.addr() as int, name.len() as int) == name
        &&& is_block(
            mem,
            node.ifa_addr.addr(),
            SOCKADDR_IN_SIZE as int,
            floor,
            node.ifa_name.addr() as int,
        )
        &&& sockaddr_in_of(mem.range(node.ifa_addr.addr() as int, SOCKADDR_IN_SIZE as int))
            == entries[0].address
        &&& is_interface_list(
            mem,
            node.ifa_next.addr(),
            entries.drop_first(),
            floor,
            node.ifa_addr.addr() as int,
        )
    }
}

/// `later` has every block of `earlier` that starts between `floor` and
/// `ceiling`, at its size and with its bytes.
pub open spec fn keeps_blocks_in(
    later: MemView,
    earlier: MemView,
    floor: int,
    ceiling: int,
) -> bool {
    &&& later.bytes.len() == earlier.bytes.len()
    &&& forall|base: VAddr| #[trigger]
        earlier.live.contains_key(base) && floor <= base < ceiling ==> {
            &&& later.live.contains_key(base)
            &&& later.live[base] == earlier.live[base]
            &&& later.range(base as int, earlier.live[base] as int) == earlier.range(
                base as int,
                earlier.live[base] as int,
            )
        }
}

/// A list stays what it is as long as its blocks are kept.
pub proof fn lemma_list_survives(
    earlier: MemView,
    later: MemView,
    head: VAddr,
    entries: Seq<ListedInterface>,
    floor: int,
    ceiling: int,
)
    requires
        is_interface_list(earlier, head, entries, floor, ceiling),
        keeps_blocks_in(later, earlier, floor, ceiling),
    ensures
        is_interface_list(later, head, entries, floor, ceiling),
    decreases entries.len(),
{
    if entries.len() > 0 {
        assert(earlier.live.contains_key(head));
        let node = node_at(earlier, head);
        assert(node_at(later, head) == node);
        assert(earlier.live.contains_key(node.ifa_name.addr()));
        assert(earlier.live.contains_key(node.ifa_addr.addr()));
        lemma_list_survives(
            earlier,
            later,
            node.ifa_next.addr(),
            entries.drop_first(),
            floor,
            node.ifa_addr.addr() as int,
        );
    }
}

/// A list whose blocks are no handles can be freed node by node.
pub proof fn lemma_interface_list_can_be_freed(
    mem: MemView,
    handles: crate::environment::Handles,
    head: VAddr,
    entries: Seq<ListedInterface>,
    floor: int,
    ceiling: int,
)
    requires
        is_interface_list(mem, head, entries, floor, ceiling),
        crate::mem::NULL_PAGE_SIZE <= floor,
        forall|addr: VAddr| floor <= addr ==> !handles.owns(addr),
    ensures
        can_free_list(mem, handles, head, entries.len()),
    decreases entries.len(),
{
    if entries.len() > 0 {
        let node = node_at(mem, head);
        let name = node.ifa_name.addr();
        let addr = node.ifa_addr.addr();
        let after = mem.free(name).free(head);
        assert(keeps_blocks_in(after, mem, floor, addr as int)) by {
            assert forall|base: VAddr| #[trigger]
                mem.live.contains_key(base) && floor <= base < addr implies after.range(
                base as int,
                mem.live[base] as int,
            ) == mem.range(base as int, mem.live[base] as int) by {}
        }
        lemma_list_survives(mem, after, node.ifa_next.addr(), entries.drop_first(), floor, addr as int);
        lemma_interface_list_can_be_freed(
            after,
            handles,
            node.ifa_next.addr(),
            entries.drop_first(),
            floor,
            addr as int,
        );
    }
}

/// The list for the first so many interfaces never has more nodes than the
/// list for all of them, and grows by one node with each interface that the
/// guest gets to see.
pub proof fn lemma_listed_prefix(interfaces: Seq<HostInterfaceView>, count: int)
    requires
        0 <= count <= interfaces.len(),
    ensures
        listed(interfaces.take(count)).len() <= listed(interfaces).len(),
        count < interfaces.len() ==> listed(interfaces.take(count + 1)) == if is_listed(
            interfaces[count],
        ) {
            seq![listing(interfaces[count])] + listed(interfaces.take(count))
        } else {
            listed(interfaces.take(count))
        },
        count < interfaces.len() && is_listed(interfaces[count]) ==> listed(
            interfaces.take(count),
        ).len() < listed(interfaces).len(),
    decreases interfaces.len() - count,
{
    if count < interfaces.len() {
        let next = interfaces.take(count + 1);
        assert(next.drop_last() =~= interfaces.take(count));
        assert(next.last() == interfaces[count]);
        lemma_listed_prefix(interfaces, count + 1);
    } else {
        assert(interfaces.take(count) =~= interfaces);
    }
}

/// The bytes of the visible interface's name.
fn visible_interface_name() -> (name: Vec<u8>)
    ensures
        name@ == visible_interface(),
{
    let mut name: Vec<u8> = Vec::new();
    name.push(0x65);
    name.push(0x6e);
    name.push(0x30);
    assert(name@ =~= visible_interface());
    name
}

/// The views of the interfaces.
pub open spec fn interface_views(interfaces: Seq<HostInterface>) -> Seq<HostInterfaceView> {
    interfaces.map_values(|interface: HostInterface| interface@)
}

/// Number of interfaces, among those that the host reports, that the guest
/// gets to see.
pub fn listed_count(addrs: &Vec<HostInterface>) -> (count: usize)
    ensures
        count == listed(interface_views(addrs@)).len(),
{
    let ghost views = interface_views(addrs@);
    let name = visible_interface_name();
    let mut count: usize = 0;
    let mut i: usize = 0;
    proof {
        assert(views.take(0) =~= Seq::<HostInterfaceView>::empty());
    }
    while i < addrs.len()
        invariant
            0 <= i <= addrs@.len(),
            views == interface_views(addrs@),
            name@ == visible_interface(),
            count == listed(views.take(i as int)).len(),
            count <= i,
        decreases addrs@.len() - i,
    {
        proof {
            lemma_listed_prefix(views, i as int);
            assert(views[i as int] == addrs@[i as int]@);
        }
        if crate::dyld::same_bytes(addrs[i].name.as_slice(), name.as_slice()) {
            match addrs[i].address {
                Some(HostAddress::Inet(_)) => {
                    count = count + 1;
                },
                _ => {},
            }
        }
        i = i + 1;
    }
    proof {
        assert(views.take(addrs@.len() as int) =~= views);
    }
    count
}

/// Whether the guest's list of interface addresses can be built: the place
/// for its address can be written and lies where the allocator hands out
/// nothing any more, and the guest has room for the list.
pub fn can_getifaddrs(
    env: &Environment,
    ifap: MutPtr<MutPtr<ifaddrs>>,
    addrs: &Vec<HostInterface>,
) -> (ok: bool)
    requires
        env.wf(),
    ensures
        ok == {
            &&& env.mem@.in_bounds(ifap.addr() as int, 4)
            &&& env.mem.settled(ifap.addr() as int, 4)
            &&& listed(interface_views(addrs@)).len() * node_cost() <= env.mem.free_bytes()
        },
{
    proof {
        crate::mem::lemma_reserved_size(SOCKADDR_IN_SIZE);
        crate::mem::lemma_reserved_size(IFADDRS_SIZE);
        crate::mem::lemma_reserved_size(4);
        assert(node_cost() == 64);
    }
    let count: u128 = listed_count(addrs) as u128;
    let needed: u128 = count * 64;
    assert(needed == listed(interface_views(addrs@)).len() * node_cost());
    env.mem.is_valid_range(ifap.to_bits(), 4) && env.mem.is_settled(ifap.to_bits(), 4) && needed
        <= env.mem.available() as u128
}

/// Puts a node for the visible interface with the address `inet` in front
/// of the list that starts at `prev`, and gives the new node's place.
#[verifier::rlimit(50)]
fn add_node(
    env: &mut Environment,
    prev: MutPtr<ifaddrs>,
    inet: HostInetAddress,
    Ghost(rest): Ghost<Seq<ListedInterface>>,
    Ghost(floor): Ghost<int>,
) -> (node: MutPtr<ifaddrs>)
    requires
        old(env).wf(),
        node_cost() <= old(env).mem.free_bytes(),
        floor <= old(env).mem.frontier(),
        is_interface_list(old(env).mem@, prev.addr(), rest, floor, old(env).mem.frontier()),
    ensures
        final(env).wf(),
        final(env).same_but_mem(old(env)),
        final(env).mem@.extends(old(env).mem@),
        final(env).mem.free_bytes() == old(env).mem.free_bytes() - node_cost(),
        is_interface_list(
            final(env).mem@,
            node.addr(),
            seq![
                (ListedInterface {
                    name: visible_interface(),
                    address: guest_sockaddr(inet),
                }),
            ] + rest,
            floor,
            final(env).mem.frontier(),
        ),
        forall|at: int|
            0 <= at < old(env).mem.frontier() ==> final(env).mem@.bytes[at] == old(
                env,
            ).mem@.bytes[at],
{
    let ghost m0 = env.mem@;
    let ghost before = *env;
    let name = visible_interface_name();
    let addr_in = sockaddr_in {
        sin_len: 0,
        sin_family: AF_INET,
        sin_port: inet.port,
        sin_addr: in_addr { s_addr: swapped_u32(inet.ip) },
        sin_zero: 0,
    };
    proof {
        sockaddr_in::lemma_layout(addr_in);
        crate::mem::lemma_reserved_size(SOCKADDR_IN_SIZE);
        crate::mem::lemma_reserved_size(IFADDRS_SIZE);
        crate::mem::lemma_reserved_size(4);
    }
    let addr_in_ptr = env.mem.alloc_and_write(addr_in);
    let ghost e1 = *env;
    let ghost m1 = env.mem@;
    proof {
        lemma_mem_change_keeps_wf(&before, env);
        lemma_write_reads_back(
            m0.allocate(addr_in_ptr.addr(), SOCKADDR_IN_SIZE),
            addr_in_ptr.addr() as int,
            addr_in.guest_bytes(),
        );
    }
    let name_ptr = env.mem.alloc_and_write_cstr(name.as_slice());
    let ghost e2 = *env;
    let ghost m2 = env.mem@;
    proof {
        lemma_mem_change_keeps_wf(&e1, env);
        lemma_write_reads_back(
            m1.allocate(name_ptr.addr(), 4),
            name_ptr.addr() as int,
            name@.push(0u8),
        );
    }
    let ifadd = ifaddrs {
        ifa_next: prev.cast(),
        ifa_name: name_ptr,
        ifa_flags: 0,
        ifa_addr: addr_in_ptr,
        ifa_netmask: Ptr::null(),
        ifa_dstaddr: Ptr::null(),
        ifa_data: Ptr::null(),
    };
    proof {
        ifaddrs::lemma_layout(ifadd);
    }
    let ifadd_ptr = env.mem.alloc_and_write(ifadd);
    proof {
        let m3 = env.mem@;
        lemma_mem_change_keeps_wf(&e2, env);
        lemma_write_reads_back(
            m2.allocate(ifadd_ptr.addr(), IFADDRS_SIZE),
            ifadd_ptr.addr() as int,
            ifadd.guest_bytes(),
        );
        crate::mem::lemma_extends_transitive(m0, m1, m2);
        crate::mem::lemma_extends_transitive(m0, m2, m3);
        crate::mem::lemma_extends_transitive(m1, m2, m3);
        assert(keeps_blocks_in(m3, m0, floor, before.mem.frontier()));
        lemma_list_survives(m0, m3, prev.addr(), rest, floor, before.mem.frontier());
        let entry = ListedInterface { name: visible_interface(), address: guest_sockaddr(inet) };
        let entries = seq![entry] + rest;
        assert(entries.drop_first() =~= rest);
        assert(entries[0] == entry);
        assert(node_at(m3, ifadd_ptr.addr()) == ifadd);
        assert(m1.live.contains_key(addr_in_ptr.addr()));
        assert(m2.live.contains_key(name_ptr.addr()));
        assert(m2.live.contains_key(addr_in_ptr.addr()));
        assert(is_interface_list(m3, ifadd_ptr.addr(), entries, floor, env.mem.frontier()));
        assert forall|at: int| 0 <= at < before.mem.frontier() implies m3.bytes[at]
            == m0.bytes[at] by {}
    }
    ifadd_ptr
}

/// Builds the guest's list of interface addresses from what the host
/// reports, and stores the address of its first node at `ifap`. The guest
/// must have room for the list. The place at `ifap` must lie below the
/// allocator's frontier: the nodes are allocated before the address of the
/// first one is stored, so a place in space that is yet to be handed out
/// could come to lie inside a node, and storing there would break the list
/// that was just built. Any place in a live allocation meets this.
pub fn getifaddrs(
    env: &mut Environment,
    ifap: MutPtr<MutPtr<ifaddrs>>,
    addrs: &Vec<HostInterface>,
) -> (result: i32)
    requires
        old(env).wf(),
        old(env).mem@.in_bounds(ifap.addr() as int, 4),
        old(env).mem.settled(ifap.addr() as int, 4),
        listed(interface_views(addrs@)).len() * node_cost() <= old(env).mem.free_bytes(),
    ensures
        result == 0,
        final(env).wf(),
        final(env).same_but_mem(old(env)),
        is_interface_list(
            final(env).mem@,
            stored_handle(final(env).mem@, ifap.addr()),
            listed(interface_views(addrs@)),
            old(env).mem.frontier(),
            final(env).mem.frontier(),
        ),
        is_free_list(
            final(env).mem@,
            final(env).handles(),
            stored_handle(final(env).mem@, ifap.addr()),
        ),
        final(env).mem@.bytes.len() == old(env).mem@.bytes.len(),
        final(env).mem.free_bytes() == old(env).mem.free_bytes() - listed(
            interface_views(addrs@),
        ).len() * node_cost(),
        ({
            let before = old(env).mem@.bytes;
            let after = final(env).mem@.bytes;
            forall|at: int|
                0 <= at < old(env).mem.frontier() && !(ifap.addr() <= at < ifap.addr() + 4)
                    ==> after[at] == before[at]
        }),
        forall|base: VAddr| #[trigger]
            old(env).mem@.live.contains_key(base) ==> final(env).mem@.live.contains_key(base)
                && final(env).mem@.live[base] == old(env).mem@.live[base],
{
    let ghost views = interface_views(addrs@);
    let ghost floor = old(env).mem.frontier();
    let name = visible_interface_name();
    let mut prev: MutPtr<ifaddrs> = Ptr::null();
    let mut i: usize = 0;
    proof {
        assert(views.take(0) =~= Seq::<HostInterfaceView>::empty());
        old(env).mem.lemma_wf();
        crate::mem::lemma_reserved_size(SOCKADDR_IN_SIZE);
        crate::mem::lemma_reserved_size(IFADDRS_SIZE);
        crate::mem::lemma_reserved_size(4);
    }
    while i < addrs.len()
        invariant
            0 <= i <= addrs@.len(),
            views == interface_views(addrs@),
            name@ == visible_interface(),
            floor == old(env).mem.frontier(),
            env.wf(),
            env.same_but_mem(old(env)),
            floor <= env.mem.frontier(),
            env.mem@.bytes.len() == old(env).mem@.bytes.len(),
            is_interface_list(
                env.mem@,
                prev.addr(),
                listed(views.take(i as int)),
                floor,
                env.mem.frontier(),
            ),
            (listed(views).len() - listed(views.take(i as int)).len()) * node_cost()
                <= env.mem.free_bytes(),
            env.mem.free_bytes() == old(env).mem.free_bytes() - listed(
                views.take(i as int),
            ).len() * node_cost(),
            forall|at: int| 0 <= at < floor ==> env.mem@.bytes[at] == old(env).mem@.bytes[at],
            forall|base: VAddr| #[trigger]
                old(env).mem@.live.contains_key(base) ==> env.mem@.live.contains_key(base)
                    && env.mem@.live[base] == old(env).mem@.live[base],
        decreases addrs@.len() - i,
    {
        let iface = &addrs[i];
        proof {
            lemma_listed_prefix(views, i as int);
            assert(views[i as int] == iface@);
        }
        if crate::dyld::same_bytes(iface.name.as_slice(), name.as_slice()) {
            match iface.address {
                Some(HostAddress::Inet(inet)) => {
                    let ghost rest = listed(views.take(i as int));
                    let ghost before = *env;
                    proof {
                        assert(node_cost() == 64);
                        assert((listed(views).len() - rest.len()) * node_cost() >= node_cost())
                            by (nonlinear_arith)
                            requires
                                listed(views).len() - rest.len() >= 1,
                                node_cost() == 64,
                        ;
                    }
                    prev = add_node(env, prev, inet, Ghost(rest), Ghost(floor));
                    proof {
                        let entries = listed(views.take(i + 1));
                        assert(entries == seq![listing(iface@)] + rest);
                        assert((listed(views).len() - entries.len()) * node_cost() == (listed(
                            views,
                        ).len() - rest.len()) * node_cost() - node_cost()) by (nonlinear_arith)
                            requires
                                entries.len() == rest.len() + 1,
                        ;
                        assert(entries.len() * node_cost() == rest.len() * node_cost()
                            + node_cost()) by (nonlinear_arith)
                            requires
                                entries.len() == rest.len() + 1,
                        ;
                        assert forall|base: VAddr| #[trigger]
                            old(env).mem@.live.contains_key(base) implies env.mem@.live.contains_key(
                            base,
                        ) && env.mem@.live[base] == old(env).mem@.live[base] by {
                            assert(before.mem@.live.contains_key(base));
                        }
                    }
                },
                _ => {},
            }
        }
        i = i + 1;
    }
    let ghost built = *env;
    proof {
        assert(views.take(addrs@.len() as int) =~= views);
        MutPtr::<ifaddrs>::lemma_layout(prev);
    }
    env.mem.write(ifap, prev);
    proof {
        lemma_mem_change_keeps_wf(&built, env);
        let m = built.mem@;
        let w = env.mem@;
        assert(w == m.write(ifap.addr() as int, le_bytes_u32(prev.addr())));
        lemma_write_reads_back(m, ifap.addr() as int, le_bytes_u32(prev.addr()));
        lemma_le_round_trip_u32(prev.addr());
        assert(stored_handle(w, ifap.addr()) == prev.addr());
        assert forall|base: VAddr| #[trigger]
            m.live.contains_key(base) && floor <= base < built.mem.frontier() implies w.range(
            base as int,
            m.live[base] as int,
        ) == m.range(base as int, m.live[base] as int) by {
            built.mem.lemma_wf();
            lemma_write_keeps_elsewhere(
                m,
                ifap.addr() as int,
                le_bytes_u32(prev.addr()),
                base as int,
                m.live[base] as int,
            );
        }
        assert(keeps_blocks_in(w, m, floor, built.mem.frontier()));
        lemma_list_survives(m, w, prev.addr(), listed(views), floor, built.mem.frontier());
        let handles = env.handles();
        assert forall|addr: VAddr| floor <= addr implies !handles.owns(addr) by {
            lemma_same_owners(old(env), env, addr);
            if old(env).handles().owns(addr) {
                crate::environment::lemma_owned_is_live(old(env).handles(), addr);
                crate::mem::lemma_reserved_size(old(env).mem@.live[addr]);
            }
        }
        lemma_interface_list_can_be_freed(
            w,
            handles,
            prev.addr(),
            listed(views),
            floor,
            built.mem.frontier(),
        );
    }
    0
}

/// The list that starts at `head` has `count` nodes and can be freed node
/// by node: each node lies inside the space, and each node and each name is
/// a live block that serves as no handle and has not been freed on the way.
pub open spec fn can_free_list(
    mem: MemView,
    handles: crate::environment::Handles,
    head: VAddr,
    count: nat,
) -> bool
    decreases count,
{
    if count == 0 {
        head == 0
    } else {
        let node = node_at(mem, head);
        let name = node.ifa_name.addr();
        &&& head != 0
        &&& mem.in_bounds(head as int, IFADDRS_SIZE as int)
        &&& mem.live.contains_key(name)
        &&& !handles.owns(name)
        &&& mem.free(name).live.contains_key(head)
        &&& !handles.owns(head)
        &&& can_free_list(
            mem.free(name).free(head),
            handles,
            node.ifa_next.addr(),
            (count - 1) as nat,
        )
    }
}

/// Guest memory after the `count` nodes of the list that starts at `head`
/// have been freed, each with its name.
pub open spec fn after_free_list(mem: MemView, head: VAddr, count: nat) -> MemView
    decreases count,
{
    if count == 0 {
        mem
    } else {
        let node = node_at(mem, head);
        after_free_list(
            mem.free(node.ifa_name.addr()).free(head),
            node.ifa_next.addr(),
            (count - 1) as nat,
        )
    }
}

/// Whether the list that starts at `head` can be freed.
pub open spec fn is_free_list(
    mem: MemView,
    handles: crate::environment::Handles,
    head: VAddr,
) -> bool {
    exists|count: nat| can_free_list(mem, handles, head, count)
}

/// Number of nodes of the list that starts at `head`.
pub open spec fn free_list_len(
    mem: MemView,
    handles: crate::environment::Handles,
    head: VAddr,
) -> nat {
    choose|count: nat| can_free_list(mem, handles, head, count)
}

/// A list that can be freed has one length only.
pub proof fn lemma_free_list_len(
    mem: MemView,
    handles: crate::environment::Handles,
    head: VAddr,
    a: nat,
    b: nat,
)
    requires
        can_free_list(mem, handles, head, a),
        can_free_list(mem, handles, head, b),
    ensures
        a == b,
    decreases a,
{
    if a > 0 && b > 0 {
        let node = node_at(mem, head);
        lemma_free_list_len(
            mem.free(node.ifa_name.addr()).free(head),
            handles,
            node.ifa_next.addr(),
            (a - 1) as nat,
            (b - 1) as nat,
        );
    }
}

/// Frees the list that starts at `ifp`: each node, and the name that it
/// points to. The addresses that the nodes point to are left alone.
pub fn freeifaddrs(env: &mut Environment, ifp: MutPtr<ifaddrs>)
    requires
        old(env).wf(),
        is_free_list(old(env).mem@, old(env).handles(), ifp.addr()),
    ensures
        final(env).wf(),
        final(env).same_but_mem(old(env)),
        final(env).mem@ == after_free_list(
            old(env).mem@,
            ifp.addr(),
            free_list_len(old(env).mem@, old(env).handles(), ifp.addr()),
        ),
        final(env).mem@.bytes == old(env).mem@.bytes,
{
    let ghost handles = old(env).handles();
    let ghost total = free_list_len(old(env).mem@, handles, ifp.addr());
    let ghost mut left = total;
    let mut curr_ptr = ifp;
    while !curr_ptr.is_null()
        invariant
            env.wf(),
            env.same_but_mem(old(env)),
            handles == old(env).handles(),
            env.mem@.bytes == old(env).mem@.bytes,
            can_free_list(env.mem@, handles, curr_ptr.addr(), left),
            after_free_list(env.mem@, curr_ptr.addr(), left) == after_free_list(
                old(env).mem@,
                ifp.addr(),
                total,
            ),
        decreases left,
    {
        let ghost before = env.mem@;
        let curr: ifaddrs = env.mem.read(curr_ptr);
        let next_ptr: MutPtr<ifaddrs> = curr.ifa_next.cast();
        proof {
            assert(curr == node_at(before, curr_ptr.addr()));
            lemma_same_owners(old(env), env, curr.ifa_name.addr());
        }
        env.free(curr.ifa_name.cast());
        proof {
            lemma_same_owners(old(env), env, curr_ptr.addr());
            assert(env.mem@ =~= before.free(curr.ifa_name.addr()));
        }
        env.free(curr_ptr.cast());
        proof {
            assert(env.mem@ =~= before.free(curr.ifa_name.addr()).free(curr_ptr.addr()));
            left = (left - 1) as nat;
        }
        curr_ptr = next_ptr;
    }
}

/// Whether `addr` is among `seen`.
fn was_seen(seen: &Vec<VAddr>, addr: VAddr) -> (found: bool)
    ensures
        found == seen@.contains(addr),
{
    let mut i: usize = 0;
    while i < seen.len()
        invariant
            0 <= i <= seen@.len(),
            forall|k: int| 0 <= k < i ==> seen@[k] != addr,
        decreases seen@.len() - i,
    {
        if seen[i] == addr {
            return true;
        }
        i = i + 1;
    }
    false
}

/// Whether the list that starts at `ifp` can be freed.
pub fn can_freeifaddrs(env: &Environment, ifp: MutPtr<ifaddrs>) -> (ok: bool)
    requires
        env.wf(),
    ensures
        ok == is_free_list(env.mem@, env.handles(), ifp.addr()),
{
    let ghost handles = env.handles();
    let ghost start = env.mem@;
    let ghost mut reduced = env.mem@;
    let ghost mut done: nat = 0;
    let mut seen: Vec<VAddr> = Vec::new();
    let mut curr: VAddr = ifp.to_bits();
    proof {
        env.mem.lemma_wf();
    }
    while curr != 0
        invariant
            env.wf(),
            handles == env.handles(),
            start == env.mem@,
            reduced.bytes == start.bytes,
            reduced.live.dom().finite(),
            forall|a: VAddr| #[trigger]
                reduced.live.contains_key(a) ==> start.live.contains_key(a) && !seen@.contains(a),
            forall|a: VAddr| #[trigger]
                start.live.contains_key(a) ==> seen@.contains(a) || reduced.live.contains_key(a),
            forall|k: nat| #[trigger]
                can_free_list(reduced, handles, curr, k) ==> can_free_list(
                    start,
                    handles,
                    ifp.addr(),
                    k + done,
                ),
            forall|k: nat| #[trigger]
                can_free_list(start, handles, ifp.addr(), k) ==> k >= done && can_free_list(
                    reduced,
                    handles,
                    curr,
                    (k - done) as nat,
                ),
        decreases reduced.live.dom().len(),
    {
        let ghost here = reduced;
        if !env.mem.is_valid_range(curr, IFADDRS_SIZE) {
            proof {
                lemma_no_free_list(here, handles, curr);
                assert forall|k: nat| !can_free_list(start, handles, ifp.addr(), k) by {
                    if can_free_list(start, handles, ifp.addr(), k) {
                        assert(can_free_list(here, handles, curr, (k - done) as nat));
                    }
                }
            }
            return false;
        }
        let node: ifaddrs = env.mem.read(MutPtr::<ifaddrs>::from_bits(curr));
        let name: VAddr = node.ifa_name.to_bits();
        proof {
            assert(node == node_at(here, curr));
        }
        let name_ok = env.mem.allocation_size(node.ifa_name).is_some() && !was_seen(&seen, name)
            && !env.owns(name);
        let node_ok = env.mem.allocation_size(MutPtr::<ifaddrs>::from_bits(curr)).is_some()
            && !was_seen(&seen, curr) && curr != name && !env.owns(curr);
        if !name_ok || !node_ok {
            proof {
                lemma_no_free_list(here, handles, curr);
                assert forall|k: nat| !can_free_list(start, handles, ifp.addr(), k) by {
                    if can_free_list(start, handles, ifp.addr(), k) {
                        assert(can_free_list(here, handles, curr, (k - done) as nat));
                    }
                }
            }
            return false;
        }
        let ghost earlier = seen@;
        seen.push(name);
        seen.push(curr);
        proof {
            reduced = here.free(name).free(curr);
            here.live.lemma_remove_key_len(name);
            here.live.remove(name).lemma_remove_key_len(curr);
            assert(seen@ =~= earlier.push(name).push(curr));
            assert(seen@[earlier.len() as int] == name);
            assert(seen@[earlier.len() as int + 1] == curr);
            assert forall|a: VAddr| #[trigger] reduced.live.contains_key(a) implies start.live.contains_key(
                a,
            ) && !seen@.contains(a) by {
                assert(here.live.contains_key(a));
                if seen@.contains(a) {
                    let i = choose|i: int| 0 <= i < seen@.len() && seen@[i] == a;
                    assert(earlier[i] == a);
                }
            }
            assert forall|a: VAddr| #[trigger] start.live.contains_key(a) implies seen@.contains(a)
                || reduced.live.contains_key(a) by {
                if earlier.contains(a) {
                    let i = choose|i: int| 0 <= i < earlier.len() && earlier[i] == a;
                    assert(seen@[i] == a);
                }
            }
            let next = node.ifa_next.addr();
            assert forall|k: nat| #[trigger]
                can_free_list(reduced, handles, next, k) implies can_free_list(
                start,
                handles,
                ifp.addr(),
                k + done + 1,
            ) by {
                assert(can_free_list(here, handles, curr, k + 1));
            }
            assert forall|k: nat| #[trigger]
                can_free_list(start, handles, ifp.addr(), k) implies k >= done + 1
                && can_free_list(reduced, handles, next, (k - done - 1) as nat) by {
                assert(can_free_list(here, handles, curr, (k - done) as nat));
            }
            done = done + 1;
        }
        curr = node.ifa_next.to_bits();
    }
    proof {
        assert(can_free_list(reduced, handles, curr, 0));
        assert(can_free_list(start, handles, ifp.addr(), 0 + done));
    }
    true
}

/// No list can be freed from a place that is not null and where the first
/// node, or its name, is not there to be freed.
proof fn lemma_no_free_list(mem: MemView, handles: crate::environment::Handles, head: VAddr)
    requires
        head != 0,
        ({
            let name = node_at(mem, head).ifa_name.addr();
            ||| !mem.in_bounds(head as int, IFADDRS_SIZE as int)
            ||| !mem.live.contains_key(name)
            ||| handles.owns(name)
            ||| !mem.live.contains_key(head)
            ||| head == name
            ||| handles.owns(head)
        }),
    ensures
        forall|k: nat| !can_free_list(mem, handles, head, k),
{
    assert forall|k: nat| !can_free_list(mem, handles, head, k) by {
        if k > 0 {
        }
    }
}

} // verus!
