//! Sockets.
//!
//! The host owns the sockets. What the guest says of addresses is read out
//! of guest memory here and handed to the host, and what the host answers
//! is stored for the guest, with error numbers going to the running
//! thread's error cell.

use crate::environment::{lemma_mem_change_keeps_wf, Environment};
use crate::libc::network::INTERFACE_INDEX;
use crate::libc::time::timeval;
use crate::mem::{
    le_bytes_u16, le_bytes_u32, le_value_u16, le_value_u32, lemma_le_round_trip_u16,
    lemma_le_round_trip_u32, reserved_size, ConstPtr, GuestData, GuestUSize, MemView, MutPtr,
    MutVoidPtr, VAddr,
};
use vstd::prelude::*;
use vstd::slice::slice_to_vec;

verus! {

/// The guest's address family of the internet.
pub const AF_INET: u8 = 2;

/// Size of the host buffer that a datagram is received into.
pub const RECEIVE_BUFFER_SIZE: usize = 1500;

/// An address of the internet as the guest lays it out.
pub struct in_addr {
    /// The four parts of the address, first part in the lowest byte.
    pub s_addr: u32,
}

/// A socket address of the internet as the guest lays it out.
pub struct sockaddr_in {
    pub sin_len: u8,
    pub sin_family: u8,
    pub sin_port: u16,
    pub sin_addr: in_addr,
    /// Eight bytes of padding.
    pub sin_zero: u64,
}

/// The two bytes of a value in the other order.
pub open spec fn swap_bytes_u16(v: u16) -> u16 {
    (v << 8) | (v >> 8)
}

/// The four bytes of a value in the opposite order.
pub open spec fn swap_bytes_u32(v: u32) -> u32 {
    (v << 24) | ((v << 8) & 0x00ff_0000) | ((v >> 8) & 0x0000_ff00) | (v >> 24)
}

pub fn swapped_u16(v: u16) -> (swapped: u16)
    ensures
        swapped == swap_bytes_u16(v),
{
    (v << 8) | (v >> 8)
}

pub fn swapped_u32(v: u32) -> (swapped: u32)
    ensures
        swapped == swap_bytes_u32(v),
{
    (v << 24) | ((v << 8) & 0x00ff_0000) | ((v >> 8) & 0x0000_ff00) | (v >> 24)
}

/// Swapping twice gives the value back, and swapping turns the
/// little-endian bytes of a value round.
pub proof fn lemma_swap_bytes(v: u32, w: u16)
    ensures
        swap_bytes_u32(swap_bytes_u32(v)) == v,
        swap_bytes_u16(swap_bytes_u16(w)) == w,
        le_bytes_u32(swap_bytes_u32(v)) == seq![
            (v >> 24) as u8,
            (v >> 16) as u8,
            (v >> 8) as u8,
            v as u8,
        ],
{
    assert(swap_bytes_u32(swap_bytes_u32(v)) == v) by (bit_vector);
    assert(swap_bytes_u16(swap_bytes_u16(w)) == w) by (bit_vector);
    let s = swap_bytes_u32(v);
    assert(s as u8 == (v >> 24) as u8 && (s >> 8) as u8 == (v >> 16) as u8 && (s >> 16) as u8 == (v
        >> 8) as u8 && (s >> 24) as u8 == v as u8) by (bit_vector)
        requires
            s == swap_bytes_u32(v),
    ;
    assert(le_bytes_u32(s) =~= seq![(v >> 24) as u8, (v >> 16) as u8, (v >> 8) as u8, v as u8]);
}

impl GuestData for in_addr {
    const SIZE: GuestUSize = 4;

    open spec fn guest_bytes(self) -> Seq<u8> {
        le_bytes_u32(self.s_addr)
    }

    open spec fn from_guest_bytes(bytes: Seq<u8>) -> Self {
        in_addr { s_addr: le_value_u32(bytes) }
    }

    fn store(&self) -> (bytes: Vec<u8>) {
        proof {
            u32::lemma_layout(self.s_addr);
        }
        self.s_addr.store()
    }

    fn load(bytes: &[u8]) -> (value: Self) {
        proof {
            u32::lemma_layout(0u32);
        }
        in_addr { s_addr: u32::load(bytes) }
    }

    proof fn lemma_layout(value: Self) {
        lemma_le_round_trip_u32(value.s_addr);
    }
}

/// The socket address that sixteen bytes of guest memory stand for.
pub open spec fn sockaddr_in_of(bytes: Seq<u8>) -> sockaddr_in {
    sockaddr_in {
        sin_len: bytes[0],
        sin_family: bytes[1],
        sin_port: le_value_u16(bytes.subrange(2, 4)),
        sin_addr: in_addr { s_addr: le_value_u32(bytes.subrange(4, 8)) },
        sin_zero: (le_value_u32(bytes.subrange(8, 12)) as u64) | ((le_value_u32(
            bytes.subrange(12, 16),
        ) as u64) << 32),
    }
}

impl GuestData for sockaddr_in {
    const SIZE: GuestUSize = 16;

    open spec fn guest_bytes(self) -> Seq<u8> {
        seq![self.sin_len, self.sin_family] + le_bytes_u16(self.sin_port) + le_bytes_u32(
            self.sin_addr.s_addr,
        ) + le_bytes_u32(self.sin_zero as u32) + le_bytes_u32((self.sin_zero >> 32) as u32)
    }

    open spec fn from_guest_bytes(bytes: Seq<u8>) -> Self {
        sockaddr_in_of(bytes)
    }

    fn store(&self) -> (bytes: Vec<u8>) {
        let mut bytes: Vec<u8> = Vec::new();
        bytes.push(self.sin_len);
        bytes.push(self.sin_family);
        let mut port = self.sin_port.store();
        bytes.append(&mut port);
        let mut addr = self.sin_addr.s_addr.store();
        bytes.append(&mut addr);
        let low: u32 = #[verifier::truncate] (self.sin_zero as u32);
        let high: u32 = #[verifier::truncate] ((self.sin_zero >> 32) as u32);
        let mut low_bytes = low.store();
        bytes.append(&mut low_bytes);
        let mut high_bytes = high.store();
        bytes.append(&mut high_bytes);
        assert(bytes@ =~= self.guest_bytes());
        bytes
    }

    fn load(bytes: &[u8]) -> (value: Self) {
        proof {
            u16::lemma_layout(0u16);
            u32::lemma_layout(0u32);
        }
        let low: u32 = u32::load(&bytes[8..12]);
        let high: u32 = u32::load(&bytes[12..16]);
        sockaddr_in {
            sin_len: bytes[0],
            sin_family: bytes[1],
            sin_port: u16::load(&bytes[2..4]),
            sin_addr: in_addr { s_addr: u32::load(&bytes[4..8]) },
            sin_zero: (low as u64) | ((high as u64) << 32),
        }
    }

    proof fn lemma_layout(value: Self) {
        let bytes = value.guest_bytes();
        assert(bytes.subrange(2, 4) =~= le_bytes_u16(value.sin_port));
        assert(bytes.subrange(4, 8) =~= le_bytes_u32(value.sin_addr.s_addr));
        assert(bytes.subrange(8, 12) =~= le_bytes_u32(value.sin_zero as u32));
        assert(bytes.subrange(12, 16) =~= le_bytes_u32((value.sin_zero >> 32) as u32));
        lemma_le_round_trip_u16(value.sin_port);
        lemma_le_round_trip_u32(value.sin_addr.s_addr);
        lemma_le_round_trip_u32(value.sin_zero as u32);
        lemma_le_round_trip_u32((value.sin_zero >> 32) as u32);
        let z = value.sin_zero;
        assert(((z as u32) as u64) | ((((z >> 32) as u32) as u64) << 32) == z) by (bit_vector);
    }
}

/// `nix::sys::socket::SockaddrIn`: a socket address of the internet as the
/// host holds it. Nothing is said of what is inside; values are made by the
/// host and handed back to it.
#[verifier::external_type_specification]
#[verifier::external_body]
pub struct ExSockaddrIn(nix::sys::socket::SockaddrIn);

/// What `nix::sys::socket::SockaddrIn::new` makes of the four parts of an
/// address, first part first, and a port in the host's byte order.
pub uninterp spec fn host_sockaddr_in(a: u8, b: u8, c: u8, d: u8, port: u16) -> nix::sys::socket::SockaddrIn;

/// `nix::sys::socket::SockaddrIn::new`: the host's socket address made of
/// the four parts of an address, first part first, and of a port in the
/// host's byte order. The contract gives the result its name and says no
/// more of it.
#[verifier::external_body]
fn new_host_sockaddr_in(a: u8, b: u8, c: u8, d: u8, port: u16) -> (address:
    nix::sys::socket::SockaddrIn)
    ensures
        address == host_sockaddr_in(a, b, c, d, port),
{
    nix::sys::socket::SockaddrIn::new(a, b, c, d, port)
}

/// The sender of a datagram as the host reports it, both numbers in the
/// host's byte order.
#[derive(Clone, Copy, Debug, PartialEq, Eq, Structural)]
pub struct HostInetAddress {
    pub ip: u32,
    pub port: u16,
}

/// The address that the guest names at `address`, as the host takes it: the
/// four parts in the order in which they lie in guest memory, and the port
/// read through `port_of`.
pub open spec fn host_address_at(mem: MemView, address: VAddr, port: u16) -> nix::sys::socket::SockaddrIn {
    let bytes = mem.range(address as int, 16);
    host_sockaddr_in(bytes[4], bytes[5], bytes[6], bytes[7], port)
}

/// The port field of the socket address at `address`, as stored.
pub open spec fn stored_port_at(mem: MemView, address: VAddr) -> u16 {
    le_value_u16(mem.range(address as int, 16).subrange(2, 4))
}

/// What the guest's socket call gets back once the host has made the
/// socket: the host's descriptor, or a negative result where the host
/// failed. The guest's choice of domain, type and protocol is not looked at:
/// the host always makes a datagram socket of the internet.
pub fn socket(
    _env: &Environment,
    _domain: i32,
    _type: i32,
    _protocol: i32,
    opened: Result<i32, i32>,
) -> (result: i32)
    ensures
        result == match opened {
            Ok(sock) => sock,
            Err(_) => -1i32,
        },
{
    match opened {
        Ok(sock) => sock,
        Err(_) => -1,
    }
}

/// First half of binding a socket: the host address to bind to. The port is
/// stored in network byte order and handed on in the host's.
pub fn bind(env: &Environment, _socket: i32, address: ConstPtr<sockaddr_in>, _address_len: u32) -> (target:
    nix::sys::socket::SockaddrIn)
    requires
        env.mem@.in_bounds(address.addr() as int, 16),
    ensures
        target == host_address_at(
            env.mem@,
            address.addr(),
            swap_bytes_u16(stored_port_at(env.mem@, address.addr())),
        ),
{
    proof {
        sockaddr_in::lemma_layout(
            sockaddr_in {
                sin_len: 0,
                sin_family: 0,
                sin_port: 0,
                sin_addr: in_addr { s_addr: 0 },
                sin_zero: 0,
            },
        );
    }
    let sockaddr: sockaddr_in = env.mem.read(address);
    let octets = sockaddr.sin_addr.s_addr.store();
    proof {
        let bytes = env.mem@.range(address.addr() as int, 16);
        lemma_bytes_of_value(bytes.subrange(4, 8));
        assert(bytes.subrange(4, 8) =~= seq![bytes[4], bytes[5], bytes[6], bytes[7]]);
    }
    new_host_sockaddr_in(
        octets[0],
        octets[1],
        octets[2],
        octets[3],
        swapped_u16(sockaddr.sin_port),
    )
}

/// Second half of binding a socket: zero where the host bound it, a
/// negative result where the host failed.
pub fn bind_finished(bound: Result<(), i32>) -> (result: i32)
    ensures
        result == if bound.is_ok() {
            0i32
        } else {
            -1i32
        },
{
    match bound {
        Ok(_) => 0,
        Err(_) => -1,
    }
}

/// What to send, and where to.
pub struct SendRequest {
    pub data: Vec<u8>,
    pub destination: nix::sys::socket::SockaddrIn,
}

/// First half of sending a datagram: the bytes to send, copied out of guest
/// memory, and the host address to send them to. The port is handed on as
/// it is stored.
pub fn sendto(
    env: &Environment,
    _socket: i32,
    buffer: crate::mem::ConstVoidPtr,
    length: u32,
    flags: i32,
    address: ConstPtr<sockaddr_in>,
    _address_len: MutPtr<u32>,
) -> (request: SendRequest)
    requires
        flags == 0,
        env.mem@.in_bounds(address.addr() as int, 16),
        env.mem@.in_bounds(buffer.addr() as int, length as int),
    ensures
        request.data@ == env.mem@.range(buffer.addr() as int, length as int),
        request.destination == host_address_at(
            env.mem@,
            address.addr(),
            stored_port_at(env.mem@, address.addr()),
        ),
{
    proof {
        sockaddr_in::lemma_layout(
            sockaddr_in {
                sin_len: 0,
                sin_family: 0,
                sin_port: 0,
                sin_addr: in_addr { s_addr: 0 },
                sin_zero: 0,
            },
        );
    }
    let sockaddr: sockaddr_in = env.mem.read(address);
    let octets = sockaddr.sin_addr.s_addr.store();
    proof {
        let bytes = env.mem@.range(address.addr() as int, 16);
        lemma_bytes_of_value(bytes.subrange(4, 8));
        assert(bytes.subrange(4, 8) =~= seq![bytes[4], bytes[5], bytes[6], bytes[7]]);
    }
    let destination = new_host_sockaddr_in(
        octets[0],
        octets[1],
        octets[2],
        octets[3],
        sockaddr.sin_port,
    );
    let data = slice_to_vec(env.mem.bytes_at(buffer.cast::<u8>(), length));
    SendRequest { data, destination }
}

/// Second half of sending a datagram: the number of bytes that the host
/// sent, or a negative result where the host failed.
pub fn sendto_finished(sent: Result<u32, i32>) -> (result: i32)
    ensures
        result == match sent {
            Ok(count) => count as i32,
            Err(_) => -1i32,
        },
{
    match sent {
        Ok(count) => #[verifier::truncate] (count as i32),
        Err(_) => -1,
    }
}

/// What to ask of the host's readiness wait.
#[derive(Clone, Copy, Debug, PartialEq, Eq, Structural)]
pub struct SelectRequest {
    /// The one descriptor to wait for.
    pub sock: i32,
    pub seconds: i64,
    pub microseconds: i64,
}

/// First half of waiting for readiness: the one descriptor to wait for,
/// which is the highest that the guest's sets can hold, and how long to
/// wait at most. The guest's sets themselves are not looked at.
pub fn select(
    env: &Environment,
    nfds: i32,
    _readfds: MutVoidPtr,
    _writefds: MutVoidPtr,
    _errorfds: MutVoidPtr,
    timeout: MutPtr<timeval>,
) -> (request: SelectRequest)
    requires
        nfds > i32::MIN,
        env.mem@.in_bounds(timeout.addr() as int, 8),
    ensures
        request.sock == nfds - 1,
        request.seconds == timeval::from_guest_bytes(
            env.mem@.range(timeout.addr() as int, 8),
        ).tv_sec,
        request.microseconds == timeval::from_guest_bytes(
            env.mem@.range(timeout.addr() as int, 8),
        ).tv_usec,
{
    proof {
        timeval::lemma_layout(timeval { tv_sec: 0, tv_usec: 0 });
    }
    let timeout_val: timeval = env.mem.read(timeout);
    SelectRequest {
        sock: nfds - 1,
        seconds: timeout_val.tv_sec as i64,
        microseconds: timeout_val.tv_usec as i64,
    }
}

/// Second half of waiting for readiness: the number of descriptors that the
/// host found ready, or a negative result where the host failed.
pub fn select_finished(ready: Result<i32, i32>) -> (result: i32)
    ensures
        result == match ready {
            Ok(count) => count,
            Err(_) => -1i32,
        },
{
    match ready {
        Ok(count) => count,
        Err(_) => -1,
    }
}

/// The interface index of any name is zero.
pub fn if_nameindex(_env: &Environment, _ifname: ConstPtr<u8>) -> (index: i32)
    ensures
        index == 0,
{
    0
}

/// The name of the guest's one interface, as a zero-terminated string.
pub open spec fn interface_name() -> Seq<u8> {
    seq![0x65u8, 0x6eu8, 0x30u8, 0u8]
}

/// Stores the name of the interface with the given index, which must be the
/// guest's one interface, at `ifname`, and gives `ifname` back.
pub fn if_indextoname(env: &mut Environment, ifindex: u32, ifname: ConstPtr<u8>) -> (name: ConstPtr<
    u8,
>)
    requires
        old(env).wf(),
        ifindex == INTERFACE_INDEX,
        old(env).mem@.in_bounds(ifname.addr() as int, 4),
    ensures
        final(env).wf(),
        name == ifname,
        final(env).mem@ == old(env).mem@.write(ifname.addr() as int, interface_name()),
        final(env).same_but_mem(old(env)),
{
    let mut text: Vec<u8> = Vec::new();
    text.push(0x65);
    text.push(0x6e);
    text.push(0x30);
    text.push(0);
    assert(text@ =~= interface_name());
    env.mem.write_bytes(ifname.cast_mut(), text.as_slice());
    proof {
        lemma_mem_change_keeps_wf(old(env), env);
        assert(env.mem@ =~= old(env).mem@.write(ifname.addr() as int, interface_name()));
    }
    ifname
}

/// The little-endian bytes of the value of four bytes are those bytes.
pub proof fn lemma_bytes_of_value(bytes: Seq<u8>)
    requires
        bytes.len() == 4,
    ensures
        le_bytes_u32(le_value_u32(bytes)) == bytes,
{
    let a = bytes[0];
    let b = bytes[1];
    let c = bytes[2];
    let d = bytes[3];
    let v = le_value_u32(bytes);
    assert(v as u8 == a && (v >> 8) as u8 == b && (v >> 16) as u8 == c && (v >> 24) as u8 == d)
        by (bit_vector)
        requires
            v == (a as u32) | ((b as u32) << 8) | ((c as u32) << 16) | ((d as u32) << 24),
    ;
    assert(le_bytes_u32(v) =~= bytes);
}

/// A datagram as the host received it.
pub struct Datagram {
    pub data: Vec<u8>,
    /// Who sent it, where the host could tell.
    pub sender: Option<HostInetAddress>,
}

/// The guest's socket address for a sender that the host reports: the port
/// as the host gives it, the address with its first part in the lowest byte.
/// The guest's memory is little-endian whatever the host is, so the four
/// parts of the address lie there in network order, first part first, on
/// every host; the swap is of the number, not of the host's memory.
pub open spec fn guest_sockaddr(sender: HostInetAddress) -> sockaddr_in {
    sockaddr_in {
        sin_len: 0,
        sin_family: AF_INET,
        sin_port: sender.port,
        sin_addr: in_addr { s_addr: swap_bytes_u32(sender.ip) },
        sin_zero: 0,
    }
}

/// Guest memory once the running thread has an error cell at `cell`.
pub open spec fn with_cell(env: &Environment, cell: VAddr) -> MemView {
    if env.handles().cells.contains_key(env.current_thread) {
        env.mem@
    } else {
        env.mem@.allocate(cell, crate::libc::errno::CELL_SIZE)
    }
}

/// Finishes the reception of a datagram, where `received` is what the host
/// got: a datagram, or the host's error number. On an error the number goes
/// to the running thread's error cell and the result is negative. Else the
/// error cell is cleared, the data is stored at `buffer`, the sender's
/// address at `address`, and the result is the number of bytes received.
pub fn recvfrom(
    env: &mut Environment,
    _socket: i32,
    buffer: MutVoidPtr,
    _length: u32,
    flags: i32,
    address: MutPtr<sockaddr_in>,
    _address_len: MutPtr<u32>,
    received: Result<Datagram, i32>,
) -> (result: i32)
    requires
        old(env).wf(),
        flags == 0,
        old(env).handles().cells.contains_key(old(env).current_thread) || old(env).mem.can_alloc(
            crate::libc::errno::CELL_SIZE,
        ),
        received matches Ok(datagram) ==> {
            &&& datagram.data@.len() <= RECEIVE_BUFFER_SIZE
            &&& datagram.sender is Some
            &&& old(env).mem@.in_bounds(buffer.addr() as int, datagram.data@.len() as int)
            &&& old(env).mem@.in_bounds(address.addr() as int, 16)
        },
    ensures
        final(env).wf(),
        result == match received {
            Ok(datagram) => datagram.data@.len() as i32,
            Err(_) => -1i32,
        },
        ({
            let thread = old(env).current_thread;
            let before = old(env).handles().cells;
            let after = final(env).handles().cells;
            &&& after.contains_key(thread)
            &&& after == before.insert(thread, after[thread])
            &&& before.contains_key(thread) ==> after == before
            &&& !before.contains_key(thread) ==> !old(env).mem@.live.contains_key(after[thread])
        }),
        ({
            let cell = final(env).handles().cells[old(env).current_thread];
            let start = with_cell(old(env), cell);
            final(env).mem@ == match received {
                Err(error) => start.write(cell as int, error.guest_bytes()),
                Ok(datagram) => start.write(cell as int, 0i32.guest_bytes()).write(
                    buffer.addr() as int,
                    datagram.data@,
                ).write(address.addr() as int, guest_sockaddr(datagram.sender->0).guest_bytes()),
            }
        }),
        final(env).mem.free_bytes() == if old(env).handles().cells.contains_key(
            old(env).current_thread,
        ) {
            old(env).mem.free_bytes()
        } else {
            old(env).mem.free_bytes() - reserved_size(crate::libc::errno::CELL_SIZE)
        },
        final(env).objc == old(env).objc,
        final(env).threads == old(env).threads,
        final(env).current_thread == old(env).current_thread,
        final(env).libc_state.network == old(env).libc_state.network,
        final(env).libc_state.pthread == old(env).libc_state.pthread,
{
    let thread = env.current_thread;
    env.libc_state.errno.set_errno_for_thread(&mut env.mem, thread, 0);
    let ghost cell = env.libc_state.errno.cells()[thread];
    let ghost cleared = *env;
    proof {
        assert(env.libc_state.errno.cells() =~= old(env).libc_state.errno.cells().insert(
            thread,
            cell,
        ));
        crate::libc::errno::lemma_cell_keeps_env_wf(old(env), env, thread, cell);
        assert(env.mem@ =~= with_cell(old(env), cell).write(cell as int, 0i32.guest_bytes()));
    }
    match received {
        Err(error) => {
            env.libc_state.errno.set_errno_for_thread(&mut env.mem, thread, error);
            proof {
                assert(env.libc_state.errno.cells() =~= cleared.libc_state.errno.cells().insert(
                    thread,
                    cell,
                ));
                crate::libc::errno::lemma_cell_keeps_env_wf(&cleared, env, thread, cell);
                i32::lemma_layout(0i32);
                i32::lemma_layout(error);
                let target = with_cell(old(env), cell).write(cell as int, error.guest_bytes());
                assert(env.mem@.bytes =~= target.bytes);
                assert(env.mem@.live =~= target.live);
                assert(env.mem@ =~= with_cell(old(env), cell).write(
                    cell as int,
                    error.guest_bytes(),
                ));
                assert(env.handles().cells =~= old(env).handles().cells.insert(thread, cell));
            }
            -1
        },
        Ok(datagram) => {
            env.mem.write_bytes(buffer.cast(), datagram.data.as_slice());
            proof {
                lemma_mem_change_keeps_wf(&cleared, env);
            }
            let ghost stored = *env;
            let inet = datagram.sender.unwrap();
            let addr_in = sockaddr_in {
                sin_len: 0,
                sin_family: AF_INET,
                sin_port: inet.port,
                sin_addr: in_addr { s_addr: swapped_u32(inet.ip) },
                sin_zero: 0,
            };
            proof {
                sockaddr_in::lemma_layout(addr_in);
            }
            env.mem.write(address, addr_in);
            proof {
                lemma_mem_change_keeps_wf(&stored, env);
                assert(env.mem@ =~= with_cell(old(env), cell).write(
                    cell as int,
                    0i32.guest_bytes(),
                ).write(buffer.addr() as int, datagram.data@).write(
                    address.addr() as int,
                    guest_sockaddr(datagram.sender->0).guest_bytes(),
                ));
                assert(env.handles().cells =~= old(env).handles().cells.insert(thread, cell));
            }
            datagram.data.len() as i32
        },
    }
}

} // verus!
