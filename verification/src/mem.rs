//! Guest memory: a flat, byte-addressed space with typed pointer handles.
//!
//! Guest pointers are 32-bit offsets into the space. They never alias host
//! addresses, and two pointers are equal exactly when their offsets are.
//! Multi-byte values are laid out little-endian, as the guest expects.

use std::collections::HashMap;
use std::marker::PhantomData;
use vstd::prelude::*;
use vstd::slice::slice_subrange;

verus! {

/// The guest's `size_t`.
pub type GuestUSize = u32;

/// A guest virtual address.
pub type VAddr = u32;

/// Addresses below this bound are never readable, writable or allocated, so
/// that a null pointer dereferenced by the guest is caught.
pub const NULL_PAGE_SIZE: VAddr = 0x1000;

/// Every allocation starts on, and reserves a multiple of, this many bytes.
pub const ALLOCATION_GRANULE: VAddr = 16;

/// Pointee type of an untyped pointer.
pub struct Void;

/// A typed offset into the guest address space, tagged const or mutable.
pub struct Ptr<T, const MUT: bool> {
    pub addr: VAddr,
    pub pointee: PhantomData<T>,
}

pub type ConstPtr<T> = Ptr<T, false>;

pub type MutPtr<T> = Ptr<T, true>;

pub type ConstVoidPtr = ConstPtr<Void>;

pub type MutVoidPtr = MutPtr<Void>;

impl<T, const MUT: bool> Clone for Ptr<T, MUT> {
    fn clone(&self) -> (copy: Self)
        ensures
            copy == *self,
    {
        Ptr { addr: self.addr, pointee: PhantomData }
    }
}

impl<T, const MUT: bool> Copy for Ptr<T, MUT> {

}

impl<T, const MUT: bool> Ptr<T, MUT> {
    /// The offset this pointer stands for.
    pub open spec fn addr(self) -> VAddr {
        self.addr
    }

    /// The pointer to the offset `addr`.
    pub open spec fn at(addr: VAddr) -> Self {
        Ptr { addr, pointee: PhantomData }
    }

    /// Pointers are equal exactly when their offsets are.
    pub proof fn lemma_equal_by_address(self, other: Self)
        ensures
            (self == other) <==> (self.addr() == other.addr()),
    {
    }

    pub fn null() -> (p: Self)
        ensures
            p.addr() == 0,
    {
        Ptr { addr: 0, pointee: PhantomData }
    }

    /// Whether this is the null pointer.
    pub open spec fn spec_is_null(self) -> bool {
        self.addr == 0
    }

    #[verifier::when_used_as_spec(spec_is_null)]
    pub fn is_null(self) -> (null: bool)
        ensures
            null <==> self.addr() == 0,
    {
        self.addr == 0
    }

    pub fn to_bits(self) -> (bits: VAddr)
        ensures
            bits == self.addr(),
    {
        self.addr
    }

    pub fn from_bits(bits: VAddr) -> (p: Self)
        ensures
            p.addr() == bits,
    {
        Ptr { addr: bits, pointee: PhantomData }
    }

    /// Reinterprets the pointee type; the offset is kept.
    pub fn cast<U>(self) -> (p: Ptr<U, MUT>)
        ensures
            p.addr() == self.addr(),
    {
        Ptr { addr: self.addr, pointee: PhantomData }
    }

    pub fn cast_const(self) -> (p: ConstPtr<T>)
        ensures
            p.addr() == self.addr(),
    {
        Ptr { addr: self.addr, pointee: PhantomData }
    }

    pub fn cast_mut(self) -> (p: MutPtr<T>)
        ensures
            p.addr() == self.addr(),
    {
        Ptr { addr: self.addr, pointee: PhantomData }
    }

    /// Whether two pointers name the same offset.
    pub fn same(self, other: Self) -> (equal: bool)
        ensures
            equal <==> self == other,
    {
        self.addr == other.addr
    }
}

impl<const MUT: bool> Ptr<u8, MUT> {
    /// The pointer `count` bytes further on.
    pub fn offset(self, count: GuestUSize) -> (p: Self)
        requires
            self.addr() + count <= VAddr::MAX,
        ensures
            p.addr() == self.addr() + count,
    {
        Ptr { addr: self.addr + count, pointee: PhantomData }
    }
}

/// What guest memory holds: its bytes, and which blocks the allocator has
/// handed out (base address to requested size).
pub struct MemView {
    pub bytes: Seq<u8>,
    pub live: Map<VAddr, GuestUSize>,
}

impl MemView {
    /// `count` bytes starting at `addr` lie inside the space and outside the
    /// null page.
    pub open spec fn in_bounds(self, addr: int, count: int) -> bool {
        NULL_PAGE_SIZE <= addr && 0 <= count && addr + count <= self.bytes.len()
    }

    /// The bytes of the range `[addr, addr + count)`.
    pub open spec fn range(self, addr: int, count: int) -> Seq<u8> {
        self.bytes.subrange(addr, addr + count)
    }

    /// The bytes after `data` has been stored at `addr`.
    pub open spec fn stored(self, addr: int, data: Seq<u8>) -> Seq<u8> {
        Seq::new(
            self.bytes.len(),
            |i: int|
                if addr <= i < addr + data.len() {
                    data[i - addr]
                } else {
                    self.bytes[i]
                },
        )
    }

    /// The view after `data` has been stored at `addr`.
    pub open spec fn write(self, addr: int, data: Seq<u8>) -> MemView {
        MemView { bytes: self.stored(addr, data), ..self }
    }

    /// The view after a block of `size` bytes at `base` has been handed out.
    pub open spec fn allocate(self, base: VAddr, size: GuestUSize) -> MemView {
        MemView { live: self.live.insert(base, size), ..self }
    }

    /// The view after the block at `base` has been given back.
    pub open spec fn free(self, base: VAddr) -> MemView {
        MemView { live: self.live.remove(base), ..self }
    }

    /// Nothing that `earlier` held in a live block was lost: the space is
    /// as large, and every block that was live is live still, at its size
    /// and with its bytes.
    pub open spec fn extends(self, earlier: MemView) -> bool {
        &&& self.bytes.len() == earlier.bytes.len()
        &&& forall|base: VAddr| #[trigger]
            earlier.live.contains_key(base) ==> {
                &&& self.live.contains_key(base)
                &&& self.live[base] == earlier.live[base]
                &&& self.range(base as int, earlier.live[base] as int) == earlier.range(
                    base as int,
                    earlier.live[base] as int,
                )
            }
    }

    /// There is a zero byte at or after `addr`, inside the space.
    pub open spec fn has_cstr(self, addr: int) -> bool {
        exists|n: int| self.is_cstr_len(addr, n)
    }

    /// `n` is the distance from `addr` to the first zero byte at or after it.
    pub open spec fn is_cstr_len(self, addr: int, n: int) -> bool {
        &&& 0 <= n
        &&& self.in_bounds(addr, n + 1)
        &&& self.bytes[addr + n] == 0
        &&& forall|i: int| addr <= i < addr + n ==> self.bytes[i] != 0
    }

    /// Length of the zero-terminated string at `addr`, terminator excluded.
    pub open spec fn cstr_len(self, addr: int) -> int {
        choose|n: int| self.is_cstr_len(addr, n)
    }

    /// The zero-terminated string at `addr`, terminator excluded.
    pub open spec fn cstr(self, addr: int) -> Seq<u8> {
        self.range(addr, self.cstr_len(addr))
    }

    /// Two blocks share no byte. A block of size zero still occupies its base.
    pub open spec fn blocks_disjoint(a: int, a_size: int, b: int, b_size: int) -> bool {
        a + a_size <= b || b + b_size <= a
    }
}

/// What was stored at an address is what is read there.
pub proof fn lemma_write_reads_back(v: MemView, addr: int, data: Seq<u8>)
    requires
        0 <= addr,
        addr + data.len() <= v.bytes.len(),
    ensures
        v.write(addr, data).range(addr, data.len() as int) == data,
        v.write(addr, data).bytes.len() == v.bytes.len(),
{
    assert(v.write(addr, data).range(addr, data.len() as int) =~= data);
}

/// A store leaves every range that it does not overlap as it was.
pub proof fn lemma_write_keeps_elsewhere(
    v: MemView,
    addr: int,
    data: Seq<u8>,
    other: int,
    count: int,
)
    requires
        0 <= other,
        0 <= count,
        other + count <= v.bytes.len(),
        MemView::blocks_disjoint(addr, data.len() as int, other, count),
    ensures
        v.write(addr, data).range(other, count) == v.range(other, count),
{
    assert(v.write(addr, data).range(other, count) =~= v.range(other, count));
}

/// A string without a zero byte, stored with a zero byte after it, is the
/// zero-terminated string at that address.
pub proof fn lemma_stored_cstr(v: MemView, addr: int, data: Seq<u8>)
    requires
        NULL_PAGE_SIZE <= addr,
        addr + data.len() + 1 <= v.bytes.len(),
        forall|i: int| 0 <= i < data.len() ==> data[i] != 0,
    ensures
        v.write(addr, data.push(0u8)).is_cstr_len(addr, data.len() as int),
        v.write(addr, data.push(0u8)).cstr(addr) == data,
{
    let w = v.write(addr, data.push(0u8));
    assert(w.is_cstr_len(addr, data.len() as int));
    lemma_cstr_is(w, addr, data.len() as int);
    assert(w.range(addr, data.len() as int) =~= data);
}

/// Storing into a new block that overlaps no live block loses nothing of
/// what the live blocks held.
pub proof fn lemma_fresh_write_extends(v: MemView, base: VAddr, size: GuestUSize, data: Seq<u8>)
    requires
        data.len() <= size,
        base + size <= v.bytes.len(),
        forall|b: VAddr| #[trigger]
            v.live.contains_key(b) ==> {
                &&& 0 <= b && b + v.live[b] <= v.bytes.len()
                &&& MemView::blocks_disjoint(b as int, v.live[b] as int, base as int, size as int)
                &&& b != base
            },
    ensures
        v.allocate(base, size).write(base as int, data).extends(v),
        v.allocate(base, size).extends(v),
{
    let w = v.allocate(base, size).write(base as int, data);
    assert forall|b: VAddr| #[trigger] v.live.contains_key(b) implies w.range(
        b as int,
        v.live[b] as int,
    ) == v.range(b as int, v.live[b] as int) by {
        assert(w.range(b as int, v.live[b] as int) =~= v.range(b as int, v.live[b] as int));
    }
}

/// Losing nothing is transitive.
pub proof fn lemma_extends_transitive(a: MemView, b: MemView, c: MemView)
    requires
        b.extends(a),
        c.extends(b),
    ensures
        c.extends(a),
{
}

/// The zero-terminated string at an address has one length only.
pub proof fn lemma_cstr_len_unique(v: MemView, addr: int, n: int, m: int)
    requires
        v.is_cstr_len(addr, n),
        v.is_cstr_len(addr, m),
    ensures
        n == m,
{
    if n < m {
        assert(v.bytes[addr + n] != 0);
    } else if m < n {
        assert(v.bytes[addr + m] != 0);
    }
}

/// Once a terminator is found at distance `n`, `cstr` is the `n` bytes before it.
pub proof fn lemma_cstr_is(v: MemView, addr: int, n: int)
    requires
        v.is_cstr_len(addr, n),
    ensures
        v.has_cstr(addr),
        v.cstr_len(addr) == n,
        v.cstr(addr) == v.range(addr, n),
{
    lemma_cstr_len_unique(v, addr, n, v.cstr_len(addr));
}

/// Number of bytes the allocator sets aside for a request of `size` bytes:
/// `size` rounded up to the granule, and at least one granule.
pub open spec fn reserved_size(size: GuestUSize) -> int {
    if size == 0 {
        16
    } else {
        ((size + 15) / 16) * 16
    }
}

/// The guest address space and its allocator.
pub struct Mem {
    bytes: Vec<u8>,
    allocations: HashMap<VAddr, GuestUSize>,
    /// First address never handed out; a multiple of the granule.
    next_free: VAddr,
}

impl View for Mem {
    type V = MemView;

    closed spec fn view(&self) -> MemView {
        MemView { bytes: self.bytes@, live: self.allocations@ }
    }
}

impl Mem {
    /// Where the allocator's untouched space begins. No block was ever
    /// handed out at or above this address, and none will be below it.
    pub closed spec fn frontier(&self) -> int {
        self.next_free as int
    }

    /// Bytes the allocator can still hand out.
    pub open spec fn free_bytes(&self) -> int {
        self@.bytes.len() - self.frontier()
    }

    /// The range lies below the allocator's frontier, where no block will
    /// be handed out any more.
    pub open spec fn settled(&self, addr: int, count: int) -> bool {
        addr + count <= self.frontier()
    }

    /// A request of `size` bytes can be met.
    pub open spec fn can_alloc(&self, size: GuestUSize) -> bool {
        reserved_size(size) <= self.free_bytes()
    }

    /// The allocator's books are in order: live blocks lie between the null
    /// page and the frontier, and no two of them share a byte.
    pub closed spec fn wf(&self) -> bool {
        &&& NULL_PAGE_SIZE <= self.next_free <= self.bytes@.len() <= VAddr::MAX
        &&& self.next_free as int % 16 == 0
        &&& forall|base: VAddr| #[trigger]
            self.allocations@.contains_key(base) ==> {
                &&& NULL_PAGE_SIZE <= base
                &&& base + reserved_size(self.allocations@[base]) <= self.next_free
            }
        &&& forall|a: VAddr, b: VAddr|
            #![trigger self.allocations@.contains_key(a), self.allocations@.contains_key(b)]
            self.allocations@.contains_key(a) && self.allocations@.contains_key(b) && a != b
                ==> MemView::blocks_disjoint(
                a as int,
                reserved_size(self.allocations@[a]),
                b as int,
                reserved_size(self.allocations@[b]),
            )
    }

    /// What well-formedness says of the view: the space is at least the null
    /// page, every live block lies in bounds, and live blocks share no byte.
    pub proof fn lemma_wf(&self)
        requires
            self.wf(),
        ensures
            NULL_PAGE_SIZE <= self@.bytes.len() <= VAddr::MAX,
            0 <= self.free_bytes() <= self@.bytes.len() - NULL_PAGE_SIZE,
            self@.live.dom().finite(),
            forall|base: VAddr| #[trigger]
                self@.live.contains_key(base) ==> self.settled(
                    base as int,
                    reserved_size(self@.live[base]),
                ),
            forall|base: VAddr| #[trigger]
                self@.live.contains_key(base) ==> self@.in_bounds(
                    base as int,
                    self@.live[base] as int,
                ),
            forall|a: VAddr, b: VAddr|
                #![trigger self@.live.contains_key(a), self@.live.contains_key(b)]
                self@.live.contains_key(a) && self@.live.contains_key(b) && a != b
                    ==> MemView::blocks_disjoint(
                    a as int,
                    self@.live[a] as int,
                    b as int,
                    self@.live[b] as int,
                ),
    {
        broadcast use vstd::std_specs::hash::group_hash_axioms;

        assert forall|base: VAddr| #[trigger] self@.live.contains_key(base) implies self@.in_bounds(
            base as int,
            self@.live[base] as int,
        ) && self.settled(base as int, reserved_size(self@.live[base])) by {
            lemma_reserved_size(self@.live[base]);
        }
        assert forall|a: VAddr, b: VAddr|
            #![trigger self@.live.contains_key(a), self@.live.contains_key(b)]
            self@.live.contains_key(a) && self@.live.contains_key(b) && a
                != b implies MemView::blocks_disjoint(
            a as int,
            self@.live[a] as int,
            b as int,
            self@.live[b] as int,
        ) by {
            lemma_reserved_size(self@.live[a]);
            lemma_reserved_size(self@.live[b]);
        }
    }

    /// A zeroed address space of `size` bytes with nothing allocated.
    pub fn new(size: GuestUSize) -> (mem: Mem)
        requires
            size >= NULL_PAGE_SIZE,
        ensures
            mem.wf(),
            mem@.bytes == Seq::new(size as nat, |i: int| 0u8),
            mem@.live == Map::<VAddr, GuestUSize>::empty(),
            mem.free_bytes() == size - NULL_PAGE_SIZE,
            mem.frontier() == NULL_PAGE_SIZE,
    {
        let bytes = vec![0u8; size as usize];
        assert(bytes@ =~= Seq::new(size as nat, |i: int| 0u8));
        let allocations: HashMap<VAddr, GuestUSize> = HashMap::new();
        assert(0x1000int % 16 == 0);
        Mem { bytes, allocations, next_free: NULL_PAGE_SIZE }
    }

    /// Size of the address space in bytes.
    pub fn size(&self) -> (size: GuestUSize)
        requires
            self.wf(),
        ensures
            size == self@.bytes.len(),
    {
        self.bytes.len() as u32
    }

    /// Bytes the allocator can still hand out.
    pub fn available(&self) -> (free: GuestUSize)
        requires
            self.wf(),
        ensures
            free == self.free_bytes(),
    {
        self.bytes.len() as u32 - self.next_free
    }

    /// Whether a request of `size` bytes can be met.
    pub fn has_room(&self, size: GuestUSize) -> (room: bool)
        requires
            self.wf(),
        ensures
            room == self.can_alloc(size),
    {
        let free: u64 = (self.bytes.len() as u32 - self.next_free) as u64;
        reserve_for(size) <= free
    }

    /// Whether the range lies below the allocator's frontier.
    pub fn is_settled(&self, addr: VAddr, count: GuestUSize) -> (settled: bool)
        ensures
            settled == self.settled(addr as int, count as int),
    {
        (addr as u64) + (count as u64) <= self.next_free as u64
    }

    /// Whether `count` bytes at `addr` can be read and written.
    pub fn is_valid_range(&self, addr: VAddr, count: GuestUSize) -> (valid: bool)
        ensures
            valid == self@.in_bounds(addr as int, count as int),
    {
        addr >= NULL_PAGE_SIZE && (addr as u64) + (count as u64) <= self.bytes.len() as u64
    }

    /// The requested size of the live block at `ptr`, if there is one.
    pub fn allocation_size<T, const MUT: bool>(&self, ptr: Ptr<T, MUT>) -> (size: Option<
        GuestUSize,
    >)
        ensures
            size == if self@.live.contains_key(ptr.addr()) {
                Some(self@.live[ptr.addr()])
            } else {
                None
            },
    {
        broadcast use vstd::std_specs::hash::group_hash_axioms;

        match self.allocations.get(&ptr.addr) {
            Some(size) => Some(*size),
            None => None,
        }
    }

    /// Hands out a block of `size` bytes that overlaps no live block. The
    /// bytes of the space are left as they are.
    pub fn allocate(&mut self, size: GuestUSize) -> (ptr: MutVoidPtr)
        requires
            old(self).wf(),
            old(self).can_alloc(size),
        ensures
            final(self).wf(),
            !old(self)@.live.contains_key(ptr.addr()),
            final(self)@.live == old(self)@.live.insert(ptr.addr(), size),
            final(self)@.bytes == old(self)@.bytes,
            final(self)@.in_bounds(ptr.addr() as int, size as int),
            ptr.addr() == old(self).frontier(),
            final(self).frontier() == ptr.addr() + reserved_size(size),
            final(self).free_bytes() == old(self).free_bytes() - reserved_size(size),
            final(self)@.extends(old(self)@),
            forall|base: VAddr| #[trigger]
                old(self)@.live.contains_key(base) ==> MemView::blocks_disjoint(
                    base as int,
                    old(self)@.live[base] as int,
                    ptr.addr() as int,
                    size as int,
                ),
    {
        broadcast use vstd::std_specs::hash::group_hash_axioms;

        proof {
            lemma_reserved_size(size);
        }
        let base: VAddr = self.next_free;
        let reserve: u64 = reserve_for(size);
        assert(!self.allocations@.contains_key(base)) by {
            if self.allocations@.contains_key(base) {
                lemma_reserved_size(self.allocations@[base]);
            }
        }
        self.allocations.insert(base, size);
        self.next_free = (base as u64 + reserve) as u32;
        proof {
            assert forall|b: VAddr| #[trigger]
                old(self)@.live.contains_key(b) implies MemView::blocks_disjoint(
                b as int,
                old(self)@.live[b] as int,
                base as int,
                size as int,
            ) by {
                lemma_reserved_size(old(self)@.live[b]);
            }
        }
        Ptr { addr: base, pointee: PhantomData }
    }

    /// Gives a live block back. The bytes of the space are left as they are.
    pub fn free(&mut self, ptr: MutVoidPtr)
        requires
            old(self).wf(),
            old(self)@.live.contains_key(ptr.addr()),
        ensures
            final(self).wf(),
            final(self)@.live == old(self)@.live.remove(ptr.addr()),
            final(self)@.bytes == old(self)@.bytes,
            final(self).frontier() == old(self).frontier(),
            final(self).free_bytes() == old(self).free_bytes(),
    {
        broadcast use vstd::std_specs::hash::group_hash_axioms;

        self.allocations.remove(&ptr.addr);
    }

    /// The `count` bytes at `ptr`.
    pub fn bytes_at<const MUT: bool>(&self, ptr: Ptr<u8, MUT>, count: GuestUSize) -> (bytes: &[u8])
        requires
            self@.in_bounds(ptr.addr() as int, count as int),
        ensures
            bytes@ == self@.range(ptr.addr() as int, count as int),
    {
        let total: usize = self.bytes.len();
        let start: usize = ptr.addr as usize;
        assert(start + count <= total);
        slice_subrange(self.bytes.as_slice(), start, start + count as usize)
    }

    /// Stores `data` at `ptr`; every other byte is left as it is.
    pub fn write_bytes(&mut self, ptr: MutPtr<u8>, data: &[u8])
        requires
            old(self).wf(),
            old(self)@.in_bounds(ptr.addr() as int, data@.len() as int),
        ensures
            final(self).wf(),
            final(self)@.live == old(self)@.live,
            final(self)@.bytes == old(self)@.stored(ptr.addr() as int, data@),
            final(self).frontier() == old(self).frontier(),
            final(self).free_bytes() == old(self).free_bytes(),
    {
        let base: usize = ptr.addr as usize;
        let count: usize = data.len();
        let total: usize = self.bytes.len();
        let mut i: usize = 0;
        while i < count
            invariant
                0 <= i <= count,
                total == self.bytes@.len(),
                count == data@.len(),
                base == ptr.addr(),
                base + count <= self.bytes@.len(),
                self.bytes@.len() == old(self).bytes@.len(),
                self.allocations == old(self).allocations,
                self.next_free == old(self).next_free,
                forall|j: int|
                    0 <= j < self.bytes@.len() ==> self.bytes@[j] == if base <= j < base + i {
                        data@[j - base]
                    } else {
                        old(self).bytes@[j]
                    },
            decreases count - i,
        {
            self.bytes[base + i] = data[i];
            i = i + 1;
        }
        assert(self.bytes@ =~= old(self)@.stored(ptr.addr() as int, data@));
    }

    /// Length of the zero-terminated string at `ptr`, or `None` when the
    /// address is out of bounds or no zero byte follows it.
    pub fn cstr_len<const MUT: bool>(&self, ptr: Ptr<u8, MUT>) -> (len: Option<GuestUSize>)
        requires
            self.wf(),
        ensures
            match len {
                Some(n) => self@.is_cstr_len(ptr.addr() as int, n as int),
                None => !self@.has_cstr(ptr.addr() as int),
            },
    {
        let total: usize = self.bytes.len();
        let base: usize = ptr.addr as usize;
        if ptr.addr < NULL_PAGE_SIZE || base >= total {
            return None;
        }
        let mut i: usize = base;
        while i < total
            invariant
                NULL_PAGE_SIZE <= base <= i <= total <= VAddr::MAX,
                base == ptr.addr(),
                total == self.bytes@.len(),
                forall|j: int| base <= j < i ==> self.bytes@[j] != 0,
            decreases total - i,
        {
            if self.bytes[i] == 0 {
                assert(ptr.addr() + (i - base) == i);
                return Some((i - base) as u32);
            }
            i = i + 1;
        }
        assert forall|n: int| !self@.is_cstr_len(ptr.addr() as int, n) by {
            if self@.is_cstr_len(ptr.addr() as int, n) {
                assert(self.bytes@[base + n] == 0);
            }
        }
        None
    }

    /// The zero-terminated string at `ptr`, terminator excluded.
    pub fn cstr_at<const MUT: bool>(&self, ptr: Ptr<u8, MUT>) -> (bytes: &[u8])
        requires
            self.wf(),
            self@.has_cstr(ptr.addr() as int),
        ensures
            bytes@ == self@.cstr(ptr.addr() as int),
    {
        match self.cstr_len(ptr) {
            Some(n) => {
                proof {
                    lemma_cstr_is(self@, ptr.addr() as int, n as int);
                }
                self.bytes_at(ptr, n)
            },
            None => vstd::pervasive::unreached(),
        }
    }

    /// Allocates `data.len() + 1` bytes and stores `data` followed by a zero
    /// byte there.
    pub fn alloc_and_write_cstr(&mut self, data: &[u8]) -> (ptr: MutPtr<u8>)
        requires
            old(self).wf(),
            data@.len() < GuestUSize::MAX,
            old(self).can_alloc((data@.len() + 1) as GuestUSize),
        ensures
            final(self).wf(),
            !old(self)@.live.contains_key(ptr.addr()),
            final(self)@.live == old(self)@.live.insert(
                ptr.addr(),
                (data@.len() + 1) as GuestUSize,
            ),
            final(self)@.bytes == old(self)@.stored(ptr.addr() as int, data@.push(0u8)),
            final(self)@.in_bounds(ptr.addr() as int, data@.len() as int + 1),
            ptr.addr() == old(self).frontier(),
            final(self).frontier() == ptr.addr() + reserved_size((data@.len() + 1) as GuestUSize),
            final(self).free_bytes() == old(self).free_bytes() - reserved_size(
                (data@.len() + 1) as GuestUSize,
            ),
            final(self)@.extends(old(self)@),
            forall|base: VAddr| #[trigger]
                old(self)@.live.contains_key(base) ==> MemView::blocks_disjoint(
                    base as int,
                    old(self)@.live[base] as int,
                    ptr.addr() as int,
                    data@.len() as int + 1,
                ),
    {
        let size: u32 = data.len() as u32 + 1;
        let block: MutPtr<u8> = self.allocate(size).cast();
        self.write_bytes(block, data);
        let terminator: [u8; 1] = [0u8];
        self.write_bytes(block.offset(data.len() as u32), terminator.as_slice());
        assert(self@.bytes =~= old(self)@.stored(block.addr() as int, data@.push(0u8)));
        proof {
            old(self).lemma_wf();
            lemma_fresh_write_extends(
                old(self)@,
                block.addr(),
                (data@.len() + 1) as GuestUSize,
                data@.push(0u8),
            );
            assert(self@ =~= old(self)@.allocate(
                block.addr(),
                (data@.len() + 1) as GuestUSize,
            ).write(block.addr() as int, data@.push(0u8)));
        }
        block
    }
}

/// Little-endian bytes of a 16-bit value.
pub open spec fn le_bytes_u16(v: u16) -> Seq<u8> {
    seq![v as u8, (v >> 8) as u8]
}

/// The 16-bit value whose little-endian bytes are the first two of `bytes`.
pub open spec fn le_value_u16(bytes: Seq<u8>) -> u16 {
    (bytes[0] as u16) | ((bytes[1] as u16) << 8)
}

/// Little-endian bytes of a 32-bit value.
pub open spec fn le_bytes_u32(v: u32) -> Seq<u8> {
    seq![v as u8, (v >> 8) as u8, (v >> 16) as u8, (v >> 24) as u8]
}

/// The 32-bit value whose little-endian bytes are the first four of `bytes`.
pub open spec fn le_value_u32(bytes: Seq<u8>) -> u32 {
    (bytes[0] as u32) | ((bytes[1] as u32) << 8) | ((bytes[2] as u32) << 16) | ((bytes[3] as u32)
        << 24)
}

/// Reading back the little-endian bytes of a value gives the value.
pub proof fn lemma_le_round_trip_u16(v: u16)
    ensures
        le_value_u16(le_bytes_u16(v)) == v,
{
    assert(((v as u8) as u16) | ((((v >> 8) as u8) as u16) << 8) == v) by (bit_vector);
}

/// Reading back the little-endian bytes of a value gives the value.
pub proof fn lemma_le_round_trip_u32(v: u32)
    ensures
        le_value_u32(le_bytes_u32(v)) == v,
{
    assert(((v as u8) as u32) | ((((v >> 8) as u8) as u32) << 8) | ((((v >> 16) as u8) as u32)
        << 16) | ((((v >> 24) as u8) as u32) << 24) == v) by (bit_vector);
}

/// A value with a fixed layout in guest memory.
///
/// The value of `SIZE` is known inside the module of an impl only.
/// Elsewhere `lemma_layout` tells it: it says that `guest_bytes` has `SIZE`
/// elements, and `guest_bytes` of each type is open to all.
pub trait GuestData: Sized {
    /// Number of bytes the value occupies in guest memory.
    const SIZE: GuestUSize;

    /// The bytes that stand for the value in guest memory.
    spec fn guest_bytes(self) -> Seq<u8>;

    /// The value that `SIZE` bytes of guest memory stand for.
    spec fn from_guest_bytes(bytes: Seq<u8>) -> Self;

    fn store(&self) -> (bytes: Vec<u8>)
        ensures
            bytes@ == self.guest_bytes(),
            bytes@.len() == Self::SIZE,
    ;

    fn load(bytes: &[u8]) -> (value: Self)
        requires
            bytes@.len() == Self::SIZE,
        ensures
            value == Self::from_guest_bytes(bytes@),
    ;

    /// A stored value has `SIZE` bytes and loads back as itself.
    proof fn lemma_layout(value: Self)
        ensures
            value.guest_bytes().len() == Self::SIZE,
            Self::from_guest_bytes(value.guest_bytes()) == value,
    ;
}

impl GuestData for u8 {
    const SIZE: GuestUSize = 1;

    open spec fn guest_bytes(self) -> Seq<u8> {
        seq![self]
    }

    open spec fn from_guest_bytes(bytes: Seq<u8>) -> Self {
        bytes[0]
    }

    fn store(&self) -> (bytes: Vec<u8>) {
        let mut bytes: Vec<u8> = Vec::new();
        bytes.push(*self);
        assert(bytes@ =~= seq![*self]);
        bytes
    }

    fn load(bytes: &[u8]) -> (value: Self) {
        bytes[0]
    }

    proof fn lemma_layout(value: Self) {
    }
}

impl GuestData for u16 {
    const SIZE: GuestUSize = 2;

    open spec fn guest_bytes(self) -> Seq<u8> {
        le_bytes_u16(self)
    }

    open spec fn from_guest_bytes(bytes: Seq<u8>) -> Self {
        le_value_u16(bytes)
    }

    fn store(&self) -> (bytes: Vec<u8>) {
        let v: u16 = *self;
        let mut bytes: Vec<u8> = Vec::new();
        bytes.push(#[verifier::truncate] (v as u8));
        bytes.push(#[verifier::truncate] ((v >> 8) as u8));
        assert(bytes@ =~= le_bytes_u16(v));
        bytes
    }

    fn load(bytes: &[u8]) -> (value: Self) {
        (bytes[0] as u16) | ((bytes[1] as u16) << 8)
    }

    proof fn lemma_layout(value: Self) {
        lemma_le_round_trip_u16(value);
    }
}

impl GuestData for u32 {
    const SIZE: GuestUSize = 4;

    open spec fn guest_bytes(self) -> Seq<u8> {
        le_bytes_u32(self)
    }

    open spec fn from_guest_bytes(bytes: Seq<u8>) -> Self {
        le_value_u32(bytes)
    }

    fn store(&self) -> (bytes: Vec<u8>) {
        let v: u32 = *self;
        let mut bytes: Vec<u8> = Vec::new();
        bytes.push(#[verifier::truncate] (v as u8));
        bytes.push(#[verifier::truncate] ((v >> 8) as u8));
        bytes.push(#[verifier::truncate] ((v >> 16) as u8));
        bytes.push(#[verifier::truncate] ((v >> 24) as u8));
        assert(bytes@ =~= le_bytes_u32(v));
        bytes
    }

    fn load(bytes: &[u8]) -> (value: Self) {
        (bytes[0] as u32) | ((bytes[1] as u32) << 8) | ((bytes[2] as u32) << 16) | ((
        bytes[3] as u32) << 24)
    }

    proof fn lemma_layout(value: Self) {
        lemma_le_round_trip_u32(value);
    }
}

impl GuestData for i32 {
    const SIZE: GuestUSize = 4;

    open spec fn guest_bytes(self) -> Seq<u8> {
        le_bytes_u32(self as u32)
    }

    open spec fn from_guest_bytes(bytes: Seq<u8>) -> Self {
        le_value_u32(bytes) as i32
    }

    fn store(&self) -> (bytes: Vec<u8>) {
        let v: u32 = *self as u32;
        v.store()
    }

    fn load(bytes: &[u8]) -> (value: Self) {
        let v: u32 = u32::load(bytes);
        #[verifier::truncate]
        (v as i32)
    }

    proof fn lemma_layout(value: Self) {
        lemma_le_round_trip_u32(value as u32);
        assert(((value as u32) as i32) == value) by (bit_vector);
    }
}

impl GuestData for i8 {
    const SIZE: GuestUSize = 1;

    open spec fn guest_bytes(self) -> Seq<u8> {
        seq![self as u8]
    }

    open spec fn from_guest_bytes(bytes: Seq<u8>) -> Self {
        bytes[0] as i8
    }

    fn store(&self) -> (bytes: Vec<u8>) {
        let mut bytes: Vec<u8> = Vec::new();
        bytes.push(*self as u8);
        assert(bytes@ =~= seq![*self as u8]);
        bytes
    }

    fn load(bytes: &[u8]) -> (value: Self) {
        #[verifier::truncate]
        (bytes[0] as i8)
    }

    proof fn lemma_layout(value: Self) {
        assert(((value as u8) as i8) == value) by (bit_vector);
    }
}

impl GuestData for u64 {
    const SIZE: GuestUSize = 8;

    open spec fn guest_bytes(self) -> Seq<u8> {
        le_bytes_u32(self as u32) + le_bytes_u32((self >> 32) as u32)
    }

    open spec fn from_guest_bytes(bytes: Seq<u8>) -> Self {
        (le_value_u32(bytes.subrange(0, 4)) as u64) | ((le_value_u32(bytes.subrange(4, 8)) as u64)
            << 32)
    }

    fn store(&self) -> (bytes: Vec<u8>) {
        let low: u32 = #[verifier::truncate] (*self as u32);
        let high: u32 = #[verifier::truncate] ((*self >> 32) as u32);
        let mut bytes = low.store();
        let mut high_bytes = high.store();
        bytes.append(&mut high_bytes);
        assert(bytes@ =~= self.guest_bytes());
        bytes
    }

    fn load(bytes: &[u8]) -> (value: Self) {
        let low: u32 = u32::load(&bytes[0..4]);
        let high: u32 = u32::load(&bytes[4..8]);
        (low as u64) | ((high as u64) << 32)
    }

    proof fn lemma_layout(value: Self) {
        let bytes = value.guest_bytes();
        assert(bytes.subrange(0, 4) =~= le_bytes_u32(value as u32));
        assert(bytes.subrange(4, 8) =~= le_bytes_u32((value >> 32) as u32));
        lemma_le_round_trip_u32(value as u32);
        lemma_le_round_trip_u32((value >> 32) as u32);
        assert(((value as u32) as u64) | ((((value >> 32) as u32) as u64) << 32) == value)
            by (bit_vector);
    }
}

impl<T, const MUT: bool> GuestData for Ptr<T, MUT> {
    const SIZE: GuestUSize = 4;

    open spec fn guest_bytes(self) -> Seq<u8> {
        le_bytes_u32(self.addr())
    }

    open spec fn from_guest_bytes(bytes: Seq<u8>) -> Self {
        Self::at(le_value_u32(bytes))
    }

    fn store(&self) -> (bytes: Vec<u8>) {
        self.addr.store()
    }

    fn load(bytes: &[u8]) -> (value: Self) {
        Ptr { addr: u32::load(bytes), pointee: PhantomData }
    }

    proof fn lemma_layout(value: Self) {
        lemma_le_round_trip_u32(value.addr());
    }
}

impl Mem {
    /// The value stored at `ptr`.
    pub fn read<T: GuestData, const MUT: bool>(&self, ptr: Ptr<T, MUT>) -> (value: T)
        requires
            self@.in_bounds(ptr.addr() as int, T::SIZE as int),
        ensures
            value == T::from_guest_bytes(self@.range(ptr.addr() as int, T::SIZE as int)),
    {
        T::load(self.bytes_at(ptr.cast::<u8>(), T::SIZE))
    }

    /// Stores `value` at `ptr`; every other byte is left as it is.
    pub fn write<T: GuestData>(&mut self, ptr: MutPtr<T>, value: T)
        requires
            old(self).wf(),
            old(self)@.in_bounds(ptr.addr() as int, T::SIZE as int),
        ensures
            final(self).wf(),
            final(self)@.live == old(self)@.live,
            final(self)@.bytes == old(self)@.stored(ptr.addr() as int, value.guest_bytes()),
            final(self).frontier() == old(self).frontier(),
            final(self).free_bytes() == old(self).free_bytes(),
    {
        let bytes = value.store();
        self.write_bytes(ptr.cast::<u8>(), bytes.as_slice());
    }

    /// Allocates room for `value` and stores it there.
    pub fn alloc_and_write<T: GuestData>(&mut self, value: T) -> (ptr: MutPtr<T>)
        requires
            old(self).wf(),
            old(self).can_alloc(T::SIZE),
        ensures
            final(self).wf(),
            !old(self)@.live.contains_key(ptr.addr()),
            final(self)@.live == old(self)@.live.insert(ptr.addr(), T::SIZE),
            final(self)@.bytes == old(self)@.stored(ptr.addr() as int, value.guest_bytes()),
            final(self)@.in_bounds(ptr.addr() as int, T::SIZE as int),
            ptr.addr() == old(self).frontier(),
            final(self).frontier() == ptr.addr() + reserved_size(T::SIZE),
            final(self).free_bytes() == old(self).free_bytes() - reserved_size(T::SIZE),
            final(self)@.extends(old(self)@),
            forall|base: VAddr| #[trigger]
                old(self)@.live.contains_key(base) ==> MemView::blocks_disjoint(
                    base as int,
                    old(self)@.live[base] as int,
                    ptr.addr() as int,
                    T::SIZE as int,
                ),
    {
        proof {
            T::lemma_layout(value);
        }
        let block: MutPtr<T> = self.allocate(T::SIZE).cast();
        self.write(block, value);
        proof {
            old(self).lemma_wf();
            lemma_fresh_write_extends(old(self)@, block.addr(), T::SIZE, value.guest_bytes());
            assert(self@ =~= old(self)@.allocate(block.addr(), T::SIZE).write(
                block.addr() as int,
                value.guest_bytes(),
            ));
        }
        block
    }
}

/// Bytes set aside for a request of `size` bytes.
pub fn reserve_for(size: GuestUSize) -> (reserve: u64)
    ensures
        reserve == reserved_size(size),
{
    let granule: u64 = ALLOCATION_GRANULE as u64;
    if size == 0 {
        granule
    } else {
        ((size as u64 + (granule - 1)) / granule) * granule
    }
}

/// The reserved size covers the request, is a positive multiple of the
/// granule and overshoots by less than one granule.
pub proof fn lemma_reserved_size(size: GuestUSize)
    ensures
        size <= reserved_size(size) <= size + 16,
        0 < reserved_size(size),
        reserved_size(size) % 16 == 0,
{
}

} // verus!
