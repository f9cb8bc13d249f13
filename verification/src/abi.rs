//! The calling convention between guest and host.
//!
//! Arguments and return values travel in 32-bit register slots. A scalar
//! narrower than a slot takes one whole slot, extended by sign or by zero as
//! its type says; a 64-bit scalar takes two slots, low half first; a composite
//! value is packed field by field, in declaration order, each field with its
//! own slot count. The first four slots of a call are registers, the rest lie
//! on the stack.

use crate::mem::{GuestData, GuestUSize, Mem, MutVoidPtr, Ptr, VAddr};
use vstd::prelude::*;

verus! {

/// Number of argument slots that are passed in registers.
pub const ARGUMENT_REGISTERS: usize = 4;

/// A composite return value larger than this many bytes is handed back
/// through a buffer that the caller supplies, not in registers.
pub const MAX_COMPOSITE_RETURN_IN_REGISTERS: GuestUSize = 4;

/// A value that can be passed to, or returned from, a guest-callable function.
///
/// The value of `REG_COUNT` is known inside the module of an impl only.
/// Elsewhere `lemma_round_trip` tells it: it says that `slots` has
/// `REG_COUNT` elements, and `slots` of each type is open to all.
pub trait GuestArg: Sized {
    /// Number of register slots the value occupies.
    const REG_COUNT: usize;

    /// The slots that stand for the value.
    spec fn slots(self) -> Seq<u32>;

    /// The value that `REG_COUNT` slots stand for.
    spec fn from_slots(regs: Seq<u32>) -> Self;

    /// Unpacks a value from the first `REG_COUNT` slots of `regs`.
    fn from_regs(regs: &[u32]) -> (value: Self)
        requires
            regs@.len() >= Self::REG_COUNT,
        ensures
            value == Self::from_slots(regs@.subrange(0, Self::REG_COUNT as int)),
    ;

    /// Packs the value into the first `REG_COUNT` slots of `regs` and leaves
    /// every slot behind them as it is.
    fn to_regs(self, regs: &mut [u32])
        requires
            old(regs)@.len() >= Self::REG_COUNT,
        ensures
            final(regs)@ == self.slots() + old(regs)@.subrange(
                Self::REG_COUNT as int,
                old(regs)@.len() as int,
            ),
    ;

    /// Round trip: a value packed into slots and unpacked again is unchanged,
    /// and it fills exactly `REG_COUNT` slots.
    proof fn lemma_round_trip(value: Self)
        ensures
            value.slots().len() == Self::REG_COUNT,
            Self::from_slots(value.slots()) == value,
    ;
}

impl GuestArg for u32 {
    const REG_COUNT: usize = 1;

    open spec fn slots(self) -> Seq<u32> {
        seq![self]
    }

    open spec fn from_slots(regs: Seq<u32>) -> Self {
        regs[0]
    }

    fn from_regs(regs: &[u32]) -> (value: Self) {
        regs[0]
    }

    fn to_regs(self, regs: &mut [u32]) {
        regs[0] = self;
        assert(regs@ =~= seq![self] + old(regs)@.subrange(1, old(regs)@.len() as int));
    }

    proof fn lemma_round_trip(value: Self) {
    }
}

impl GuestArg for u8 {
    const REG_COUNT: usize = 1;

    open spec fn slots(self) -> Seq<u32> {
        seq![self as u32]
    }

    open spec fn from_slots(regs: Seq<u32>) -> Self {
        regs[0] as u8
    }

    fn from_regs(regs: &[u32]) -> (value: Self) {
        #[verifier::truncate]
        (regs[0] as u8)
    }

    fn to_regs(self, regs: &mut [u32]) {
        regs[0] = self as u32;
        assert(regs@ =~= seq![self as u32] + old(regs)@.subrange(1, old(regs)@.len() as int));
    }

    proof fn lemma_round_trip(value: Self) {
        assert((value as u32) as u8 == value) by (bit_vector);
    }
}

impl GuestArg for u16 {
    const REG_COUNT: usize = 1;

    open spec fn slots(self) -> Seq<u32> {
        seq![self as u32]
    }

    open spec fn from_slots(regs: Seq<u32>) -> Self {
        regs[0] as u16
    }

    fn from_regs(regs: &[u32]) -> (value: Self) {
        #[verifier::truncate]
        (regs[0] as u16)
    }

    fn to_regs(self, regs: &mut [u32]) {
        regs[0] = self as u32;
        assert(regs@ =~= seq![self as u32] + old(regs)@.subrange(1, old(regs)@.len() as int));
    }

    proof fn lemma_round_trip(value: Self) {
        assert((value as u32) as u16 == value) by (bit_vector);
    }
}

impl GuestArg for i8 {
    const REG_COUNT: usize = 1;

    open spec fn slots(self) -> Seq<u32> {
        seq![self as u32]
    }

    open spec fn from_slots(regs: Seq<u32>) -> Self {
        regs[0] as i8
    }

    fn from_regs(regs: &[u32]) -> (value: Self) {
        #[verifier::truncate]
        (regs[0] as i8)
    }

    fn to_regs(self, regs: &mut [u32]) {
        regs[0] = self as u32;
        assert(regs@ =~= seq![self as u32] + old(regs)@.subrange(1, old(regs)@.len() as int));
    }

    proof fn lemma_round_trip(value: Self) {
        assert((value as u32) as i8 == value) by (bit_vector);
    }
}

impl GuestArg for i16 {
    const REG_COUNT: usize = 1;

    open spec fn slots(self) -> Seq<u32> {
        seq![self as u32]
    }

    open spec fn from_slots(regs: Seq<u32>) -> Self {
        regs[0] as i16
    }

    fn from_regs(regs: &[u32]) -> (value: Self) {
        #[verifier::truncate]
        (regs[0] as i16)
    }

    fn to_regs(self, regs: &mut [u32]) {
        regs[0] = self as u32;
        assert(regs@ =~= seq![self as u32] + old(regs)@.subrange(1, old(regs)@.len() as int));
    }

    proof fn lemma_round_trip(value: Self) {
        assert((value as u32) as i16 == value) by (bit_vector);
    }
}

impl GuestArg for i32 {
    const REG_COUNT: usize = 1;

    open spec fn slots(self) -> Seq<u32> {
        seq![self as u32]
    }

    open spec fn from_slots(regs: Seq<u32>) -> Self {
        regs[0] as i32
    }

    fn from_regs(regs: &[u32]) -> (value: Self) {
        #[verifier::truncate]
        (regs[0] as i32)
    }

    fn to_regs(self, regs: &mut [u32]) {
        regs[0] = self as u32;
        assert(regs@ =~= seq![self as u32] + old(regs)@.subrange(1, old(regs)@.len() as int));
    }

    proof fn lemma_round_trip(value: Self) {
        assert((value as u32) as i32 == value) by (bit_vector);
    }
}

impl GuestArg for bool {
    const REG_COUNT: usize = 1;

    open spec fn slots(self) -> Seq<u32> {
        seq![if self { 1u32 } else { 0u32 }]
    }

    open spec fn from_slots(regs: Seq<u32>) -> Self {
        regs[0] != 0
    }

    fn from_regs(regs: &[u32]) -> (value: Self) {
        regs[0] != 0
    }

    fn to_regs(self, regs: &mut [u32]) {
        regs[0] = if self { 1 } else { 0 };
        assert(regs@ =~= self.slots() + old(regs)@.subrange(1, old(regs)@.len() as int));
    }

    proof fn lemma_round_trip(value: Self) {
    }
}

impl GuestArg for u64 {
    const REG_COUNT: usize = 2;

    open spec fn slots(self) -> Seq<u32> {
        seq![self as u32, (self >> 32) as u32]
    }

    open spec fn from_slots(regs: Seq<u32>) -> Self {
        (regs[0] as u64) | ((regs[1] as u64) << 32)
    }

    fn from_regs(regs: &[u32]) -> (value: Self) {
        (regs[0] as u64) | ((regs[1] as u64) << 32)
    }

    fn to_regs(self, regs: &mut [u32]) {
        regs[0] = #[verifier::truncate] (self as u32);
        regs[1] = #[verifier::truncate] ((self >> 32) as u32);
        assert(regs@ =~= self.slots() + old(regs)@.subrange(2, old(regs)@.len() as int));
    }

    proof fn lemma_round_trip(value: Self) {
        assert(((value as u32) as u64) | ((((value >> 32) as u32) as u64) << 32) == value)
            by (bit_vector);
    }
}

impl GuestArg for i64 {
    const REG_COUNT: usize = 2;

    open spec fn slots(self) -> Seq<u32> {
        seq![self as u64 as u32, ((self as u64) >> 32) as u32]
    }

    open spec fn from_slots(regs: Seq<u32>) -> Self {
        ((regs[0] as u64) | ((regs[1] as u64) << 32)) as i64
    }

    fn from_regs(regs: &[u32]) -> (value: Self) {
        let bits: u64 = u64::from_regs(regs);
        #[verifier::truncate]
        (bits as i64)
    }

    fn to_regs(self, regs: &mut [u32]) {
        (self as u64).to_regs(regs);
    }

    proof fn lemma_round_trip(value: Self) {
        u64::lemma_round_trip(value as u64);
        assert(((value as u64) as i64) == value) by (bit_vector);
    }
}

impl<T, const MUT: bool> GuestArg for Ptr<T, MUT> {
    const REG_COUNT: usize = 1;

    open spec fn slots(self) -> Seq<u32> {
        seq![self.addr()]
    }

    open spec fn from_slots(regs: Seq<u32>) -> Self {
        Self::at(regs[0])
    }

    fn from_regs(regs: &[u32]) -> (value: Self) {
        Ptr::from_bits(regs[0])
    }

    fn to_regs(self, regs: &mut [u32]) {
        regs[0] = self.to_bits();
        assert(regs@ =~= self.slots() + old(regs)@.subrange(1, old(regs)@.len() as int));
    }

    proof fn lemma_round_trip(value: Self) {
    }
}

/// The address of a function in guest code. Its lowest bit selects the
/// instruction set and is part of the value.
#[derive(Clone, Copy, Debug, PartialEq, Eq, Structural)]
pub struct GuestFunction {
    pub addr_with_thumb_bit: VAddr,
}

impl GuestFunction {
    pub fn from_addr_with_thumb_bit(addr_with_thumb_bit: VAddr) -> (function: Self)
        ensures
            function.addr_with_thumb_bit == addr_with_thumb_bit,
    {
        GuestFunction { addr_with_thumb_bit }
    }

    pub fn addr_with_thumb_bit(self) -> (addr: VAddr)
        ensures
            addr == self.addr_with_thumb_bit,
    {
        self.addr_with_thumb_bit
    }

    /// Whether the function is in the compact instruction set.
    pub fn is_thumb(self) -> (thumb: bool)
        ensures
            thumb <==> self.addr_with_thumb_bit & 1 == 1,
    {
        self.addr_with_thumb_bit & 1 == 1
    }
}

impl GuestArg for GuestFunction {
    const REG_COUNT: usize = 1;

    open spec fn slots(self) -> Seq<u32> {
        seq![self.addr_with_thumb_bit]
    }

    open spec fn from_slots(regs: Seq<u32>) -> Self {
        GuestFunction { addr_with_thumb_bit: regs[0] }
    }

    fn from_regs(regs: &[u32]) -> (value: Self) {
        GuestFunction { addr_with_thumb_bit: regs[0] }
    }

    fn to_regs(self, regs: &mut [u32]) {
        regs[0] = self.addr_with_thumb_bit;
        assert(regs@ =~= self.slots() + old(regs)@.subrange(1, old(regs)@.len() as int));
    }

    proof fn lemma_round_trip(value: Self) {
    }
}

/// Appends the slots of `value` to an argument window that is being built
/// for a call from host to guest.
pub fn write_next_arg<T: GuestArg>(window: &mut Vec<u32>, value: T)
    ensures
        final(window)@ == old(window)@ + value.slots(),
{
    proof {
        T::lemma_round_trip(value);
    }
    let mut regs: Vec<u32> = vec![0u32; T::REG_COUNT];
    value.to_regs(regs.as_mut_slice());
    assert(regs@ =~= value.slots());
    let ghost before = window@;
    let mut i: usize = 0;
    while i < regs.len()
        invariant
            0 <= i <= regs@.len(),
            regs@ == value.slots(),
            window@ == before + regs@.subrange(0, i as int),
        decreases regs@.len() - i,
    {
        window.push(regs[i]);
        assert(window@ =~= before + regs@.subrange(0, i + 1));
        i = i + 1;
    }
    assert(regs@.subrange(0, regs@.len() as int) =~= regs@);
}

/// Takes the next argument of a call from guest to host out of its argument
/// window and moves `offset` past it.
pub fn read_next_arg<T: GuestArg>(window: &[u32], offset: &mut usize) -> (value: T)
    requires
        *old(offset) + T::REG_COUNT <= window@.len(),
    ensures
        *final(offset) == *old(offset) + T::REG_COUNT,
        value == T::from_slots(window@.subrange(*old(offset) as int, *final(offset) as int)),
{
    let total: usize = window.len();
    let start: usize = *offset;
    let end: usize = start + T::REG_COUNT;
    *offset = end;
    let slots = &window[start..end];
    assert(slots@.subrange(0, T::REG_COUNT as int) =~= slots@);
    T::from_regs(slots)
}

/// The part of an argument window that travels in registers.
pub open spec fn register_part(window: Seq<u32>) -> Seq<u32> {
    if window.len() <= ARGUMENT_REGISTERS {
        window
    } else {
        window.subrange(0, ARGUMENT_REGISTERS as int)
    }
}

/// The part of an argument window that travels on the stack.
pub open spec fn stack_part(window: Seq<u32>) -> Seq<u32> {
    if window.len() <= ARGUMENT_REGISTERS {
        Seq::<u32>::empty()
    } else {
        window.subrange(ARGUMENT_REGISTERS as int, window.len() as int)
    }
}

/// Splitting a window into registers and stack loses and reorders nothing.
pub proof fn lemma_window_split(window: Seq<u32>)
    ensures
        register_part(window) + stack_part(window) == window,
        register_part(window).len() <= ARGUMENT_REGISTERS,
{
    assert(register_part(window) + stack_part(window) =~= window);
}

/// Splits an argument window into the slots that go into registers and the
/// slots that go on the stack, in order.
pub fn split_window(window: &[u32]) -> (parts: (Vec<u32>, Vec<u32>))
    ensures
        parts.0@ == register_part(window@),
        parts.1@ == stack_part(window@),
{
    let mut registers: Vec<u32> = Vec::new();
    let mut stack: Vec<u32> = Vec::new();
    let mut i: usize = 0;
    while i < window.len()
        invariant
            0 <= i <= window@.len(),
            registers@ == register_part(window@.subrange(0, i as int)),
            stack@ == stack_part(window@.subrange(0, i as int)),
        decreases window@.len() - i,
    {
        let ghost before = window@.subrange(0, i as int);
        let ghost after = window@.subrange(0, i + 1);
        if i < ARGUMENT_REGISTERS {
            registers.push(window[i]);
            assert(registers@ =~= register_part(after));
            assert(stack@ =~= stack_part(after));
        } else {
            stack.push(window[i]);
            assert(registers@ =~= register_part(after));
            assert(stack@ =~= stack_part(after));
        }
        i = i + 1;
    }
    assert(window@.subrange(0, window@.len() as int) =~= window@);
    (registers, stack)
}

/// Whether a return value of `size` bytes is handed back through a buffer
/// supplied by the caller. The same rule holds for calls in both directions.
pub open spec fn returned_in_memory(composite: bool, size: GuestUSize) -> bool {
    composite && size > MAX_COMPOSITE_RETURN_IN_REGISTERS
}

pub fn is_returned_in_memory(composite: bool, size: GuestUSize) -> (indirect: bool)
    ensures
        indirect == returned_in_memory(composite, size),
{
    composite && size > MAX_COMPOSITE_RETURN_IN_REGISTERS
}

/// Stores a composite return value in the buffer whose address the caller
/// passed in the first argument slot.
pub fn return_in_memory<T: GuestData>(mem: &mut Mem, buffer: MutVoidPtr, value: T)
    requires
        old(mem).wf(),
        old(mem)@.in_bounds(buffer.addr() as int, T::SIZE as int),
    ensures
        final(mem).wf(),
        final(mem)@.live == old(mem)@.live,
        final(mem)@.bytes == old(mem)@.stored(buffer.addr() as int, value.guest_bytes()),
        final(mem).free_bytes() == old(mem).free_bytes(),
{
    mem.write(buffer.cast::<T>(), value);
}

} // verus!
