use guest_bridge::mem::{ConstPtr, Mem, MutPtr, MutVoidPtr, Ptr, NULL_PAGE_SIZE};

#[test]
fn pointers_compare_by_offset() {
    let a: MutPtr<u8> = Ptr::from_bits(0x2000);
    let b: MutPtr<u8> = Ptr::from_bits(0x2000);
    let c: MutPtr<u8> = Ptr::from_bits(0x2001);
    assert!(a.same(b));
    assert!(!a.same(c));
    assert!(MutVoidPtr::null().is_null());
    assert!(!a.is_null());
    assert_eq!(a.cast::<i32>().to_bits(), 0x2000);
    assert_eq!(a.cast_const().cast_mut().to_bits(), 0x2000);
    assert_eq!(a.offset(3).to_bits(), 0x2003);
}

#[test]
fn new_memory_is_zeroed_and_empty() {
    let mem = Mem::new(0x2000);
    assert_eq!(mem.size(), 0x2000);
    assert_eq!(mem.available(), 0x2000 - NULL_PAGE_SIZE);
    assert!(mem.bytes_at(ConstPtr::<u8>::from_bits(0x1000), 0x1000).iter().all(|b| *b == 0));
}

#[test]
fn null_page_is_not_a_valid_range() {
    let mem = Mem::new(0x2000);
    assert!(!mem.is_valid_range(0, 1));
    assert!(!mem.is_valid_range(NULL_PAGE_SIZE - 1, 1));
    assert!(mem.is_valid_range(NULL_PAGE_SIZE, 1));
    assert!(mem.is_valid_range(0x1ff0, 16));
    assert!(!mem.is_valid_range(0x1ff0, 17));
    assert!(!mem.is_valid_range(u32::MAX, 2));
}

#[test]
fn allocations_are_fresh_disjoint_and_accounted_for() {
    let mut mem = Mem::new(0x10000);
    let a = mem.allocate(1);
    let b = mem.allocate(17);
    let c = mem.allocate(0);
    assert_eq!(a.to_bits(), 0x1000);
    assert_eq!(b.to_bits(), 0x1010);
    assert_eq!(c.to_bits(), 0x1030);
    assert_eq!(mem.allocation_size(a), Some(1));
    assert_eq!(mem.allocation_size(b), Some(17));
    assert_eq!(mem.allocation_size(c), Some(0));
    assert_eq!(mem.available(), 0x10000 - 0x1040);
    mem.free(b);
    assert_eq!(mem.allocation_size(b), None);
    assert_eq!(mem.allocation_size(a), Some(1));
    let d = mem.allocate(4);
    assert_eq!(mem.allocation_size(d), Some(4));
    assert!(d.to_bits() != a.to_bits() && d.to_bits() != c.to_bits());
}

#[test]
fn has_room_tells_whether_a_request_can_be_met() {
    let mut mem = Mem::new(0x1020);
    assert!(mem.has_room(32));
    assert!(!mem.has_room(33));
    mem.allocate(16);
    assert!(mem.has_room(16));
    assert!(!mem.has_room(17));
    mem.allocate(1);
    assert!(!mem.has_room(0));
}

#[test]
fn values_are_stored_little_endian() {
    let mut mem = Mem::new(0x10000);
    let p: MutPtr<i32> = mem.alloc_and_write(0x1122_3344);
    assert_eq!(mem.bytes_at(p.cast::<u8>(), 4), &[0x44, 0x33, 0x22, 0x11]);
    assert_eq!(mem.read(p), 0x1122_3344);
    mem.write(p, -2);
    assert_eq!(mem.bytes_at(p.cast::<u8>(), 4), &[0xfe, 0xff, 0xff, 0xff]);
    assert_eq!(mem.read(p), -2);
    let q: MutPtr<u16> = mem.alloc_and_write(0xbeefu16);
    assert_eq!(mem.bytes_at(q.cast::<u8>(), 2), &[0xef, 0xbe]);
    let r: MutPtr<u64> = mem.alloc_and_write(0x0102_0304_0506_0708u64);
    assert_eq!(mem.bytes_at(r.cast::<u8>(), 8), &[8, 7, 6, 5, 4, 3, 2, 1]);
    assert_eq!(mem.read(r), 0x0102_0304_0506_0708);
    let s: MutPtr<MutPtr<u8>> = mem.alloc_and_write(MutPtr::<u8>::from_bits(0x1234));
    assert_eq!(mem.read(s).to_bits(), 0x1234);
    let t: MutPtr<i8> = mem.alloc_and_write(-3i8);
    assert_eq!(mem.bytes_at(t.cast::<u8>(), 1), &[0xfd]);
    assert_eq!(mem.read(t), -3);
}

#[test]
fn writes_leave_other_bytes_alone() {
    let mut mem = Mem::new(0x10000);
    let p: MutPtr<u8> = mem.allocate(8).cast();
    mem.write_bytes(p, &[1, 2, 3, 4, 5, 6, 7, 8]);
    mem.write_bytes(p.offset(2), &[9, 9]);
    assert_eq!(mem.bytes_at(p, 8), &[1, 2, 9, 9, 5, 6, 7, 8]);
}

#[test]
fn strings_are_stored_with_a_terminator_and_read_up_to_it() {
    let mut mem = Mem::new(0x10000);
    let p = mem.alloc_and_write_cstr(b"en0");
    assert_eq!(mem.allocation_size(p), Some(4));
    assert_eq!(mem.bytes_at(p, 4), b"en0\0");
    assert_eq!(mem.cstr_len(p), Some(3));
    assert_eq!(mem.cstr_at(p), b"en0");
    assert_eq!(mem.cstr_at(p.offset(1)), b"n0");
    let empty = mem.alloc_and_write_cstr(b"");
    assert_eq!(mem.cstr_at(empty), b"");
}

#[test]
fn a_string_without_terminator_is_reported() {
    let mut mem = Mem::new(0x1010);
    let p: MutPtr<u8> = mem.allocate(16).cast();
    mem.write_bytes(p, &[b'x'; 16]);
    assert_eq!(mem.cstr_len(p), None);
    assert_eq!(mem.cstr_len(MutPtr::<u8>::null()), None);
    assert_eq!(mem.cstr_len(MutPtr::<u8>::from_bits(0x2000)), None);
}
