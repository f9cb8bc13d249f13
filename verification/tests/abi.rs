use guest_bridge::abi::{
    is_returned_in_memory, read_next_arg, return_in_memory, split_window, write_next_arg, GuestArg,
    GuestFunction,
};
use guest_bridge::frameworks::core_foundation::time::CFGregorianDate;
use guest_bridge::frameworks::core_graphics::cg_image::CFRange;
use guest_bridge::mem::{ConstPtr, GuestData, Mem, MutPtr, MutVoidPtr};

fn slots_i8(v: i8) -> [u32; 1] {
    let mut regs = [0xdead_beefu32; 1];
    v.to_regs(&mut regs);
    regs
}

#[test]
fn narrow_signed_scalars_are_sign_extended_into_one_slot() {
    assert_eq!(slots_i8(-1), [0xffff_ffff]);
    assert_eq!(slots_i8(i8::MIN), [0xffff_ff80]);
    assert_eq!(slots_i8(i8::MAX), [0x7f]);
    let mut regs = [0u32; 1];
    (-2i16).to_regs(&mut regs);
    assert_eq!(regs, [0xffff_fffe]);
    i32::MIN.to_regs(&mut regs);
    assert_eq!(regs, [0x8000_0000]);
}

#[test]
fn narrow_unsigned_scalars_are_zero_extended_into_one_slot() {
    let mut regs = [0xdead_beefu32; 1];
    0xffu8.to_regs(&mut regs);
    assert_eq!(regs, [0xff]);
    0xffffu16.to_regs(&mut regs);
    assert_eq!(regs, [0xffff]);
    true.to_regs(&mut regs);
    assert_eq!(regs, [1]);
    false.to_regs(&mut regs);
    assert_eq!(regs, [0]);
}

#[test]
fn wide_scalars_take_two_slots_low_half_first() {
    let mut regs = [0u32; 2];
    0x1122_3344_5566_7788u64.to_regs(&mut regs);
    assert_eq!(regs, [0x5566_7788, 0x1122_3344]);
    (-2i64).to_regs(&mut regs);
    assert_eq!(regs, [0xffff_fffe, 0xffff_ffff]);
    assert_eq!(u64::from_regs(&[1, 2]), 0x0000_0002_0000_0001);
}

#[test]
fn scalars_round_trip_at_their_boundaries() {
    for v in [i8::MIN, -1, 0, 1, i8::MAX] {
        let mut regs = [0u32; 1];
        v.to_regs(&mut regs);
        assert_eq!(i8::from_regs(&regs), v);
    }
    for v in [i16::MIN, -1, 0, 1, i16::MAX] {
        let mut regs = [0u32; 1];
        v.to_regs(&mut regs);
        assert_eq!(i16::from_regs(&regs), v);
    }
    for v in [i32::MIN, -1, 0, 1, i32::MAX] {
        let mut regs = [0u32; 1];
        v.to_regs(&mut regs);
        assert_eq!(i32::from_regs(&regs), v);
    }
    for v in [0u8, 1, u8::MAX] {
        let mut regs = [0u32; 1];
        v.to_regs(&mut regs);
        assert_eq!(u8::from_regs(&regs), v);
    }
    for v in [0u16, 1, u16::MAX] {
        let mut regs = [0u32; 1];
        v.to_regs(&mut regs);
        assert_eq!(u16::from_regs(&regs), v);
    }
    for v in [0u32, 1, u32::MAX] {
        let mut regs = [0u32; 1];
        v.to_regs(&mut regs);
        assert_eq!(u32::from_regs(&regs), v);
    }
    for v in [0u64, 1, u32::MAX as u64, u32::MAX as u64 + 1, u64::MAX] {
        let mut regs = [0u32; 2];
        v.to_regs(&mut regs);
        assert_eq!(u64::from_regs(&regs), v);
    }
    for v in [i64::MIN, -1, 0, 1, i64::MAX] {
        let mut regs = [0u32; 2];
        v.to_regs(&mut regs);
        assert_eq!(i64::from_regs(&regs), v);
    }
    for v in [false, true] {
        let mut regs = [0u32; 1];
        v.to_regs(&mut regs);
        assert_eq!(bool::from_regs(&regs), v);
    }
}

#[test]
fn floating_point_values_round_trip_through_their_bits() {
    for v in [0.0f64, -0.0, 1.0, 15.5, f64::MIN, f64::MAX, f64::EPSILON, f64::INFINITY] {
        let mut regs = [0u32; 2];
        v.to_bits().to_regs(&mut regs);
        assert_eq!(f64::from_bits(u64::from_regs(&regs)).to_bits(), v.to_bits());
    }
    for v in [0.0f32, 1.5, f32::MIN, f32::MAX] {
        let mut regs = [0u32; 1];
        v.to_bits().to_regs(&mut regs);
        assert_eq!(f32::from_bits(u32::from_regs(&regs)), v);
    }
}

#[test]
fn pointers_and_functions_take_one_slot() {
    let p: MutPtr<u8> = MutPtr::from_bits(0x1234_5678);
    let mut regs = [0u32; 1];
    p.to_regs(&mut regs);
    assert_eq!(regs, [0x1234_5678]);
    assert_eq!(ConstPtr::<u8>::from_regs(&regs).to_bits(), 0x1234_5678);
    let f = GuestFunction::from_addr_with_thumb_bit(0x4001);
    f.to_regs(&mut regs);
    assert_eq!(regs, [0x4001]);
    assert_eq!(GuestFunction::from_regs(&regs), f);
    assert!(f.is_thumb());
    assert!(!GuestFunction::from_addr_with_thumb_bit(0x4000).is_thumb());
    assert_eq!(<MutPtr<u8> as GuestArg>::REG_COUNT, 1);
    assert_eq!(<u64 as GuestArg>::REG_COUNT, 2);
}

#[test]
fn gregorian_date_fills_seven_slots_and_round_trips() {
    let date = CFGregorianDate {
        year: 2024,
        month: 6,
        day: 1,
        hours: 10,
        minutes: 30,
        seconds: 15.5f64.to_bits(),
    };
    assert_eq!(<CFGregorianDate as GuestArg>::REG_COUNT, 7);
    let mut regs = [0xdead_beefu32; 7];
    date.to_regs(&mut regs);
    assert_eq!(regs, [2024, 6, 1, 10, 30, 0x0000_0000, 0x402f_0000]);
    let back = CFGregorianDate::from_regs(&regs);
    assert_eq!(back, date);
    assert_eq!(f64::from_bits(back.seconds), 15.5);
}

#[test]
fn gregorian_date_round_trips_with_negative_fields() {
    let date = CFGregorianDate {
        year: i32::MIN,
        month: -1,
        day: i8::MIN,
        hours: i8::MAX,
        minutes: 0,
        seconds: (-0.25f64).to_bits(),
    };
    let mut regs = [0u32; 7];
    date.to_regs(&mut regs);
    assert_eq!(regs[1], 0xffff_ffff);
    assert_eq!(regs[2], 0xffff_ff80);
    assert_eq!(CFGregorianDate::from_regs(&regs), date);
}

#[test]
fn range_fills_two_slots_and_round_trips() {
    let range = CFRange { location: -7, length: 12 };
    let mut regs = [0u32; 2];
    range.to_regs(&mut regs);
    assert_eq!(regs, [0xffff_fff9, 12]);
    assert_eq!(CFRange::from_regs(&regs), range);
    assert_eq!(<CFRange as GuestArg>::REG_COUNT, 2);
}

#[test]
fn argument_window_is_built_and_read_in_order() {
    let mut window: Vec<u32> = Vec::new();
    write_next_arg(&mut window, 7u8);
    write_next_arg(&mut window, -1i32);
    write_next_arg(&mut window, 0x1_0000_0002u64);
    write_next_arg(&mut window, CFRange { location: 3, length: 4 });
    write_next_arg(&mut window, MutVoidPtr::from_bits(0x2000));
    assert_eq!(window, vec![7, 0xffff_ffff, 2, 1, 3, 4, 0x2000]);

    let mut offset = 0usize;
    let a: u8 = read_next_arg(&window, &mut offset);
    let b: i32 = read_next_arg(&window, &mut offset);
    let c: u64 = read_next_arg(&window, &mut offset);
    let d: CFRange = read_next_arg(&window, &mut offset);
    let e: MutVoidPtr = read_next_arg(&window, &mut offset);
    assert_eq!((a, b, c, d, e.to_bits()), (7, -1, 0x1_0000_0002, CFRange { location: 3, length: 4 }, 0x2000));
    assert_eq!(offset, 7);
}

#[test]
fn first_four_slots_go_to_registers_and_the_rest_to_the_stack() {
    let (registers, stack) = split_window(&[1, 2, 3, 4, 5, 6]);
    assert_eq!(registers, vec![1, 2, 3, 4]);
    assert_eq!(stack, vec![5, 6]);
    let (registers, stack) = split_window(&[1, 2]);
    assert_eq!(registers, vec![1, 2]);
    assert!(stack.is_empty());
    let (registers, stack) = split_window(&[]);
    assert!(registers.is_empty() && stack.is_empty());
}

#[test]
fn composites_over_four_bytes_are_returned_in_memory() {
    assert!(is_returned_in_memory(true, 16));
    assert!(is_returned_in_memory(true, 8));
    assert!(is_returned_in_memory(true, 5));
    assert!(!is_returned_in_memory(true, 4));
    assert!(!is_returned_in_memory(false, 8));
}

#[test]
fn composite_return_value_is_laid_out_packed_and_little_endian() {
    let mut mem = Mem::new(0x10000);
    let buffer = mem.allocate(16);
    let date = CFGregorianDate {
        year: 2024,
        month: 6,
        day: 1,
        hours: 10,
        minutes: 30,
        seconds: 15.5f64.to_bits(),
    };
    return_in_memory(&mut mem, buffer, date);
    assert_eq!(
        mem.bytes_at(buffer.cast::<u8>(), 16),
        &[0xe8, 0x07, 0, 0, 6, 1, 10, 30, 0, 0, 0, 0, 0, 0, 0x2f, 0x40]
    );
    let back: CFGregorianDate = mem.read(buffer.cast::<CFGregorianDate>());
    assert_eq!(back, date);
    assert_eq!(<CFGregorianDate as GuestData>::SIZE, 16);
    assert_eq!(<CFRange as GuestData>::SIZE, 8);
}

#[test]
fn four_bytes_and_a_wide_field_fill_six_slots() {
    // Each one-byte field takes a whole slot, the eight-byte field takes two.
    let mut window: Vec<u32> = Vec::new();
    write_next_arg(&mut window, 1i8);
    write_next_arg(&mut window, -2i8);
    write_next_arg(&mut window, 3i8);
    write_next_arg(&mut window, -4i8);
    write_next_arg(&mut window, 2.5f64.to_bits());
    assert_eq!(window.len(), 6);
    assert_eq!(window, vec![1, 0xffff_fffe, 3, 0xffff_fffc, 0, 0x4004_0000]);
    assert_eq!(
        <i8 as GuestArg>::REG_COUNT * 4 + <u64 as GuestArg>::REG_COUNT,
        6
    );
}

#[test]
fn packing_leaves_the_slots_behind_the_value_alone() {
    let date = CFGregorianDate {
        year: 2024,
        month: -1,
        day: 1,
        hours: 10,
        minutes: 30,
        seconds: 15.5f64.to_bits(),
    };
    let mut regs = [0xdead_beefu32; 9];
    date.to_regs(&mut regs);
    assert_eq!(
        regs,
        [2024, 0xffff_ffff, 1, 10, 30, 0, 0x402f_0000, 0xdead_beef, 0xdead_beef]
    );
    assert_eq!(CFGregorianDate::from_regs(&regs), date);

    let mut regs = [7u32; 4];
    CFRange { location: 1, length: 2 }.to_regs(&mut regs);
    assert_eq!(regs, [1, 2, 7, 7]);
    assert_eq!(CFRange::from_regs(&regs), CFRange { location: 1, length: 2 });
    (-1i8).to_regs(&mut regs);
    assert_eq!(regs, [0xffff_ffff, 2, 7, 7]);
    assert_eq!(i8::from_regs(&regs), -1);
    0x1_0000_0002u64.to_regs(&mut regs);
    assert_eq!(regs, [2, 1, 7, 7]);
    assert_eq!(u64::from_regs(&regs), 0x1_0000_0002);
    assert_eq!(u32::from_regs(&regs), 2);
}
