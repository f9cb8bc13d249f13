use guest_bridge::frameworks::core_foundation::time::{
    CFAbsoluteTimeGetGregorianDate, CFGregorianDate, CFTimeZoneCopySystem,
};
use guest_bridge::frameworks::core_foundation::{CFRelease, CFRetain};
use guest_bridge::frameworks::core_graphics::cg_image::{
    borrow_image, from_image, kCGImageAlphaLast, CFDataGetBytes, CFDataGetLength, CFRange,
    CGDataProviderCopyData, CGImageGetAlphaInfo, CGImageGetColorSpace, CGImageGetDataProvider,
    CGImageGetHeight, CGImageGetWidth, CGImageRelease, CGImageRetain,
};
use guest_bridge::image::{Image, ImageError};
use guest_bridge::libc::time::tm;
use guest_bridge::mem::{MutPtr, Ptr};
use guest_bridge::objc::AnyHostObject;
use guest_bridge::Environment;

fn image() -> Image {
    Image::from_pixels(2, 3, (1..=24).collect()).unwrap()
}

#[test]
fn image_takes_only_data_of_the_right_length() {
    assert!(Image::from_pixels(2, 3, vec![0; 24]).is_ok());
    assert!(Image::from_pixels(0, 7, vec![]).is_ok());
    assert_eq!(Image::from_pixels(2, 3, vec![0; 23]).err(), Some(ImageError::WrongLength));
    assert_eq!(Image::from_pixels(2, 3, vec![0; 25]).err(), Some(ImageError::WrongLength));
    let image = image();
    assert_eq!(image.dimensions(), (2, 3));
    assert_eq!(image.len(), 24);
    assert_eq!(image.pixels()[23], 24);
}

#[test]
fn image_object_is_made_with_one_owner() {
    let mut env = Environment::new(0x10000);
    let object = from_image(&mut env, image());
    assert!(!object.is_null());
    assert_eq!(env.objc.refcount(object), Some(1));
    assert_eq!(env.mem.allocation_size(object), Some(4));
    assert!(env.owns(object.to_bits()));
    assert_eq!(borrow_image(&env.objc, object).dimensions(), (2, 3));
    assert_eq!(CGImageGetWidth(&env, object), 2);
    assert_eq!(CGImageGetHeight(&env, object), 3);
    assert_eq!(CGImageGetAlphaInfo(&env, object), kCGImageAlphaLast);
    assert_eq!(CGImageGetAlphaInfo(&env, object), 3);
}

#[test]
fn retain_and_release_count_owners() {
    let mut env = Environment::new(0x10000);
    let object = from_image(&mut env, image());
    assert_eq!(CGImageRetain(&mut env, object).to_bits(), object.to_bits());
    assert_eq!(env.objc.refcount(object), Some(2));
    CGImageRelease(&mut env, object);
    assert_eq!(env.objc.refcount(object), Some(1));
    assert!(env.objc.is_object(object));
    CGImageRelease(&mut env, object);
    assert_eq!(env.objc.refcount(object), None);
    assert!(!env.objc.is_object(object));
    assert_eq!(env.mem.allocation_size(object), None);
    assert!(!env.owns(object.to_bits()));
}

#[test]
fn null_references_are_left_alone() {
    let mut env = Environment::new(0x10000);
    let free = env.mem.available();
    assert!(CGImageRetain(&mut env, Ptr::null()).is_null());
    CGImageRelease(&mut env, Ptr::null());
    assert_eq!(env.mem.available(), free);
}

#[test]
fn core_foundation_retain_and_release() {
    let mut env = Environment::new(0x10000);
    let object = from_image(&mut env, image());
    assert_eq!(CFRetain(&mut env, object).to_bits(), object.to_bits());
    assert_eq!(env.objc.refcount(object), Some(2));
    CFRelease(&mut env, object);
    CFRelease(&mut env, object);
    assert!(!env.objc.is_object(object));
}

#[test]
fn an_image_is_its_own_provider_and_data() {
    let mut env = Environment::new(0x10000);
    let object = from_image(&mut env, image());
    let provider = CGImageGetDataProvider(&env, object);
    assert_eq!(provider.to_bits(), object.to_bits());
    let data = CGDataProviderCopyData(&env, provider);
    assert_eq!(data.to_bits(), object.to_bits());
    assert_eq!(CFDataGetLength(&env, data), 24);
    let buffer: MutPtr<u8> = env.mem.allocate(32).cast();
    env.mem.write_bytes(buffer, &[0xee; 32]);
    CFDataGetBytes(&mut env, data, CFRange { location: 4, length: 2 }, buffer);
    let expected: Vec<u8> = (1..=24).collect();
    assert_eq!(env.mem.bytes_at(buffer, 24), &expected[..]);
    assert_eq!(env.mem.bytes_at(buffer.offset(24), 8), &[0xee; 8]);
}

#[test]
fn colour_space_is_a_new_object_owned_by_the_caller() {
    let mut env = Environment::new(0x10000);
    let object = from_image(&mut env, image());
    let space = CGImageGetColorSpace(&mut env, object);
    let other = CGImageGetColorSpace(&mut env, object);
    assert!(space.to_bits() != other.to_bits() && space.to_bits() != object.to_bits());
    assert_eq!(env.objc.refcount(space), Some(1));
    assert!(matches!(env.objc.borrow(space), AnyHostObject::CGColorSpace(_)));
    CFRelease(&mut env, space);
    assert!(!env.objc.is_object(space));
    assert!(env.objc.is_object(other));
}

#[test]
fn gregorian_date_from_a_calendar_time() {
    let env = Environment::new(0x10000);
    let zone = CFTimeZoneCopySystem(&env);
    assert!(zone.is_null());
    let now = tm { tm_sec: 15, tm_min: 30, tm_hour: 10, tm_mday: 1, tm_mon: 5, tm_year: 124 };
    let date = CFAbsoluteTimeGetGregorianDate(&env, 0, zone, &now, 15.0f64.to_bits());
    assert_eq!(
        date,
        CFGregorianDate {
            year: 2024,
            month: 5,
            day: 1,
            hours: 10,
            minutes: 30,
            seconds: 15.0f64.to_bits(),
        }
    );
    let odd = tm { tm_sec: 0, tm_min: 256 + 7, tm_hour: -1, tm_mday: 128, tm_mon: 0, tm_year: -1900 };
    let date = CFAbsoluteTimeGetGregorianDate(&env, 0, zone, &odd, 0);
    assert_eq!((date.year, date.month, date.day, date.hours, date.minutes), (0, 0, -128, -1, 7));
}
