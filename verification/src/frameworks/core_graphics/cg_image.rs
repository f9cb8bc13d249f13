//! `CGImage.h`

use crate::abi::GuestArg;
use crate::environment::{lemma_mem_change_keeps_wf, Environment};
use crate::frameworks::core_foundation::{CFIndex, CFRelease, CFRetain, CFTypeRef};
use crate::image::Image;
use crate::mem::{
    le_bytes_u32, le_value_u32, lemma_le_round_trip_u32, reserved_size, GuestData, GuestUSize,
    MutPtr, VAddr,
};
use crate::objc::{AnyHostObject, ObjC, ObjectEntry, OBJECT_SIZE};
use crate::scheduler::ThreadID;
use vstd::prelude::*;

verus! {

pub type CGImageAlphaInfo = u32;

pub const kCGImageAlphaNone: CGImageAlphaInfo = 0;

pub const kCGImageAlphaPremultipliedLast: CGImageAlphaInfo = 1;

pub const kCGImageAlphaPremultipliedFirst: CGImageAlphaInfo = 2;

pub const kCGImageAlphaLast: CGImageAlphaInfo = 3;

pub const kCGImageAlphaFirst: CGImageAlphaInfo = 4;

pub const kCGImageAlphaNoneSkipLast: CGImageAlphaInfo = 5;

pub const kCGImageAlphaNoneSkipFirst: CGImageAlphaInfo = 6;

pub const kCGImageAlphaOnly: CGImageAlphaInfo = 7;

pub type CGImageByteOrderInfo = u32;

pub const kCGImageByteOrderMask: CGImageByteOrderInfo = 0x7000;

pub const kCGImageByteOrderDefault: CGImageByteOrderInfo = 0x0000;

pub const kCGImageByteOrder16Little: CGImageByteOrderInfo = 0x1000;

pub const kCGImageByteOrder32Little: CGImageByteOrderInfo = 0x2000;

pub const kCGImageByteOrder16Big: CGImageByteOrderInfo = 0x3000;

pub const kCGImageByteOrder32Big: CGImageByteOrderInfo = 0x4000;

pub type CGBitmapInfo = u32;

pub const kCGBitmapAlphaInfoMask: CGBitmapInfo = 0x1F;

pub const kCGBitmapByteOrderMask: CGBitmapInfo = kCGImageByteOrderMask;

/// The host's side of an image object.
pub struct CGImageHostObject {
    pub image: Image,
}

/// The colour spaces that an object can stand for.
#[derive(Clone, Copy, Debug, PartialEq, Eq, Structural)]
pub enum CGColorSpaceName {
    GenericRGB,
}

pub type CGImageRef = CFTypeRef;

pub type CGColorSpaceRef = CFTypeRef;

pub type CGDataProviderRef = CFTypeRef;

pub type CFDataRef = CFTypeRef;

/// `object` is an image object of `objc`.
pub open spec fn is_image(objc: &ObjC, object: VAddr) -> bool {
    objc@.contains_key(object) && objc@[object].host_object is CGImage
}

/// The image behind the image object `object`.
pub open spec fn image_of(objc: &ObjC, object: VAddr) -> Image {
    objc@[object].host_object->CGImage_0.image
}

/// Drops an owner of the image, unless the reference is null.
pub fn CGImageRelease(env: &mut Environment, c: CGImageRef)
    requires
        old(env).wf(),
        !c.is_null() ==> old(env).objc@.contains_key(c.addr()),
    ensures
        final(env).wf(),
        c.is_null() ==> *final(env) == *old(env),
        !c.is_null() && old(env).objc@[c.addr()].refcount == 1 ==> {
            &&& final(env).objc@ == old(env).objc@.remove(c.addr())
            &&& final(env).mem@ == old(env).mem@.free(c.addr())
        },
        !c.is_null() && old(env).objc@[c.addr()].refcount != 1 ==> {
            &&& final(env).objc@ == old(env).objc@.insert(
                c.addr(),
                (ObjectEntry {
                    refcount: (old(env).objc@[c.addr()].refcount - 1) as u32,
                    host_object: old(env).objc@[c.addr()].host_object,
                }),
            )
            &&& final(env).mem@ == old(env).mem@
        },
        final(env).threads == old(env).threads,
        final(env).current_thread == old(env).current_thread,
        final(env).libc_state == old(env).libc_state,
{
    if !c.is_null() {
        CFRelease(env, c);
    }
}

/// Adds an owner to the image, unless the reference is null, and gives the
/// reference back.
pub fn CGImageRetain(env: &mut Environment, c: CGImageRef) -> (retained: CGImageRef)
    requires
        old(env).wf(),
        !c.is_null() ==> old(env).objc@.contains_key(c.addr()) && old(env).objc@[c.addr()].refcount
            < u32::MAX,
    ensures
        final(env).wf(),
        retained == c,
        c.is_null() ==> *final(env) == *old(env),
        !c.is_null() ==> final(env).objc@ == old(env).objc@.insert(
            c.addr(),
            (ObjectEntry {
                refcount: (old(env).objc@[c.addr()].refcount + 1) as u32,
                host_object: old(env).objc@[c.addr()].host_object,
            }),
        ),
        final(env).mem == old(env).mem,
        final(env).threads == old(env).threads,
        final(env).current_thread == old(env).current_thread,
        final(env).libc_state == old(env).libc_state,
{
    if !c.is_null() {
        CFRetain(env, c)
    } else {
        c
    }
}

/// Makes an object with one owner and `host_object` behind it.
fn new_object(env: &mut Environment, host_object: AnyHostObject) -> (object: CFTypeRef)
    requires
        old(env).wf(),
        old(env).mem.can_alloc(OBJECT_SIZE),
    ensures
        final(env).wf(),
        !object.is_null(),
        !old(env).mem@.live.contains_key(object.addr()),
        !old(env).objc@.contains_key(object.addr()),
        final(env).objc@ == old(env).objc@.insert(
            object.addr(),
            (ObjectEntry { refcount: 1, host_object }),
        ),
        final(env).mem@ == old(env).mem@.allocate(object.addr(), OBJECT_SIZE).write(
            object.addr() as int,
            seq![0u8, 0u8, 0u8, 0u8],
        ),
        final(env).mem.free_bytes() == old(env).mem.free_bytes() - reserved_size(OBJECT_SIZE),
        final(env).threads == old(env).threads,
        final(env).current_thread == old(env).current_thread,
        final(env).libc_state == old(env).libc_state,
{
    proof {
        let h = old(env).handles();
        assert forall|o: VAddr| #[trigger] old(env).objc@.contains_key(o) implies old(
            env,
        ).mem@.live.contains_key(o) by {
            assert(h.objects.contains(o));
        }
    }
    let object = env.objc.alloc_object(host_object, &mut env.mem);
    proof {
        let h = old(env).handles();
        let g = env.handles();
        let addr = object.addr();
        assert(h.wf());
        assert(g.cells == h.cells);
        assert(g.services == h.services);
        assert(g.semaphores == h.semaphores);
        assert(env.sched() == old(env).sched());
        assert(g.objects =~= h.objects.insert(addr));
        assert(g.live =~= h.live.insert(addr));
        assert(!h.live.contains(addr));
        assert(env.mem@ =~= old(env).mem@.allocate(addr, OBJECT_SIZE).write(
            addr as int,
            seq![0u8, 0u8, 0u8, 0u8],
        ));
        assert forall|thread: ThreadID| #[trigger] g.cells.contains_key(thread) implies {
            &&& g.live.contains(g.cells[thread])
            &&& !g.objects.contains(g.cells[thread])
        } by {
            assert(h.cells.contains_key(thread));
        }
        assert forall|a: VAddr| #[trigger] g.semaphores.contains(a) implies g.live.contains(a)
            && !g.objects.contains(a) by {
            assert(h.semaphores.contains(a));
        }
        assert forall|a: VAddr| #[trigger] g.services.contains(a) implies g.live.contains(a)
            && !g.objects.contains(a) by {
            assert(h.services.contains(a));
        }
        assert forall|thread: ThreadID| #[trigger]
            env.libc_state.errno.cells().contains_key(thread) implies env.mem@.live.contains_key(
            env.libc_state.errno.cells()[thread],
        ) && env.mem@.live[env.libc_state.errno.cells()[thread]]
            == crate::libc::errno::CELL_SIZE by {
            assert(h.cells.contains_key(thread));
        }
    }
    object
}

/// Makes an image object with one owner that holds `image`.
pub fn from_image(env: &mut Environment, image: Image) -> (object: CGImageRef)
    requires
        old(env).wf(),
        old(env).mem.can_alloc(OBJECT_SIZE),
    ensures
        final(env).wf(),
        !object.is_null(),
        !old(env).mem@.live.contains_key(object.addr()),
        !old(env).objc@.contains_key(object.addr()),
        final(env).objc@ == old(env).objc@.insert(
            object.addr(),
            (ObjectEntry {
                refcount: 1,
                host_object: AnyHostObject::CGImage(CGImageHostObject { image }),
            }),
        ),
        is_image(&final(env).objc, object.addr()),
        image_of(&final(env).objc, object.addr()) == image,
        final(env).mem@ == old(env).mem@.allocate(object.addr(), OBJECT_SIZE).write(
            object.addr() as int,
            seq![0u8, 0u8, 0u8, 0u8],
        ),
        final(env).mem.free_bytes() == old(env).mem.free_bytes() - reserved_size(OBJECT_SIZE),
        final(env).threads == old(env).threads,
        final(env).current_thread == old(env).current_thread,
        final(env).libc_state == old(env).libc_state,
{
    let host_obj = CGImageHostObject { image };
    new_object(env, AnyHostObject::CGImage(host_obj))
}

/// The image behind an image object.
pub fn borrow_image(objc: &ObjC, image: CGImageRef) -> (borrowed: &Image)
    requires
        is_image(objc, image.addr()),
    ensures
        *borrowed == image_of(objc, image.addr()),
{
    match objc.borrow(image) {
        AnyHostObject::CGImage(host_object) => &host_object.image,
        _ => vstd::pervasive::unreached(),
    }
}

/// Images are always held as red, green, blue and alpha, not premultiplied.
pub fn CGImageGetAlphaInfo(_env: &Environment, _image: CGImageRef) -> (info: CGImageAlphaInfo)
    ensures
        info == kCGImageAlphaLast,
{
    kCGImageAlphaLast
}

/// A new colour space object for the generic colour space, which every
/// image is taken to be in. The caller owns it.
pub fn CGImageGetColorSpace(env: &mut Environment, _image: CGImageRef) -> (space: CGColorSpaceRef)
    requires
        old(env).wf(),
        old(env).mem.can_alloc(OBJECT_SIZE),
    ensures
        final(env).wf(),
        !space.is_null(),
        !old(env).mem@.live.contains_key(space.addr()),
        !old(env).objc@.contains_key(space.addr()),
        final(env).objc@ == old(env).objc@.insert(
            space.addr(),
            (ObjectEntry {
                refcount: 1,
                host_object: AnyHostObject::CGColorSpace(CGColorSpaceName::GenericRGB),
            }),
        ),
        final(env).mem@ == old(env).mem@.allocate(space.addr(), OBJECT_SIZE).write(
            space.addr() as int,
            seq![0u8, 0u8, 0u8, 0u8],
        ),
        final(env).mem.free_bytes() == old(env).mem.free_bytes() - reserved_size(OBJECT_SIZE),
        final(env).threads == old(env).threads,
        final(env).current_thread == old(env).current_thread,
        final(env).libc_state == old(env).libc_state,
{
    new_object(env, AnyHostObject::CGColorSpace(CGColorSpaceName::GenericRGB))
}

pub fn CGImageGetWidth(env: &Environment, image: CGImageRef) -> (width: GuestUSize)
    requires
        is_image(&env.objc, image.addr()),
    ensures
        width == image_of(&env.objc, image.addr()).width(),
{
    let (width, _height) = borrow_image(&env.objc, image).dimensions();
    width
}

pub fn CGImageGetHeight(env: &Environment, image: CGImageRef) -> (height: GuestUSize)
    requires
        is_image(&env.objc, image.addr()),
    ensures
        height == image_of(&env.objc, image.addr()).height(),
{
    let (_width, height) = borrow_image(&env.objc, image).dimensions();
    height
}

/// An image is its own data provider.
pub fn CGImageGetDataProvider(_env: &Environment, image: CGImageRef) -> (provider:
    CGDataProviderRef)
    ensures
        provider == image,
{
    image
}

/// A data provider is its own data.
pub fn CGDataProviderCopyData(_env: &Environment, provider: CGDataProviderRef) -> (data: CFDataRef)
    ensures
        data == provider,
{
    provider
}

/// Number of bytes of pixel data of the image that `data` is.
pub fn CFDataGetLength(env: &Environment, data: CFDataRef) -> (length: CFIndex)
    requires
        is_image(&env.objc, data.addr()),
        image_of(&env.objc, data.addr()).data().len() <= CFIndex::MAX,
    ensures
        length == image_of(&env.objc, data.addr()).data().len(),
{
    borrow_image(&env.objc, data).len() as i32
}

/// A range of indices.
#[derive(Clone, Copy, Debug, PartialEq, Eq, Structural)]
pub struct CFRange {
    pub location: CFIndex,
    pub length: CFIndex,
}

impl GuestArg for CFRange {
    const REG_COUNT: usize = 2;

    open spec fn slots(self) -> Seq<u32> {
        seq![self.location as u32, self.length as u32]
    }

    open spec fn from_slots(regs: Seq<u32>) -> Self {
        CFRange { location: regs[0] as i32, length: regs[1] as i32 }
    }

    fn from_regs(regs: &[u32]) -> (value: Self) {
        proof {
            CFIndex::lemma_round_trip(0);
        }
        CFRange {
            location: GuestArg::from_regs(&regs[0..1]),
            length: GuestArg::from_regs(&regs[1..2]),
        }
    }

    fn to_regs(self, regs: &mut [u32]) {
        proof {
            CFIndex::lemma_round_trip(0);
        }
        let (location, length) = regs.split_at_mut(1);
        self.location.to_regs(location);
        self.length.to_regs(length);
        assert(regs@ =~= self.slots() + old(regs)@.subrange(2, old(regs)@.len() as int));
    }

    proof fn lemma_round_trip(value: Self) {
        let (a, b) = (value.location, value.length);
        assert(((a as u32) as i32) == a) by (bit_vector);
        assert(((b as u32) as i32) == b) by (bit_vector);
    }
}

impl GuestData for CFRange {
    const SIZE: GuestUSize = 8;

    open spec fn guest_bytes(self) -> Seq<u8> {
        le_bytes_u32(self.location as u32) + le_bytes_u32(self.length as u32)
    }

    open spec fn from_guest_bytes(bytes: Seq<u8>) -> Self {
        CFRange {
            location: le_value_u32(bytes.subrange(0, 4)) as i32,
            length: le_value_u32(bytes.subrange(4, 8)) as i32,
        }
    }

    fn store(&self) -> (bytes: Vec<u8>) {
        let mut bytes = self.location.store();
        let mut length = self.length.store();
        bytes.append(&mut length);
        assert(bytes@ =~= self.guest_bytes());
        bytes
    }

    fn load(bytes: &[u8]) -> (value: Self) {
        proof {
            i32::lemma_layout(0i32);
        }
        CFRange { location: i32::load(&bytes[0..4]), length: i32::load(&bytes[4..8]) }
    }

    proof fn lemma_layout(value: Self) {
        let bytes = value.guest_bytes();
        assert(bytes.subrange(0, 4) =~= le_bytes_u32(value.location as u32));
        assert(bytes.subrange(4, 8) =~= le_bytes_u32(value.length as u32));
        lemma_le_round_trip_u32(value.location as u32);
        lemma_le_round_trip_u32(value.length as u32);
        let (a, b) = (value.location, value.length);
        assert(((a as u32) as i32) == a) by (bit_vector);
        assert(((b as u32) as i32) == b) by (bit_vector);
    }
}

/// Copies all pixel data of the image that `data` is to `buffer`. The range
/// is not looked at.
pub fn CFDataGetBytes(env: &mut Environment, data: CFDataRef, _range: CFRange, buffer: MutPtr<u8>)
    requires
        old(env).wf(),
        is_image(&old(env).objc, data.addr()),
        old(env).mem@.in_bounds(
            buffer.addr() as int,
            image_of(&old(env).objc, data.addr()).data().len() as int,
        ),
    ensures
        final(env).wf(),
        final(env).mem@ == old(env).mem@.write(
            buffer.addr() as int,
            image_of(&old(env).objc, data.addr()).data(),
        ),
        final(env).same_but_mem(old(env)),
{
    let src_pixels = borrow_image(&env.objc, data).pixels();
    env.mem.write_bytes(buffer, src_pixels);
    proof {
        lemma_mem_change_keeps_wf(old(env), env);
        assert(env.mem@ =~= old(env).mem@.write(
            buffer.addr() as int,
            image_of(&old(env).objc, data.addr()).data(),
        ));
    }
}

} // verus!
