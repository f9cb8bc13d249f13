//! Reference-counted objects that the guest holds by pointer.
//!
//! An object is a guest allocation whose address is its identity; what the
//! host knows of it is kept beside it, in a table.

use crate::frameworks::core_graphics::cg_image::{CGColorSpaceName, CGImageHostObject};
use crate::mem::{reserved_size, GuestData, GuestUSize, Mem, MemView, MutVoidPtr, VAddr};
use std::collections::HashMap;
use vstd::prelude::*;

verus! {

/// A pointer to an object, or null.
pub type id = MutVoidPtr;

/// Bytes of guest memory that an object occupies.
pub const OBJECT_SIZE: GuestUSize = 4;

/// What the host keeps for an object, by the kind of object.
pub enum AnyHostObject {
    /// An object with nothing on the host's side.
    Trivial,
    CGImage(CGImageHostObject),
    CGColorSpace(CGColorSpaceName),
}

/// What the table keeps for an object.
pub struct ObjectEntry {
    /// Number of owners; the object is freed when the last one lets go.
    pub refcount: u32,
    pub host_object: AnyHostObject,
}

/// The objects that are alive, by address.
pub struct ObjC {
    objects: HashMap<VAddr, ObjectEntry>,
}

impl View for ObjC {
    type V = Map<VAddr, ObjectEntry>;

    closed spec fn view(&self) -> Map<VAddr, ObjectEntry> {
        self.objects@
    }
}

impl ObjC {
    /// Every object has at least one owner.
    pub open spec fn wf(&self) -> bool {
        forall|object: VAddr| #[trigger] self@.contains_key(object) ==> self@[object].refcount >= 1
    }

    /// Every object is a live allocation of `mem`.
    pub open spec fn backed_by(&self, mem: MemView) -> bool {
        forall|object: VAddr| #[trigger] self@.contains_key(object) ==> mem.live.contains_key(object)
    }

    pub fn new() -> (objc: Self)
        ensures
            objc.wf(),
            objc@ == Map::<VAddr, ObjectEntry>::empty(),
    {
        ObjC { objects: HashMap::new() }
    }

    /// Whether `object` is alive.
    pub fn is_object(&self, object: id) -> (alive: bool)
        ensures
            alive == self@.contains_key(object.addr()),
    {
        broadcast use vstd::std_specs::hash::group_hash_axioms;

        self.objects.contains_key(&object.to_bits())
    }

    /// Number of owners of `object`, or `None` when it is not alive.
    pub fn refcount(&self, object: id) -> (count: Option<u32>)
        ensures
            count == if self@.contains_key(object.addr()) {
                Some(self@[object.addr()].refcount)
            } else {
                None
            },
    {
        broadcast use vstd::std_specs::hash::group_hash_axioms;

        match self.objects.get(&object.to_bits()) {
            Some(entry) => Some(entry.refcount),
            None => None,
        }
    }

    /// Makes an object with one owner and the given host side. Its guest
    /// memory is a fresh allocation, zeroed.
    pub fn alloc_object(&mut self, host_object: AnyHostObject, mem: &mut Mem) -> (object: id)
        requires
            old(self).wf(),
            old(mem).wf(),
            old(self).backed_by(old(mem)@),
            old(mem).can_alloc(OBJECT_SIZE),
        ensures
            final(self).wf(),
            final(mem).wf(),
            final(self).backed_by(final(mem)@),
            !object.is_null(),
            !old(mem)@.live.contains_key(object.addr()),
            !old(self)@.contains_key(object.addr()),
            final(self)@ == old(self)@.insert(
                object.addr(),
                (ObjectEntry { refcount: 1, host_object }),
            ),
            final(mem)@.live == old(mem)@.live.insert(object.addr(), OBJECT_SIZE),
            final(mem)@.bytes == old(mem)@.stored(object.addr() as int, seq![0u8, 0u8, 0u8, 0u8]),
            final(mem).free_bytes() == old(mem).free_bytes() - reserved_size(OBJECT_SIZE),
    {
        broadcast use vstd::std_specs::hash::group_hash_axioms;

        proof {
            u32::lemma_layout(0u32);
        }
        let cell = mem.alloc_and_write(0u32);
        proof {
            mem.lemma_wf();
            assert(0u32.guest_bytes() =~= seq![0u8, 0u8, 0u8, 0u8]) by {
                assert(0u32 as u8 == 0 && (0u32 >> 8) as u8 == 0 && (0u32 >> 16) as u8 == 0 && (0u32
                    >> 24) as u8 == 0) by (bit_vector);
            }
        }
        self.objects.insert(cell.to_bits(), ObjectEntry { refcount: 1, host_object });
        cell.cast()
    }

    /// Adds an owner.
    pub fn retain(&mut self, object: id)
        requires
            old(self).wf(),
            old(self)@.contains_key(object.addr()),
            old(self)@[object.addr()].refcount < u32::MAX,
        ensures
            final(self).wf(),
            final(self)@ == old(self)@.insert(
                object.addr(),
                (ObjectEntry {
                    refcount: (old(self)@[object.addr()].refcount + 1) as u32,
                    host_object: old(self)@[object.addr()].host_object,
                }),
            ),
    {
        broadcast use vstd::std_specs::hash::group_hash_axioms;

        let key: VAddr = object.to_bits();
        let mut entry = self.objects.remove(&key).unwrap();
        entry.refcount = entry.refcount + 1;
        self.objects.insert(key, entry);
    }

    /// Drops an owner. With the last owner gone, the object is removed and
    /// its guest memory freed; the result says whether that happened.
    pub fn release(&mut self, object: id, mem: &mut Mem) -> (freed: bool)
        requires
            old(self).wf(),
            old(mem).wf(),
            old(self).backed_by(old(mem)@),
            old(self)@.contains_key(object.addr()),
        ensures
            final(self).wf(),
            final(mem).wf(),
            final(self).backed_by(final(mem)@),
            freed == (old(self)@[object.addr()].refcount == 1),
            final(mem)@.bytes == old(mem)@.bytes,
            final(mem).free_bytes() == old(mem).free_bytes(),
            freed ==> final(self)@ == old(self)@.remove(object.addr()) && final(mem)@.live == old(
                mem,
            )@.live.remove(object.addr()),
            !freed ==> final(mem)@.live == old(mem)@.live && final(self)@ == old(self)@.insert(
                object.addr(),
                (ObjectEntry {
                    refcount: (old(self)@[object.addr()].refcount - 1) as u32,
                    host_object: old(self)@[object.addr()].host_object,
                }),
            ),
    {
        broadcast use vstd::std_specs::hash::group_hash_axioms;

        let key: VAddr = object.to_bits();
        let mut entry = self.objects.remove(&key).unwrap();
        if entry.refcount == 1 {
            mem.free(object);
            true
        } else {
            entry.refcount = entry.refcount - 1;
            self.objects.insert(key, entry);
            false
        }
    }

    /// The host side of `object`.
    pub fn borrow(&self, object: id) -> (host_object: &AnyHostObject)
        requires
            self@.contains_key(object.addr()),
        ensures
            *host_object == self@[object.addr()].host_object,
    {
        broadcast use vstd::std_specs::hash::group_hash_axioms;

        &self.objects.get(&object.to_bits()).unwrap().host_object
    }
}

} // verus!
