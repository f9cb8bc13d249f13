//! `time.h`

use crate::mem::{
    le_bytes_u32, le_value_u32, GuestData, GuestUSize,
};
use vstd::prelude::*;

verus! {

/// Seconds since the start of 1970.
pub type time_t = i32;

/// A time span as the guest lays it out.
pub struct timeval {
    pub tv_sec: i32,
    pub tv_usec: i32,
}

/// A point in time, broken down by the calendar.
pub struct tm {
    /// Seconds, 0 to 60.
    pub tm_sec: i32,
    /// Minutes, 0 to 59.
    pub tm_min: i32,
    /// Hours, 0 to 23.
    pub tm_hour: i32,
    /// Day of the month, 1 to 31.
    pub tm_mday: i32,
    /// Months since January, 0 to 11.
    pub tm_mon: i32,
    /// Years since 1900.
    pub tm_year: i32,
}

impl GuestData for timeval {
    const SIZE: GuestUSize = 8;

    open spec fn guest_bytes(self) -> Seq<u8> {
        le_bytes_u32(self.tv_sec as u32) + le_bytes_u32(self.tv_usec as u32)
    }

    open spec fn from_guest_bytes(bytes: Seq<u8>) -> Self {
        timeval {
            tv_sec: le_value_u32(bytes.subrange(0, 4)) as i32,
            tv_usec: le_value_u32(bytes.subrange(4, 8)) as i32,
        }
    }

    fn store(&self) -> (bytes: Vec<u8>) {
        let mut bytes = self.tv_sec.store();
        let mut usec = self.tv_usec.store();
        bytes.append(&mut usec);
        assert(bytes@ =~= self.guest_bytes());
        bytes
    }

    fn load(bytes: &[u8]) -> (value: Self) {
        proof {
            i32::lemma_layout(0i32);
        }
        timeval { tv_sec: i32::load(&bytes[0..4]), tv_usec: i32::load(&bytes[4..8]) }
    }

    proof fn lemma_layout(value: Self) {
        let bytes = value.guest_bytes();
        assert(bytes.subrange(0, 4) =~= le_bytes_u32(value.tv_sec as u32));
        assert(bytes.subrange(4, 8) =~= le_bytes_u32(value.tv_usec as u32));
        i32::lemma_layout(value.tv_sec);
        i32::lemma_layout(value.tv_usec);
    }
}

} // verus!
