//! Time things including `CFAbsoluteTime`.

use crate::abi::GuestArg;
use crate::environment::Environment;
use crate::frameworks::core_foundation::CFTypeRef;
use crate::libc::time::tm;
use crate::mem::{le_bytes_u32, le_value_u32, GuestData, GuestUSize, Ptr};
use vstd::prelude::*;

verus! {

/// A span of time in seconds, as the bits of a double-precision number.
pub type CFTimeInterval = u64;

/// Seconds since the reference date, as the bits of a double-precision
/// number.
pub type CFAbsoluteTime = CFTimeInterval;

/// A date of the Gregorian calendar with the time of day.
#[derive(Clone, Copy, Debug, PartialEq, Eq, Structural)]
pub struct CFGregorianDate {
    pub year: i32,
    pub month: i8,
    pub day: i8,
    pub hours: i8,
    pub minutes: i8,
    /// The seconds, as the bits of a double-precision number.
    pub seconds: u64,
}

impl GuestArg for CFGregorianDate {
    const REG_COUNT: usize = 7;

    open spec fn slots(self) -> Seq<u32> {
        seq![
            self.year as u32,
            self.month as u32,
            self.day as u32,
            self.hours as u32,
            self.minutes as u32,
            self.seconds as u32,
            (self.seconds >> 32) as u32,
        ]
    }

    open spec fn from_slots(regs: Seq<u32>) -> Self {
        CFGregorianDate {
            year: regs[0] as i32,
            month: regs[1] as i8,
            day: regs[2] as i8,
            hours: regs[3] as i8,
            minutes: regs[4] as i8,
            seconds: (regs[5] as u64) | ((regs[6] as u64) << 32),
        }
    }

    fn from_regs(regs: &[u32]) -> (value: Self) {
        proof {
            i32::lemma_round_trip(0i32);
            i8::lemma_round_trip(0i8);
            u64::lemma_round_trip(0u64);
        }
        CFGregorianDate {
            year: GuestArg::from_regs(&regs[0..1]),
            month: GuestArg::from_regs(&regs[1..2]),
            day: GuestArg::from_regs(&regs[2..3]),
            hours: GuestArg::from_regs(&regs[3..4]),
            minutes: GuestArg::from_regs(&regs[4..5]),
            seconds: GuestArg::from_regs(&regs[5..7]),
        }
    }

    fn to_regs(self, regs: &mut [u32]) {
        proof {
            i32::lemma_round_trip(0i32);
            i8::lemma_round_trip(0i8);
            u64::lemma_round_trip(0u64);
        }
        let (year, rest) = regs.split_at_mut(1);
        self.year.to_regs(year);
        let (month, rest) = rest.split_at_mut(1);
        self.month.to_regs(month);
        let (day, rest) = rest.split_at_mut(1);
        self.day.to_regs(day);
        let (hours, rest) = rest.split_at_mut(1);
        self.hours.to_regs(hours);
        let (minutes, seconds) = rest.split_at_mut(1);
        self.minutes.to_regs(minutes);
        self.seconds.to_regs(seconds);
        assert(regs@ =~= self.slots() + old(regs)@.subrange(7, old(regs)@.len() as int));
    }

    proof fn lemma_round_trip(value: Self) {
        let y = value.year;
        let z = value.seconds;
        let (a, b, c, d) = (value.month, value.day, value.hours, value.minutes);
        assert(((y as u32) as i32) == y) by (bit_vector);
        assert(((a as u32) as i8) == a) by (bit_vector);
        assert(((b as u32) as i8) == b) by (bit_vector);
        assert(((c as u32) as i8) == c) by (bit_vector);
        assert(((d as u32) as i8) == d) by (bit_vector);
        assert(((z as u32) as u64) | ((((z >> 32) as u32) as u64) << 32) == z) by (bit_vector);
    }
}

impl GuestData for CFGregorianDate {
    const SIZE: GuestUSize = 16;

    open spec fn guest_bytes(self) -> Seq<u8> {
        le_bytes_u32(self.year as u32) + seq![
            self.month as u8,
            self.day as u8,
            self.hours as u8,
            self.minutes as u8,
        ] + le_bytes_u32(self.seconds as u32) + le_bytes_u32((self.seconds >> 32) as u32)
    }

    open spec fn from_guest_bytes(bytes: Seq<u8>) -> Self {
        CFGregorianDate {
            year: le_value_u32(bytes.subrange(0, 4)) as i32,
            month: bytes[4] as i8,
            day: bytes[5] as i8,
            hours: bytes[6] as i8,
            minutes: bytes[7] as i8,
            seconds: (le_value_u32(bytes.subrange(8, 12)) as u64) | ((le_value_u32(
                bytes.subrange(12, 16),
            ) as u64) << 32),
        }
    }

    fn store(&self) -> (bytes: Vec<u8>) {
        let mut bytes = self.year.store();
        let mut month = self.month.store();
        bytes.append(&mut month);
        let mut day = self.day.store();
        bytes.append(&mut day);
        let mut hours = self.hours.store();
        bytes.append(&mut hours);
        let mut minutes = self.minutes.store();
        bytes.append(&mut minutes);
        let mut seconds = self.seconds.store();
        bytes.append(&mut seconds);
        assert(bytes@ =~= self.guest_bytes());
        bytes
    }

    fn load(bytes: &[u8]) -> (value: Self) {
        proof {
            i32::lemma_layout(0i32);
            i8::lemma_layout(0i8);
            u64::lemma_layout(0u64);
        }
        let value = CFGregorianDate {
            year: i32::load(&bytes[0..4]),
            month: i8::load(&bytes[4..5]),
            day: i8::load(&bytes[5..6]),
            hours: i8::load(&bytes[6..7]),
            minutes: i8::load(&bytes[7..8]),
            seconds: u64::load(&bytes[8..16]),
        };
        proof {
            assert(bytes@.subrange(8, 16).subrange(0, 4) =~= bytes@.subrange(8, 12));
            assert(bytes@.subrange(8, 16).subrange(4, 8) =~= bytes@.subrange(12, 16));
        }
        value
    }

    proof fn lemma_layout(value: Self) {
        let bytes = value.guest_bytes();
        assert(bytes.subrange(0, 4) =~= le_bytes_u32(value.year as u32));
        assert(bytes.subrange(8, 12) =~= le_bytes_u32(value.seconds as u32));
        assert(bytes.subrange(12, 16) =~= le_bytes_u32((value.seconds >> 32) as u32));
        crate::mem::lemma_le_round_trip_u32(value.year as u32);
        crate::mem::lemma_le_round_trip_u32(value.seconds as u32);
        crate::mem::lemma_le_round_trip_u32((value.seconds >> 32) as u32);
        let y = value.year;
        let z = value.seconds;
        let (a, b, c, d) = (value.month, value.day, value.hours, value.minutes);
        assert(((y as u32) as i32) == y) by (bit_vector);
        assert(((a as u8) as i8) == a) by (bit_vector);
        assert(((b as u8) as i8) == b) by (bit_vector);
        assert(((c as u8) as i8) == c) by (bit_vector);
        assert(((d as u8) as i8) == d) by (bit_vector);
        assert(((z as u32) as u64) | ((((z >> 32) as u32) as u64) << 32) == z) by (bit_vector);
    }
}

/// A reference to a time zone object.
pub type CFTimeZoneRef = CFTypeRef;

/// The system's time zone: always null, which stands for Greenwich.
pub fn CFTimeZoneCopySystem(_env: &Environment) -> (zone: CFTimeZoneRef)
    ensures
        zone.is_null(),
{
    Ptr::null()
}

/// The Gregorian date for a point in time that the host has broken down by
/// the calendar, in the Greenwich time zone, which null stands for. The
/// `seconds` are those of `now`, as the bits of a double-precision number.
pub fn CFAbsoluteTimeGetGregorianDate(
    _env: &Environment,
    _at: CFAbsoluteTime,
    tz: CFTimeZoneRef,
    now: &tm,
    seconds: u64,
) -> (date: CFGregorianDate)
    requires
        tz.is_null(),
        1900 + now.tm_year <= i32::MAX,
    ensures
        date == (CFGregorianDate {
            year: (1900 + now.tm_year) as i32,
            month: now.tm_mon as i8,
            day: now.tm_mday as i8,
            hours: now.tm_hour as i8,
            minutes: now.tm_min as i8,
            seconds,
        }),
{
    CFGregorianDate {
        year: 1900 + now.tm_year,
        month: #[verifier::truncate] (now.tm_mon as i8),
        day: #[verifier::truncate] (now.tm_mday as i8),
        hours: #[verifier::truncate] (now.tm_hour as i8),
        minutes: #[verifier::truncate] (now.tm_min as i8),
        seconds,
    }
}

} // verus!
