//! Instants on the high-precision dynamical time scale.
//!
//! Every epoch is a signed duration since the J2000 reference instant of the
//! dynamic barycentric time scale, held as whole centuries plus nanoseconds
//! into the century.  The pair is exact: no floating point is involved, and
//! comparison and subtraction are plain integer arithmetic.
use vstd::prelude::*;
use crate::errors::AniseError;

verus! {

/// Nanoseconds in one Julian century of 36525 days.
pub const NANOSECONDS_PER_CENTURY: u64 = 3_155_760_000_000_000_000;

/// An instant: a signed duration since the J2000 reference instant,
/// as whole centuries plus nanoseconds into the century.
#[derive(Copy, Clone, Debug, PartialEq, Eq, Structural)]
pub struct Epoch {
    pub centuries: i16,
    pub nanoseconds: u64,
}

impl Epoch {
    /// A well-formed epoch keeps its nanosecond part inside one century, so
    /// every instant has exactly one representation.
    pub open spec fn valid(self) -> bool {
        self.nanoseconds < NANOSECONDS_PER_CENTURY
    }

    /// The instant as a single signed nanosecond count since the reference.
    pub open spec fn total_nanos(self) -> int {
        self.centuries * NANOSECONDS_PER_CENTURY + self.nanoseconds
    }

    /// Builds an epoch from its parts, rejecting a nanosecond count that
    /// leaves the century.
    pub fn from_tdb_parts(centuries: i16, nanoseconds: u64) -> (r: Result<Self, AniseError>)
        ensures
            match r {
                Ok(e) => e.valid() && e.centuries == centuries && e.nanoseconds == nanoseconds,
                Err(_) => nanoseconds >= NANOSECONDS_PER_CENTURY,
            },
    {
        if nanoseconds < NANOSECONDS_PER_CENTURY {
            Ok(Epoch { centuries, nanoseconds })
        } else {
            Err(AniseError::IntegrityError(0))
        }
    }

    /// The signed nanosecond count since the reference instant.
    pub fn total_nanoseconds(&self) -> (n: i128)
        ensures
            n == self.total_nanos(),
    {
        proof {
            let c = self.centuries as int;
            let p = NANOSECONDS_PER_CENTURY as int;
            assert(-32768 * p <= c * p <= 32767 * p) by (nonlinear_arith)
                requires
                    -32768 <= c <= 32767,
                    p == NANOSECONDS_PER_CENTURY as int,
            ;
        }
        (self.centuries as i128) * (NANOSECONDS_PER_CENTURY as i128) + (self.nanoseconds as i128)
    }

    /// Whether this instant is no later than the other.
    pub fn is_at_or_before(&self, other: &Epoch) -> (r: bool)
        ensures
            r == (self.total_nanos() <= other.total_nanos()),
    {
        self.total_nanoseconds() <= other.total_nanoseconds()
    }

    /// The signed difference `self - other` in nanoseconds.
    pub fn nanos_since(&self, other: &Epoch) -> (d: i128)
        ensures
            d == self.total_nanos() - other.total_nanos(),
    {
        self.total_nanoseconds() - other.total_nanoseconds()
    }
}

/// Whether a year is a leap year of the Gregorian calendar.
pub open spec fn spec_is_leap_year(year: i32) -> bool {
    year % 4 == 0 && (year % 100 != 0 || year % 400 == 0)
}

/// The days of a month of the Gregorian calendar.
pub open spec fn spec_days_in_month(year: i32, month: u8) -> int {
    if month == 1 || month == 3 || month == 5 || month == 7 || month == 8 || month == 10 || month
        == 12 {
        31
    } else if month == 4 || month == 6 || month == 9 || month == 11 {
        30
    } else if month == 2 {
        if spec_is_leap_year(year) {
            29
        } else {
            28
        }
    } else {
        0
    }
}

/// A midnight calendar date the external time library converts without
/// failing: the month and day exist in the Gregorian calendar, and the
/// year stays far inside the library's arithmetic bounds.
pub open spec fn gregorian_midnight_in_range(year: i32, month: u8, day: u8) -> bool {
    &&& 1 <= year <= 9999
    &&& 1 <= month <= 12
    &&& 1 <= day <= spec_days_in_month(year, month)
}

/// The dynamical-time parts that the external time library derives from a
/// Gregorian calendar date in the civil time scale, if the date is valid.
pub uninterp spec fn tdb_parts_of_gregorian(year: i32, month: u8, day: u8) -> Option<(i16, u64)>;

/// Relies on hifitime::Epoch::maybe_from_gregorian_utc and
/// hifitime::Epoch::to_tdb_duration: the dynamical-time duration since the
/// J2000 reference of the given civil date at midnight, split into whole
/// centuries and nanoseconds.  The result depends on the date alone.  The
/// call succeeds on every existing calendar date of the years 1 through
/// 9999 — such dates stay far from the library's overflow checks and
/// saturation bounds, and the returned duration is normalized, so its
/// nanosecond part stays inside one century — and it rejects every month
/// or day that does not exist in the Gregorian calendar.
#[verifier::external_body]
fn gregorian_utc_midnight_tdb_parts(year: i32, month: u8, day: u8) -> (r: Option<(i16, u64)>)
    ensures
        r == tdb_parts_of_gregorian(year, month, day),
        gregorian_midnight_in_range(year, month, day) ==> match r {
            Some(parts) => parts.1 < NANOSECONDS_PER_CENTURY,
            None => false,
        },
        !(1 <= month <= 12 && 1 <= day <= spec_days_in_month(year, month)) ==> r is None,
{
    match hifitime::Epoch::maybe_from_gregorian_utc(year, month, day, 0, 0, 0, 0) {
        Ok(e) => {
            let (centuries, nanoseconds) = e.to_tdb_duration().to_parts();
            Some((centuries, nanoseconds))
        }
        Err(_) => None,
    }
}

/// The epoch of a Gregorian calendar date in the civil time scale, at
/// midnight, on the dynamical time scale of the stored ephemerides.
///
/// Succeeds on every existing calendar date of the years 1 through 9999;
/// fails with the invalid-date error iff the date is invalid or the
/// derived duration does not keep its nanosecond part inside one century.
pub fn epoch_from_gregorian_utc_at_midnight(year: i32, month: u8, day: u8) -> (r: Result<
    Epoch,
    AniseError,
>)
    ensures
        match r {
            Ok(e) => {
                &&& e.valid()
                &&& tdb_parts_of_gregorian(year, month, day) == Some((e.centuries, e.nanoseconds))
            },
            Err(er) => {
                &&& er == AniseError::InvalidDate { year, month, day }
                &&& match tdb_parts_of_gregorian(year, month, day) {
                    Some(parts) => parts.1 >= NANOSECONDS_PER_CENTURY,
                    None => true,
                }
            },
        },
        gregorian_midnight_in_range(year, month, day) ==> r is Ok,
{
    match gregorian_utc_midnight_tdb_parts(year, month, day) {
        Some((centuries, nanoseconds)) => {
            if nanoseconds < NANOSECONDS_PER_CENTURY {
                Ok(Epoch { centuries, nanoseconds })
            } else {
                Err(AniseError::InvalidDate { year, month, day })
            }
        },
        None => Err(AniseError::InvalidDate { year, month, day }),
    }
}

} // verus!
