//! Validity times of certificates.

use vstd::prelude::*;

use crate::identity::asn1::Tag;
use crate::identity::cert::Error;

verus! {

/// Signed UNIX seconds, including pre-epoch X.509 validity bounds.
#[derive(Debug, Clone, Copy, PartialEq, Eq, PartialOrd, Ord, Structural)]
pub struct UnixTime(pub i64);

/// Whether `y` has a 29 February.
pub open spec fn leap_year(y: int) -> bool {
    (y % 4 == 0 && y % 100 != 0) || y % 400 == 0
}

/// How many leap years lie before `y`, counting from year 1.
pub open spec fn leap_years_before(y: int) -> int {
    (y - 1) / 4 - (y - 1) / 100 + (y - 1) / 400
}

/// How many days month `m` of year `y` has.
pub open spec fn month_length(y: int, m: int) -> int {
    if m == 2 {
        if leap_year(y) {
            29
        } else {
            28
        }
    } else if m == 4 || m == 6 || m == 9 || m == 11 {
        30
    } else {
        31
    }
}

/// How many days of year `y` lie before month `m`.
pub open spec fn days_before_month(y: int, m: int) -> int
    decreases m,
{
    if m <= 1 {
        0
    } else {
        days_before_month(y, m - 1) + month_length(y, m - 1)
    }
}

/// How many days lie between 1 January 1970 and 1 January of year `y`.
pub open spec fn days_to_year(y: int) -> int {
    (y - 1970) * 365 + leap_years_before(y) - leap_years_before(1970)
}

/// Whether the components name a second of a day between the years 1950 and
/// 9999.
pub open spec fn valid_civil(y: int, m: int, d: int, h: int, min: int, s: int) -> bool {
    &&& 1950 <= y <= 9999
    &&& 1 <= m <= 12
    &&& 1 <= d <= month_length(y, m)
    &&& 0 <= h <= 23
    &&& 0 <= min <= 59
    &&& 0 <= s <= 59
}

/// The UNIX seconds of a civil time in UTC.
pub open spec fn civil_seconds(y: int, m: int, d: int, h: int, min: int, s: int) -> int {
    (days_to_year(y) + days_before_month(y, m) + d - 1) * 86400 + h * 3600 + min * 60 + s
}

/// The UNIX seconds of a civil time, where its components are in range.
pub open spec fn civil(y: int, m: int, d: int, h: int, min: int, s: int) -> Option<int> {
    if valid_civil(y, m, d, h, min, s) {
        Some(civil_seconds(y, m, d, h, min, s))
    } else {
        None
    }
}

pub open spec fn is_digit(b: u8) -> bool {
    0x30 <= b <= 0x39
}

/// Whether the first `n` bytes of `b` are decimal digits.
pub open spec fn digits(b: Seq<u8>, n: int) -> bool {
    forall|i: int| 0 <= i < n ==> is_digit(#[trigger] b[i])
}

/// The two-digit number at `i`.
pub open spec fn two(b: Seq<u8>, i: int) -> int {
    (b[i] - 0x30) * 10 + (b[i + 1] - 0x30)
}

/// A UTCTime `YYMMDDHHMMSSZ`; two-digit years below 50 lie in the 21st century.
pub open spec fn utc_time(b: Seq<u8>) -> Option<int> {
    if b.len() == 13 && b[12] == 0x5a && digits(b, 12) {
        let yy = two(b, 0);
        civil(
            if yy < 50 { 2000 + yy } else { 1900 + yy },
            two(b, 2),
            two(b, 4),
            two(b, 6),
            two(b, 8),
            two(b, 10),
        )
    } else {
        None
    }
}

/// A GeneralizedTime `YYYYMMDDHHMMSSZ`, used from the year 2050 on only.
pub open spec fn generalized_time(b: Seq<u8>) -> Option<int> {
    if b.len() == 15 && b[14] == 0x5a && digits(b, 14) && two(b, 0) * 100 + two(b, 2) >= 2050 {
        civil(
            two(b, 0) * 100 + two(b, 2),
            two(b, 4),
            two(b, 6),
            two(b, 8),
            two(b, 10),
            two(b, 12),
        )
    } else {
        None
    }
}

/// A certificate's time: a UTCTime or a GeneralizedTime, by its tag.
pub open spec fn x509_time(tag: u8, b: Seq<u8>) -> Option<int> {
    if tag == Tag::UTC_TIME {
        utc_time(b)
    } else if tag == Tag::GENERALIZED_TIME {
        generalized_time(b)
    } else {
        None
    }
}

/// The seconds count days without gap or overlap: within a month, from month to
/// month and from year to year, the next day starts 86400 seconds later.
pub proof fn law_calendar(y: int, m: int, d: int)
    requires
        y >= 1,
        1 <= m <= 12,
        1 <= d <= month_length(y, m),
    ensures
        d < month_length(y, m) ==> civil_seconds(y, m, d + 1, 0, 0, 0) == civil_seconds(y, m, d, 0, 0, 0)
            + 86400,
        d == month_length(y, m) && m < 12 ==> civil_seconds(y, m + 1, 1, 0, 0, 0) == civil_seconds(
            y, m, d, 0, 0, 0) + 86400,
        d == month_length(y, m) && m == 12 ==> civil_seconds(y + 1, 1, 1, 0, 0, 0) == civil_seconds(
            y, m, d, 0, 0, 0) + 86400,
{
    reveal_with_fuel(days_before_month, 14);
    assert(days_before_month(y, 13) == if leap_year(y) { 366int } else { 365int });
    assert(leap_years_before(y + 1) == leap_years_before(y) + if leap_year(y) { 1int } else { 0int });
}

/// The epoch itself is second zero.
pub proof fn law_epoch()
    ensures
        civil_seconds(1970, 1, 1, 0, 0, 0) == 0,
{
}

/// A certificate's times fit the seconds that stand for them.
pub proof fn lemma_x509_time_bound(tag: u8, b: Seq<u8>)
    ensures
        x509_time(tag, b) matches Some(t) ==> -0x1_0000_0000_0000 <= t <= 0x1_0000_0000_0000,
{
    reveal_with_fuel(days_before_month, 14);
}

impl UnixTime {
    /// Converts non-negative seconds, saturating beyond the signed domain.
    pub fn from_secs(seconds: u64) -> (r: Self)
        ensures
            r.0 == if seconds > i64::MAX { i64::MAX as int } else { seconds as int },
    {
        if seconds > i64::MAX as u64 {
            Self(i64::MAX)
        } else {
            Self(seconds as i64)
        }
    }

    /// The seconds, where they are not before the epoch.
    pub fn as_secs(&self) -> (r: Option<u64>)
        ensures
            self.0 < 0 ==> r is None,
            self.0 >= 0 ==> r == Some(self.0 as u64),
    {
        if self.0 < 0 {
            None
        } else {
            Some(self.0 as u64)
        }
    }

    /// A certificate's time from its tag and contents.
    pub fn from_x509(tag: Tag, bytes: &[u8]) -> (r: Result<Self, Error>)
        ensures
            match x509_time(tag.0, bytes@) {
                Some(t) => r matches Ok(u) && u.0 == t,
                None => r matches Err(e) && e == Error::BadValidity,
            },
    {
        let time = if tag.0 == Tag::UTC_TIME {
            Self::from_utc(bytes)
        } else if tag.0 == Tag::GENERALIZED_TIME {
            Self::from_generalized(bytes)
        } else {
            None
        };
        match time {
            Some(t) => Ok(t),
            None => Err(Error::BadValidity),
        }
    }

    fn from_utc(bytes: &[u8]) -> (r: Option<Self>)
        ensures
            match utc_time(bytes@) {
                Some(t) => r matches Some(u) && u.0 == t,
                None => r is None,
            },
    {
        if bytes.len() != 13 || bytes[12] != 0x5a || !Self::all_digits(bytes, 12) {
            return None;
        }
        let yy: u32 = Self::digit2(bytes, 0);
        let year: u32 = if yy < 50 {
            2000 + yy
        } else {
            1900 + yy
        };
        Self::from_components(
            year,
            Self::digit2(bytes, 2),
            Self::digit2(bytes, 4),
            Self::digit2(bytes, 6),
            Self::digit2(bytes, 8),
            Self::digit2(bytes, 10),
        )
    }

    fn from_generalized(bytes: &[u8]) -> (r: Option<Self>)
        ensures
            match generalized_time(bytes@) {
                Some(t) => r matches Some(u) && u.0 == t,
                None => r is None,
            },
    {
        if bytes.len() != 15 || bytes[14] != 0x5a || !Self::all_digits(bytes, 14) {
            return None;
        }
        let year: u32 = Self::digit2(bytes, 0) * 100 + Self::digit2(bytes, 2);
        if year < 2050 {
            return None;
        }
        Self::from_components(
            year,
            Self::digit2(bytes, 4),
            Self::digit2(bytes, 6),
            Self::digit2(bytes, 8),
            Self::digit2(bytes, 10),
            Self::digit2(bytes, 12),
        )
    }

    fn all_digits(b: &[u8], n: usize) -> (r: bool)
        requires
            n <= b.len(),
        ensures
            r == digits(b@, n as int),
    {
        let mut i: usize = 0;
        while i < n
            invariant
                i <= n <= b.len(),
                digits(b@, i as int),
            decreases n - i,
        {
            if b[i] < 0x30 || b[i] > 0x39 {
                assert(!is_digit(b@[i as int]));
                return false;
            }
            i = i + 1;
        }
        true
    }

    fn digit2(b: &[u8], i: usize) -> (r: u32)
        requires
            i + 1 < b.len(),
            is_digit(b@[i as int]),
            is_digit(b@[i + 1]),
        ensures
            r == two(b@, i as int),
            r <= 99,
    {
        (b[i] - 0x30) as u32 * 10 + (b[i + 1] - 0x30) as u32
    }

    fn from_components(year: u32, month: u32, day: u32, hour: u32, min: u32, sec: u32) -> (r: Option<
        Self,
    >)
        ensures
            match civil(year as int, month as int, day as int, hour as int, min as int, sec as int) {
                Some(t) => r matches Some(u) && u.0 == t,
                None => r is None,
            },
    {
        if year < 1950 || year > 9999 || month < 1 || month > 12 || day < 1 || hour > 23 || min > 59
            || sec > 59 {
            return None;
        }
        let leap = Self::is_leap(year);
        let month_days: u32 = match month {
            2 => if leap {
                29
            } else {
                28
            },
            4 => 30,
            6 => 30,
            9 => 30,
            11 => 30,
            _ => 31,
        };
        if day > month_days {
            return None;
        }
        let before: i64 = match month {
            1 => 0,
            2 => 31,
            3 => 59,
            4 => 90,
            5 => 120,
            6 => 151,
            7 => 181,
            8 => 212,
            9 => 243,
            10 => 273,
            11 => 304,
            _ => 334,
        };
        proof {
            reveal_with_fuel(days_before_month, 14);
        }
        let mut days: i64 = (year as i64 - 1970) * 365 + Self::leaps_before(year)
            - Self::leaps_before(1970);
        days = days + before;
        if month > 2 && leap {
            days = days + 1;
        }
        days = days + (day as i64 - 1);
        Some(Self(days * 86400 + hour as i64 * 3600 + min as i64 * 60 + sec as i64))
    }

    fn is_leap(y: u32) -> (r: bool)
        ensures
            r == leap_year(y as int),
    {
        (y % 4 == 0 && y % 100 != 0) || y % 400 == 0
    }

    fn leaps_before(year: u32) -> (r: i64)
        requires
            1 <= year <= 9999,
        ensures
            r == leap_years_before(year as int),
            0 <= r <= 9999,
    {
        let y: u32 = year - 1;
        y as i64 / 4 - y as i64 / 100 + y as i64 / 400
    }
}

} // verus!
