//! The date, time and amount of a transaction, and the field element they
//! are compressed into.
//!
//! Times count from the epoch, the first instant of 2025 in UTC; dates
//! count in days from the first day of 2025. Which days and instants there
//! are, and how many days lie between two days, is `chrono`'s to say.

use crate::buffer::ByteSink;
use crate::components::Amount;
use crate::error::FingerprintError;
use crate::field::FieldElement;
use crate::hashing::{date_time_parameters, hash_elements, Specs};
use crate::poseidon::sponge::hash;
use crate::wide::{wide_bound, Wide};
use vstd::prelude::*;

verus! {

/// The epoch as seconds of Unix time: 2025-01-01T00:00:00Z.
pub const EPOCH_SECONDS: i64 = 1_735_689_600;

/// The year that the epoch opens.
pub const EPOCH_YEAR: i32 = 2025;

/// The number of the epoch's day, counted from 0001-01-01 as day 1.
pub const EPOCH_DAY_NUMBER: u64 = 739_252;

/// The factor by which whole units enter the full amount. It is the
/// bitwise exclusive or of 10 and 18, and recorded fingerprints depend on
/// it.
pub const UNIT_FACTOR: u64 = 24;

/// The first year of the calendar in use.
pub const MIN_YEAR: i32 = -262_143;

/// The last year of the calendar in use.
pub const MAX_YEAR: i32 = 262_142;

/// The number of the first day of Unix time, 1970-01-01, counted from
/// 0001-01-01 as day 1.
pub const UNIX_DAY_NUMBER: i64 = 719_163;

/// An instant in UTC: seconds of Unix time and nanoseconds on top of them.
#[derive(Clone, Copy, Debug, PartialEq, Eq, Structural)]
pub struct Timestamp {
    pub seconds: i64,
    pub nanos: u32,
}

/// Whether a year is a leap year of the Gregorian calendar.
pub open spec fn is_leap_year(year: int) -> bool {
    year % 4 == 0 && (year % 100 != 0 || year % 400 == 0)
}

/// The number of days of a month.
pub open spec fn days_in_month(year: int, month: int) -> int {
    if month == 2 {
        if is_leap_year(year) {
            29
        } else {
            28
        }
    } else if month == 4 || month == 6 || month == 9 || month == 11 {
        30
    } else {
        31
    }
}

/// Whether year, month and day name a day of the proleptic Gregorian
/// calendar.
pub open spec fn is_calendar_date(year: int, month: int, day: int) -> bool {
    1 <= month <= 12 && 1 <= day <= days_in_month(year, month)
}

/// The number of days of a year that lie before a month.
pub open spec fn days_before_month(year: int, month: int) -> int {
    let leap: int = if month > 2 && is_leap_year(year) {
        1
    } else {
        0
    };
    leap + if month == 1 {
        0int
    } else if month == 2 {
        31
    } else if month == 3 {
        59
    } else if month == 4 {
        90
    } else if month == 5 {
        120
    } else if month == 6 {
        151
    } else if month == 7 {
        181
    } else if month == 8 {
        212
    } else if month == 9 {
        243
    } else if month == 10 {
        273
    } else if month == 11 {
        304
    } else {
        334
    }
}

/// The number of a day, counted from 0001-01-01 as day 1.
pub open spec fn day_number(year: int, month: int, day: int) -> int {
    365 * (year - 1) + (year - 1) / 4 - (year - 1) / 100 + (year - 1) / 400 + days_before_month(
        year,
        month,
    ) + day
}

/// Whether year, month and day name a day of the calendar in use: a day of
/// the proleptic Gregorian calendar in a year from `MIN_YEAR` to
/// `MAX_YEAR`.
pub open spec fn is_supported_date(year: int, month: int, day: int) -> bool {
    MIN_YEAR <= year <= MAX_YEAR && is_calendar_date(year, month, day)
}

/// Whether seconds of Unix time and nanoseconds name an instant of the
/// calendar in use: the day lies in a year from `MIN_YEAR` to `MAX_YEAR`,
/// and the nanoseconds are below a second, or below two in the last second
/// of a minute, where a leap second may stand.
pub open spec fn is_utc_instant(seconds: int, nanos: int) -> bool {
    &&& day_number(MIN_YEAR as int, 1, 1) <= seconds / 86_400 + UNIX_DAY_NUMBER <= day_number(
        MAX_YEAR as int,
        12,
        31,
    )
    &&& 0 <= nanos < 2_000_000_000
    &&& (nanos < 1_000_000_000 || (seconds % 86_400) % 60 == 59)
}

/// `chrono::DateTime::<Utc>::from_timestamp`, asked only whether it finds
/// an instant. It finds one exactly where the day that the seconds fall on
/// lies within the years of `chrono::NaiveDate`, and the nanoseconds are
/// those of a second, or of a leap second at the end of a minute.
#[verifier::external_body]
fn utc_instant_exists(seconds: i64, nanos: u32) -> (r: bool)
    ensures
        r == is_utc_instant(seconds as int, nanos as int),
{
    chrono::DateTime::from_timestamp(seconds, nanos).is_some()
}

/// The days from a first day to a second, where both are days of the
/// calendar in use: the difference of their numbers.
pub open spec fn day_difference(y0: int, m0: int, d0: int, y1: int, m1: int, d1: int) -> Option<
    int,
> {
    if is_supported_date(y0, m0, d0) && is_supported_date(y1, m1, d1) {
        Some(day_number(y1, m1, d1) - day_number(y0, m0, d0))
    } else {
        None
    }
}

/// `chrono::NaiveDate::from_ymd_opt` on both days, then
/// `NaiveDate::signed_duration_since` and `TimeDelta::num_days`: the days
/// from the first day to the second. There is a number exactly where both
/// days exist in the calendar within the years of `chrono::NaiveDate`, and
/// it is the difference of the days' numbers.
#[verifier::external_body]
fn days_between(y0: i32, m0: u32, d0: u32, y1: i32, m1: u32, d1: u32) -> (r: Option<i64>)
    ensures
        match r {
            Some(n) => day_difference(y0 as int, m0 as int, d0 as int, y1 as int, m1 as int, d1 as int)
                == Some(n as int),
            None => day_difference(y0 as int, m0 as int, d0 as int, y1 as int, m1 as int, d1 as int)
                is None,
        },
{
    let first = chrono::NaiveDate::from_ymd_opt(y0, m0, d0);
    let second = chrono::NaiveDate::from_ymd_opt(y1, m1, d1);
    match (first, second) {
        (Some(start), Some(end)) => Some(end.signed_duration_since(start).num_days()),
        _ => None,
    }
}

impl Timestamp {
    /// The instant with the given seconds of Unix time and nanoseconds;
    /// nothing where the calendar in use has no such instant.
    pub fn from_timestamp(seconds: i64, nanos: u32) -> (r: Option<Timestamp>)
        ensures
            r is Some <==> is_utc_instant(seconds as int, nanos as int),
            r matches Some(t) ==> t.seconds == seconds && t.nanos == nanos,
    {
        if utc_instant_exists(seconds, nanos) {
            Some(Timestamp { seconds, nanos })
        } else {
            None
        }
    }
}

/// A day of the calendar in use.
#[derive(Clone, Copy, Debug, PartialEq, Eq, Structural)]
pub struct CalendarDate {
    year: i32,
    month: u32,
    day: u32,
}

impl CalendarDate {
    /// The day exists in the calendar in use.
    #[verifier::type_invariant]
    pub closed spec fn exists_in_calendar(self) -> bool {
        is_supported_date(self.year as int, self.month as int, self.day as int)
    }

    /// The day with the given year, month and day of the month, where the
    /// calendar in use has it.
    pub closed spec fn new_spec(year: int, month: int, day: int) -> CalendarDate {
        CalendarDate { year: year as i32, month: month as u32, day: day as u32 }
    }

    pub closed spec fn spec_year(self) -> int {
        self.year as int
    }

    pub closed spec fn spec_month(self) -> int {
        self.month as int
    }

    pub closed spec fn spec_day(self) -> int {
        self.day as int
    }

    /// The number of days from the epoch's day to this one; negative for
    /// days before it.
    pub open spec fn days_since_epoch(self) -> int {
        day_number(self.spec_year(), self.spec_month(), self.spec_day()) - EPOCH_DAY_NUMBER
    }

    /// The day with the given year, month and day of the month; nothing
    /// where the calendar in use has no such day.
    pub fn from_ymd(year: i32, month: u32, day: u32) -> (r: Option<CalendarDate>)
        ensures
            r is Some <==> is_supported_date(year as int, month as int, day as int),
            r matches Some(d) ==> d == Self::new_spec(year as int, month as int, day as int)
                && d.spec_year() == year && d.spec_month() == month && d.spec_day() == day,
    {
        match days_between(EPOCH_YEAR, 1, 1, year, month, day) {
            Some(_) => Some(CalendarDate { year, month, day }),
            None => None,
        }
    }

    pub fn year(&self) -> (r: i32)
        ensures
            r == self.spec_year(),
            MIN_YEAR <= r <= MAX_YEAR,
    {
        proof {
            use_type_invariant(self);
        }
        self.year
    }

    pub fn month(&self) -> (r: u32)
        ensures
            r == self.spec_month(),
            1 <= r <= 12,
    {
        proof {
            use_type_invariant(self);
        }
        self.month
    }

    pub fn day(&self) -> (r: u32)
        ensures
            r == self.spec_day(),
            1 <= r <= 31,
    {
        proof {
            use_type_invariant(self);
        }
        self.day
    }

    /// The number of days from the epoch's day to this one, where it is
    /// positive and fits 32 bits.
    pub fn checked_days_since_epoch(&self) -> (r: Option<u32>)
        ensures
            r is Some <==> 0 < self.days_since_epoch() <= u32::MAX,
            r matches Some(n) ==> n == self.days_since_epoch(),
    {
        proof {
            use_type_invariant(self);
            assert(day_number(EPOCH_YEAR as int, 1, 1) == EPOCH_DAY_NUMBER);
        }
        match days_between(EPOCH_YEAR, 1, 1, self.year, self.month, self.day) {
            Some(days) => {
                if days <= 0 || days > 0xffff_ffff {
                    None
                } else {
                    Some(days as u32)
                }
            },
            None => None,
        }
    }
}

/// The nanoseconds from the epoch to an instant. They are negative exactly
/// where the instant lies before the epoch.
pub open spec fn nanos_since_epoch(instant: Timestamp) -> int {
    (instant.seconds - EPOCH_SECONDS) * 1_000_000_000 + instant.nanos
}

/// The whole seconds from the epoch to an instant that does not lie before
/// it.
pub open spec fn seconds_since_epoch(instant: Timestamp) -> int {
    nanos_since_epoch(instant) / 1_000_000_000
}

/// The whole seconds from the epoch to an instant; none for an instant
/// before the epoch, however little before.
pub fn checked_seconds_since_epoch(instant: Timestamp) -> (r: Option<u64>)
    ensures
        r is Some <==> nanos_since_epoch(instant) >= 0,
        r matches Some(s) ==> s == seconds_since_epoch(instant) && s < 0x8000_0000_0000_0001,
{
    let difference: i128 = (instant.seconds as i128) - (EPOCH_SECONDS as i128);
    let total: i128 = difference * 1_000_000_000 + (instant.nanos as i128);
    if total < 0 {
        None
    } else {
        let nanos: u128 = total as u128;
        Some((nanos / 1_000_000_000) as u64)
    }
}

/// The date and time of a transaction, its world-wide date and its amount.
#[derive(Clone, Copy, Debug, PartialEq, Eq)]
pub struct DateTimeRaw {
    pub date_time: Timestamp,
    pub wwd: CalendarDate,
    pub amount: Amount,
}

impl DateTimeRaw {
    /// The value that `new` makes.
    pub open spec fn new_spec(date_time: Timestamp, wwd: CalendarDate, amount: Amount) -> Self {
        DateTimeRaw { date_time, wwd, amount }
    }

    pub fn new(date_time: Timestamp, wwd: CalendarDate, amount: Amount) -> (r: Self)
        ensures
            r == Self::new_spec(date_time, wwd, amount),
    {
        DateTimeRaw { date_time, wwd, amount }
    }
}

/// The Cantor pairing of two numbers.
pub open spec fn cantor_pair(x: nat, y: nat) -> nat {
    (x * x + 3 * x + 2 * x * y + y + y * y) / 2
}

/// The amount as one number: the whole units times the unit factor, plus
/// the fraction.
pub open spec fn full_amount(amount: Amount) -> nat {
    (amount.0 * UNIT_FACTOR + amount.1) as nat
}

/// The three numbers that are hashed: the seconds since the epoch, the
/// days since the epoch, and the pairing of the seconds with the full
/// amount divided by the days. There are none where the instant lies
/// before the epoch, by a whole second or by less, or where the day is not
/// after the epoch's day or lies more than `u32::MAX` days after it.
pub open spec fn seed_inputs(raw: DateTimeRaw) -> Option<Seq<nat>> {
    let seconds = seconds_since_epoch(raw.date_time);
    let days = raw.wwd.days_since_epoch();
    if nanos_since_epoch(raw.date_time) < 0 || days <= 0 || days > u32::MAX {
        None
    } else {
        Some(
            seq![
                seconds as nat,
                days as nat,
                cantor_pair(seconds as nat, full_amount(raw.amount) / (days as nat)),
            ],
        )
    }
}

/// What the date, time and amount are compressed into.
pub open spec fn date_time_seed(raw: DateTimeRaw) -> Option<nat> {
    match seed_inputs(raw) {
        Some(inputs) => Some(hash(date_time_parameters(), inputs)),
        None => None,
    }
}

/// The Cantor pairing of two numbers, where it fits 256 bits.
pub fn cantor_pair_function(x: &Wide, y: &Wide) -> (r: Wide)
    requires
        x.value() * x.value() + 3 * x.value() + 2 * x.value() * y.value() + y.value() + y.value()
            * y.value() < wide_bound(),
    ensures
        r.value() == cantor_pair(x.value(), y.value()),
{
    let ghost (a, b) = (x.value(), y.value());
    proof {
        assert(0 <= a * a && 0 <= a * b && 0 <= b * b && 2 * a * b == 2 * (a * b)) by (nonlinear_arith);
    }
    let squared_x = x.mul(x);
    let three = Wide::from_u64(3);
    let triple_x = three.mul(x);
    let two = Wide::from_u64(2);
    let double_x = two.mul(x);
    proof {
        assert(double_x.value() * b == 2 * (a * b)) by (nonlinear_arith)
            requires
                double_x.value() == 2 * a,
        ;
    }
    let mixed = double_x.mul(y);
    let squared_y = y.mul(y);
    let top = squared_x.add(&triple_x).add(&mixed).add(y).add(&squared_y);
    top.div(&two)
}

/// The date, time and amount as a part of a fingerprint: the 32 bytes of
/// the element they are compressed into.
#[derive(Debug)]
pub struct DateTimeComponent {
    raw: DateTimeRaw,
}

impl DateTimeComponent {
    pub closed spec fn value(&self) -> DateTimeRaw {
        self.raw
    }

    pub fn new(raw: DateTimeRaw) -> (r: Self)
        ensures
            r.value() == raw,
    {
        Self { raw }
    }

    /// The number of bytes that `serialize` writes.
    pub fn size() -> (n: usize)
        ensures
            n == 32,
    {
        32
    }

    pub fn raw(&self) -> (r: &DateTimeRaw)
        ensures
            *r == self.value(),
    {
        &self.raw
    }

    /// Compresses the date, time and amount into one field element.
    /// `InvalidDate` where the instant lies before the epoch, or the
    /// world-wide date is not after the epoch's day or too far after it.
    pub fn squeeze(&self, specs: &Specs) -> (r: Result<FieldElement, FingerprintError>)
        ensures
            match r {
                Ok(x) => date_time_seed(self.value()) == Some(x.value()),
                Err(e) => e == FingerprintError::InvalidDate && date_time_seed(self.value())
                    is None,
            },
    {
        let seconds = match checked_seconds_since_epoch(self.raw.date_time) {
            Some(s) => s,
            None => {
                return Err(FingerprintError::InvalidDate);
            },
        };
        let days = match self.raw.wwd.checked_days_since_epoch() {
            Some(d) => d,
            None => {
                return Err(FingerprintError::InvalidDate);
            },
        };
        let base = Wide::from_u64(self.raw.amount.0);
        let factor = Wide::from_u64(UNIT_FACTOR);
        let atto = Wide::from_u64(self.raw.amount.1);
        let full = base.mul(&factor).add(&atto);
        let quotient = full.div(&Wide::from_u64(days as u64));
        let ghost (x, y) = (seconds as nat, quotient.value());
        proof {
            assert(y <= full.value()) by (nonlinear_arith)
                requires
                    y == full.value() / (days as nat),
                    days >= 1,
            ;
            assert(x * x <= 0x8000_0000_0000_0000 * 0x8000_0000_0000_0000) by (nonlinear_arith)
                requires
                    x <= 0x8000_0000_0000_0000,
            ;
            assert(x * y <= 0x8000_0000_0000_0000 * 0x19_0000_0000_0000_0000) by (nonlinear_arith)
                requires
                    x <= 0x8000_0000_0000_0000,
                    y <= 0x19_0000_0000_0000_0000,
            ;
            assert(y * y <= 0x19_0000_0000_0000_0000 * 0x19_0000_0000_0000_0000)
                by (nonlinear_arith)
                requires
                    y <= 0x19_0000_0000_0000_0000,
            ;
            assert(2 * x * y == 2 * (x * y)) by (nonlinear_arith);
        }
        let paired = cantor_pair_function(&Wide::from_u64(seconds), &quotient);
        let (l0, l1, l2, l3) = paired.limbs();
        let nonce = match FieldElement::from_limbs(l0, l1, l2, l3) {
            Some(n) => n,
            None => {
                assert(false);
                return Err(FingerprintError::Internal);
            },
        };
        let inputs: [FieldElement; 3] = [
            FieldElement::from_u64(seconds),
            FieldElement::from_u64(days as u64),
            nonce,
        ];
        assert(crate::poseidon::state::values(inputs@) =~= seed_inputs(self.value())->0);
        Ok(hash_elements(specs.spec_dc(), inputs.as_slice()))
    }

    /// Appends the 32 bytes of the compressed element to the buffer; on an
    /// error the buffer stays as it is.
    pub fn serialize<W: ByteSink>(&self, specs: &Specs, buffer: &mut W) -> (r: Result<
        (),
        FingerprintError,
    >)
        requires
            old(buffer).written().len() + 32 <= isize::MAX,
        ensures
            match r {
                Ok(_) => exists|x: FieldElement|
                    date_time_seed(self.value()) == Some(x.value()) && x.is_canonical()
                        && final(buffer).written() == old(buffer).written()
                        + #[trigger] x.encoding(),
                Err(e) => e == FingerprintError::InvalidDate && date_time_seed(self.value())
                    is None && final(buffer).written() == old(buffer).written(),
            },
    {
        let squeezed = match self.squeeze(specs) {
            Ok(x) => x,
            Err(e) => {
                return Err(e);
            },
        };
        squeezed.canonical();
        let bytes = squeezed.to_bytes();
        buffer.put(bytes.as_slice());
        Ok(())
    }
}

} // verus!
