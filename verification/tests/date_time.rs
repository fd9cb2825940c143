use chrono::{Datelike, NaiveDate, TimeZone, Utc};
use fingerprinting::date_time::{
    cantor_pair_function, checked_seconds_since_epoch, CalendarDate, DateTimeComponent,
    DateTimeRaw, Timestamp, EPOCH_SECONDS, MAX_YEAR, MIN_YEAR,
};
use fingerprinting::error::FingerprintError;
use fingerprinting::field::FieldElement;
use fingerprinting::hashing::Specs;
use fingerprinting::poseidon::Poseidon;
use fingerprinting::wide::Wide;

fn date(year: i32, month: u32, day: u32) -> CalendarDate {
    CalendarDate::from_ymd(year, month, day).unwrap()
}

fn at(seconds_after_epoch: i64) -> Timestamp {
    Timestamp { seconds: EPOCH_SECONDS + seconds_after_epoch, nanos: 0 }
}

#[test]
fn epoch_is_the_first_instant_of_2025() {
    let epoch = Utc.with_ymd_and_hms(2025, 1, 1, 0, 0, 0).unwrap();
    assert_eq!(EPOCH_SECONDS, epoch.timestamp());
}

#[test]
fn calendar_knows_its_days() {
    assert!(CalendarDate::from_ymd(2025, 2, 28).is_some());
    assert!(CalendarDate::from_ymd(2025, 2, 29).is_none());
    assert!(CalendarDate::from_ymd(2024, 2, 29).is_some());
    assert!(CalendarDate::from_ymd(2100, 2, 29).is_none());
    assert!(CalendarDate::from_ymd(2000, 2, 29).is_some());
    assert!(CalendarDate::from_ymd(2025, 4, 31).is_none());
    assert!(CalendarDate::from_ymd(2025, 0, 1).is_none());
    assert!(CalendarDate::from_ymd(2025, 13, 1).is_none());
    assert!(CalendarDate::from_ymd(2025, 1, 0).is_none());
    assert!(CalendarDate::from_ymd(2025, 12, 31).is_some());
    assert!(CalendarDate::from_ymd(-4, 2, 29).is_some());
    let d = date(2025, 9, 16);
    assert_eq!((d.year(), d.month(), d.day()), (2025, 9, 16));
}

#[test]
fn calendar_agrees_with_chrono_on_which_days_exist() {
    for year in [-400, -1, 0, 1, 1900, 2000, 2024, 2025, 2100] {
        for month in 0..=13 {
            for day in 0..=32 {
                assert_eq!(
                    CalendarDate::from_ymd(year, month, day).is_some(),
                    NaiveDate::from_ymd_opt(year, month, day).is_some(),
                    "{}-{}-{}",
                    year,
                    month,
                    day
                );
            }
        }
    }
}

#[test]
fn days_count_from_the_first_day_of_2025() {
    assert_eq!(date(2025, 1, 1).checked_days_since_epoch(), None);
    assert_eq!(date(2025, 1, 2).checked_days_since_epoch(), Some(1));
    assert_eq!(date(2025, 9, 16).checked_days_since_epoch(), Some(258));
    assert_eq!(date(2026, 1, 1).checked_days_since_epoch(), Some(365));
    assert_eq!(date(2028, 3, 1).checked_days_since_epoch(), Some(365 * 3 + 31 + 29));
    assert_eq!(date(2024, 12, 31).checked_days_since_epoch(), None);
    assert_eq!(date(1970, 1, 1).checked_days_since_epoch(), None);
    assert_eq!(date(0, 6, 1).checked_days_since_epoch(), None);
    assert_eq!(date(-2025, 6, 1).checked_days_since_epoch(), None);
}

#[test]
fn days_agree_with_chrono() {
    let epoch = NaiveDate::from_ymd_opt(2025, 1, 1).unwrap();
    for (year, month, day) in [
        (2025, 1, 2),
        (2025, 3, 1),
        (2025, 12, 31),
        (2028, 2, 29),
        (2100, 3, 1),
        (2400, 12, 31),
        (9999, 12, 31),
        (200_000, 7, 4),
        (262_142, 12, 31),
    ] {
        let expected =
            NaiveDate::from_ymd_opt(year, month, day).unwrap().signed_duration_since(epoch);
        assert_eq!(
            date(year, month, day).checked_days_since_epoch(),
            Some(expected.num_days() as u32)
        );
    }
}

#[test]
fn calendar_ends_where_chrono_ends() {
    assert_eq!(MIN_YEAR, NaiveDate::MIN.year());
    assert_eq!(MAX_YEAR, NaiveDate::MAX.year());
    assert!(CalendarDate::from_ymd(MAX_YEAR, 12, 31).is_some());
    assert!(CalendarDate::from_ymd(MAX_YEAR + 1, 1, 1).is_none());
    assert!(CalendarDate::from_ymd(MIN_YEAR, 1, 1).is_some());
    assert!(CalendarDate::from_ymd(MIN_YEAR - 1, 12, 31).is_none());
    assert!(CalendarDate::from_ymd(i32::MAX, 12, 31).is_none());
    assert!(CalendarDate::from_ymd(i32::MIN, 1, 1).is_none());
    // the last day of the calendar is fewer than 2^32 days after the epoch
    assert_eq!(date(MAX_YEAR, 12, 31).checked_days_since_epoch(), Some(95_006_147));
}

#[test]
fn instants_are_those_of_chrono() {
    for (seconds, nanos) in [
        (0i64, 0u32),
        (EPOCH_SECONDS, 999_999_999),
        (EPOCH_SECONDS, 1_000_000_000),
        (EPOCH_SECONDS + 59, 1_000_000_000),
        (EPOCH_SECONDS + 59, 1_999_999_999),
        (EPOCH_SECONDS + 59, 2_000_000_000),
        (-1, 0),
        (-1, 1_500_000_000),
        (-2, 1_500_000_000),
        (8_210_266_876_799, 0),
        (8_210_266_876_800, 0),
        (-8_334_601_228_800, 0),
        (-8_334_601_228_801, 0),
        (i64::MAX, 0),
        (i64::MIN, 0),
    ] {
        let got = Timestamp::from_timestamp(seconds, nanos);
        assert_eq!(
            got.is_some(),
            chrono::DateTime::from_timestamp(seconds, nanos).is_some(),
            "{} s {} ns",
            seconds,
            nanos
        );
        if let Some(instant) = got {
            assert_eq!(instant, Timestamp { seconds, nanos });
        }
    }
    assert!(Timestamp::from_timestamp(8_210_266_876_799, 0).is_some());
    assert!(Timestamp::from_timestamp(8_210_266_876_800, 0).is_none());
    assert!(Timestamp::from_timestamp(EPOCH_SECONDS, 1_000_000_000).is_none());
}

#[test]
fn seconds_count_from_the_epoch_and_there_are_none_before_it() {
    assert_eq!(checked_seconds_since_epoch(at(0)), Some(0));
    assert_eq!(checked_seconds_since_epoch(at(1)), Some(1));
    assert_eq!(checked_seconds_since_epoch(at(22_336_496)), Some(22_336_496));
    assert_eq!(checked_seconds_since_epoch(at(-1)), None);
    assert_eq!(checked_seconds_since_epoch(Timestamp { seconds: 0, nanos: 0 }), None);
    assert_eq!(checked_seconds_since_epoch(Timestamp { seconds: i64::MIN, nanos: 0 }), None);
    // half a second before the epoch is before the epoch
    assert_eq!(
        checked_seconds_since_epoch(Timestamp { seconds: EPOCH_SECONDS - 1, nanos: 500_000_000 }),
        None
    );
    // and so is one nanosecond before it
    assert_eq!(
        checked_seconds_since_epoch(Timestamp { seconds: EPOCH_SECONDS - 1, nanos: 999_999_999 }),
        None
    );
    // a whole second of nanoseconds on top of the last second reaches the epoch
    assert_eq!(
        checked_seconds_since_epoch(Timestamp {
            seconds: EPOCH_SECONDS - 1,
            nanos: 1_000_000_000
        }),
        Some(0)
    );
    assert_eq!(
        checked_seconds_since_epoch(Timestamp { seconds: EPOCH_SECONDS - 2, nanos: 999_999_999 }),
        None
    );
    assert_eq!(
        checked_seconds_since_epoch(Timestamp { seconds: EPOCH_SECONDS + 5, nanos: 999_999_999 }),
        Some(5)
    );
    assert_eq!(
        checked_seconds_since_epoch(Timestamp { seconds: i64::MAX, nanos: u32::MAX }),
        Some((i64::MAX - EPOCH_SECONDS) as u64 + 4)
    );
}

#[test]
fn seconds_agree_with_chrono() {
    let epoch = Utc.with_ymd_and_hms(2025, 1, 1, 0, 0, 0).unwrap();
    for (seconds, nanos) in [
        (EPOCH_SECONDS, 0u32),
        (EPOCH_SECONDS + 86_399, 999_999_999),
        (EPOCH_SECONDS - 1, 1),
        (EPOCH_SECONDS - 1, 0),
        (EPOCH_SECONDS - 86_400, 123),
        (1_758_026_096, 0),
        // a leap second: the last second of a minute, with a second of nanoseconds
        (EPOCH_SECONDS + 59, 1_500_000_000),
    ] {
        let instant = chrono::DateTime::from_timestamp(seconds, nanos).unwrap();
        let expected = instant.naive_utc().signed_duration_since(epoch.naive_utc()).num_seconds();
        let got = checked_seconds_since_epoch(Timestamp::from_timestamp(seconds, nanos).unwrap());
        if instant < epoch {
            assert_eq!(got, None);
        } else {
            assert_eq!(got, Some(expected as u64));
        }
    }
}

#[test]
fn cantor_pairing_follows_its_formula() {
    let pair = |x: u64, y: u64| {
        cantor_pair_function(&Wide::from_u64(x), &Wide::from_u64(y)).limbs()
    };
    assert_eq!(pair(0, 0), (0, 0, 0, 0));
    assert_eq!(pair(1, 0), (2, 0, 0, 0));
    assert_eq!(pair(0, 1), (1, 0, 0, 0));
    assert_eq!(pair(1, 1), (4, 0, 0, 0));
    assert_eq!(pair(2, 3), ((4 + 6 + 12 + 3 + 9) / 2, 0, 0, 0));
    // (2^64 - 1)^2 * 4 + 4 * (2^64 - 1), halved: 2 * (2^64 - 1) * 2^64
    assert_eq!(pair(u64::MAX, u64::MAX), (0, u64::MAX - 1, 1, 0));
}

#[test]
fn wide_arithmetic_carries_across_limbs() {
    let max = Wide::from_u64(u64::MAX);
    assert_eq!(max.add(&Wide::from_u64(1)).limbs(), (0, 1, 0, 0));
    assert_eq!(max.mul(&max).limbs(), (1, u64::MAX - 1, 0, 0));
    assert_eq!(max.mul(&max).div(&max).limbs(), (u64::MAX, 0, 0, 0));
    assert_eq!(Wide::from_u64(7).div(&Wide::from_u64(2)).limbs(), (3, 0, 0, 0));
    assert_eq!(Wide::from_u64(1).div(&Wide::from_u64(2)).limbs(), (0, 0, 0, 0));
}

#[test]
fn squeeze_hashes_seconds_days_and_the_pairing() {
    let specs = Specs::new().unwrap();
    let raw = DateTimeRaw::new(at(22_336_496), date(2025, 9, 16), (1000, 0));
    let squeezed = DateTimeComponent::new(raw).squeeze(&specs).unwrap();
    // whole units enter with the factor 24: 24_000 / 258 = 93
    let y: u128 = 24_000 / 258;
    let x: u128 = 22_336_496;
    let nonce = (x * x + 3 * x + 2 * x * y + y + y * y) / 2;
    let nonce = FieldElement::from_limbs(nonce as u64, (nonce >> 64) as u64, 0, 0).unwrap();
    let mut sponge = Poseidon::new_with_spec(specs.spec_dc());
    sponge.update(&[FieldElement::from_u64(22_336_496), FieldElement::from_u64(258), nonce]);
    assert_eq!(squeezed, sponge.squeeze());
}

#[test]
fn squeeze_depends_on_the_fraction_of_the_amount() {
    let specs = Specs::new().unwrap();
    let squeeze = |amount| {
        DateTimeComponent::new(DateTimeRaw::new(at(100), date(2025, 1, 2), amount))
            .squeeze(&specs)
            .unwrap()
    };
    assert_ne!(squeeze((1, 0)), squeeze((1, 1)));
    // 24 fractions weigh as much as one whole unit
    assert_eq!(squeeze((1, 0)), squeeze((0, 24)));
}

#[test]
fn date_time_before_epoch_is_an_invalid_date() {
    let specs = Specs::new().unwrap();
    let raw = DateTimeRaw::new(at(-1), date(2025, 9, 16), (1000, 0));
    assert_eq!(DateTimeComponent::new(raw).squeeze(&specs), Err(FingerprintError::InvalidDate));
    let mut buffer = vec![1u8, 2, 3];
    assert_eq!(
        DateTimeComponent::new(raw).serialize(&specs, &mut buffer),
        Err(FingerprintError::InvalidDate)
    );
    assert_eq!(buffer, vec![1u8, 2, 3]);
}

#[test]
fn half_a_second_before_the_epoch_is_an_invalid_date() {
    let specs = Specs::new().unwrap();
    let instant = Timestamp::from_timestamp(1_735_689_599, 500_000_000).unwrap();
    let raw = DateTimeRaw::new(instant, date(2025, 1, 2), (1000, 0));
    assert_eq!(DateTimeComponent::new(raw).squeeze(&specs), Err(FingerprintError::InvalidDate));
}

#[test]
fn every_instant_before_the_epoch_is_an_invalid_date() {
    let specs = Specs::new().unwrap();
    for (seconds, nanos) in [
        (EPOCH_SECONDS - 1, 999_999_999u32),
        (EPOCH_SECONDS - 1, 1),
        (EPOCH_SECONDS - 1, 0),
        (EPOCH_SECONDS - 2, 999_999_999),
        (EPOCH_SECONDS - 86_400, 0),
        (0, 0),
        (i64::MIN, 0),
    ] {
        for wwd in [date(2025, 1, 2), date(2025, 9, 16), date(2024, 12, 31)] {
            for amount in [(0, 0), (1000, 0), (u64::MAX, u64::MAX)] {
                let raw = DateTimeRaw::new(Timestamp { seconds, nanos }, wwd, amount);
                assert_eq!(
                    DateTimeComponent::new(raw).squeeze(&specs),
                    Err(FingerprintError::InvalidDate),
                    "{} s {} ns",
                    seconds,
                    nanos
                );
            }
        }
    }
    // from the epoch on, and from the second day on, nothing is refused
    let raw = DateTimeRaw::new(Timestamp { seconds: EPOCH_SECONDS, nanos: 0 }, date(2025, 1, 2), (1000, 0));
    assert!(DateTimeComponent::new(raw).squeeze(&specs).is_ok());
}

#[test]
fn world_wide_date_before_epoch_is_an_invalid_date() {
    let specs = Specs::new().unwrap();
    let raw = DateTimeRaw::new(at(10), date(2024, 12, 31), (1000, 0));
    assert_eq!(DateTimeComponent::new(raw).squeeze(&specs), Err(FingerprintError::InvalidDate));
}

#[test]
fn world_wide_date_on_the_epoch_day_is_an_invalid_date() {
    // no days have passed, and the amount cannot be divided by them
    let specs = Specs::new().unwrap();
    for amount in [(0, 0), (1000, 0), (u64::MAX, u64::MAX)] {
        let raw = DateTimeRaw::new(at(0), date(2025, 1, 1), amount);
        assert_eq!(
            DateTimeComponent::new(raw).squeeze(&specs),
            Err(FingerprintError::InvalidDate)
        );
    }
}

#[test]
fn first_instant_of_the_epoch_is_accepted_from_the_second_day_on() {
    let specs = Specs::new().unwrap();
    let raw = DateTimeRaw::new(at(0), date(2025, 1, 2), (0, 0));
    let squeezed = DateTimeComponent::new(raw).squeeze(&specs).unwrap();
    let mut sponge = Poseidon::new_with_spec(specs.spec_dc());
    sponge.update(&[FieldElement::zero(), FieldElement::one(), FieldElement::zero()]);
    assert_eq!(squeezed, sponge.squeeze());
}

#[test]
fn largest_amount_and_latest_instant_are_within_reach() {
    let specs = Specs::new().unwrap();
    let raw = DateTimeRaw::new(
        Timestamp { seconds: i64::MAX, nanos: u32::MAX },
        date(2025, 1, 2),
        (u64::MAX, u64::MAX),
    );
    assert!(DateTimeComponent::new(raw).squeeze(&specs).is_ok());
}

#[test]
fn serialize_writes_the_squeezed_element() {
    let specs = Specs::new().unwrap();
    let component =
        DateTimeComponent::new(DateTimeRaw::new(at(5), date(2025, 2, 1), (7, 9)));
    let mut buffer = vec![0x55u8];
    component.serialize(&specs, &mut buffer).unwrap();
    assert_eq!(buffer.len(), 1 + DateTimeComponent::size());
    assert_eq!(buffer[0], 0x55);
    assert_eq!(&buffer[1..], &component.squeeze(&specs).unwrap().to_bytes());
    assert_eq!(component.raw().amount, (7, 9));
}
