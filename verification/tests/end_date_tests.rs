use pool_twap::end_date::{central_midnight, timestamp_of, EndDateError, LocalInstant};

#[test]
fn winter_midnight_is_six_hours_behind_utc() {
    // 2024-01-15T00:00:00-06:00 is 2024-01-15T06:00:00Z.
    assert_eq!(central_midnight("2024-01-15"), Ok(LocalInstant::Single(1_705_298_400)));
}

#[test]
fn summer_midnight_is_five_hours_behind_utc() {
    // 2024-07-01T00:00:00-05:00 is 2024-07-01T05:00:00Z.
    assert_eq!(central_midnight("2024-07-01"), Ok(LocalInstant::Single(1_719_810_000)));
}

#[test]
fn days_on_which_the_clock_changes_have_one_midnight() {
    // The clock changes at two in the morning, after midnight.
    assert_eq!(central_midnight("2024-03-10"), Ok(LocalInstant::Single(1_710_050_400)));
    assert_eq!(central_midnight("2024-11-03"), Ok(LocalInstant::Single(1_730_610_000)));
}

#[test]
fn leap_day_is_a_date() {
    assert_eq!(central_midnight("2024-02-29"), Ok(LocalInstant::Single(1_709_186_400)));
    assert_eq!(central_midnight("2023-02-29"), Err(EndDateError::InvalidDate));
}

#[test]
fn text_that_is_no_date_is_invalid() {
    assert_eq!(central_midnight(""), Err(EndDateError::InvalidDate));
    assert_eq!(central_midnight("yesterday"), Err(EndDateError::InvalidDate));
    assert_eq!(central_midnight("2024/01/15"), Err(EndDateError::InvalidDate));
    assert_eq!(central_midnight("2024-13-01"), Err(EndDateError::InvalidDate));
    assert_eq!(central_midnight("2024-04-31"), Err(EndDateError::InvalidDate));
    assert_eq!(central_midnight("2024-01-15T12:00:00"), Err(EndDateError::InvalidDate));
}

#[test]
fn different_dates_give_different_instants() {
    assert_ne!(central_midnight("2024-01-15"), central_midnight("2024-01-16"));
    assert_eq!(
        central_midnight("2024-01-16"),
        Ok(LocalInstant::Single(1_705_298_400 + 86_400))
    );
}

#[test]
fn single_instant_is_its_timestamp() {
    assert_eq!(timestamp_of(LocalInstant::Single(0)), Ok(0));
    assert_eq!(timestamp_of(LocalInstant::Single(1_705_298_400)), Ok(1_705_298_400));
    assert_eq!(timestamp_of(LocalInstant::Single(i64::MAX)), Ok(i64::MAX as u64));
}

#[test]
fn instant_before_the_epoch_wraps() {
    assert_eq!(timestamp_of(LocalInstant::Single(-1)), Ok(u64::MAX));
    assert_eq!(timestamp_of(LocalInstant::Single(i64::MIN)), Ok(1 << 63));
    // 1960-01-01T00:00:00-06:00 is 315597600 s before the epoch.
    assert_eq!(central_midnight("1960-01-01"), Ok(LocalInstant::Single(-315_597_600)));
    assert_eq!(
        timestamp_of(LocalInstant::Single(-315_597_600)),
        Ok(18_446_744_073_393_954_016)
    );
}

#[test]
fn two_instants_or_none_are_ambiguous() {
    assert_eq!(
        timestamp_of(LocalInstant::Ambiguous(10, 3610)),
        Err(EndDateError::AmbiguousLocalTime)
    );
    assert_eq!(timestamp_of(LocalInstant::Missing), Err(EndDateError::AmbiguousLocalTime));
}
