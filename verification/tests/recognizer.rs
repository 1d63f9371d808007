use chrono::{Datelike, NaiveDate, Timelike};
use genericbot::date::DateTime;
use genericbot::recognise::{recognise, ParseError};

fn mk(y: u32, mo: u8, d: u8, h: u8, mi: u8, s: u8) -> DateTime {
    DateTime::new(y, mo, d, h, mi, s).unwrap()
}

#[test]
fn month_delta_to_invalid_day_errors() {
    let base = mk(2023, 1, 31, 0, 0, 0);
    assert_eq!(recognise(base, "1M"), Err(ParseError::InvalidMonthValue));
}

#[test]
fn month_delta_moves_one_month() {
    let base = mk(2023, 1, 15, 10, 30, 0);
    assert_eq!(recognise(base, "1M"), Ok(mk(2023, 2, 15, 10, 30, 0)));
}

#[test]
fn month_delta_carries_years() {
    let base = mk(2023, 11, 15, 0, 0, 0);
    assert_eq!(recognise(base, "14M"), Ok(mk(2025, 1, 15, 0, 0, 0)));
}

#[test]
fn capital_m_is_months_small_m_is_minutes() {
    let base = mk(2023, 1, 15, 12, 0, 0);
    assert_eq!(recognise(base, "3M"), Ok(mk(2023, 4, 15, 12, 0, 0)));
    assert_eq!(recognise(base, "3m"), Ok(mk(2023, 1, 15, 12, 3, 0)));
}

#[test]
fn hour_and_second_deltas() {
    let base = mk(2023, 5, 10, 12, 0, 0);
    assert_eq!(recognise(base, "3 hours"), Ok(mk(2023, 5, 10, 15, 0, 0)));
    assert_eq!(recognise(base, "45s"), Ok(mk(2023, 5, 10, 12, 0, 45)));
}

#[test]
fn week_delta_and_word_forms() {
    let base = mk(2023, 5, 10, 8, 0, 0);
    assert_eq!(recognise(base, "2w"), Ok(mk(2023, 5, 24, 8, 0, 0)));
    assert_eq!(recognise(base, "1 week"), Ok(mk(2023, 5, 17, 8, 0, 0)));
    assert_eq!(recognise(base, "5 days"), Ok(mk(2023, 5, 15, 8, 0, 0)));
}

#[test]
fn deltas_compose_left_to_right() {
    let base = mk(2023, 5, 10, 8, 15, 0);
    assert_eq!(recognise(base, "1d 2h 30m"), Ok(mk(2023, 5, 11, 10, 45, 0)));
}

#[test]
fn minutes_carry_into_hours_and_days() {
    let base = mk(2023, 5, 10, 23, 30, 0);
    assert_eq!(recognise(base, "90m"), Ok(mk(2023, 5, 11, 1, 0, 0)));
}

#[test]
fn year_delta_keeps_calendar_position() {
    let base = mk(2023, 5, 10, 1, 2, 3);
    assert_eq!(recognise(base, "2y"), Ok(mk(2025, 5, 10, 1, 2, 3)));
}

#[test]
fn year_delta_from_leap_day_errors() {
    let base = mk(2024, 2, 29, 0, 0, 0);
    assert_eq!(recognise(base, "1y"), Err(ParseError::InvalidYearValue));
}

#[test]
fn month_delta_with_year_carry_from_leap_day_errors() {
    let base = mk(2024, 2, 29, 0, 0, 0);
    assert_eq!(recognise(base, "12M"), Err(ParseError::InvalidYearFromMonths));
}

#[test]
fn tomorrow_is_base_plus_one_day() {
    let base = mk(2023, 12, 31, 6, 45, 0);
    assert_eq!(recognise(base, "tomorrow"), Ok(mk(2024, 1, 1, 6, 45, 0)));
}

#[test]
fn tomorrow_is_case_insensitive_substring() {
    let base = mk(2023, 3, 1, 0, 0, 0);
    assert_eq!(recognise(base, "Tomorrow please"), Ok(mk(2023, 3, 2, 0, 0, 0)));
}

#[test]
fn tomorrow_mixed_with_delta_rejected() {
    let base = mk(2023, 3, 1, 0, 0, 0);
    assert_eq!(recognise(base, "tomorrow 3d"), Err(ParseError::MixedTomorrowAndDelta));
}

#[test]
fn weekday_on_same_weekday_returns_today() {
    // 2023-06-09 was a Friday.
    let base = mk(2023, 6, 9, 9, 0, 0);
    assert_eq!(recognise(base, "friday"), Ok(base));
}

#[test]
fn weekday_advances_to_next_occurrence() {
    // 2023-06-09 was a Friday; the next Monday is June 12th.
    let base = mk(2023, 6, 9, 9, 0, 0);
    assert_eq!(recognise(base, "monday"), Ok(mk(2023, 6, 12, 9, 0, 0)));
    assert_eq!(recognise(base, "THURSDAY"), Ok(mk(2023, 6, 15, 9, 0, 0)));
}

#[test]
fn weekday_mixed_with_delta_rejected() {
    let base = mk(2023, 6, 9, 9, 0, 0);
    assert_eq!(recognise(base, "3d friday"), Err(ParseError::MixedWeekdayAndDelta));
    assert_eq!(recognise(base, "tomorrow friday"), Err(ParseError::MixedWeekdayAndDelta));
}

#[test]
fn dec_25_before_stays_in_year() {
    let base = mk(2023, 11, 1, 13, 0, 0);
    assert_eq!(recognise(base, "dec 25"), Ok(mk(2023, 12, 25, 0, 0, 0)));
}

#[test]
fn dec_25_already_passed_rolls_to_next_year() {
    let base = mk(2023, 12, 26, 13, 0, 0);
    assert_eq!(recognise(base, "dec 25"), Ok(mk(2024, 12, 25, 0, 0, 0)));
}

#[test]
fn dec_25_on_the_day_itself_stays_in_year() {
    // The roll works at day granularity: later the same day does not
    // count as past.
    let base = mk(2023, 12, 25, 13, 0, 0);
    assert_eq!(recognise(base, "dec 25"), Ok(mk(2023, 12, 25, 0, 0, 0)));
}

#[test]
fn dec_25_passed_in_last_supported_year_rejected() {
    let base = mk(9999, 12, 26, 0, 0, 0);
    assert_eq!(recognise(base, "dec 25"), Err(ParseError::OutOfRange));
}

#[test]
fn month_day_rolls_to_next_year_when_month_passed() {
    let base = mk(2018, 8, 1, 0, 0, 0);
    assert_eq!(recognise(base, "jul 4"), Ok(mk(2019, 7, 4, 0, 0, 0)));
    assert_eq!(recognise(base, "july 4"), Ok(mk(2019, 7, 4, 0, 0, 0)));
}

#[test]
fn month_day_full_names_and_case() {
    let base = mk(2023, 1, 10, 5, 0, 0);
    assert_eq!(recognise(base, "January 20"), Ok(mk(2023, 1, 20, 0, 0, 0)));
    assert_eq!(recognise(base, "SEPTEMBER 3"), Ok(mk(2023, 9, 3, 0, 0, 0)));
}

#[test]
fn invalid_day_for_month_errors() {
    let base = mk(2023, 1, 10, 0, 0, 0);
    assert_eq!(recognise(base, "feb 30"), Err(ParseError::BadDayOfMonth));
    assert_eq!(recognise(base, "feb 0"), Err(ParseError::BadDayOfMonth));
}

#[test]
fn multiple_month_days_rejected() {
    let base = mk(2023, 1, 10, 0, 0, 0);
    assert_eq!(recognise(base, "dec 25 jan 1"), Err(ParseError::MixedMonthDay));
    assert_eq!(recognise(base, "3d dec 25"), Err(ParseError::MixedMonthDay));
}

#[test]
fn oversized_magnitude_rejected() {
    let base = mk(2023, 1, 10, 0, 0, 0);
    assert_eq!(recognise(base, "99999999999d"), Err(ParseError::NumberTooLarge));
}

#[test]
fn arithmetic_beyond_supported_years_rejected() {
    let base = mk(9999, 12, 31, 23, 0, 0);
    assert_eq!(recognise(base, "tomorrow"), Err(ParseError::OutOfRange));
}

#[test]
fn unparseable_text_rejected_with_message() {
    let base = mk(2023, 1, 10, 0, 0, 0);
    let err = recognise(base, "gibberish").unwrap_err();
    assert_eq!(err, ParseError::CouldNotParse);
    assert_eq!(err.message(), "Could not parse time.");
}

#[test]
fn digit_run_without_unit_is_not_a_delta() {
    let base = mk(2023, 1, 10, 0, 0, 0);
    assert_eq!(recognise(base, "42 xyzzy"), Err(ParseError::CouldNotParse));
}

#[test]
fn weekday_and_timestamp_agree_with_chrono() {
    let samples = [
        (2000u32, 1u8, 1u8),
        (2023, 6, 9),
        (2024, 2, 29),
        (1999, 12, 31),
        (2038, 1, 19),
    ];
    for &(y, mo, d) in samples.iter() {
        let dt = mk(y, mo, d, 12, 34, 56);
        let cd = NaiveDate::from_ymd_opt(y as i32, mo as u32, d as u32)
            .unwrap()
            .and_hms_opt(12, 34, 56)
            .unwrap();
        assert_eq!(dt.weekday() as u32, cd.weekday().num_days_from_monday());
        assert_eq!(dt.hour as u32, cd.hour());
    }
    // Timestamp differences match chrono's second counts.
    let a = mk(2023, 1, 15, 0, 0, 0);
    let b = mk(2023, 2, 15, 0, 0, 0);
    assert_eq!(b.timestamp() - a.timestamp(), 31 * 86400);
}

#[test]
fn constructor_rejects_invalid_fields() {
    assert!(DateTime::new(2023, 2, 29, 0, 0, 0).is_none());
    assert!(DateTime::new(2023, 13, 1, 0, 0, 0).is_none());
    assert!(DateTime::new(2023, 1, 1, 24, 0, 0).is_none());
    assert!(DateTime::new(2024, 2, 29, 23, 59, 59).is_some());
    assert!(DateTime::new(10000, 1, 1, 0, 0, 0).is_none());
}

#[test]
fn month_day_year_roll_beyond_supported_years_rejected() {
    let base = mk(9999, 8, 1, 0, 0, 0);
    assert_eq!(recognise(base, "jul 4"), Err(ParseError::OutOfRange));
}
