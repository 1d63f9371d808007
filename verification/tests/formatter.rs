use genericbot::human::{and_comma_split, human_timedelta};

#[test]
fn zero_span_is_empty() {
    assert_eq!(human_timedelta(0), "");
}

#[test]
fn ninety_seconds() {
    assert_eq!(human_timedelta(90), "1 minute and 30 seconds");
}

#[test]
fn four_hundred_days_uses_year_then_weeks() {
    // 400 days: one 365-day year, then 35 remaining days split into
    // five weeks and zero days.
    assert_eq!(human_timedelta(400 * 86400), "1 year and 5 weeks");
}

#[test]
fn three_part_phrase() {
    // 1 year, 2 weeks and 3 days.
    let span = (365 + 14 + 3) * 86400;
    assert_eq!(human_timedelta(span), "1 year, 2 weeks and 3 days");
}

#[test]
fn singular_and_plural_units() {
    assert_eq!(human_timedelta(1), "1 second");
    assert_eq!(human_timedelta(2), "2 seconds");
    assert_eq!(human_timedelta(3661), "1 hour, 1 minute and 1 second");
}

#[test]
fn zero_units_are_omitted() {
    assert_eq!(human_timedelta(7 * 86400), "1 week");
    assert_eq!(human_timedelta(86400 + 5), "1 day and 5 seconds");
}

#[test]
fn and_comma_split_shapes() {
    let empty: Vec<String> = Vec::new();
    assert_eq!(and_comma_split(&empty), "");
    assert_eq!(and_comma_split(&vec!["a".to_string()]), "a");
    assert_eq!(and_comma_split(&vec!["a".to_string(), "b".to_string()]), "a and b");
    assert_eq!(
        and_comma_split(&vec!["a".to_string(), "b".to_string(), "c".to_string()]),
        "a, b and c"
    );
}
