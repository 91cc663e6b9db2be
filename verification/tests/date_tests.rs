use hotel_analytics::date::{day_number, parse_date, Date};

#[test]
fn parses_a_plain_date() {
    let d = parse_date("2024-01-04").unwrap();
    assert_eq!(d, Date { year: 2024, month: 1, day: 4 });
}

#[test]
fn parses_leap_day_in_leap_year() {
    let d = parse_date("2024-02-29").unwrap();
    assert_eq!(d, Date { year: 2024, month: 2, day: 29 });
}

#[test]
fn rejects_leap_day_outside_leap_year() {
    assert!(parse_date("2023-02-29").is_none());
    assert!(parse_date("1900-02-29").is_none());
    assert!(parse_date("2000-02-29").is_some());
}

#[test]
fn rejects_out_of_range_fields() {
    assert!(parse_date("2024-00-10").is_none());
    assert!(parse_date("2024-13-10").is_none());
    assert!(parse_date("2024-04-31").is_none());
    assert!(parse_date("2024-04-00").is_none());
}

#[test]
fn rejects_strings_outside_the_grammar() {
    assert!(parse_date("").is_none());
    assert!(parse_date("2024-1-04").is_none());
    assert!(parse_date("2024/01/04").is_none());
    assert!(parse_date("24-001-04").is_none());
    assert!(parse_date("2024-01-04 ").is_none());
    assert!(parse_date("not a date").is_none());
}

#[test]
fn day_difference_within_a_month() {
    let a = day_number(&parse_date("2024-01-01").unwrap());
    let b = day_number(&parse_date("2024-01-04").unwrap());
    assert_eq!(b - a, 3);
}

#[test]
fn day_difference_across_month_and_year_ends() {
    let a = day_number(&parse_date("2023-12-31").unwrap());
    let b = day_number(&parse_date("2024-01-01").unwrap());
    assert_eq!(b - a, 1);
    let c = day_number(&parse_date("2024-02-28").unwrap());
    let d = day_number(&parse_date("2024-03-01").unwrap());
    assert_eq!(d - c, 2);
    let e = day_number(&parse_date("2023-02-28").unwrap());
    let f = day_number(&parse_date("2023-03-01").unwrap());
    assert_eq!(f - e, 1);
}

#[test]
fn day_number_of_a_full_leap_cycle() {
    let a = day_number(&parse_date("2000-03-01").unwrap());
    let b = day_number(&parse_date("2400-03-01").unwrap());
    assert_eq!(b - a, 146097);
}
