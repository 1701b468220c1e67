use tasklog::date::{date_is_valid, date_string, day_number_of, parse_date, Date};

#[test]
fn day_numbers_count_leap_days() {
    let feb28 = day_number_of(&Date { year: 2024, month: 2, day: 28 });
    let mar1 = day_number_of(&Date { year: 2024, month: 3, day: 1 });
    assert_eq!(mar1 - feb28, 2);
    let feb28_plain = day_number_of(&Date { year: 2023, month: 2, day: 28 });
    let mar1_plain = day_number_of(&Date { year: 2023, month: 3, day: 1 });
    assert_eq!(mar1_plain - feb28_plain, 1);
}

#[test]
fn day_numbers_cross_year_boundary() {
    let dec31 = day_number_of(&Date { year: 2024, month: 12, day: 31 });
    let jan1 = day_number_of(&Date { year: 2025, month: 1, day: 1 });
    assert_eq!(jan1 - dec31, 1);
}

#[test]
fn day_numbers_measure_weeks() {
    let start = day_number_of(&Date { year: 2025, month: 6, day: 1 });
    let end = day_number_of(&Date { year: 2025, month: 6, day: 8 });
    assert_eq!(end - start, 7);
}

#[test]
fn century_years_follow_the_gregorian_rule() {
    assert!(date_is_valid(&Date { year: 2000, month: 2, day: 29 }));
    assert!(!date_is_valid(&Date { year: 1900, month: 2, day: 29 }));
}

#[test]
fn validity_bounds() {
    assert!(date_is_valid(&Date { year: 2025, month: 6, day: 30 }));
    assert!(!date_is_valid(&Date { year: 2025, month: 6, day: 31 }));
    assert!(!date_is_valid(&Date { year: 2025, month: 0, day: 1 }));
    assert!(!date_is_valid(&Date { year: 2025, month: 13, day: 1 }));
    assert!(!date_is_valid(&Date { year: 2025, month: 1, day: 0 }));
    assert!(!date_is_valid(&Date { year: 10000, month: 1, day: 1 }));
    assert!(date_is_valid(&Date { year: 0, month: 1, day: 1 }));
}

#[test]
fn dates_render_zero_padded() {
    assert_eq!(date_string(&Date { year: 2025, month: 6, day: 1 }), "2025-06-01");
    assert_eq!(date_string(&Date { year: 7, month: 11, day: 9 }), "0007-11-09");
}

#[test]
fn parse_whole_date_strings() {
    assert_eq!(parse_date("2025-06-01"), Some(Date { year: 2025, month: 6, day: 1 }));
    assert_eq!(parse_date("0007-11-09"), Some(Date { year: 7, month: 11, day: 9 }));
    assert_eq!(parse_date("2025-02-30"), None);
    assert_eq!(parse_date("2025-6-1"), None);
    assert_eq!(parse_date("2025-06-01 "), None);
    assert_eq!(parse_date("2025/06/01"), None);
    assert_eq!(parse_date("not a date"), None);
}
