use agenda::parse::{deadline_from_fields, parse_date, parse_fields, ParseError};
use agenda::timestamp::Timestamp;

fn fields_of(t: Timestamp) -> (i32, u32, u32, u32, u32, u32, u32) {
    (t.year(), t.month(), t.day(), t.hour(), t.minute(), t.second(), t.nanosecond())
}

fn parsed(text: &str) -> (i32, u32, u32, u32, u32, u32, u32) {
    fields_of(parse_date(text).unwrap())
}

#[test]
fn date_alone_means_end_of_day() {
    assert_eq!(parsed("5 6 2024"), (2024, 6, 5, 23, 59, 59, 0));
}

#[test]
fn hour_alone_means_end_of_hour() {
    assert_eq!(parsed("5 6 2024 9"), (2024, 6, 5, 9, 59, 59, 0));
}

#[test]
fn hour_and_minute_mean_end_of_minute() {
    assert_eq!(parsed("5 6 2024 9 30"), (2024, 6, 5, 9, 30, 59, 0));
}

#[test]
fn full_time_is_taken_as_given() {
    assert_eq!(parsed("5 6 2024 9 30 15"), (2024, 6, 5, 9, 30, 15, 0));
}

#[test]
fn midnight_is_a_time() {
    assert_eq!(parsed("1 1 2024 0 0 0"), (2024, 1, 1, 0, 0, 0, 0));
}

#[test]
fn february_31_is_no_date() {
    assert_eq!(parse_date("31 2 2024"), Err(ParseError::InvalidDate));
}

#[test]
fn two_numbers_are_too_few() {
    assert_eq!(parse_date("5 6"), Err(ParseError::MissingDateComponents));
}

#[test]
fn no_numbers_are_too_few() {
    assert_eq!(parse_date(""), Err(ParseError::MissingDateComponents));
    assert_eq!(parse_date("   \t\n"), Err(ParseError::MissingDateComponents));
    assert_eq!(parse_date("5"), Err(ParseError::MissingDateComponents));
}

#[test]
fn a_word_is_no_number() {
    assert_eq!(parse_date("5 june 2024"), Err(ParseError::InvalidNumber));
    assert_eq!(parse_date("5 6 2024 9h"), Err(ParseError::InvalidNumber));
    assert_eq!(parse_date("5.0 6 2024"), Err(ParseError::InvalidNumber));
}

#[test]
fn a_negative_number_is_no_number() {
    assert_eq!(parse_date("-5 6 2024"), Err(ParseError::InvalidNumber));
    assert_eq!(parse_date("5 6 -2024"), Err(ParseError::InvalidNumber));
    assert_eq!(parse_date("- 6 2024"), Err(ParseError::InvalidNumber));
}

#[test]
fn a_plus_sign_may_stand_before_the_digits() {
    assert_eq!(parsed("+5 +6 +2024"), (2024, 6, 5, 23, 59, 59, 0));
    assert_eq!(parse_date("+ 6 2024"), Err(ParseError::InvalidNumber));
    assert_eq!(parse_date("++5 6 2024"), Err(ParseError::InvalidNumber));
    assert_eq!(parse_date("5+ 6 2024"), Err(ParseError::InvalidNumber));
}

#[test]
fn leading_zeros_are_digits() {
    assert_eq!(parsed("05 06 2024 09 05 07"), (2024, 6, 5, 9, 5, 7, 0));
    assert_eq!(parsed("0000000000000005 6 2024"), (2024, 6, 5, 23, 59, 59, 0));
}

#[test]
fn a_number_beyond_32_bits_is_no_number() {
    assert_eq!(parse_date("4294967296 6 2024"), Err(ParseError::InvalidNumber));
    assert_eq!(parse_date("5 6 99999999999999999999"), Err(ParseError::InvalidNumber));
    assert_eq!(parse_date("4294967295 6 2024"), Err(ParseError::InvalidDate));
}

#[test]
fn other_digits_are_no_digits() {
    assert_eq!(parse_date("\u{0665} 6 2024"), Err(ParseError::InvalidNumber));
    assert_eq!(parse_date("\u{ff15} 6 2024"), Err(ParseError::InvalidNumber));
}

#[test]
fn a_bad_token_counts_wherever_it_stands() {
    assert_eq!(parse_date("x 6"), Err(ParseError::InvalidNumber));
    assert_eq!(parse_date("5 6 2024 9 30 15 zz"), Err(ParseError::InvalidNumber));
    assert_eq!(parse_date("31 2 2024 x"), Err(ParseError::InvalidNumber));
}

#[test]
fn numbers_after_the_sixth_are_ignored() {
    assert_eq!(parsed("5 6 2024 9 30 15 77 4000000000"), (2024, 6, 5, 9, 30, 15, 0));
}

#[test]
fn any_white_space_separates() {
    assert_eq!(parsed("  5\t6\n2024  "), (2024, 6, 5, 23, 59, 59, 0));
    assert_eq!(parsed("5\u{3000}6\u{a0}2024\u{2003}7"), (2024, 6, 5, 7, 59, 59, 0));
    assert_eq!(parsed("5\u{b}6\u{c}2024\r\n8\u{85}9\u{1680}10"), (2024, 6, 5, 8, 9, 10, 0));
    assert_eq!(parsed("5\u{2028}6\u{2029}2024\u{202f}1\u{205f}2"), (2024, 6, 5, 1, 2, 59, 0));
}

#[test]
fn what_is_no_white_space_does_not_separate() {
    assert_eq!(parse_date("5\u{200b}6 2024"), Err(ParseError::InvalidNumber));
    assert_eq!(parse_date("5\u{1c}6 7 2024"), Err(ParseError::InvalidNumber));
    assert_eq!(parse_date("5,6,2024"), Err(ParseError::InvalidNumber));
}

#[test]
fn the_date_is_checked_before_the_time() {
    assert_eq!(parse_date("31 2 2024 99"), Err(ParseError::InvalidDate));
}

#[test]
fn hour_24_is_no_time() {
    assert_eq!(parse_date("5 6 2024 24"), Err(ParseError::InvalidTime));
    assert_eq!(parsed("5 6 2024 23"), (2024, 6, 5, 23, 59, 59, 0));
}

#[test]
fn minute_60_is_no_time() {
    assert_eq!(parse_date("5 6 2024 9 60"), Err(ParseError::InvalidTime));
    assert_eq!(parsed("5 6 2024 9 59"), (2024, 6, 5, 9, 59, 59, 0));
}

#[test]
fn second_60_is_no_time() {
    assert_eq!(parse_date("5 6 2024 9 30 60"), Err(ParseError::InvalidTime));
    assert_eq!(parsed("5 6 2024 9 30 59"), (2024, 6, 5, 9, 30, 59, 0));
}

#[test]
fn months_and_days_start_at_one() {
    assert_eq!(parse_date("0 6 2024"), Err(ParseError::InvalidDate));
    assert_eq!(parse_date("5 0 2024"), Err(ParseError::InvalidDate));
    assert_eq!(parse_date("5 13 2024"), Err(ParseError::InvalidDate));
    assert_eq!(parse_date("32 1 2024"), Err(ParseError::InvalidDate));
}

#[test]
fn months_have_their_lengths() {
    let lengths = [31u32, 28, 31, 30, 31, 30, 31, 31, 30, 31, 30, 31];
    for (at, length) in lengths.iter().enumerate() {
        let month = at as u32 + 1;
        let last = format!("{} {} 2023", length, month);
        let beyond = format!("{} {} 2023", length + 1, month);
        assert_eq!(parsed(&last), (2023, month, *length, 23, 59, 59, 0));
        assert_eq!(parse_date(&beyond), Err(ParseError::InvalidDate));
    }
}

#[test]
fn leap_years_follow_the_gregorian_rule() {
    assert_eq!(parsed("29 2 2024"), (2024, 2, 29, 23, 59, 59, 0));
    assert_eq!(parsed("29 2 2000"), (2000, 2, 29, 23, 59, 59, 0));
    assert_eq!(parsed("29 2 0"), (0, 2, 29, 23, 59, 59, 0));
    assert_eq!(parse_date("29 2 2023"), Err(ParseError::InvalidDate));
    assert_eq!(parse_date("29 2 1900"), Err(ParseError::InvalidDate));
    assert_eq!(parse_date("29 2 2100"), Err(ParseError::InvalidDate));
    assert_eq!(parse_date("30 2 2024"), Err(ParseError::InvalidDate));
}

#[test]
fn years_end_at_the_calendar_limits() {
    assert_eq!(parsed("31 12 262142"), (262142, 12, 31, 23, 59, 59, 0));
    assert_eq!(parse_date("1 1 262143"), Err(ParseError::InvalidDate));
    assert_eq!(parse_date("1 1 2147483647"), Err(ParseError::InvalidDate));
}

#[test]
fn the_upper_half_of_the_range_names_years_before_zero() {
    assert_eq!(parsed("1 1 4294967295"), (-1, 1, 1, 23, 59, 59, 0));
    assert_eq!(parsed("29 2 4294967292"), (-4, 2, 29, 23, 59, 59, 0));
    assert_eq!(parse_date("29 2 4294967295"), Err(ParseError::InvalidDate));
    assert_eq!(parsed("1 1 4294705153"), (-262143, 1, 1, 23, 59, 59, 0));
    assert_eq!(parse_date("1 1 4294705152"), Err(ParseError::InvalidDate));
    assert_eq!(parse_date("1 1 2147483648"), Err(ParseError::InvalidDate));
}

#[test]
fn parse_fields_reads_every_token() {
    assert_eq!(parse_fields("5 6 2024"), Some(vec![5, 6, 2024]));
    assert_eq!(parse_fields(""), Some(vec![]));
    assert_eq!(parse_fields(" 0 4294967295 +7 007 "), Some(vec![0, 4294967295, 7, 7]));
    assert_eq!(parse_fields("1 2 x 3"), None);
    assert_eq!(parse_fields("1 2 3 -"), None);
}

#[test]
fn deadline_from_fields_defaults_what_is_left_out() {
    let t = deadline_from_fields(&vec![5, 6, 2024, 9]).unwrap();
    assert_eq!(fields_of(t), (2024, 6, 5, 9, 59, 59, 0));
    assert_eq!(deadline_from_fields(&vec![]), Err(ParseError::MissingDateComponents));
    assert_eq!(deadline_from_fields(&vec![5, 6]), Err(ParseError::MissingDateComponents));
    assert_eq!(deadline_from_fields(&vec![31, 4, 2024]), Err(ParseError::InvalidDate));
    assert_eq!(deadline_from_fields(&vec![5, 6, 2024, 9, 30, 61]), Err(ParseError::InvalidTime));
}

#[test]
fn parse_date_agrees_with_the_calendar_on_every_day_of_some_years() {
    for year in [1899i32, 1900, 2000, 2023, 2024, 2100] {
        for month in 0u32..14 {
            for day in 0u32..33 {
                let text = format!("{} {} {}", day, month, year);
                let expected = chrono::NaiveDate::from_ymd_opt(year, month, day).is_some();
                assert_eq!(parse_date(&text).is_ok(), expected);
            }
        }
    }
}
