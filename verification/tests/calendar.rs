use price_oracle::calendar::{days_from_civil, parse_date_to_timestamp};
use price_oracle::text::{contains_char, parse_unsigned, push_decimal, split_fields, split_lines};

fn chars(s: &str) -> Vec<char> {
    s.chars().collect()
}

#[test]
fn epoch_is_day_zero() {
    assert_eq!(days_from_civil(1970, 1, 1), 0);
    assert_eq!(days_from_civil(1970, 1, 2), 1);
    assert_eq!(days_from_civil(1969, 12, 31), -1);
}

#[test]
fn known_days() {
    assert_eq!(days_from_civil(2009, 1, 3), 14247);
    assert_eq!(days_from_civil(2000, 2, 29), 11016);
    assert_eq!(days_from_civil(2000, 3, 1), 11017);
    assert_eq!(days_from_civil(1900, 2, 28) + 1, days_from_civil(1900, 3, 1));
    assert_eq!(days_from_civil(0, 3, 1), -719468);
    assert_eq!(days_from_civil(-1, 12, 31) + 1, days_from_civil(0, 1, 1));
}

#[test]
fn days_run_on_through_four_centuries() {
    let lengths = [31, 28, 31, 30, 31, 30, 31, 31, 30, 31, 30, 31];
    let mut expected = days_from_civil(1800, 1, 1);
    for year in 1800..2200 {
        let leap = year % 4 == 0 && (year % 100 != 0 || year % 400 == 0);
        for month in 1..=12u32 {
            let mut length = lengths[(month - 1) as usize];
            if month == 2 && leap {
                length = 29;
            }
            for day in 1..=length {
                assert_eq!(days_from_civil(year, month, day), expected);
                expected += 1;
            }
        }
    }
}

#[test]
fn months_outside_the_year() {
    assert_eq!(days_from_civil(2000, 13, 1), 11017 + (153 * 10 + 2) / 5);
    assert_eq!(days_from_civil(2000, 0, 1), 10957 - 31);
}

#[test]
fn dates_are_read() {
    assert_eq!(parse_date_to_timestamp("1970-01-01"), Some(0));
    assert_eq!(parse_date_to_timestamp("2009-01-03"), Some(1230940800));
    assert_eq!(parse_date_to_timestamp("2024-02-29"), Some(1709164800));
    assert_eq!(parse_date_to_timestamp("2024-2-9"), Some(1707436800));
    assert_eq!(parse_date_to_timestamp("+2024-+2-+9"), Some(1707436800));
}

#[test]
fn a_day_past_its_month_counts_on() {
    assert_eq!(parse_date_to_timestamp("2023-02-31"), parse_date_to_timestamp("2023-03-03"));
}

#[test]
fn timestamps_wrap_around() {
    assert_eq!(parse_date_to_timestamp("1969-12-31"), Some(4294880896));
    assert_eq!(parse_date_to_timestamp("2106-02-07"), Some(4294944000));
    assert_eq!(parse_date_to_timestamp("2106-02-08"), Some(63104));
}

#[test]
fn what_is_no_date_is_refused() {
    for text in [
        "", "-", "--", "2024", "2024-01", "2024-01-02-03", "2024-00-01", "2024-13-01", "2024-01-00",
        "2024-01-32", "2024-1a-01", "-2024-01-01", "2024-01-01 ", " 2024-01-01", "2147483648-01-01",
        "2024-4294967296-01", "+-1-1", "2024/01/01",
    ] {
        assert_eq!(parse_date_to_timestamp(text), None);
    }
    assert!(parse_date_to_timestamp("2147483647-12-31").is_some());
}

#[test]
fn days_of_a_week_are_a_day_apart() {
    let monday = parse_date_to_timestamp("2021-05-31").unwrap();
    assert_eq!(parse_date_to_timestamp("2021-06-01"), Some(monday + 86400));
}

#[test]
fn unsigned_numbers() {
    assert_eq!(parse_unsigned(&chars("0"), 10), Some(0));
    assert_eq!(parse_unsigned(&chars("+7"), 10), Some(7));
    assert_eq!(parse_unsigned(&chars("00010"), 10), Some(10));
    assert_eq!(parse_unsigned(&chars("11"), 10), None);
    assert_eq!(parse_unsigned(&chars("9"), 8), None);
    assert_eq!(parse_unsigned(&chars(""), 10), None);
    assert_eq!(parse_unsigned(&chars("+"), 10), None);
    assert_eq!(parse_unsigned(&chars("++1"), 10), None);
    assert_eq!(parse_unsigned(&chars("-1"), 10), None);
    assert_eq!(parse_unsigned(&chars("1 "), 10), None);
    assert_eq!(parse_unsigned(&chars("18446744073709551615"), u64::MAX), Some(u64::MAX));
    assert_eq!(parse_unsigned(&chars("18446744073709551616"), u64::MAX), None);
}

#[test]
fn unsigned_numbers_agree_with_the_standard_library() {
    for text in ["0", "+0", "4294967295", "4294967296", "12x", "+", "", "007", "-0", "99999999999999"] {
        let expected = text.parse::<u32>().ok().map(|v| v as u64);
        assert_eq!(parse_unsigned(&chars(text), u32::MAX as u64), expected);
    }
}

#[test]
fn decimal_text() {
    for n in [0usize, 7, 10, 99, 100, 850_123, usize::MAX] {
        let mut out = String::from("n=");
        push_decimal(&mut out, n);
        assert_eq!(out, format!("n={}", n));
        assert_eq!(parse_unsigned(&chars(&out[2..]), u64::MAX), Some(n as u64));
    }
}

#[test]
fn fields_agree_with_the_standard_library() {
    for text in ["", "-", "a", "a-b", "-a-", "a--b", "\u{e9}-\u{20ac}"] {
        let expected: Vec<Vec<char>> = text.split('-').map(chars).collect();
        assert_eq!(split_fields(text, '-'), expected);
        assert_eq!(contains_char(text, '-'), text.contains('-'));
    }
}

#[test]
fn lines_agree_with_the_standard_library() {
    for text in ["", "\n", "a", "a\n", "a\nb", "a\r\nb\r\n", "\n\na", "a\r", "a\r\r\n", "\r\n", "a\rb\n"] {
        let expected: Vec<Vec<char>> = text.lines().map(chars).collect();
        assert_eq!(split_lines(text), expected);
    }
}
