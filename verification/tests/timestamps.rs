use backtest_core::calendar::{
    civil_from_days, date_of_day, day_of_date, days_to_civil, leap_year, month_length,
};
use backtest_core::timestamp::{
    civil_from_micros, datetime_text, day_micros, day_number, extract_hour_minute, instant_shown,
    micros_from_civil, micros_to_datetime_string, parse_datetime_to_micros, reparse, DateTime,
};

fn chrono_text(micros: i64) -> String {
    let secs = micros / 1_000_000;
    let nanos = ((micros % 1_000_000).unsigned_abs() as u32) * 1000;
    chrono::DateTime::from_timestamp(secs, nanos)
        .map(|dt| dt.format("%Y-%m-%d %H:%M:%S%.6f").to_string())
        .unwrap_or_else(|| format!("ts:{}", micros))
}

fn chrono_micros(text: &str) -> i64 {
    chrono::NaiveDateTime::parse_from_str(text, "%Y-%m-%d %H:%M:%S%.f")
        .or_else(|_| chrono::NaiveDateTime::parse_from_str(text, "%Y-%m-%d %H:%M:%S"))
        .or_else(|_| chrono::NaiveDateTime::parse_from_str(text, "%Y-%m-%d %H:%M"))
        .map(|dt| dt.and_utc().timestamp_micros())
        .unwrap_or(0)
}

/// The first instant of the year after the last that chrono has.
const AFTER_CHRONO: i64 = 8_210_266_876_800_000_000;

const SAMPLES: [i64; 16] = [
    0,
    1,
    999_999,
    1_000_000,
    86_399_999_999,
    86_400_000_000,
    951_782_400_000_000,
    951_868_799_999_999,
    1_709_210_096_123_456,
    1_735_689_599_999_999,
    4_102_444_800_000_000,
    253_402_300_799_999_999,
    253_402_300_800_000_000,
    2_000_000_000_000_000_000,
    AFTER_CHRONO - 1,
    -62_167_219_200_000_000,
];

#[test]
fn formats_the_epoch() {
    assert_eq!(micros_to_datetime_string(0), "1970-01-01 00:00:00.000000");
    assert_eq!(micros_to_datetime_string(1_709_210_096_123_456), "2024-02-29 12:34:56.123456");
    assert_eq!(micros_to_datetime_string(253_402_300_799_999_999), "9999-12-31 23:59:59.999999");
}

#[test]
fn years_beyond_four_digits_carry_a_sign() {
    assert_eq!(micros_to_datetime_string(253_402_300_800_000_000), "+10000-01-01 00:00:00.000000");
    assert_eq!(micros_to_datetime_string(-62_167_219_200_000_000), "0000-01-01 00:00:00.000000");
    assert_eq!(micros_to_datetime_string(-62_167_219_200_000_000 - 1_000_000), "-0001-12-31 23:59:59.000000");
    assert_eq!(micros_to_datetime_string(i64::MAX), "+294247-01-10 04:00:54.775807");
    assert_eq!(parse_datetime_to_micros("+10000-01-01 00:00:00"), 253_402_300_800_000_000);
    assert_eq!(parse_datetime_to_micros("-0001-12-31 23:59:59"), -62_167_219_200_000_000 - 1_000_000);
    assert_eq!(parse_datetime_to_micros("+294247-01-10 04:00:54.775807"), i64::MAX);
    assert_eq!(parse_datetime_to_micros("+294247-01-10 04:00:54.775808"), 0);
    assert_eq!(parse_datetime_to_micros("+294248-01-01 00:00:00"), 0);
    assert_eq!(parse_datetime_to_micros("+99999999999999999999-01-01 00:00:00"), 0);
    assert_eq!(parse_datetime_to_micros("-262144-12-31 23:59:59"), 0);
    assert_eq!(parse_datetime_to_micros("10000-01-01 00:00:00"), 0);
}

#[test]
fn text_agrees_with_chrono() {
    for &t in SAMPLES.iter() {
        assert_eq!(micros_to_datetime_string(t), chrono_text(t), "at {}", t);
    }
    for t in [-1i64, -999_999, -1_000_000, -1_000_001, -86_400_000_000, -86_400_000_001, -62_167_219_200_000_001, i64::MIN, i64::MIN + 1] {
        assert_eq!(micros_to_datetime_string(t), chrono_text(t), "at {}", t);
    }
    let mut t: i64 = i64::MIN + 5;
    while t < AFTER_CHRONO - 90_000_000_000_123_457 {
        assert_eq!(micros_to_datetime_string(t), chrono_text(t), "at {}", t);
        t += 90_000_000_000_123_457;
    }
}

#[test]
fn parsing_agrees_with_chrono() {
    for text in [
        "1970-01-01 00:00:00",
        "2024-02-29 12:34:56",
        "2024-02-29 12:34:56.5",
        "2024-02-29 12:34:56.123456",
        "2024-02-29 12:34:56.123456789",
        "2024-02-29 12:34:56.1234567890123",
        "2000-12-31 23:59",
        "9999-12-31 23:59:59.999999",
        "1969-12-31 23:59:59",
        "1969-12-31 23:59:59.25",
        "0001-01-01 00:00:00",
        "1-1-1 0:0",
        "2024-1-05 03:04",
        "2024-01-5 3:4:5",
        "2024-01-05 3:04:05.000001",
        "2024-01-0503:04",
        "2024-01-05    03:04",
        "2024-01-05\t03:04:05",
        "2024-01-05\u{a0}03:04:05",
        "2024-01-05\u{3000}03:04:05",
        " 2024-01-01 00:00:00",
        "2024- 1- 5 3: 4: 5",
        "2024 -01-01 00:00:00",
        "2024-01-01 00:00:60",
        "2024-01-01 23:59:60.5",
        "2024-01-01 00:00:61",
        "+2024-01-01 00:00:00",
        "-2024-01-01 00:00:00",
        "+20240-01-01 00:00:00",
        "-0-1-1 0:0",
        "+262142-12-31 23:59:59.999999",
        "-262143-01-01 00:00:00",
        "-262144-01-01 00:00:00",
        "20240-01-01 00:00:00",
        "2024-123-01 00:00:00",
        "2024-02-30 00:00:00",
        "2023-02-29 00:00:00",
        "1900-02-29 00:00:00",
        "2000-02-29 00:00:00",
        "2024-13-01 00:00:00",
        "2024-00-10 00:00:00",
        "2024-01-00 00:00:00",
        "2024-01-32 00:00:00",
        "2024-01-01 24:00:00",
        "2024-01-01 00:60:00",
        "2024-01-01T00:00:00",
        "2024/01/01 00:00:00",
        "2024-01-01 00:00:00.",
        "2024-01-01 00:00:00 ",
        "2024-01-01 00:00:00.5 ",
        "2024-01-01 00:00:00. 5",
        "2024-01-01 00:00:0",
        "2024-01-01 00:00:",
        "2024-01-01 00:00:00.12x",
        "2024-01-01 00:00.5",
        "２０２４-01-01 00:00:00",
        "2024-01-01",
        "ts:-1",
        "",
        "-",
        "+",
        "+-1-01-01 00:00",
    ] {
        assert_eq!(parse_datetime_to_micros(text), chrono_micros(text), "for {:?}", text);
    }
}

#[test]
fn texts_that_were_read_as_nothing_are_read() {
    assert_eq!(parse_datetime_to_micros("1969-12-31 23:59:59"), -1_000_000);
    assert_eq!(parse_datetime_to_micros("2024-1-05 03:04"), parse_datetime_to_micros("2024-01-05 03:04:00"));
    assert_eq!(parse_datetime_to_micros("2024-01-05 03:04"), 1_704_423_840_000_000);
    assert_eq!(parse_datetime_to_micros("2024-01-01 00:00:60"), parse_datetime_to_micros("2024-01-01 00:01:00"));
}

#[test]
fn round_trip_gives_the_instant_back() {
    for &t in SAMPLES.iter() {
        if t >= 0 {
            assert_eq!(parse_datetime_to_micros(&micros_to_datetime_string(t)), t);
            assert_eq!(reparse(t), t);
        }
    }
    for t in [AFTER_CHRONO, AFTER_CHRONO + 1, i64::MAX - 1, i64::MAX] {
        assert_eq!(reparse(t), t);
    }
    let mut t: i64 = 0;
    while t < i64::MAX - 7_919_000_000_123_457 {
        assert_eq!(reparse(t), t);
        t += 7_919_000_000_123_457;
    }
}

#[test]
fn before_the_epoch_the_text_is_that_of_the_instant_shown() {
    assert_eq!(instant_shown(-1), 1);
    assert_eq!(instant_shown(-1_000_000), -1_000_000);
    assert_eq!(instant_shown(-1_000_001), -999_999);
    assert_eq!(micros_to_datetime_string(-1), "1970-01-01 00:00:00.000001");
    assert_eq!(micros_to_datetime_string(-1_000_001), "1969-12-31 23:59:59.000001");
    assert_eq!(reparse(-1), 1);
    assert_eq!(reparse(-1_000_000), -1_000_000);
    assert_eq!(reparse(-86_400_000_000), -86_400_000_000);
}

#[test]
fn before_the_calendar_falls_back_to_the_number() {
    assert_eq!(micros_to_datetime_string(i64::MIN), "ts:-9223372036854775808");
    assert_eq!(micros_to_datetime_string(-8_334_601_228_801_000_000), "ts:-8334601228801000000");
    assert_eq!(micros_to_datetime_string(-8_334_601_228_800_999_999), "-262143-01-01 00:00:00.999999");
    assert_eq!(micros_to_datetime_string(-8_334_601_228_800_000_000), "-262143-01-01 00:00:00.000000");
    for t in [-8_334_601_228_801_000_001i64, -8_334_601_228_801_000_000, -8_334_601_228_800_999_999, -8_334_601_228_800_000_000] {
        assert_eq!(micros_to_datetime_string(t), chrono_text(t), "at {}", t);
    }
    assert_eq!(reparse(i64::MIN), 0);
    assert_eq!(reparse(-8_334_601_228_800_000_000), -8_334_601_228_800_000_000);
    assert_eq!(parse_datetime_to_micros("ts:-1"), 0);
}

#[test]
fn calendar_fields_and_back() {
    let c = civil_from_micros(1_709_210_096_123_456);
    assert_eq!(
        c,
        DateTime { year: 2024, month: 2, day: 29, hour: 12, minute: 34, second: 56, micros: 123_456 }
    );
    assert_eq!(micros_from_civil(&c), Some(1_709_210_096_123_456));
    assert_eq!(datetime_text(&c), "2024-02-29 12:34:56.123456");
    let leap = DateTime { second: 60, ..c };
    assert_eq!(micros_from_civil(&leap), Some(1_709_210_100_123_456));
    let late = DateTime { year: 294_247, month: 1, day: 10, hour: 4, minute: 0, second: 54, micros: 775_808 };
    assert_eq!(micros_from_civil(&late), None);
    assert_eq!(civil_from_micros(-1), DateTime { year: 1969, month: 12, day: 31, hour: 23, minute: 59, second: 59, micros: 999_999 });
    assert_eq!(civil_from_days(0), (1970, 1, 1));
    assert_eq!(civil_from_days(19_782), (2024, 2, 29));
    assert_eq!(civil_from_days(2_932_896), (9999, 12, 31));
    assert_eq!(civil_from_days(2_932_897), (10000, 1, 1));
    assert_eq!(days_to_civil(2000, 3, 1), 11_017);
    assert_eq!(date_of_day(-1), (1969, 12, 31));
    assert_eq!(date_of_day(-719_528), (0, 1, 1));
    assert_eq!(date_of_day(-719_529), (-1, 12, 31));
    assert_eq!(date_of_day(-96_465_292), (-262_143, 1, 1));
    assert_eq!(date_of_day(106_751_991), (294_247, 1, 10));
    assert_eq!(day_of_date(-262_143, 1, 1), -96_465_292);
    assert_eq!(day_of_date(1600, 2, 29), date_of_day_back(1600, 2, 29));
    for day in [-106_751_992i64, -50_000_000, -719_529, -1, 0, 59, 60, 365, 11_016, 50_000_000, 106_751_991] {
        let (y, m, d) = date_of_day(day);
        assert_eq!(day_of_date(y, m, d), day);
    }
    assert!(leap_year(2000) && leap_year(2024) && !leap_year(1900) && !leap_year(2023));
    assert_eq!((month_length(2024, 2), month_length(2023, 2), month_length(2023, 4), month_length(2023, 12)), (29, 28, 30, 31));
}

fn date_of_day_back(y: i32, m: u32, d: u32) -> i64 {
    let date = chrono::NaiveDate::from_ymd_opt(y, m, d).unwrap();
    date.signed_duration_since(chrono::NaiveDate::from_ymd_opt(1970, 1, 1).unwrap()).num_days()
}

#[test]
fn time_of_day_before_and_after_the_epoch() {
    assert_eq!(extract_hour_minute(0), (0, 0));
    assert_eq!(extract_hour_minute(1_709_210_096_123_456), (12, 34));
    assert_eq!(extract_hour_minute(-1), (23, 59));
    assert_eq!(day_number(-1), -1);
    assert_eq!(day_number(-86_400_000_000), -1);
    assert_eq!(day_number(-86_400_000_001), -2);
    assert_eq!(day_number(86_400_000_000), 1);
    assert_eq!(day_micros(-1), 86_399_999_999);
    assert_eq!(day_micros(86_400_000_001), 1);
}
