use chrono::NaiveDate;
use clear_docker_images::calendar::Date;
use clear_docker_images::date::{
    default_window, deserialize, parse_date, parse_instant, range_window, single_window,
    DateParseError, DateSide, DateWindow, OffsetInstant,
};

const TODAY: Date = Date { year: 2023, month: 6, day: 10 };

fn resolve(input: &str) -> Result<DateWindow, DateParseError> {
    parse_date(Some(input.to_string()), TODAY)
}

fn malformed(input: &str) -> (DateSide, String) {
    match resolve(input) {
        Err(DateParseError::Malformed { side, input }) => (side, input),
        other => panic!("{:?}", other),
    }
}

fn seconds(year: i32, month: u32, day: u32, hour: u32, minute: u32, second: u32) -> i64 {
    NaiveDate::from_ymd_opt(year, month, day)
        .unwrap()
        .and_hms_opt(hour, minute, second)
        .unwrap()
        .and_utc()
        .timestamp()
}

#[test]
fn no_input_gives_two_days_ago_at_one_in_the_morning() {
    let window = parse_date(None, Date { year: 2023, month: 3, day: 1 }).unwrap();
    assert_eq!(window, DateWindow { start: 1_677_459_600, stop: None });
    let window = parse_date(None, TODAY).unwrap();
    assert_eq!(window, DateWindow { start: seconds(2023, 6, 8, 1, 0, 0), stop: None });
}

#[test]
fn the_default_window_rolls_back_over_months_and_years() {
    let cases = [
        ((2023, 3, 1), (2023, 2, 27)),
        ((2023, 3, 2), (2023, 2, 28)),
        ((2024, 3, 1), (2024, 2, 28)),
        ((2024, 3, 2), (2024, 2, 29)),
        ((2023, 1, 1), (2022, 12, 30)),
        ((2023, 1, 2), (2022, 12, 31)),
        ((2023, 5, 1), (2023, 4, 29)),
        ((1970, 1, 2), (1969, 12, 31)),
        ((1, 1, 1), (0, 12, 30)),
    ];
    for ((year, month, day), (past_year, past_month, past_day)) in cases {
        let window = default_window(Date { year, month, day }).unwrap();
        assert_eq!(window.start, seconds(past_year, past_month, past_day, 1, 0, 0));
        assert_eq!(window.stop, None);
    }
}

#[test]
fn the_default_window_counts_from_the_epoch() {
    let window = default_window(Date { year: 1970, month: 1, day: 3 }).unwrap();
    assert_eq!(window.start, 3_600);
    let window = default_window(Date { year: 1970, month: 1, day: 1 }).unwrap();
    assert_eq!(window.start, -2 * 86_400 + 3_600);
}

#[test]
fn no_default_window_without_a_supported_day_two_days_ago() {
    for today in [
        Date { year: 2023, month: 2, day: 29 },
        Date { year: 2023, month: 13, day: 1 },
        Date { year: -262143, month: 1, day: 1 },
        Date { year: -262143, month: 1, day: 2 },
        Date { year: 262143, month: 1, day: 1 },
    ] {
        match parse_date(None, today) {
            Err(DateParseError::NoDefault) => {}
            other => panic!("{:?}", other),
        }
    }
    let first = default_window(Date { year: -262143, month: 1, day: 3 }).unwrap();
    assert_eq!(first.start, seconds(-262143, 1, 1, 1, 0, 0));
}

#[test]
fn a_date_without_a_time_means_midnight() {
    assert_eq!(
        resolve("2023-01-01").unwrap(),
        DateWindow { start: 1_672_531_200, stop: None }
    );
}

#[test]
fn a_date_with_a_time() {
    assert_eq!(
        resolve("2023-01-01T12:30:15").unwrap(),
        DateWindow { start: 1_672_531_200 + 12 * 3600 + 30 * 60 + 15, stop: None }
    );
}

#[test]
fn two_dates_give_a_range_in_the_order_given() {
    assert_eq!(
        resolve("2023-01-01|2023-01-31").unwrap(),
        DateWindow { start: 1_672_531_200, stop: Some(1_675_123_200) }
    );
    assert_eq!(
        resolve("2023-01-31|2023-01-01").unwrap(),
        DateWindow { start: 1_675_123_200, stop: Some(1_672_531_200) }
    );
    assert_eq!(
        resolve("2023-01-01T06:00:00|2023-01-31").unwrap(),
        DateWindow { start: 1_672_531_200 + 6 * 3600, stop: Some(1_675_123_200) }
    );
}

#[test]
fn what_follows_a_second_separator_is_not_read() {
    assert_eq!(
        resolve("2023-01-01|2023-01-31|nonsense").unwrap(),
        DateWindow { start: 1_672_531_200, stop: Some(1_675_123_200) }
    );
}

#[test]
fn a_malformed_single_date_is_reported() {
    assert_eq!(malformed("yesterday"), (DateSide::Single, "yesterday".to_string()));
    assert_eq!(malformed(""), (DateSide::Single, "".to_string()));
    assert_eq!(malformed("2023-02-30"), (DateSide::Single, "2023-02-30".to_string()));
    assert_eq!(malformed("2023-01-01T25:00:00"), (DateSide::Single, "2023-01-01T25:00:00".to_string()));
    assert_eq!(malformed("2023-01-01 12:00:00"), (DateSide::Single, "2023-01-01 12:00:00".to_string()));
    assert_eq!(malformed("T"), (DateSide::Single, "T".to_string()));
}

#[test]
fn the_malformed_side_of_a_range_is_reported() {
    assert_eq!(malformed("bad|2023-01-31"), (DateSide::Start, "bad".to_string()));
    assert_eq!(malformed("2023-01-01|bad"), (DateSide::Stop, "bad".to_string()));
    assert_eq!(malformed("bad|worse"), (DateSide::Start, "bad".to_string()));
    assert_eq!(malformed("|2023-01-31"), (DateSide::Start, "".to_string()));
    assert_eq!(malformed("2023-01-01|"), (DateSide::Stop, "".to_string()));
    assert_eq!(malformed("|"), (DateSide::Start, "".to_string()));
    assert_eq!(malformed("2023-01-01||2023-01-31"), (DateSide::Stop, "".to_string()));
    assert_eq!(malformed("caf\u{e9}|2023-01-31"), (DateSide::Start, "caf\u{e9}".to_string()));
    assert_eq!(malformed("2023-01-01|\u{65e5}\u{4ed8}|x"), (DateSide::Stop, "\u{65e5}\u{4ed8}".to_string()));
}

#[test]
fn date_errors_name_the_side_the_forms_and_the_input() {
    let error = resolve("bad|2023-01-31").unwrap_err();
    assert_eq!(
        error.message(),
        "failed to parse from date. Verify its format (example: YYYY-MM-DD or YYYY-MM-DDTHH:MM:SS): bad"
    );
    let error = resolve("2023-01-01|worse").unwrap_err();
    assert_eq!(
        error.message(),
        "failed to parse to date. Verify its format (example: YYYY-MM-DD or YYYY-MM-DDTHH:MM:SS): worse"
    );
    let error = resolve("never").unwrap_err();
    assert_eq!(
        error.message(),
        "failed to parse date. Verify its format (example: YYYY-MM-DD or YYYY-MM-DDTHH:MM:SS): never"
    );
    assert_eq!(
        DateParseError::NoDefault.message(),
        "no date given, and two days before today is not a supported date"
    );
}

#[test]
fn instants_are_read_with_or_without_a_time() {
    assert_eq!(parse_instant("1970-01-01"), Some(0));
    assert_eq!(parse_instant("1970-01-01T00:00:01"), Some(1));
    assert_eq!(parse_instant("1969-12-31T23:59:59"), Some(-1));
    assert_eq!(parse_instant("2023-01-15"), Some(1_673_740_800));
    assert_eq!(parse_instant("2023-01-15T"), None);
    assert_eq!(parse_instant("15-01-2023x"), None);
}

#[test]
fn windows_from_instants_already_read() {
    assert_eq!(
        single_window("a", Some(5)).unwrap(),
        DateWindow { start: 5, stop: None }
    );
    match single_window("a", None) {
        Err(DateParseError::Malformed { side: DateSide::Single, input }) => assert_eq!(input, "a"),
        other => panic!("{:?}", other),
    }
    assert_eq!(
        range_window("a", Some(5), "b", Some(3)).unwrap(),
        DateWindow { start: 5, stop: Some(3) }
    );
    match range_window("a", None, "b", None) {
        Err(DateParseError::Malformed { side: DateSide::Start, input }) => assert_eq!(input, "a"),
        other => panic!("{:?}", other),
    }
    match range_window("a", Some(1), "b", None) {
        Err(DateParseError::Malformed { side: DateSide::Stop, input }) => assert_eq!(input, "b"),
        other => panic!("{:?}", other),
    }
}

#[test]
fn creation_times_carry_their_offset() {
    assert_eq!(
        deserialize("2021-01-01 00:00:00 +0100 CET").unwrap(),
        OffsetInstant { timestamp: 1_609_455_600, utc_offset: 3_600 }
    );
    assert_eq!(
        deserialize("2023-01-15 00:00:00 +0000 UTC").unwrap(),
        OffsetInstant { timestamp: 1_673_740_800, utc_offset: 0 }
    );
    assert_eq!(
        deserialize("2023-01-15 00:00:00 -0530 XYZ").unwrap(),
        OffsetInstant { timestamp: 1_673_740_800 + 5 * 3600 + 1800, utc_offset: -(5 * 3600 + 1800) }
    );
}

#[test]
fn malformed_creation_times_are_reported() {
    for text in ["", "2021-01-01", "2021-01-01 00:00:00", "2021-01-01 00:00:00 CET", "2021-13-01 00:00:00 +0100 CET"] {
        let error = deserialize(text).unwrap_err();
        assert_eq!(error.input, text);
        assert_eq!(
            error.message(),
            format!("failed to parse creation time (example: 2021-01-01 00:00:00 +0100 CET): {}", text)
        );
    }
}
