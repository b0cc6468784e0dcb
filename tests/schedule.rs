use std::collections::HashMap;

use chrono::{Datelike, NaiveDate};
use tkbsv::calendar::{get_period_time, parse_weekday, to_utc, ClockTime, Date, Weekday};
use tkbsv::parse_list_uint;
use tkbsv::place::{parse_place_rule, PlaceResolution};
use tkbsv::rule::{
    parse_date_range, parse_time_rule, parse_weekday_and_period, DateRange, ParseError,
    WeekdayPeriod,
};
use tkbsv::schedule::{expand, parse_table_row, weekly_dates, Data};

fn day(y: i32, m: u32, d: u32) -> Date {
    Date { day: NaiveDate::from_ymd_opt(y, m, d).unwrap().num_days_from_ce() }
}

fn utc(y: i32, mo: u32, d: u32, h: u32, mi: u32) -> i64 {
    NaiveDate::from_ymd_opt(y, mo, d)
        .unwrap()
        .and_hms_opt(h, mi, 0)
        .unwrap()
        .and_utc()
        .timestamp()
}

const WEEKDAYS: [Weekday; 7] = [
    Weekday::Mon,
    Weekday::Tue,
    Weekday::Wed,
    Weekday::Thu,
    Weekday::Fri,
    Weekday::Sat,
    Weekday::Sun,
];

#[test]
fn period_table_published_values() {
    assert_eq!(
        get_period_time(1),
        (ClockTime { hour: 7, minute: 0 }, ClockTime { hour: 7, minute: 45 })
    );
    assert_eq!(
        get_period_time(9),
        (ClockTime { hour: 14, minute: 10 }, ClockTime { hour: 14, minute: 55 })
    );
    assert_eq!(
        get_period_time(12),
        (ClockTime { hour: 15, minute: 45 }, ClockTime { hour: 17, minute: 30 })
    );
    assert_eq!(
        get_period_time(16),
        (ClockTime { hour: 20, minute: 30 }, ClockTime { hour: 21, minute: 15 })
    );
}

#[test]
fn period_table_unknown_period_is_trailing_slot() {
    let tail = (ClockTime { hour: 21, minute: 15 }, ClockTime { hour: 21, minute: 20 });
    assert_eq!(get_period_time(0), tail);
    assert_eq!(get_period_time(17), tail);
    assert_eq!(get_period_time(u32::MAX), tail);
}

#[test]
fn every_period_starts_before_it_ends() {
    for n in 1..=16u32 {
        let (s, e) = get_period_time(n);
        assert!(s.hour * 60 + s.minute < e.hour * 60 + e.minute, "period {}", n);
    }
}

#[test]
fn list_uint_reads_digit_runs() {
    assert_eq!(parse_list_uint("9,10,11,12 (TH)"), vec![9, 10, 11, 12]);
    assert_eq!(parse_list_uint(" 1, 2 ,3"), vec![1, 2, 3]);
    assert_eq!(parse_list_uint(""), Vec::<u32>::new());
    assert_eq!(parse_list_uint("abc"), Vec::<u32>::new());
    assert_eq!(parse_list_uint("007x4294967295"), vec![7, 4294967295]);
}

#[test]
fn list_uint_drops_runs_too_large_for_u32() {
    assert_eq!(parse_list_uint("4294967296,5"), vec![5]);
    assert_eq!(parse_list_uint("99999999999999999999999 3"), vec![3]);
}

#[test]
fn weekday_codes() {
    assert_eq!(parse_weekday("2"), Weekday::Mon);
    assert_eq!(parse_weekday(" 3 "), Weekday::Tue);
    assert_eq!(parse_weekday("4"), Weekday::Wed);
    assert_eq!(parse_weekday("5"), Weekday::Thu);
    assert_eq!(parse_weekday("6"), Weekday::Fri);
    assert_eq!(parse_weekday("7"), Weekday::Sat);
    assert_eq!(parse_weekday("8"), Weekday::Sun);
    assert_eq!(parse_weekday("1"), Weekday::Sun);
    assert_eq!(parse_weekday("02"), Weekday::Mon);
    assert_eq!(parse_weekday("4 and 5"), Weekday::Wed);
}

#[test]
fn weekday_without_digits_is_sunday() {
    assert_eq!(parse_weekday(""), Weekday::Sun);
    assert_eq!(parse_weekday("CN"), Weekday::Sun);
    let e = parse_weekday_and_period("Thứ CN tiết 1,2");
    assert_eq!(
        e,
        vec![WeekdayPeriod { weekday: Weekday::Sun, period_start: 1, period_end: 2 }]
    );
}

#[test]
fn day_numbers_and_weekdays() {
    assert_eq!(Date { day: 1 }.weekday(), Weekday::Mon);
    assert_eq!(Date { day: 0 }.weekday(), Weekday::Sun);
    assert_eq!(Date { day: -6 }.weekday(), Weekday::Mon);
    assert_eq!(day(2022, 5, 30).weekday(), Weekday::Mon);
    assert_eq!(day(2022, 6, 1).weekday(), Weekday::Wed);
    assert_eq!(day(1970, 1, 1).weekday(), Weekday::Thu);
}

#[test]
fn to_utc_subtracts_seven_hours() {
    assert_eq!(to_utc(0), -25_200);
    assert_eq!(to_utc(25_200), 0);
    assert_eq!(to_utc(1_654_067_400), 1_654_042_200);
}

#[test]
fn date_range_is_read_with_chrono() {
    let r = parse_date_range("30/05/2022 đến 05/06/2022").unwrap();
    assert_eq!(r, DateRange { start: day(2022, 5, 30), end: day(2022, 6, 5) });
    let r = parse_date_range("  1/1/2023   đến 2/1/2023 ").unwrap();
    assert_eq!(r, DateRange { start: day(2023, 1, 1), end: day(2023, 1, 2) });
}

#[test]
fn malformed_date_range() {
    assert_eq!(parse_date_range("30/05/2022 - 05/06/2022"), Err(ParseError::MalformedRange));
    assert_eq!(parse_date_range("32/05/2022 đến 05/06/2022"), Err(ParseError::MalformedRange));
    assert_eq!(parse_date_range("30/05/2022 đến 2022-06-05"), Err(ParseError::MalformedRange));
    assert_eq!(parse_date_range("30/02/2022 đến 05/06/2022"), Err(ParseError::MalformedRange));
}

#[test]
fn weekly_expansion_counts_and_days() {
    // 2022-05-30 is a Monday; 2022-06-27 is four weeks later.
    let range = DateRange { start: day(2022, 5, 30), end: day(2022, 6, 27) };
    let wed = weekly_dates(range, Weekday::Wed);
    assert_eq!(wed, vec![day(2022, 6, 1), day(2022, 6, 8), day(2022, 6, 15), day(2022, 6, 22)]);
    // the end is excluded: only four Mondays
    let mon = weekly_dates(range, Weekday::Mon);
    assert_eq!(mon.len(), 4);
    assert_eq!(mon[0], day(2022, 5, 30));
    for wd in WEEKDAYS {
        for d in weekly_dates(range, wd) {
            assert!(range.start.day <= d.day && d.day < range.end.day);
            assert_eq!(d.weekday(), wd);
        }
    }
}

#[test]
fn weekly_expansion_count_formula() {
    // start Monday 2022-05-30, end Friday 2022-06-10: end - first is not a whole number of weeks
    let range = DateRange { start: day(2022, 5, 30), end: day(2022, 6, 10) };
    for wd in WEEKDAYS {
        let days = weekly_dates(range, wd);
        let first = range.start.day + wd as i32;
        let expected = if first >= range.end.day {
            0
        } else {
            ((range.end.day - first - 1) / 7 + 1) as usize
        };
        assert_eq!(days.len(), expected, "{:?}", wd);
    }
}

#[test]
fn empty_range_has_no_occurrence() {
    let d = day(2022, 6, 1);
    let range = DateRange { start: d, end: d };
    for wd in WEEKDAYS {
        assert!(weekly_dates(range, wd).is_empty());
        let e = WeekdayPeriod { weekday: wd, period_start: 1, period_end: 2 };
        assert!(expand(range, e).is_empty());
    }
    let row = parse_table_row("C", "Từ 01/06/2022 đến 01/06/2022: Thứ 4 tiết 1,2", "R").unwrap();
    assert!(row.is_empty());
}

#[test]
fn expand_gives_wall_clock_pairs() {
    let range = DateRange { start: day(2022, 5, 30), end: day(2022, 6, 5) };
    let e = WeekdayPeriod { weekday: Weekday::Wed, period_start: 9, period_end: 12 };
    let pairs = expand(range, e);
    assert_eq!(pairs, vec![(utc(2022, 6, 1, 14, 10), utc(2022, 6, 1, 17, 30))]);
}

#[test]
fn single_wednesday_in_range() {
    let rows = parse_table_row(
        "Lập trình",
        "Từ 30/05/2022 đến 05/06/2022: Thứ 4 tiết 9,10,11,12 (TH)",
        "201-TA4-CNTT TA4",
    )
    .unwrap();
    assert_eq!(
        rows,
        vec![Data {
            class: "Lập trình".to_string(),
            time_begin: utc(2022, 6, 1, 7, 10),
            time_end: utc(2022, 6, 1, 10, 30),
            place: "201-TA4-CNTT TA4".to_string(),
        }]
    );
}

#[test]
fn place_groups_by_index() {
    let p = parse_place_rule("(1,2,3)201-TA3-CNTT TA3(4,5)201-TA4-CNTT TA4");
    let mut expected = HashMap::new();
    for i in 1..=3u32 {
        expected.insert(i, "201-TA3-CNTT TA3".to_string());
    }
    for i in 4..=5u32 {
        expected.insert(i, "201-TA4-CNTT TA4".to_string());
    }
    assert_eq!(p, PlaceResolution::ByGroup(expected));
}

#[test]
fn default_place_for_every_block() {
    let p = parse_place_rule("201-TA4-CNTT TA4");
    assert_eq!(p, PlaceResolution::Default("201-TA4-CNTT TA4".to_string()));
    let rows = parse_table_row(
        "C",
        "Từ 30/05/2022 đến 05/06/2022: Thứ 4 tiết 1 Từ 06/06/2022 đến 12/06/2022: Thứ 6 tiết 2",
        "201-TA4-CNTT TA4",
    )
    .unwrap();
    assert_eq!(rows.len(), 2);
    for r in &rows {
        assert_eq!(r.place(), "201-TA4-CNTT TA4");
        assert_eq!(r.class(), "C");
    }
}

#[test]
fn default_place_is_trimmed() {
    assert_eq!(
        parse_place_rule("  \n 201-TA4 \t"),
        PlaceResolution::Default("201-TA4".to_string())
    );
    assert_eq!(parse_place_rule(""), PlaceResolution::Default(String::new()));
}

#[test]
fn place_rule_form() {
    assert!(matches!(parse_place_rule("no group here"), PlaceResolution::Default(_)));
    match parse_place_rule("x(7)Lab") {
        PlaceResolution::ByGroup(m) => {
            assert_eq!(m.len(), 1);
            assert_eq!(m.get(&7).unwrap(), "Lab");
        }
        other => panic!("{:?}", other),
    }
    // a parenthesis without any index/place pair still selects the group table
    assert_eq!(parse_place_rule("(abc"), PlaceResolution::ByGroup(HashMap::new()));
}

#[test]
fn later_place_overrides_earlier_for_same_index() {
    let p = parse_place_rule("(1,2)A(2)B");
    let mut expected = HashMap::new();
    expected.insert(1u32, "A".to_string());
    expected.insert(2u32, "B".to_string());
    assert_eq!(p, PlaceResolution::ByGroup(expected));
    assert_eq!(p.place_for(2), "B");
    assert_eq!(p.place_for(1), "A");
    assert_eq!(p.place_for(3), "");
    assert_eq!(p.place_for(u64::MAX), "");
}

#[test]
fn blocks_take_places_by_position() {
    let times = "Từ 30/05/2022 đến 05/06/2022:\n Thứ 2 tiết 1,2\nTừ 06/06/2022 đến 12/06/2022:\n Thứ 3 tiết 3,4\nTừ 13/06/2022 đến 19/06/2022:\n Thứ 4 tiết 5";
    let rows = parse_table_row("C", times, "(1)Room A(2,3)Room B").unwrap();
    let places: Vec<String> = rows.iter().map(|r| r.place()).collect();
    assert_eq!(places, vec!["Room A", "Room B", "Room B"]);
    assert_eq!(rows[0].time_begin, utc(2022, 5, 30, 0, 0));
    assert_eq!(rows[1].time_begin, utc(2022, 6, 7, 1, 40));
    assert_eq!(rows[2].time_end, utc(2022, 6, 15, 4, 10));
}

#[test]
fn explicit_group_marker_overrides_position() {
    let times = "Từ 30/05/2022 đến 05/06/2022: (2)\n Thứ 4 tiết 9,10,11,12 (TH)";
    let blocks = parse_time_rule(times).unwrap();
    assert_eq!(blocks.len(), 1);
    assert_eq!(blocks[0].group_index, 2);
    let rows = parse_table_row("C", times, "(1)First(2)Second").unwrap();
    assert_eq!(rows[0].place, "Second");
    let plain = parse_time_rule("Từ 30/05/2022 đến 05/06/2022: Thứ 4 tiết 9 (TH)").unwrap();
    assert_eq!(plain[0].group_index, 1);
}

#[test]
fn unknown_group_has_empty_place() {
    let rows = parse_table_row(
        "C",
        "Từ 30/05/2022 đến 05/06/2022: Thứ 4 tiết 1",
        "(2)Elsewhere",
    )
    .unwrap();
    assert_eq!(rows.len(), 1);
    assert_eq!(rows[0].place, "");
}

#[test]
fn periods_use_min_and_max() {
    let e = parse_weekday_and_period("Thứ 5 tiết 12,9,10 Thứ 6 tiết");
    assert_eq!(
        e,
        vec![
            WeekdayPeriod { weekday: Weekday::Thu, period_start: 9, period_end: 12 },
            WeekdayPeriod { weekday: Weekday::Fri, period_start: 1, period_end: 16 },
        ]
    );
    let e = parse_weekday_and_period("(1) Thứ 2");
    assert_eq!(
        e,
        vec![
            WeekdayPeriod { weekday: Weekday::Sun, period_start: 1, period_end: 16 },
            WeekdayPeriod { weekday: Weekday::Mon, period_start: 1, period_end: 16 },
        ]
    );
}

#[test]
fn entries_without_leading_marker() {
    assert_eq!(
        parse_weekday_and_period("4 tiết 1"),
        vec![WeekdayPeriod { weekday: Weekday::Wed, period_start: 1, period_end: 1 }]
    );
    assert_eq!(
        parse_weekday_and_period("6 tiết 3,1,2"),
        vec![WeekdayPeriod { weekday: Weekday::Fri, period_start: 1, period_end: 3 }]
    );
    assert_eq!(
        parse_weekday_and_period("4 tiết (TH)"),
        vec![WeekdayPeriod { weekday: Weekday::Wed, period_start: 1, period_end: 16 }]
    );
    assert_eq!(
        parse_weekday_and_period("4 tiết 1 Thứ "),
        vec![WeekdayPeriod { weekday: Weekday::Wed, period_start: 1, period_end: 1 }]
    );
    assert_eq!(parse_weekday_and_period("   "), Vec::new());
}

#[test]
fn block_text_before_first_marker_is_not_an_entry() {
    let blocks = parse_time_rule("Từ 30/05/2022 đến 05/06/2022: (2) Thứ 4 tiết 9").unwrap();
    assert_eq!(
        blocks[0].entries,
        vec![WeekdayPeriod { weekday: Weekday::Wed, period_start: 9, period_end: 9 }]
    );
    let blocks = parse_time_rule("Từ 30/05/2022 đến 05/06/2022: 4 tiết 9").unwrap();
    assert!(blocks[0].entries.is_empty());
}

#[test]
fn time_rule_blocks_in_order() {
    let blocks = parse_time_rule(
        "Từ 30/05/2022 đến 05/06/2022: (1)\n   Thứ 4 tiết 9,10,11,12 (TH)\nTừ 13/06/2022 đến 19/06/2022: (3)\n   Thứ 4 tiết 9,10,11,12 (TH)\n   Thứ 6 tiết 9,10,11,12 (TH)",
    )
    .unwrap();
    assert_eq!(blocks.len(), 2);
    assert_eq!(blocks[0].range, DateRange { start: day(2022, 5, 30), end: day(2022, 6, 5) });
    assert_eq!(blocks[1].group_index, 3);
    assert_eq!(blocks[1].entries.len(), 2);
    assert_eq!(blocks[1].entries[1].weekday, Weekday::Fri);
    assert!(parse_time_rule("").unwrap().is_empty());
}

#[test]
fn malformed_block_fails_whole_row() {
    let r = parse_table_row(
        "C",
        "Từ 30/05/2022 đến 05/06/2022: Thứ 4 tiết 1 Từ 06/06/2022 đến xx: Thứ 4 tiết 1",
        "R",
    );
    assert_eq!(r, Err(ParseError::MalformedRange));
    let r = parse_table_row("C", "Từ 30/05/2022 đến 05/06/2022 Thứ 4 tiết 1", "R");
    assert_eq!(r, Err(ParseError::MalformedRange));
}

#[test]
fn parsing_twice_gives_same_result() {
    let times = "Từ 30/05/2022 đến 27/06/2022: Thứ 2 tiết 1,2 Thứ 4 tiết 9,10";
    let places = "(1)201-TA3";
    let a = parse_table_row("C", times, places);
    let b = parse_table_row("C", times, places);
    assert_eq!(a, b);
    assert_eq!(a.unwrap().len(), 8);
}

fn occurrence(class: &str) -> Data {
    Data { class: class.to_string(), time_begin: 0, time_end: 0, place: String::new() }
}

#[test]
fn schedule_key_from_class_name() {
    let data = vec![occurrence("Lập trình hướng đối tượng-2-21 (A17C601)")];
    assert_eq!(tkbsv::store::schedule_key(&data), Some("2-21".to_string()));
    let data = vec![occurrence("Toán - 1 - 22 (L01)")];
    assert_eq!(tkbsv::store::schedule_key(&data), Some(" 1- 22".to_string()));
}

#[test]
fn schedule_key_skips_names_without_term() {
    let data = vec![occurrence("Thể dục"), occurrence("Mạng-1 (B)"), occurrence("Mạng-1-23 (B)")];
    assert_eq!(tkbsv::store::schedule_key(&data), Some("1-23".to_string()));
    assert_eq!(tkbsv::store::schedule_key(&vec![occurrence("Thể dục")]), None);
    assert_eq!(tkbsv::store::schedule_key(&Vec::new()), None);
}

#[test]
fn failing_row_is_skipped_and_reported() {
    let rows = vec![
        ("A".to_string(), "Từ 30/05/2022 đến 05/06/2022: Thứ 4 tiết 1".to_string(), "R1".to_string()),
        ("B".to_string(), "Từ 30/05/2022 đến xx: Thứ 4 tiết 1".to_string(), "R2".to_string()),
        ("C".to_string(), "Từ 30/05/2022 đến 05/06/2022: Thứ 2 tiết 2 Thứ 6 tiết 3".to_string(), "R3".to_string()),
    ];
    let (data, failed) = tkbsv::schedule::parse_rows(&rows);
    assert_eq!(failed, vec![1]);
    let classes: Vec<String> = data.iter().map(|d| d.class()).collect();
    assert_eq!(classes, vec!["A", "C", "C"]);
    assert_eq!(data[1].time_begin, utc(2022, 5, 30, 0, 50));
    assert_eq!(data[2].place, "R3");
}
