use covid_sms::date::{string_to_date, target_date};
use covid_sms::{CalendarDate, ParseError};

fn day(year: i32, month: u32, day: u32) -> CalendarDate {
    CalendarDate::new(year, month, day).unwrap()
}

#[test]
fn report_date_reads_day_month_year() {
    let date = string_to_date("05/03/2020").unwrap();
    assert_eq!(date.year(), 2020);
    assert_eq!(date.month(), 3);
    assert_eq!(date.day(), 5);
    assert_eq!(date, day(2020, 3, 5));
    assert_eq!(string_to_date("31/12/1999"), Ok(day(1999, 12, 31)));
}

#[test]
fn report_date_rejects_wrong_separator() {
    assert_eq!(string_to_date("05-03-2020"), Err(ParseError::ReportDate));
    assert_eq!(string_to_date("05.03.2020"), Err(ParseError::ReportDate));
    assert_eq!(string_to_date("05/03-2020"), Err(ParseError::ReportDate));
    assert_eq!(string_to_date("05 03 2020"), Err(ParseError::ReportDate));
}

#[test]
fn report_date_rejects_wrong_field_count() {
    assert_eq!(string_to_date(""), Err(ParseError::ReportDate));
    assert_eq!(string_to_date("05/03"), Err(ParseError::ReportDate));
    assert_eq!(string_to_date("05/03/"), Err(ParseError::ReportDate));
    assert_eq!(string_to_date("05/03/2020/01"), Err(ParseError::ReportDate));
    assert_eq!(string_to_date("05032020"), Err(ParseError::ReportDate));
}

#[test]
fn report_date_rejects_non_numeric_component() {
    assert_eq!(string_to_date("aa/03/2020"), Err(ParseError::ReportDate));
    assert_eq!(string_to_date("05/0x/2020"), Err(ParseError::ReportDate));
    assert_eq!(string_to_date("05/03/20z0"), Err(ParseError::ReportDate));
    assert_eq!(string_to_date("05/Mar/2020"), Err(ParseError::ReportDate));
}

#[test]
fn report_date_rejects_fields_of_other_widths() {
    assert_eq!(string_to_date("5/3/2020"), Err(ParseError::ReportDate));
    assert_eq!(string_to_date("05/03/20"), Err(ParseError::ReportDate));
    assert_eq!(string_to_date("05/03/02020"), Err(ParseError::ReportDate));
    assert_eq!(string_to_date(" 5/03/2020"), Err(ParseError::ReportDate));
    assert_eq!(string_to_date("05/03/+202"), Err(ParseError::ReportDate));
    assert_eq!(string_to_date("05/03/-202"), Err(ParseError::ReportDate));
}

#[test]
fn report_date_rejects_text_around_the_date() {
    assert_eq!(string_to_date(" 05/03/2020"), Err(ParseError::ReportDate));
    assert_eq!(string_to_date("05/03/2020 "), Err(ParseError::ReportDate));
    assert_eq!(string_to_date("05/03/2020\n"), Err(ParseError::ReportDate));
}

#[test]
fn report_date_rejects_digits_outside_ascii() {
    assert_eq!(string_to_date("\u{ff10}5/03/2020"), Err(ParseError::ReportDate));
    assert_eq!(string_to_date("05/03/202\u{0663}"), Err(ParseError::ReportDate));
    assert_eq!(string_to_date("05\u{2215}03\u{2215}2020"), Err(ParseError::ReportDate));
}

#[test]
fn report_date_rejects_days_that_do_not_exist() {
    assert_eq!(string_to_date("31/04/2020"), Err(ParseError::ReportDate));
    assert_eq!(string_to_date("00/01/2020"), Err(ParseError::ReportDate));
    assert_eq!(string_to_date("32/01/2020"), Err(ParseError::ReportDate));
    assert_eq!(string_to_date("01/00/2020"), Err(ParseError::ReportDate));
    assert_eq!(string_to_date("01/13/2020"), Err(ParseError::ReportDate));
    assert_eq!(string_to_date("99/99/9999"), Err(ParseError::ReportDate));
}

#[test]
fn report_date_knows_leap_years() {
    assert_eq!(string_to_date("29/02/2020"), Ok(day(2020, 2, 29)));
    assert_eq!(string_to_date("29/02/2000"), Ok(day(2000, 2, 29)));
    assert_eq!(string_to_date("29/02/2019"), Err(ParseError::ReportDate));
    assert_eq!(string_to_date("29/02/1900"), Err(ParseError::ReportDate));
    assert_eq!(string_to_date("30/02/2020"), Err(ParseError::ReportDate));
}

#[test]
fn report_date_reads_the_first_and_the_last_year() {
    let first = string_to_date("01/01/0000").unwrap();
    assert_eq!((first.year(), first.month(), first.day()), (0, 1, 1));
    assert_eq!(string_to_date("29/02/0000"), Ok(day(0, 2, 29)));
    let last = string_to_date("31/12/9999").unwrap();
    assert_eq!((last.year(), last.month(), last.day()), (9999, 12, 31));
}

#[test]
fn every_day_of_a_leap_year_is_read_back() {
    let lengths = [31u32, 29, 31, 30, 31, 30, 31, 31, 30, 31, 30, 31];
    for (index, length) in lengths.iter().enumerate() {
        let month = index as u32 + 1;
        for d in 1..=*length {
            let text = format!("{:02}/{:02}/2024", d, month);
            assert_eq!(string_to_date(&text), Ok(day(2024, month, d)), "{}", text);
        }
        let text = format!("{:02}/{:02}/2024", length + 1, month);
        assert_eq!(string_to_date(&text), Err(ParseError::ReportDate), "{}", text);
    }
}

#[test]
fn new_accepts_the_days_that_exist() {
    assert!(CalendarDate::new(2020, 1, 31).is_some());
    assert!(CalendarDate::new(2020, 2, 29).is_some());
    assert!(CalendarDate::new(0, 1, 1).is_some());
    assert!(CalendarDate::new(9999, 12, 31).is_some());
    assert!(CalendarDate::new(2021, 2, 29).is_none());
    assert!(CalendarDate::new(2020, 0, 1).is_none());
    assert!(CalendarDate::new(2020, 13, 1).is_none());
    assert!(CalendarDate::new(2020, 6, 0).is_none());
    assert!(CalendarDate::new(2020, 6, 31).is_none());
    assert!(CalendarDate::new(-1, 1, 1).is_none());
    assert!(CalendarDate::new(10000, 1, 1).is_none());
    assert!(CalendarDate::new(2020, u32::MAX, u32::MAX).is_none());
}

#[test]
fn new_keeps_the_numbers() {
    let date = day(1987, 11, 30);
    assert_eq!(date.year(), 1987);
    assert_eq!(date.month(), 11);
    assert_eq!(date.day(), 30);
}

#[test]
fn same_day_compares_all_three_numbers() {
    let date = day(2020, 3, 5);
    assert!(date.same_day(&day(2020, 3, 5)));
    assert!(!date.same_day(&day(2020, 3, 6)));
    assert!(!date.same_day(&day(2020, 4, 5)));
    assert!(!date.same_day(&day(2021, 3, 5)));
    assert!(!date.same_day(&day(2020, 5, 3)));
}

#[test]
fn iso_date_is_read() {
    assert_eq!(CalendarDate::from_iso("2020-03-05"), Some(day(2020, 3, 5)));
    assert_eq!(CalendarDate::from_iso("0000-01-01"), Some(day(0, 1, 1)));
    assert_eq!(CalendarDate::from_iso("9999-12-31"), Some(day(9999, 12, 31)));
    assert_eq!(CalendarDate::from_iso("2020-02-29"), Some(day(2020, 2, 29)));
}

#[test]
fn malformed_iso_date_is_turned_down() {
    assert_eq!(CalendarDate::from_iso(""), None);
    assert_eq!(CalendarDate::from_iso("2020-3-5"), None);
    assert_eq!(CalendarDate::from_iso("20-03-05"), None);
    assert_eq!(CalendarDate::from_iso("2020/03/05"), None);
    assert_eq!(CalendarDate::from_iso("05/03/2020"), None);
    assert_eq!(CalendarDate::from_iso("2020-03-05 "), None);
    assert_eq!(CalendarDate::from_iso("2020-03-05T00:00:00"), None);
    assert_eq!(CalendarDate::from_iso("2020-13-05"), None);
    assert_eq!(CalendarDate::from_iso("2021-02-29"), None);
    assert_eq!(CalendarDate::from_iso("2020-04-31"), None);
    assert_eq!(CalendarDate::from_iso("today"), None);
}

#[test]
fn the_two_written_forms_are_not_mixed_up() {
    assert_eq!(string_to_date("2020-03-05"), Err(ParseError::ReportDate));
    assert_eq!(string_to_date("2020/03/05"), Err(ParseError::ReportDate));
    assert_eq!(string_to_date("10/11/2012"), Ok(day(2012, 11, 10)));
    assert_eq!(CalendarDate::from_iso("2012-11-10"), Some(day(2012, 11, 10)));
}

#[test]
fn target_date_defaults_to_today() {
    let today = day(2021, 7, 14);
    assert_eq!(target_date(None, today), Some(today));
}

#[test]
fn target_date_takes_the_day_that_is_named() {
    let today = day(2021, 7, 14);
    assert_eq!(target_date(Some("2020-03-05"), today), Some(day(2020, 3, 5)));
    assert_eq!(target_date(Some("2021-07-14"), today), Some(today));
}

#[test]
fn target_date_does_not_fall_back_on_today() {
    let today = day(2021, 7, 14);
    assert_eq!(target_date(Some("yesterday"), today), None);
    assert_eq!(target_date(Some(""), today), None);
    assert_eq!(target_date(Some("14/07/2021"), today), None);
    assert_eq!(target_date(Some("2021-02-30"), today), None);
}

#[test]
fn label_is_the_iso_date_and_utc() {
    assert_eq!(day(2020, 3, 5).label(), "2020-03-05UTC");
    assert_eq!(day(1999, 12, 31).label(), "1999-12-31UTC");
    assert_eq!(day(7, 1, 9).label(), "0007-01-09UTC");
    assert_eq!(day(0, 1, 1).label(), "0000-01-01UTC");
    assert_eq!(day(9999, 12, 31).label(), "9999-12-31UTC");
}

#[test]
fn every_february_agrees_with_the_leap_year_rule() {
    for year in 0..=9999 {
        let leap = year % 4 == 0 && (year % 100 != 0 || year % 400 == 0);
        let text = format!("29/02/{:04}", year);
        assert_eq!(string_to_date(&text).is_ok(), leap, "{}", text);
        assert_eq!(CalendarDate::new(year, 2, 29).is_some(), leap, "{}", year);
        let text = format!("{:04}-02-28", year);
        assert_eq!(CalendarDate::from_iso(&text), CalendarDate::new(year, 2, 28), "{}", text);
    }
}

#[test]
fn reading_and_making_a_date_agree() {
    for year in [0, 1, 1600, 1900, 1999, 2000, 2020, 2021, 9999].iter() {
        for month in 0..=13u32 {
            for d in 0..=32u32 {
                let made = CalendarDate::new(*year, month, d);
                if month <= 99 && d <= 99 {
                    let text = format!("{:02}/{:02}/{:04}", d, month, year);
                    assert_eq!(string_to_date(&text).ok(), made, "{}", text);
                    let text = format!("{:04}-{:02}-{:02}", year, month, d);
                    assert_eq!(CalendarDate::from_iso(&text), made, "{}", text);
                }
            }
        }
    }
}

#[test]
fn label_is_read_back_as_an_iso_date() {
    for date in [day(0, 1, 1), day(987, 6, 5), day(2020, 2, 29), day(9999, 12, 31)].iter() {
        let label = date.label();
        assert_eq!(label.len(), 13);
        assert!(label.ends_with("UTC"));
        assert_eq!(CalendarDate::from_iso(&label[..10]), Some(*date));
    }
}
