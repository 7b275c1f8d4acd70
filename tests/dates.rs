use pepys::date::{parse_date, resolve_date, today_utc, CalendarDate};

fn rejects(text: &str) {
    match parse_date(text) {
        Ok(d) => panic!("{} was accepted as {:?}", text, d),
        Err(e) => assert_eq!(e.input, text),
    }
}

#[test]
fn rejects_nonexistent_day() {
    rejects("2023-02-30");
}

#[test]
fn rejects_month_thirteen() {
    rejects("2023-13-01");
}

#[test]
fn rejects_short_fields() {
    rejects("23-1-1");
}

#[test]
fn rejects_letters() {
    rejects("abcd-01-01");
}

#[test]
fn rejects_empty_argument() {
    rejects("");
    let today = CalendarDate::from_ymd(2020, 6, 15).unwrap();
    assert!(resolve_date(Some(""), today).is_err());
}

#[test]
fn rejects_wrong_field_count() {
    rejects("2023-01");
    rejects("2023-01-05-01");
    rejects("2023/01/05");
    rejects("2023-01-00");
    rejects("2023-00-01");
    rejects(" 2023-01-05");
}

#[test]
fn accepts_padded_date() {
    let d = parse_date("2023-01-05").unwrap();
    assert_eq!((d.year(), d.month(), d.day()), (2023, 1, 5));
    assert_eq!(d, CalendarDate::from_ymd(2023, 1, 5).unwrap());
}

#[test]
fn leap_years() {
    assert!(parse_date("2024-02-29").is_ok());
    assert!(parse_date("2000-02-29").is_ok());
    assert!(parse_date("1900-02-29").is_err());
    assert!(parse_date("2023-02-29").is_err());
    assert!(parse_date("2023-04-31").is_err());
    assert!(parse_date("2023-12-31").is_ok());
}

#[test]
fn year_range() {
    assert!(CalendarDate::from_ymd(9999, 12, 31).is_some());
    assert!(CalendarDate::from_ymd(10000, 1, 1).is_none());
    assert!(CalendarDate::from_ymd(-9999, 1, 1).is_some());
    assert!(CalendarDate::from_ymd(-10000, 1, 1).is_none());
    let d = parse_date("0000-01-01").unwrap();
    assert_eq!(d.year(), 0);
}

#[test]
fn missing_argument_means_today() {
    let today = CalendarDate::from_ymd(2020, 6, 15).unwrap();
    assert_eq!(resolve_date(None, today).unwrap(), today);
    let given = resolve_date(Some("2021-07-04"), today).unwrap();
    assert_eq!(given, CalendarDate::from_ymd(2021, 7, 4).unwrap());
}

#[test]
fn invalid_argument_never_falls_back_to_today() {
    let today = CalendarDate::from_ymd(2020, 6, 15).unwrap();
    let e = resolve_date(Some("2023-02-30"), today).unwrap_err();
    assert_eq!(e.input, "2023-02-30");
}

#[test]
fn parsing_twice_gives_the_same_date() {
    assert_eq!(parse_date("2022-11-30").unwrap(), parse_date("2022-11-30").unwrap());
}

#[test]
fn today_is_a_valid_recent_date() {
    let d = today_utc();
    assert!(d.year() >= 2020);
    assert!(CalendarDate::from_ymd(d.year(), d.month(), d.day()).is_some());
}
