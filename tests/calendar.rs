use tariff_bill::calendar::{classify, trim_date, DateParseError, DayContext, HolidaySet};

fn holidays() -> HolidaySet {
    let mut h = HolidaySet::new();
    h.insert("20230808");
    h.insert(" 20500101 ");
    h
}

#[test]
fn holiday_set_membership() {
    let h = holidays();
    assert!(!h.contains(&"20230807".to_string()));
    assert!(h.contains(&"20230808".to_string()));
    assert!(h.contains(&"20500101".to_string()));
    assert!(!HolidaySet::new().contains(&"20230808".to_string()));
}

#[test]
fn classify_weekdays_from_monday() {
    let h = holidays();
    assert_eq!(classify(&"20230807".to_string(), &h), Ok(DayContext::Weekday(0)));
    assert_eq!(classify(&"20230811".to_string(), &h), Ok(DayContext::Weekday(4)));
    assert_eq!(classify(&"20230812".to_string(), &h), Ok(DayContext::Weekday(5)));
    assert_eq!(classify(&"20230813".to_string(), &h), Ok(DayContext::Weekday(6)));
}

#[test]
fn classify_holiday_overrides_weekday() {
    let h = holidays();
    let d = classify(&"20230808".to_string(), &h).unwrap();
    assert_eq!(d, DayContext::Holiday);
    assert_eq!(d.index(), 6);
    // 2050-01-01 is a Saturday.
    assert_eq!(classify(&"20500101".to_string(), &HolidaySet::new()), Ok(DayContext::Weekday(5)));
    assert_eq!(classify(&"20500101".to_string(), &h).unwrap().index(), 6);
}

#[test]
fn classify_rejects_bad_dates() {
    let h = HolidaySet::new();
    assert_eq!(classify(&"2023-08-07".to_string(), &h), Err(DateParseError));
    assert_eq!(classify(&"20230230".to_string(), &h), Err(DateParseError));
    assert_eq!(classify(&"".to_string(), &h), Err(DateParseError));
    // A holiday is matched as written, even if it is no date.
    let mut odd = HolidaySet::new();
    odd.insert("not a date");
    assert_eq!(classify(&"not a date".to_string(), &odd), Ok(DayContext::Holiday));
}

#[test]
fn trim_date_strips_white_space() {
    assert_eq!(trim_date(&"  20230807\t".to_string()), "20230807");
    assert_eq!(trim_date(&"20230807".to_string()), "20230807");
}
