use tanita_reader::{Date, DateTime, Gender, Time};

#[test]
fn date_reads_and_writes_day_month_year() {
    let d = Date::from_string("14/06/1991").expect("three numeric parts");
    assert_eq!(d, Date { days: 14, months: 6, years: 1991 });
    assert_eq!(d.to_srting(), "14/6/1991");
    assert_eq!(Date::from_string(&d.to_srting()), Some(d));
}

#[test]
fn date_round_trip_keeps_the_numbers() {
    for text in ["01/02/2003", "\"9/12/1980\"", "+5/+7/0099"] {
        let d = Date::from_string(text).expect("valid date");
        let written = d.to_srting();
        let parts: Vec<&str> = written.split('/').collect();
        assert_eq!(parts.len(), 3);
        assert_eq!(parts[0].parse::<u8>().unwrap(), d.days);
        assert_eq!(parts[1].parse::<u8>().unwrap(), d.months);
        assert_eq!(parts[2].parse::<u16>().unwrap(), d.years);
        assert_eq!(Date::from_string(&written), Some(d));
    }
    let d = Date::from_string("+5/+7/0099").unwrap();
    assert_eq!(d.to_srting(), "5/7/99");
}

#[test]
fn date_needs_exactly_three_parts() {
    assert!(Date::from_string("14/06").is_none());
    assert!(Date::from_string("14/06/1991/1").is_none());
    assert!(Date::from_string("").is_none());
    assert!(Date::from_string("14/06/x").is_none());
    assert!(Date::from_string("256/06/1991").is_none());
    assert!(Date::from_string("14/06/65536").is_none());
}

#[test]
fn time_round_trip() {
    let t = Time::from_string("07:08:09").expect("valid time");
    assert_eq!(t, Time { hours: 7, minutes: 8, seconds: 9 });
    assert_eq!(t.to_srting(), "7:8:9");
    assert_eq!(Time::from_string(&t.to_srting()), Some(t));
    assert!(Time::from_string("07:08").is_none());
    assert!(Time::from_string("1:2:3:4").is_none());
}

#[test]
fn date_time_needs_both_parts() {
    let dt = DateTime::from_string("01/02/2020", "10:11:12").expect("both read");
    assert_eq!(dt.to_string(), "1/2/2020 10:11:12");
    let dt = DateTime::from_string("14/06/1991", "08:30:15").unwrap();
    assert_eq!(dt.to_string(), "14/6/1991 8:30:15");
    assert!(DateTime::from_string("01/02", "10:11:12").is_none());
    assert!(DateTime::from_string("01/02/2020", "10:11").is_none());
}

#[test]
fn gender_from_code() {
    assert_eq!(Gender::from(1), Gender::Male);
    assert_eq!(Gender::from(2), Gender::Female);
    assert_eq!(Gender::from(0), Gender::Other(0));
    assert_eq!(Gender::from(7), Gender::Other(7));
    assert_eq!(Gender::Male.to_string(), "Boy");
    assert_eq!(Gender::Female.to_string(), "Girl");
    assert_eq!(Gender::Other(42).to_string(), "Unknown gender: 42");
}
