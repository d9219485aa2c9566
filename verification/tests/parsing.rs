use court_watch::activity::Activity;
use court_watch::dates::Date;
use court_watch::scrape::parse_court_label;
use court_watch::times::{Time, TimeInterval};

#[test]
fn time_parse_valid() {
    assert_eq!(Time::parse("14:00"), Some(Time { minutes: 840 }));
    assert_eq!(Time::parse("00:00"), Some(Time { minutes: 0 }));
    assert_eq!(Time::parse("23:59"), Some(Time { minutes: 1439 }));
}

#[test]
fn time_parse_invalid() {
    assert_eq!(Time::parse("24:00"), None);
    assert_eq!(Time::parse("12:60"), None);
    assert_eq!(Time::parse("7:00"), None);
    assert_eq!(Time::parse("aa:bb"), None);
    assert_eq!(Time::parse("14-00"), None);
    assert_eq!(Time::parse(""), None);
    assert_eq!(Time::parse("14:005"), None);
}

#[test]
fn interval_parse_valid() {
    let iv = TimeInterval::parse("14:00 - 15:30").unwrap();
    assert_eq!(iv.start, Time { minutes: 14 * 60 });
    assert_eq!(iv.end, Time { minutes: 15 * 60 + 30 });
}

#[test]
fn interval_parse_end_before_start() {
    assert_eq!(TimeInterval::parse("15:30 - 14:00"), None);
}

#[test]
fn interval_parse_malformed() {
    assert_eq!(TimeInterval::parse("14:00-15:30"), None);
    assert_eq!(TimeInterval::parse("14:00 -15:30"), None);
    assert_eq!(TimeInterval::parse("14:00 - 25:30"), None);
    assert_eq!(TimeInterval::parse(""), None);
}

#[test]
fn interval_render() {
    let iv = TimeInterval::parse("09:05 - 10:00").unwrap();
    assert_eq!(iv.render(), "09:05 - 10:00");
}

#[test]
fn court_label_tennis() {
    assert_eq!(parse_court_label("Court 07", &Activity::Tennis), Some(7));
}

#[test]
fn court_label_beach() {
    assert_eq!(parse_court_label("Beach3", &Activity::Beach), Some(3));
}

#[test]
fn court_label_invalid() {
    assert_eq!(parse_court_label("Court xx", &Activity::Tennis), None);
    assert_eq!(parse_court_label("Court 00", &Activity::Tennis), None);
    assert_eq!(parse_court_label("Court ", &Activity::Tennis), None);
    assert_eq!(parse_court_label("", &Activity::Tennis), None);
    // No prefix length is fixed for pickleball, so every label is refused.
    assert_eq!(parse_court_label("Pickle 1", &Activity::Pickle), None);
}

#[test]
fn court_label_number_bounds() {
    // The largest court number that fits, with and without leading zeroes.
    assert_eq!(
        parse_court_label("Court 4294967295", &Activity::Tennis),
        Some(u32::MAX)
    );
    assert_eq!(
        parse_court_label("Court 04294967295", &Activity::Tennis),
        Some(u32::MAX)
    );
    // One past the largest is rejected rather than wrapped.
    assert_eq!(parse_court_label("Court 4294967296", &Activity::Tennis), None);
    assert_eq!(parse_court_label("Court 99999999999999", &Activity::Tennis), None);
}

#[test]
fn date_parse_valid() {
    let d = Date::parse("24.05.2025").unwrap();
    assert_eq!((d.day, d.month, d.year), (24, 5, 2025));
}

#[test]
fn date_parse_invalid() {
    assert_eq!(Date::parse("31.02.2025"), None);
    assert_eq!(Date::parse("00.05.2025"), None);
    assert_eq!(Date::parse("24.13.2025"), None);
    assert_eq!(Date::parse("24.5.2025"), None);
    assert_eq!(Date::parse("2025-05-24"), None);
}

#[test]
fn date_parse_leap_years() {
    assert!(Date::parse("29.02.2024").is_some());
    assert_eq!(Date::parse("29.02.2023"), None);
    assert!(Date::parse("29.02.2000").is_some());
    assert_eq!(Date::parse("29.02.1900"), None);
}

#[test]
fn date_render_round_trip() {
    let d = Date::parse("24.05.2025").unwrap();
    assert_eq!(d.render(), "24.05.2025");
    let d2 = Date::parse("01.01.0099").unwrap();
    assert_eq!(d2.render(), "01.01.0099");
}
