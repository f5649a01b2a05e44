use gnss_clock::datetime::{Date, DateTime, Time};
use gnss_clock::events::{Event, EventSources, SourceEvent};
use gnss_clock::max_m10s;

#[test]
fn date_validity_follows_the_calendar() {
    assert!(Date::from_ymd(2024, 2, 29).is_some());
    assert!(Date::from_ymd(2023, 2, 29).is_none());
    assert!(Date::from_ymd(2000, 2, 29).is_some());
    assert!(Date::from_ymd(1900, 2, 29).is_none());
    assert!(Date::from_ymd(2025, 4, 31).is_none());
    assert!(Date::from_ymd(2025, 12, 31).is_some());
    assert!(Date::from_ymd(2025, 0, 1).is_none());
    assert!(Date::from_ymd(2025, 13, 1).is_none());
    assert!(Date::from_ymd(2025, 1, 0).is_none());
}

#[test]
fn time_validity_follows_the_clock() {
    assert!(Time::from_hms_nano(23, 59, 59, 999_999_999).is_some());
    assert!(Time::from_hms_nano(24, 0, 0, 0).is_none());
    assert!(Time::from_hms_nano(0, 60, 0, 0).is_none());
    assert!(Time::from_hms_nano(0, 0, 60, 0).is_none());
    assert!(Time::from_hms_nano(0, 0, 0, 1_000_000_000).is_none());
}

fn sample_datetime() -> DateTime {
    Date::from_ymd(2025, 5, 3)
        .unwrap()
        .and_time(Time::from_hms_nano(8, 19, 15, 0).unwrap())
}

#[test]
fn wait_maps_each_source_and_caches_datetime() {
    let mut es = EventSources::new();
    assert_eq!(es.datetime, None);

    assert_eq!(es.wait(SourceEvent::Sw3), Event::Sw3Pressed);
    assert_eq!(es.wait(SourceEvent::Sw4), Event::Sw4Pressed);
    assert_eq!(es.wait(SourceEvent::Sw5), Event::Sw5Pressed);
    assert_eq!(es.wait(SourceEvent::Pps), Event::TimePulse);
    assert_eq!(es.datetime, None);

    let t = sample_datetime();
    assert_eq!(
        es.wait(SourceEvent::Nmea(max_m10s::Event::DateTime(t))),
        Event::DateTimeUpdated(t)
    );
    assert_eq!(es.datetime, Some(t));

    // other sources leave the cache alone
    assert_eq!(es.wait(SourceEvent::Pps), Event::TimePulse);
    assert_eq!(es.datetime, Some(t));
}
