use court_watch::filter::filter_courts;
use court_watch::report::{build_result_string, evaluate_tick, TickOutcome};
use court_watch::schedule::AvailabilityMap;
use court_watch::times::{compact_timespans, Time, TimeInterval};

fn iv(text: &str) -> TimeInterval {
    TimeInterval::parse(text).unwrap()
}

fn sample_map() -> AvailabilityMap {
    let mut m = AvailabilityMap::new();
    // Inserted out of order on purpose: the map keeps ascending courts.
    m.insert(5, vec![iv("08:00 - 09:00"), iv("16:00 - 17:00")]);
    m.insert(2, vec![iv("15:30 - 16:30")]);
    m.insert(9, vec![iv("21:00 - 22:00")]);
    m
}

#[test]
fn insert_keeps_ascending_order() {
    let m = sample_map();
    assert_eq!(m.len(), 3);
    assert_eq!(m.court_at(0), 2);
    assert_eq!(m.court_at(1), 5);
    assert_eq!(m.court_at(2), 9);
}

#[test]
fn insert_replaces_existing_court() {
    let mut m = sample_map();
    m.insert(5, vec![iv("10:00 - 11:00")]);
    assert_eq!(m.len(), 3);
    assert_eq!(m.slots_at(1).len(), 1);
    assert_eq!(m.slots_at(1)[0], iv("10:00 - 11:00"));
}

#[test]
fn filter_keeps_only_window_matches() {
    let after = Time::parse("15:00").unwrap();
    let before = Time::parse("20:00").unwrap();
    let filtered = filter_courts(sample_map(), after, before);
    // Court 5 loses its morning slot, court 9 disappears entirely.
    assert_eq!(filtered.len(), 2);
    assert_eq!(filtered.court_at(0), 2);
    assert_eq!(filtered.slots_at(0).as_slice(), &[iv("15:30 - 16:30")]);
    assert_eq!(filtered.court_at(1), 5);
    assert_eq!(filtered.slots_at(1).as_slice(), &[iv("16:00 - 17:00")]);
}

#[test]
fn filter_bounds_are_exclusive() {
    let after = Time::parse("15:30").unwrap();
    let before = Time::parse("21:00").unwrap();
    let filtered = filter_courts(sample_map(), after, before);
    // A start at the lower bound or at the upper bound does not match.
    assert_eq!(filtered.len(), 1);
    assert_eq!(filtered.court_at(0), 5);
}

#[test]
fn filter_is_idempotent_on_values() {
    let after = Time::parse("15:00").unwrap();
    let before = Time::parse("20:00").unwrap();
    let once = filter_courts(sample_map(), after, before);
    let twice = filter_courts(once.clone(), after, before);
    assert_eq!(once.len(), twice.len());
    for i in 0..once.len() {
        assert_eq!(once.court_at(i), twice.court_at(i));
        assert_eq!(once.slots_at(i), twice.slots_at(i));
    }
}

#[test]
fn filter_of_empty_map_is_empty() {
    let after = Time::parse("00:00").unwrap();
    let before = Time::parse("23:00").unwrap();
    let filtered = filter_courts(AvailabilityMap::new(), after, before);
    assert!(filtered.is_empty());
}

#[test]
fn compact_fuses_adjacent_intervals() {
    let spans = vec![
        iv("16:00 - 16:30"),
        iv("16:30 - 17:00"),
        iv("18:00 - 19:00"),
    ];
    let compacted = compact_timespans(&spans);
    assert_eq!(compacted.as_slice(), &[iv("16:00 - 17:00"), iv("18:00 - 19:00")]);
}

#[test]
fn compact_leaves_gaps_alone() {
    let spans = vec![iv("08:00 - 09:00"), iv("10:00 - 11:00")];
    assert_eq!(compact_timespans(&spans).as_slice(), spans.as_slice());
    let single = vec![iv("08:00 - 09:00")];
    assert_eq!(compact_timespans(&single).as_slice(), single.as_slice());
    let empty: Vec<TimeInterval> = Vec::new();
    assert!(compact_timespans(&empty).is_empty());
}

#[test]
fn compact_fuses_a_whole_run() {
    let spans = vec![
        iv("08:00 - 08:30"),
        iv("08:30 - 09:00"),
        iv("09:00 - 09:30"),
    ];
    assert_eq!(compact_timespans(&spans).as_slice(), &[iv("08:00 - 09:30")]);
}

#[test]
fn result_string_lists_each_court() {
    let mut m = AvailabilityMap::new();
    m.insert(1, vec![iv("16:00 - 17:00"), iv("18:00 - 19:00")]);
    m.insert(3, vec![iv("20:00 - 21:00")]);
    let text = build_result_string(&m);
    assert_eq!(
        text,
        "Court 1:\n16:00 - 17:00\n18:00 - 19:00\nCourt 3:\n20:00 - 21:00\n"
    );
}

#[test]
fn result_string_fallback_when_empty() {
    let text = build_result_string(&AvailabilityMap::new());
    assert_eq!(text, "Sorry, nothing available");
}

#[test]
fn tick_waits_when_nothing_matches() {
    let after = Time::parse("21:30").unwrap();
    let before = Time::parse("22:00").unwrap();
    match evaluate_tick(sample_map(), after, before) {
        TickOutcome::NothingYet => {}
        TickOutcome::Found { .. } => panic!("nothing should match this window"),
    }
}

#[test]
fn tick_notifies_when_something_matches() {
    let after = Time::parse("15:00").unwrap();
    let before = Time::parse("20:00").unwrap();
    match evaluate_tick(sample_map(), after, before) {
        TickOutcome::Found { courts, message } => {
            assert_eq!(courts.len(), 2);
            assert_eq!(message, "Court 2:\n15:30 - 16:30\nCourt 5:\n16:00 - 17:00\n");
        }
        TickOutcome::NothingYet => panic!("the window should match"),
    }
}
