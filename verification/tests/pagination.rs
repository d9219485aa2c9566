use court_watch::activity::{Activity, UrlBuilder};
use court_watch::pagination::{process_page, PageOutcome, PaginationState};
use court_watch::report::{evaluate_tick, TickOutcome};
use court_watch::schedule::AvailabilityMap;
use court_watch::scrape::{parse_column, CourtColumn, ParseError};
use court_watch::times::{Time, TimeInterval};

#[test]
fn first_page_per_activity() {
    assert_eq!(Activity::Tennis.first_page(), 2);
    assert_eq!(Activity::Beach.first_page(), 1);
    assert_eq!(Activity::Pickle.first_page(), 1);
}

#[test]
fn walk_starts_on_the_activity_first_page() {
    let tennis = PaginationState::start(Activity::Tennis);
    assert_eq!(tennis.next_page, 2);
    assert!(tennis.map.is_empty());
    let beach = PaginationState::start(Activity::Beach);
    assert_eq!(beach.next_page, 1);
}

#[test]
fn request_url_shape() {
    let url = UrlBuilder.build_request_url(&Activity::Tennis, &"24.05.2025".to_string(), 2);
    assert_eq!(
        url,
        "https://zhs-courtbuchung.de/reservations.php?action=showReservations&type_id=1&date=24.05.2025&page=2"
    );
    let url2 = UrlBuilder.build_request_url(&Activity::Beach, &"01.01.2026".to_string(), 13);
    assert_eq!(
        url2,
        "https://zhs-courtbuchung.de/reservations.php?action=showReservations&type_id=2&date=01.01.2026&page=13"
    );
}

#[test]
fn empty_page_finishes_the_walk() {
    let mut st = PaginationState::start(Activity::Tennis);
    st.map.insert(4, vec![TimeInterval::parse("10:00 - 11:00").unwrap()]);
    let columns: Vec<CourtColumn> = Vec::new();
    match st.step(&columns) {
        Ok(PageOutcome::Finished(m)) => {
            assert_eq!(m.len(), 1);
            assert_eq!(m.court_at(0), 4);
        }
        _ => panic!("a page without columns must finish the walk"),
    }
}

#[test]
fn page_with_columns_advances_the_walk() {
    let st = PaginationState::start(Activity::Tennis);
    let columns = vec![
        CourtColumn {
            label: "Court 02".to_string(),
            slots: vec!["10:00 - 11:00".to_string()],
        },
        CourtColumn { label: "Court 03".to_string(), slots: Vec::new() },
    ];
    match st.step(&columns) {
        Ok(PageOutcome::Continue(next)) => {
            assert_eq!(next.next_page, 3);
            // The fully booked court 3 is omitted.
            assert_eq!(next.map.len(), 1);
            assert_eq!(next.map.court_at(0), 2);
        }
        _ => panic!("a page with columns must continue the walk"),
    }
}

#[test]
fn bad_court_header_is_a_court_label_error() {
    let col = CourtColumn {
        label: "Court xx".to_string(),
        slots: vec!["10:00 - 11:00".to_string()],
    };
    assert_eq!(parse_column(&col, &Activity::Tennis), Err(ParseError::CourtLabel));
}

#[test]
fn bad_cell_text_is_a_time_label_error() {
    let col = CourtColumn {
        label: "Court 01".to_string(),
        slots: vec!["garbled".to_string()],
    };
    assert_eq!(parse_column(&col, &Activity::Tennis), Err(ParseError::TimeLabel));
}

#[test]
fn fully_booked_court_contributes_nothing() {
    let col = CourtColumn { label: "Court 01".to_string(), slots: Vec::new() };
    assert_eq!(parse_column(&col, &Activity::Tennis), Ok(None));
}

fn page_with_one_court() -> String {
    let mut page = String::new();
    page.push_str("<html><body><div class=\"content\"><table><tbody><tr>");
    page.push_str("<td><table>");
    page.push_str("<tr><th>Court 01</th></tr>");
    page.push_str("<tr><td class=\"avaliable\">16:00 - 17:00</td></tr>");
    page.push_str("<tr><td>17:00 - 18:00</td></tr>");
    page.push_str("<tr><td class=\"avaliable\">18:00 - 19:00</td></tr>");
    page.push_str("</table></td>");
    page.push_str("</tr></tbody></table></div></body></html>");
    page
}

fn page_with_no_courts() -> String {
    "<html><body><div class=\"content\"></div></body></html>".to_string()
}

#[test]
fn end_to_end_single_court_two_pages() {
    // One mock page for 24.05.2025 with court column "Court 01", then an
    // empty page; window 15:00 to 20:00.
    let date = court_watch::dates::Date::parse("24.05.2025").unwrap();
    let activity = Activity::Tennis;
    let mut state = PaginationState::start(activity);
    assert_eq!(
        UrlBuilder.build_request_url(&activity, &date.render(), state.next_page),
        "https://zhs-courtbuchung.de/reservations.php?action=showReservations&type_id=1&date=24.05.2025&page=2"
    );

    state = match process_page(state, &page_with_one_court()) {
        Ok(PageOutcome::Continue(next)) => next,
        _ => panic!("the first page has a court column"),
    };
    assert_eq!(state.next_page, 3);

    let full: AvailabilityMap = match process_page(state, &page_with_no_courts()) {
        Ok(PageOutcome::Finished(m)) => m,
        _ => panic!("the second page has no court columns"),
    };

    assert_eq!(full.len(), 1);
    assert_eq!(full.court_at(0), 1);
    assert_eq!(
        full.slots_at(0).as_slice(),
        &[
            TimeInterval::parse("16:00 - 17:00").unwrap(),
            TimeInterval::parse("18:00 - 19:00").unwrap(),
        ]
    );

    let after = Time::parse("15:00").unwrap();
    let before = Time::parse("20:00").unwrap();
    match evaluate_tick(full, after, before) {
        TickOutcome::Found { courts, message } => {
            assert_eq!(courts.len(), 1);
            assert!(message.contains("Court 1"));
            assert!(message.contains("16:00 - 17:00"));
            assert!(message.contains("18:00 - 19:00"));
            assert_eq!(message, "Court 1:\n16:00 - 17:00\n18:00 - 19:00\n");
        }
        TickOutcome::NothingYet => panic!("both intervals lie inside the window"),
    }
}

#[test]
fn pagination_stops_even_after_data_pages() {
    // However many pages had data, the first page without court
    // columns ends the walk.
    let mut state = PaginationState::start(Activity::Beach);
    let mut page = String::new();
    page.push_str("<html><body><div class=\"content\"><table><tbody><tr>");
    page.push_str("<td><table><tr><th>Beach1</th></tr>");
    page.push_str("<tr><td class=\"avaliable\">10:00 - 11:00</td></tr></table></td>");
    page.push_str("</tr></tbody></table></div></body></html>");
    for _ in 0..3 {
        state = match process_page(state, &page) {
            Ok(PageOutcome::Continue(next)) => next,
            _ => panic!("a page with columns continues the walk"),
        };
    }
    assert_eq!(state.next_page, 4);
    match process_page(state, &page_with_no_courts()) {
        Ok(PageOutcome::Finished(m)) => {
            assert_eq!(m.len(), 1);
            assert_eq!(m.court_at(0), 1);
        }
        _ => panic!("the empty page must finish the walk"),
    }
}
