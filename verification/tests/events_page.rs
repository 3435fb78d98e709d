use hydrofoil::svc::events::{events_page, StoredEvent};

fn ev(t: Option<i64>, raw: Option<&str>) -> StoredEvent {
    StoredEvent { event_time: t, raw_json: raw.map(str::to_string) }
}

fn rows() -> Vec<StoredEvent> {
    vec![
        ev(Some(10), Some("a")),
        ev(Some(30), Some("b")),
        ev(None, Some("c")),
        ev(Some(20), Some("d")),
        ev(Some(30), Some("e")),
    ]
}

#[test]
fn events_are_newest_first_with_unknown_times_last() {
    let page = events_page(&rows(), 100, 0);
    assert_eq!(page.events, vec!["b", "e", "d", "a", "c"]);
    assert_eq!(page.total_count, 5);
}

#[test]
fn events_page_by_limit_and_offset() {
    let page = events_page(&rows(), 2, 1);
    assert_eq!(page.events, vec!["e", "d"]);
    assert_eq!(page.total_count, 5);
    assert!(events_page(&rows(), 10, 5).events.is_empty());
    assert!(events_page(&rows(), 10, 99).events.is_empty());
    assert!(events_page(&rows(), 0, 0).events.is_empty());
    assert_eq!(events_page(&rows(), usize::MAX, 4).events, vec!["c"]);
}

#[test]
fn events_without_a_document_are_skipped() {
    let rows = vec![ev(Some(2), None), ev(Some(1), Some("x"))];
    let page = events_page(&rows, 10, 0);
    assert_eq!(page.events, vec!["x"]);
    assert_eq!(page.total_count, 2);
}

#[test]
fn empty_log_has_no_events() {
    let page = events_page(&Vec::new(), 10, 0);
    assert!(page.events.is_empty());
    assert_eq!(page.total_count, 0);
}

const RAW_START: &str = r#"{"eventType":"START","eventTime":"2023-11-14T22:13:20Z","run":{"runId":"r1","facets":{"nominalTime":{"x":1}}},"job":{"namespace":"etl","name":"export"},"producer":"p"}"#;
const RAW_COMPLETE: &str = r#"{"eventType":"COMPLETE","eventTime":"2023-11-14T22:13:25Z","run":{"runId":"r1"},"job":{"namespace":"etl","name":"export"},"producer":"p"}"#;

#[test]
fn http_events_lineage_returns_raw_events() {
    let rows = vec![
        ev(Some(1_700_000_000_000_000), Some(RAW_START)),
        ev(Some(1_700_000_005_000_000), Some(RAW_COMPLETE)),
    ];
    let page = events_page(&rows, 10, 0);
    // The envelope's `events` and `totalCount`.
    assert_eq!(page.events.len(), 2);
    assert_eq!(page.total_count, 2);
    // The raw OpenLineage eventType comes through, newest first.
    assert!(page.events[0].contains("COMPLETE"));
    assert!(page.events[1].contains("START"));
}
