use hydrofoil::strmap::StringMap;
use hydrofoil::svc::facets::{run_facets, RunFacetRow};
use hydrofoil::svc::read::ReadError;

fn facets(pairs: &[(&str, &str)]) -> StringMap {
    let mut m = StringMap::new();
    for (k, v) in pairs {
        m.insert(k.to_string(), v.to_string());
    }
    m
}

fn row(run_id: &str, t: Option<i64>, pairs: Option<Vec<(&str, &str)>>) -> RunFacetRow {
    RunFacetRow {
        run_id: Some(run_id.to_string()),
        event_time: t,
        facets: pairs.map(|p| facets(&p)),
    }
}

#[test]
fn run_facets_merges_the_run_events() {
    let rows = vec![
        row("r1", Some(10), Some(vec![("nominalTime", r#"{"a":1}"#), ("parent", "{}")])),
        row("r2", Some(11), Some(vec![("nominalTime", r#"{"other":true}"#)])),
        row("r1", Some(20), Some(vec![("processing_engine", r#"{"name":"hydrofoil"}"#)])),
    ];
    let rf = run_facets("r1", &rows).unwrap();
    assert_eq!(rf.run_id, "r1");
    assert_eq!(rf.facets.get("nominalTime"), Some(r#"{"a":1}"#.to_string()));
    assert_eq!(rf.facets.get("parent"), Some("{}".to_string()));
    assert_eq!(rf.facets.get("processing_engine"), Some(r#"{"name":"hydrofoil"}"#.to_string()));
    assert_eq!(rf.facets.len(), 3);
}

#[test]
fn later_events_override_earlier_facets() {
    // Stored out of order: the later event still wins.
    let rows = vec![
        row("r1", Some(30), Some(vec![("nominalTime", "\"late\"")])),
        row("r1", Some(10), Some(vec![("nominalTime", "\"early\"")])),
    ];
    let rf = run_facets("r1", &rows).unwrap();
    assert_eq!(rf.facets.get("nominalTime"), Some("\"late\"".to_string()));
}

#[test]
fn unknown_event_time_sorts_last_and_wins() {
    let rows = vec![
        row("r1", None, Some(vec![("nominalTime", "\"untimed\"")])),
        row("r1", Some(99), Some(vec![("nominalTime", "\"timed\"")])),
    ];
    let rf = run_facets("r1", &rows).unwrap();
    assert_eq!(rf.facets.get("nominalTime"), Some("\"untimed\"".to_string()));
}

#[test]
fn run_without_facets_is_found_and_empty() {
    let rows = vec![row("r1", Some(1), None)];
    let rf = run_facets("r1", &rows).unwrap();
    assert_eq!(rf.facets.len(), 0);
}

#[test]
fn unknown_run_is_not_found() {
    let rows = vec![row("r1", Some(1), Some(vec![("x", "1")]))];
    match run_facets("no-such-run", &rows) {
        Err(ReadError::NotFound(msg)) => assert_eq!(msg, "run no-such-run"),
        other => panic!("expected NotFound, got {other:?}"),
    }
}

#[test]
fn http_run_facets_returns_run_facets() {
    // The START of run r1 carries a nominalTime facet; its COMPLETE none.
    let rows = vec![
        row("r1", Some(1_700_000_000_000_000), Some(vec![("nominalTime", r#"{"x":1}"#)])),
        row("r1", Some(1_700_000_005_000_000), None),
    ];
    let result = run_facets("r1", &rows);
    assert!(result.is_ok(), "found, not 404");
    let rf = result.unwrap();
    // The envelope's `runId` and `facets`.
    assert_eq!(rf.run_id, "r1");
    assert_eq!(rf.facets.len(), 1);
    // The nominalTime facet of the START event is merged in.
    assert_eq!(rf.facets.get("nominalTime"), Some(r#"{"x":1}"#.to_string()));
}

#[test]
fn http_run_facets_unknown_run_is_404() {
    let rows = vec![row("r1", Some(1), None)];
    assert!(matches!(run_facets("no-such-run", &rows), Err(ReadError::NotFound(_))));
}
