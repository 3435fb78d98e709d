use hydrofoil::svc::fold::{fold_rows, EventRow, JobTag, Model, OutputSchema};
use hydrofoil::svc::model::{EntityId, Job, NodeData};
use hydrofoil::svc::read::ReadError;
use hydrofoil::svc::runs::RunState;

fn id(ns: &str, name: &str) -> EntityId {
    EntityId { namespace: ns.to_string(), name: name.to_string() }
}

fn blank(kind: &str) -> EventRow {
    EventRow {
        kind: kind.to_string(),
        event_type: None,
        event_time: None,
        run_id: None,
        job_namespace: None,
        job_name: None,
        dataset_namespace: None,
        dataset_name: None,
        inputs: Vec::new(),
        outputs: Vec::new(),
        description: None,
        tags: Vec::new(),
        output_schemas: Vec::new(),
    }
}

fn run_row(
    event_type: &str,
    event_time: i64,
    run_id: &str,
    job_ns: &str,
    job_name: &str,
    inputs: Vec<EntityId>,
    outputs: Vec<EntityId>,
) -> EventRow {
    let mut r = blank("run");
    r.event_type = Some(event_type.to_string());
    r.event_time = Some(event_time);
    r.run_id = Some(run_id.to_string());
    r.job_namespace = Some(job_ns.to_string());
    r.job_name = Some(job_name.to_string());
    r.inputs = inputs;
    r.outputs = outputs;
    r
}

/// One COMPLETE run event of `etl/build_daily`, reading `raw.orders` and
/// writing `marts.daily_orders`.
fn seeded() -> Model {
    fold_rows(&vec![run_row(
        "COMPLETE",
        1_700_000_000_000_000,
        "run-1",
        "etl",
        "build_daily",
        vec![id("raw", "orders")],
        vec![id("marts", "daily_orders")],
    )])
}

/// `etl/export` writing `s3://bucket`/`warehouse/t1`: a START carrying the
/// edge, then a COMPLETE carrying none.
fn uri_seeded() -> Model {
    fold_rows(&vec![
        run_row(
            "START",
            1_700_000_000_000_000,
            "r1",
            "etl",
            "export",
            vec![],
            vec![id("s3://bucket", "warehouse/t1")],
        ),
        run_row("COMPLETE", 1_700_000_005_000_000, "r1", "etl", "export", vec![], vec![]),
    ])
}

fn run_event(event_type: &str, t: i64, run_id: &str, outputs: Vec<EntityId>) -> EventRow {
    run_row(event_type, t, run_id, "ns", "job", vec![], outputs)
}

fn job_of(model: &Model) -> Job {
    model.job("ns", "job").expect("job present")
}

#[test]
fn namespaces_lists_job_and_dataset_namespaces() {
    let ns = seeded().namespaces();
    let names: Vec<&str> = ns.namespaces.iter().map(|n| n.name.as_str()).collect();
    assert!(names.contains(&"etl"), "job namespace present: {names:?}");
    assert!(names.contains(&"raw"), "input ds namespace present: {names:?}");
    assert!(names.contains(&"marts"), "output ds namespace present: {names:?}");
}

#[test]
fn namespaces_are_sorted_and_span_their_entities() {
    let ns = seeded().namespaces();
    let names: Vec<&str> = ns.namespaces.iter().map(|n| n.name.as_str()).collect();
    assert_eq!(names, vec!["etl", "marts", "raw"]);
    for n in &ns.namespaces {
        assert_eq!(n.created_at, "2023-11-14T22:13:20+00:00");
        assert_eq!(n.updated_at, "2023-11-14T22:13:20+00:00");
        assert!(!n.is_hidden);
    }
}

#[test]
fn jobs_returns_job_with_inputs_and_outputs() {
    let jobs = seeded().jobs(Some("etl"), 100, 0);
    assert_eq!(jobs.total_count, 1);
    let job = &jobs.jobs[0];
    assert_eq!(job.name, "build_daily");
    assert_eq!(job.inputs.len(), 1);
    assert_eq!(job.inputs[0].namespace, "raw");
    assert_eq!(job.inputs[0].name, "orders");
    assert_eq!(job.outputs[0].name, "daily_orders");
    assert_eq!(job.latest_runs.len(), 1);
    assert_eq!(job.latest_runs[0].id, "run-1");
    assert_eq!(job.latest_runs[0].state, "COMPLETED");
    assert_eq!(job.job_type, "BATCH");
}

#[test]
fn jobs_page_is_sorted_by_name_and_counts_all() {
    let model = fold_rows(&vec![
        run_row("START", 1, "a", "n2", "beta", vec![], vec![]),
        run_row("START", 2, "b", "n1", "alpha", vec![], vec![]),
        run_row("START", 3, "c", "n1", "beta", vec![], vec![]),
    ]);
    let all = model.jobs(None, 100, 0);
    assert_eq!(all.total_count, 3);
    let order: Vec<(&str, &str)> =
        all.jobs.iter().map(|j| (j.name.as_str(), j.namespace.as_str())).collect();
    assert_eq!(order, vec![("alpha", "n1"), ("beta", "n1"), ("beta", "n2")]);
    let page = model.jobs(None, 1, 1);
    assert_eq!(page.total_count, 3);
    assert_eq!(page.jobs.len(), 1);
    assert_eq!(page.jobs[0].name, "beta");
    assert_eq!(page.jobs[0].namespace, "n1");
    let past_end = model.jobs(None, 10, 7);
    assert_eq!(past_end.total_count, 3);
    assert!(past_end.jobs.is_empty());
}

#[test]
fn datasets_include_job_referenced_tables() {
    let model = seeded();
    let raw = model.datasets(Some("raw"), 100, 0);
    assert_eq!(raw.datasets.len(), 1);
    assert_eq!(raw.datasets[0].name, "orders");
    let marts = model.datasets(Some("marts"), 100, 0);
    assert_eq!(marts.datasets[0].name, "daily_orders");
    assert_eq!(marts.datasets[0].dataset_type, "DB_TABLE");
    assert_eq!(marts.datasets[0].facets, "{}");
}

#[test]
fn lineage_graph_connects_job_to_its_datasets() {
    let node = "job:etl:build_daily";
    let graph = seeded().lineage(node, 2).unwrap();
    let ids: Vec<&str> = graph.graph.iter().map(|n| n.id.as_str()).collect();
    assert!(ids.contains(&node), "seed job present: {ids:?}");
    assert!(ids.contains(&"dataset:raw:orders"), "input present: {ids:?}");
    assert!(ids.contains(&"dataset:marts:daily_orders"), "output present: {ids:?}");
    let job = graph.graph.iter().find(|n| n.id == node).unwrap();
    assert_eq!(job.node_type, "JOB");
    assert_eq!(job.in_edges.len(), 1);
    assert_eq!(job.in_edges[0].origin, "dataset:raw:orders");
    assert_eq!(job.out_edges.len(), 1);
    assert_eq!(job.out_edges[0].destination, "dataset:marts:daily_orders");
}

#[test]
fn lineage_depth_bounds_the_traversal() {
    // raw.orders -> build_daily -> marts.daily_orders -> report -> marts.summary
    let model = fold_rows(&vec![
        run_row(
            "COMPLETE",
            1,
            "r1",
            "etl",
            "build_daily",
            vec![id("raw", "orders")],
            vec![id("marts", "daily_orders")],
        ),
        run_row(
            "COMPLETE",
            2,
            "r2",
            "etl",
            "report",
            vec![id("marts", "daily_orders")],
            vec![id("marts", "summary")],
        ),
    ]);
    let one = model.lineage("dataset:raw:orders", 1).unwrap();
    let mut ids: Vec<&str> = one.graph.iter().map(|n| n.id.as_str()).collect();
    ids.sort();
    assert_eq!(ids, vec!["dataset:raw:orders", "job:etl:build_daily"]);
    let zero = model.lineage("dataset:raw:orders", 0).unwrap();
    assert_eq!(zero.graph.len(), 1);
    let all = model.lineage("dataset:raw:orders", 100).unwrap();
    assert_eq!(all.graph.len(), 5);
}

#[test]
fn search_matches_job_and_dataset_names() {
    let hits = seeded().search("orders", 100);
    assert!(hits.total_count >= 2, "got {} hits", hits.total_count);
    assert!(hits.results.iter().all(|r| r.result_type == "DATASET"));
}

#[test]
fn search_is_case_insensitive_and_sorted() {
    let hits = seeded().search("ORDERS", 100);
    let names: Vec<&str> = hits.results.iter().map(|r| r.name.as_str()).collect();
    assert_eq!(names, vec!["daily_orders", "orders"]);
    assert_eq!(hits.results[1].node_id, "dataset:raw:orders");
}

#[test]
fn search_total_count_is_full_match_count() {
    let hits = seeded().search("orders", 1);
    assert_eq!(hits.results.len(), 1, "page is truncated to limit");
    assert!(hits.total_count >= 2, "totalCount counts all matches: {}", hits.total_count);
}

#[test]
fn empty_table_yields_empty_results() {
    let model = fold_rows(&Vec::new());
    assert!(model.namespaces().namespaces.is_empty());
    assert_eq!(model.jobs(None, 100, 0).total_count, 0);
}

#[test]
fn missing_job_is_not_found() {
    let err = seeded().job("etl", "nope").unwrap_err();
    match err {
        ReadError::NotFound(msg) => assert_eq!(msg, "job etl/nope"),
        other => panic!("expected NotFound, got {other:?}"),
    }
}

#[test]
fn lineage_resolves_uri_namespace_dataset() {
    let node = "dataset:s3://bucket:warehouse/t1";
    let graph = uri_seeded().lineage(node, 2).unwrap();
    let ids: Vec<&str> = graph.graph.iter().map(|n| n.id.as_str()).collect();
    assert!(ids.contains(&node), "uri dataset present: {ids:?}");
    assert!(ids.contains(&"job:etl:export"), "connected job present: {ids:?}");
    let ds = graph.graph.iter().find(|n| n.id == node).unwrap();
    assert_eq!(ds.node_type, "DATASET");
    match &ds.data {
        NodeData::Dataset(d) => assert!(!d.updated_at.starts_with("1970"), "real timestamp"),
        other => panic!("expected a dataset payload, got {other:?}"),
    }
}

#[test]
fn complete_without_datasets_does_not_erase_edges() {
    let job = uri_seeded().job("etl", "export").unwrap();
    assert_eq!(job.outputs.len(), 1, "START's output survives the COMPLETE");
    assert_eq!(job.outputs[0].namespace, "s3://bucket");
    assert_eq!(job.outputs[0].name, "warehouse/t1");
}

#[test]
fn run_state_reflects_terminal_event() {
    let runs = uri_seeded().job_runs("etl", "export").unwrap();
    assert_eq!(runs.total_count, 1);
    assert_eq!(runs.runs[0].id, "r1");
    assert_eq!(runs.runs[0].state, "COMPLETED");
    assert_eq!(runs.runs[0].duration_ms, 5_000);
}

#[test]
fn lineage_unknown_seed_is_not_found() {
    match seeded().lineage("dataset:nope:missing", 2) {
        Err(ReadError::NotFound(msg)) => assert_eq!(msg, "node dataset:nope:missing"),
        other => panic!("unknown seed should 404, got {other:?}"),
    }
    match seeded().lineage("widget", 2) {
        Err(ReadError::NotFound(msg)) => assert_eq!(msg, "malformed nodeId widget"),
        other => panic!("malformed id should 404, got {other:?}"),
    }
}

#[test]
fn http_dataset_versions_returns_a_version() {
    let versions = seeded().dataset_versions("raw", "orders", 10, 0).unwrap();
    assert_eq!(versions.total_count, 1);
    assert_eq!(versions.versions.len(), 1);
    let v = &versions.versions[0];
    assert_eq!(v.version.len(), 16);
    assert_eq!(v.id.version, v.version);
    assert_eq!(v.name, "orders");
    // The id is stable for the same snapshot.
    let again = seeded().dataset_versions("raw", "orders", 10, 0).unwrap();
    assert_eq!(again.versions[0].version, v.version);
    // Paging past the single version leaves the count.
    let past = seeded().dataset_versions("raw", "orders", 10, 1).unwrap();
    assert_eq!(past.total_count, 1);
    assert!(past.versions.is_empty());
}

#[test]
fn http_dataset_versions_unknown_is_404() {
    match seeded().dataset_versions("raw", "nope", 10, 0) {
        Err(ReadError::NotFound(msg)) => assert_eq!(msg, "dataset raw/nope"),
        other => panic!("expected NotFound, got {other:?}"),
    }
}

#[test]
fn edge_union_start_carries_edges_complete_does_not() {
    let model = fold_rows(&vec![
        run_event("START", 1_000, "r1", vec![id("s3://b", "warehouse/t1")]),
        run_event("COMPLETE", 2_000, "r1", vec![]),
    ]);
    let j = job_of(&model);
    assert_eq!(j.outputs.len(), 1, "edges survive the empty COMPLETE");
    assert_eq!(j.outputs[0].namespace, "s3://b");
    assert_eq!(j.outputs[0].name, "warehouse/t1");
}

#[test]
fn edge_union_later_edge_bearing_event_replaces() {
    let model = fold_rows(&vec![
        run_event("START", 1_000, "r1", vec![id("ns", "t1")]),
        run_event("COMPLETE", 2_000, "r1", vec![id("ns", "t2")]),
    ]);
    let j = job_of(&model);
    assert_eq!(j.outputs.len(), 1);
    assert_eq!(j.outputs[0].name, "t2", "latest edge-bearing event wins");
}

#[test]
fn older_edge_bearing_event_does_not_replace() {
    let model = fold_rows(&vec![
        run_event("COMPLETE", 2_000, "r1", vec![id("ns", "t2")]),
        run_event("START", 1_000, "r1", vec![id("ns", "t1")]),
    ]);
    assert_eq!(job_of(&model).outputs[0].name, "t2");
}

#[test]
fn run_state_start_complete() {
    let model = fold_rows(&vec![
        run_event("START", 1_000_000, "r1", vec![]),
        run_event("COMPLETE", 5_000_000, "r1", vec![]),
    ]);
    let j = job_of(&model);
    assert_eq!(j.latest_runs.len(), 1);
    let run = &j.latest_runs[0];
    assert_eq!(run.state, "COMPLETED");
    assert_eq!(run.id, "r1");
    assert_eq!(run.duration_ms, 4_000);
}

#[test]
fn run_state_start_fail_renders_failed() {
    let model = fold_rows(&vec![
        run_event("START", 1_000_000, "r1", vec![]),
        run_event("FAIL", 2_000_000, "r1", vec![]),
    ]);
    assert_eq!(job_of(&model).latest_runs[0].state, "FAILED");
}

#[test]
fn run_state_start_only_is_running() {
    let model = fold_rows(&vec![run_event("START", 1_000_000, "r1", vec![])]);
    let j = job_of(&model);
    assert_eq!(j.latest_runs[0].state, "RUNNING");
    assert_eq!(j.latest_runs[0].duration_ms, 0);
}

#[test]
fn terminal_state_not_downgraded_by_out_of_order_event() {
    let model = fold_rows(&vec![
        run_event("START", 1_000_000, "r1", vec![]),
        run_event("COMPLETE", 3_000_000, "r1", vec![]),
        run_event("RUNNING", 2_000_000, "r1", vec![]),
    ]);
    assert_eq!(job_of(&model).latest_runs[0].state, "COMPLETED");
}

#[test]
fn multiple_runs_sorted_newest_first() {
    let model = fold_rows(&vec![
        run_event("START", 1_000_000, "r1", vec![]),
        run_event("COMPLETE", 2_000_000, "r1", vec![]),
        run_event("START", 9_000_000, "r2", vec![]),
        run_event("FAIL", 10_000_000, "r2", vec![]),
    ]);
    let j = job_of(&model);
    assert_eq!(j.latest_runs.len(), 2);
    assert_eq!(j.latest_runs[0].id, "r2", "newest run first");
    assert_eq!(j.latest_runs[0].state, "FAILED");
    assert_eq!(j.latest_run.as_ref().unwrap().id, "r2");
}

#[test]
fn job_without_run_id_gets_neutral_run() {
    let mut row = blank("job");
    row.event_time = Some(1_000_000);
    row.job_namespace = Some("ns".to_string());
    row.job_name = Some("job".to_string());
    let model = fold_rows(&vec![row]);
    let j = job_of(&model);
    assert_eq!(j.latest_runs.len(), 1);
    assert_eq!(j.latest_runs[0].state, "COMPLETED");
    assert!(j.latest_runs[0].id.starts_with("norun:"));
    assert_eq!(j.latest_runs[0].id, "norun:job:ns:job");
}

fn with_meta(mut row: EventRow) -> EventRow {
    row.description = Some("Daily rollup.".to_string());
    row.tags = vec![
        JobTag { key: "tier".to_string(), value: Some("bronze".to_string()) },
        JobTag { key: "adhoc".to_string(), value: None },
    ];
    row
}

#[test]
fn job_metadata_folds_from_documentation_and_tags_facets() {
    let model = fold_rows(&vec![
        with_meta(run_event("START", 1_000, "r1", vec![])),
        run_event("COMPLETE", 2_000, "r1", vec![]),
    ]);
    let j = job_of(&model);
    assert_eq!(j.description.as_deref(), Some("Daily rollup."));
    assert_eq!(j.tags, vec!["tier:bronze".to_string(), "adhoc".to_string()]);
}

#[test]
fn job_metadata_survives_meta_less_later_event() {
    let model = fold_rows(&vec![
        with_meta(run_event("START", 1_000, "r1", vec![])),
        run_event("COMPLETE", 2_000, "r1", vec![]),
    ]);
    let j = job_of(&model);
    assert_eq!(j.description.as_deref(), Some("Daily rollup."));
    assert!(!j.tags.is_empty());
}

#[test]
fn job_without_metadata_keeps_empty_fields() {
    let model = fold_rows(&vec![run_event("START", 1_000, "r1", vec![])]);
    let j = job_of(&model);
    assert!(j.description.is_none());
    assert!(j.tags.is_empty());
}

#[test]
fn output_schema_becomes_dataset_fields_and_facet() {
    let mut row = run_event("COMPLETE", 1_000, "r1", vec![id("ns", "t")]);
    row.output_schemas = vec![OutputSchema {
        id: id("ns", "t"),
        fields: vec![r#"{"name":"a","type":"int"}"#.to_string()],
    }];
    let model = fold_rows(&vec![row, run_event("COMPLETE", 2_000, "r2", vec![id("ns", "t")])]);
    let d = model.dataset("ns", "t").unwrap();
    assert_eq!(d.fields, vec![r#"{"name":"a","type":"int"}"#.to_string()]);
    assert_eq!(d.facets, r#"{"schema":{"fields":[{"name":"a","type":"int"}]}}"#);
}

#[test]
fn dataset_events_are_recorded() {
    let mut row = blank("dataset");
    row.event_time = Some(5);
    row.dataset_namespace = Some("lake".to_string());
    row.dataset_name = Some("events".to_string());
    let model = fold_rows(&vec![row]);
    let d = model.dataset("lake", "events").unwrap();
    assert_eq!(d.source_name, "lake");
    assert_eq!(model.datasets(None, 10, 0).total_count, 1);
}

#[test]
fn fold_spans_first_and_last_seen_and_keeps_latest_references() {
    // Out of order in time; two edge-bearing events at the same time: the
    // later row wins the tie; an older edge-bearing event does not.
    let rows = vec![
        run_row("START", 300, "r2", "ns", "job", vec![id("in", "a")], vec![]),
        run_row("COMPLETE", 100, "r1", "ns", "job", vec![id("in", "old")], vec![]),
        run_row("RUNNING", 300, "r2", "ns", "job", vec![id("in", "b")], vec![]),
        run_row("COMPLETE", 500, "r2", "ns", "job", vec![], vec![]),
    ];
    let m = fold_rows(&rows);
    assert_eq!(m.jobs.len(), 1);
    let (_, agg) = &m.jobs[0];
    assert_eq!(agg.first_seen, 100);
    assert_eq!(agg.last_seen, 500);
    assert_eq!(agg.inputs.len(), 1);
    assert_eq!(agg.inputs[0].name, "b");
    assert!(agg.outputs.is_empty());
    // Every referenced dataset is recorded.
    for name in ["a", "old", "b"] {
        assert!(m.datasets.iter().any(|(d, _)| d.namespace == "in" && d.name == name));
    }
}

#[test]
fn fold_run_keeps_terminal_state_and_times() {
    // COMPLETE arrives before START: the terminal state is not downgraded;
    // the START time still sets when the run started.
    let rows = vec![
        run_row("COMPLETE", 200, "r1", "ns", "job", vec![], vec![]),
        run_row("start", 100, "r1", "ns", "job", vec![], vec![]),
        run_row("RUNNING", 150, "r2", "ns", "job", vec![], vec![]),
    ];
    let m = fold_rows(&rows);
    let runs = &m.jobs[0].1.runs;
    assert_eq!(runs.len(), 2);
    let r1 = &runs[0];
    assert_eq!(r1.run_id, "r1");
    assert!(matches!(r1.state, RunState::Completed));
    assert_eq!((r1.first_seen, r1.last_seen), (100, 200));
    assert_eq!(r1.started_at, Some(100));
    assert_eq!(r1.ended_at, Some(200));
    let r2 = &runs[1];
    assert!(matches!(r2.state, RunState::Running));
    assert_eq!(r2.started_at, None);
}
