use hydrofoil::ingest::{
    batch_source, create_table_ddl, ingest_lineage_context, ingest_target, preview_path_check,
    preview_sample_rows, resolved_after_create, target_step, BatchSource, ColumnSpec, ColumnType,
    FirstFrame, IngestError, TargetStep,
};
use hydrofoil::lineage::job_name_from_sql;
use hydrofoil::svc::ingest::{batch_response, BatchFailure, EnqueueError};

fn frame(catalog: &str, schema: &str, table: &str) -> FirstFrame {
    FirstFrame {
        catalog: catalog.to_string(),
        schema: schema.to_string(),
        table: table.to_string(),
        create_if_missing: true,
        source_path: None,
    }
}

#[test]
fn first_frame_names_the_qualified_target() {
    assert_eq!(ingest_target(&frame("main", "sales", "orders")).unwrap(), "main.sales.orders");
}

#[test]
fn first_frame_must_name_every_part() {
    for f in [frame("", "s", "t"), frame("c", "", "t"), frame("c", "s", "")] {
        match ingest_target(&f) {
            Err(IngestError::InvalidArgument(m)) => {
                assert_eq!(m, "first frame must set catalog, schema, and table")
            }
            other => panic!("expected InvalidArgument, got {other:?}"),
        }
    }
}

#[test]
fn ingest_lineage_names_the_job_after_the_table() {
    let cx = ingest_lineage_context("main.sales.orders");
    assert_eq!(cx.sql.as_deref(), Some("INGEST INTO main.sales.orders"));
    assert_eq!(cx.job_name, Some(job_name_from_sql("main.sales.orders")));
    assert_eq!(cx.run_id.as_ref().map(|r| r.len()), Some(36));
    assert!(cx.job_namespace.is_none() && cx.parent_run.is_none());
}

#[test]
fn target_steps() {
    assert_eq!(target_step(true, false, "c.s.t").unwrap(), TargetStep::Append);
    assert_eq!(target_step(false, true, "c.s.t").unwrap(), TargetStep::Create);
    match target_step(false, false, "c.s.t") {
        Err(IngestError::InvalidArgument(m)) => assert_eq!(
            m,
            "table c.s.t is not a Unity Catalog managed table and create_if_missing is false"
        ),
        other => panic!("expected InvalidArgument, got {other:?}"),
    }
    assert!(resolved_after_create(true, "c.s.t").is_ok());
    match resolved_after_create(false, "c.s.t") {
        Err(IngestError::Internal(m)) => {
            assert_eq!(m, "managed table c.s.t could not be resolved after create")
        }
        other => panic!("expected Internal, got {other:?}"),
    }
}

#[test]
fn batch_source_prefers_a_non_empty_path() {
    let mut f = frame("c", "s", "t");
    assert!(matches!(batch_source(&f), BatchSource::Stream));
    f.source_path = Some(String::new());
    assert!(matches!(batch_source(&f), BatchSource::Stream));
    f.source_path = Some("/data/orders.parquet".to_string());
    match batch_source(&f) {
        BatchSource::LocalFile(p) => assert_eq!(p, "/data/orders.parquet"),
        other => panic!("expected a local file, got {other:?}"),
    }
}

#[test]
fn create_table_statement() {
    let cols = vec![
        ColumnSpec { name: "id".to_string(), data_type: ColumnType::Int64, nullable: false },
        ColumnSpec { name: "name".to_string(), data_type: ColumnType::Utf8, nullable: true },
    ];
    assert_eq!(
        create_table_ddl("main.sales.orders", &cols).unwrap(),
        "CREATE TABLE main.sales.orders (`id` BIGINT NOT NULL, `name` STRING) USING DELTA"
    );
    let bad = vec![ColumnSpec {
        name: "blob".to_string(),
        data_type: ColumnType::Other("Binary".to_string()),
        nullable: true,
    }];
    match create_table_ddl("main.sales.orders", &bad) {
        Err(IngestError::InvalidArgument(m)) => assert!(m.starts_with("unsupported schema: ")),
        other => panic!("expected InvalidArgument, got {other:?}"),
    }
}

#[test]
fn preview_sampling_and_path() {
    assert_eq!(preview_sample_rows(None), 100);
    assert_eq!(preview_sample_rows(Some(5)), 5);
    assert_eq!(preview_sample_rows(Some(50_000)), 1000);
    assert!(preview_path_check("/data/x.parquet").is_ok());
    match preview_path_check("  \t") {
        Err(IngestError::InvalidArgument(m)) => assert_eq!(m, "path is required"),
        other => panic!("expected InvalidArgument, got {other:?}"),
    }
}

#[test]
fn batch_response_reports_failures() {
    let ok = batch_response(2, 2, &Vec::new());
    assert_eq!(ok.status, "success");
    assert_eq!((ok.summary.received, ok.summary.successful, ok.summary.failed), (2, 2, 0));
    assert!(ok.failed_events.is_empty());

    let failures = vec![BatchFailure { index: 1, reason: "eventTime is required".to_string() }];
    let partial = batch_response(3, 2, &failures);
    assert_eq!(partial.status, "partial_success");
    assert_eq!(partial.summary.failed, 1);
    assert_eq!(partial.failed_events[0].index, 1);
    assert_eq!(partial.failed_events[0].reason, "eventTime is required");
    assert!(!partial.failed_events[0].retriable);
}

#[test]
fn enqueue_error_message() {
    assert_eq!(EnqueueError.message(), "buffered writer is shut down");
}
