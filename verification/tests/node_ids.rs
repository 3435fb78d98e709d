use hydrofoil::svc::model::{dataset_node_id, job_node_id, parse_node_id, NodeKind};

#[test]
fn parse_plain_namespace() {
    let (kind, ns, name) = parse_node_id("dataset:ns:name").unwrap();
    assert_eq!(kind, NodeKind::Dataset);
    assert_eq!(ns, "ns");
    assert_eq!(name, "name");
}

#[test]
fn parse_job_node_id() {
    let (kind, ns, name) = parse_node_id("job:my-ns:etl.daily").unwrap();
    assert_eq!(kind, NodeKind::Job);
    assert_eq!(ns, "my-ns");
    assert_eq!(name, "etl.daily");
}

#[test]
fn parse_uri_namespace() {
    let (kind, ns, name) = parse_node_id("dataset:s3://bucket:warehouse/t1").unwrap();
    assert_eq!(kind, NodeKind::Dataset);
    assert_eq!(ns, "s3://bucket");
    assert_eq!(name, "warehouse/t1");
}

#[test]
fn parse_uri_namespace_with_slash_boundary() {
    let (_, ns, name) = parse_node_id("dataset:s3://open-lakehouse:warehouse/db/t").unwrap();
    assert_eq!(ns, "s3://open-lakehouse");
    assert_eq!(name, "warehouse/db/t");
}

#[test]
fn parse_uri_namespace_with_port_in_name() {
    let (_, ns, name) = parse_node_id("dataset:postgres://host:db.public.t:extra").unwrap();
    assert_eq!(ns, "postgres://host");
    assert_eq!(name, "db.public.t:extra");
}

#[test]
fn round_trip_uri_dataset() {
    let id = dataset_node_id("s3://bucket", "warehouse/t1");
    let (kind, ns, name) = parse_node_id(&id).unwrap();
    assert_eq!(kind, NodeKind::Dataset);
    assert_eq!(ns, "s3://bucket");
    assert_eq!(name, "warehouse/t1");
}

#[test]
fn parse_rejects_unknown_kind_and_missing_separator() {
    assert!(parse_node_id("widget:ns:name").is_none());
    assert!(parse_node_id("dataset:only-namespace").is_none());
    assert!(parse_node_id("nocolon").is_none());
}

#[test]
fn job_node_id_round_trips_plain_namespace() {
    let id = job_node_id("etl", "build:daily");
    assert_eq!(id, "job:etl:build:daily");
    let (kind, ns, name) = parse_node_id(&id).unwrap();
    assert_eq!(kind, NodeKind::Job);
    assert_eq!(ns, "etl");
    assert_eq!(name, "build:daily");
}
