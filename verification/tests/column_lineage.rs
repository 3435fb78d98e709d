use hydrofoil::svc::columns::{
    column_lineage, dataset_field_node_id, parse_column_lineage_node_id, ColumnLineageRow,
    FieldLineage, FieldNode, FieldNodeData, InputFieldRef, OutputLineage,
};

fn input(ns: &str, ds: &str, field: &str) -> InputFieldRef {
    InputFieldRef {
        namespace: Some(ns.to_string()),
        name: Some(ds.to_string()),
        field: Some(field.to_string()),
    }
}

fn field(name: &str, inputs: Vec<InputFieldRef>, json: &str) -> FieldLineage {
    FieldLineage { field: name.to_string(), input_fields: inputs, input_fields_json: json.to_string() }
}

fn row(t: i64, ns: &str, ds: &str, fields: Vec<FieldLineage>) -> ColumnLineageRow {
    ColumnLineageRow {
        event_time: Some(t),
        outputs: Some(vec![OutputLineage {
            namespace: Some(ns.to_string()),
            name: Some(ds.to_string()),
            fields: Some(fields),
        }]),
    }
}

/// Two runs writing `warehouse:silver.customers` with column lineage; the
/// newer one maps `id` to `raw:customers.customer_key` (not `.id`). Fields
/// come in key order, as a JSON object yields them.
fn seeded_rows() -> Vec<ColumnLineageRow> {
    let older = vec![field(
        "id",
        vec![input("raw", "customers", "id")],
        r#"[{"namespace":"raw","name":"customers","field":"id"}]"#,
    )];
    let newer = vec![
        field(
            "email_hash",
            vec![input("raw", "customers", "email")],
            r#"[{"namespace":"raw","name":"customers","field":"email"}]"#,
        ),
        field(
            "id",
            vec![input("raw", "customers", "customer_key")],
            r#"[{"namespace":"raw","name":"customers","field":"customer_key"}]"#,
        ),
    ];
    vec![
        row(1_700_000_000_000_000, "warehouse", "silver.customers", older),
        row(1_700_000_005_000_000, "warehouse", "silver.customers", newer),
    ]
}

fn ids(graph: &[FieldNode]) -> Vec<&str> {
    graph.iter().map(|n| n.id.as_str()).collect()
}

#[test]
fn column_lineage_serves_latest_facet_as_field_graph() {
    let graph = column_lineage("dataset:warehouse:silver.customers", &seeded_rows()).graph;
    let ids = ids(&graph);
    assert!(
        ids.contains(&"datasetField:warehouse:silver.customers:id")
            && ids.contains(&"datasetField:warehouse:silver.customers:email_hash")
            && ids.contains(&"datasetField:raw:customers:customer_key")
            && ids.contains(&"datasetField:raw:customers:email"),
        "output + input field nodes present: {ids:?}"
    );
    assert!(
        !ids.contains(&"datasetField:raw:customers:id"),
        "the older facet's mapping must not leak in: {ids:?}"
    );
    assert!(graph.iter().all(|n| n.node_type == "DATASET_FIELD"));

    let id_node = graph
        .iter()
        .find(|n| n.id == "datasetField:warehouse:silver.customers:id")
        .unwrap();
    assert_eq!(
        id_node.in_edges[0].origin, "datasetField:raw:customers:customer_key",
        "edge mirrors the latest inputFields"
    );
    let input_node = graph
        .iter()
        .find(|n| n.id == "datasetField:raw:customers:customer_key")
        .unwrap();
    assert_eq!(
        input_node.out_edges[0].destination,
        "datasetField:warehouse:silver.customers:id"
    );
}

#[test]
fn column_lineage_dataset_field_node_id_filters_to_one_field() {
    let graph =
        column_lineage("datasetField:warehouse:silver.customers:email_hash", &seeded_rows()).graph;
    let ids = ids(&graph);
    assert!(
        ids.contains(&"datasetField:warehouse:silver.customers:email_hash")
            && ids.contains(&"datasetField:raw:customers:email"),
        "addressed field + its inputs: {ids:?}"
    );
    assert!(
        !ids.iter().any(|id| id.ends_with(":id") || id.ends_with(":customer_key")),
        "other fields filtered out: {ids:?}"
    );
}

#[test]
fn column_lineage_graph_is_sorted_with_payloads() {
    let graph = column_lineage("dataset:warehouse:silver.customers", &seeded_rows()).graph;
    assert_eq!(
        ids(&graph),
        vec![
            "datasetField:raw:customers:customer_key",
            "datasetField:raw:customers:email",
            "datasetField:warehouse:silver.customers:email_hash",
            "datasetField:warehouse:silver.customers:id",
        ]
    );
    match &graph[0].data {
        FieldNodeData::Input { namespace, dataset, field } => {
            assert_eq!((namespace.as_str(), dataset.as_str(), field.as_str()), ("raw", "customers", "customer_key"));
        }
        other => panic!("expected an input payload, got {other:?}"),
    }
    match &graph[3].data {
        FieldNodeData::Output { namespace, dataset, field, input_fields_json } => {
            assert_eq!(namespace, "warehouse");
            assert_eq!(dataset, "silver.customers");
            assert_eq!(field, "id");
            assert!(input_fields_json.contains("customer_key"));
        }
        other => panic!("expected an output payload, got {other:?}"),
    }
    assert!(graph[0].in_edges.is_empty());
    assert_eq!(graph[0].out_edges.len(), 1);
    assert_eq!(graph[3].in_edges.len(), 1);
    assert!(graph[3].out_edges.is_empty());
}

#[test]
fn column_lineage_unknown_dataset_is_empty_graph() {
    assert!(column_lineage("dataset:raw:orders", &seeded_rows()).graph.is_empty());
    assert!(column_lineage("dataset:raw:orders", &Vec::new()).graph.is_empty());
}

#[test]
fn column_lineage_rejects_other_node_ids() {
    assert!(column_lineage("job:warehouse:silver.customers", &seeded_rows()).graph.is_empty());
    assert!(column_lineage("nonsense", &seeded_rows()).graph.is_empty());
}

#[test]
fn column_lineage_facet_without_fields_object_is_empty() {
    let mut rows = seeded_rows();
    rows.push(ColumnLineageRow {
        event_time: Some(1_700_000_009_000_000),
        outputs: Some(vec![OutputLineage {
            namespace: Some("warehouse".to_string()),
            name: Some("silver.customers".to_string()),
            fields: None,
        }]),
    });
    assert!(column_lineage("dataset:warehouse:silver.customers", &rows).graph.is_empty());
}

#[test]
fn column_lineage_unknown_time_ranks_last() {
    let mut rows = seeded_rows();
    rows.push(ColumnLineageRow {
        event_time: None,
        outputs: Some(vec![OutputLineage {
            namespace: Some("warehouse".to_string()),
            name: Some("silver.customers".to_string()),
            fields: Some(vec![field("other", vec![input("raw", "x", "y")], "[]")]),
        }]),
    });
    let graph = column_lineage("dataset:warehouse:silver.customers", &rows).graph;
    assert!(ids(&graph).contains(&"datasetField:warehouse:silver.customers:email_hash"));
    assert!(!ids(&graph).contains(&"datasetField:warehouse:silver.customers:other"));
}

#[test]
fn incomplete_input_entries_add_no_edge() {
    let rows = vec![row(
        1,
        "w",
        "t",
        vec![field(
            "a",
            vec![
                InputFieldRef { namespace: Some("r".to_string()), name: None, field: Some("b".to_string()) },
                input("r", "s", "c"),
            ],
            "[]",
        )],
    )];
    let graph = column_lineage("dataset:w:t", &rows).graph;
    assert_eq!(ids(&graph), vec!["datasetField:r:s:c", "datasetField:w:t:a"]);
    assert_eq!(graph[1].in_edges.len(), 1);
}

#[test]
fn field_node_ids_round_trip() {
    let id = dataset_field_node_id("s3://bucket", "db:table", "col");
    assert_eq!(id, "datasetField:s3://bucket:db:table:col");
    assert_eq!(
        parse_column_lineage_node_id(&id),
        Some(("s3://bucket".to_string(), "db:table".to_string(), Some("col".to_string())))
    );
    assert_eq!(
        parse_column_lineage_node_id("dataset:raw:orders"),
        Some(("raw".to_string(), "orders".to_string(), None))
    );
    assert_eq!(parse_column_lineage_node_id("datasetField:raw"), None);
    assert_eq!(parse_column_lineage_node_id("job:raw:orders"), None);
}

#[test]
fn http_column_lineage_returns_empty_graph_not_404() {
    // A dataset with no stored column lineage renders an empty column view.
    let rows: Vec<ColumnLineageRow> = Vec::new();
    // An answer, not an error: the envelope's `graph`, with no nodes.
    let g = column_lineage("dataset:raw:orders", &rows);
    assert_eq!(g.graph.len(), 0);
    assert!(g.graph.is_empty());
}
