use hydrofoil::svc::columns::{FieldLineage, InputFieldRef};
use hydrofoil::svc::ingest::{lift_column_lineage, lift_onto, ColumnLineageFacet};

fn field(name: &str) -> FieldLineage {
    FieldLineage {
        field: name.to_string(),
        input_fields: vec![InputFieldRef {
            namespace: Some("in-ns".to_string()),
            name: Some("in".to_string()),
            field: Some(name.to_string()),
        }],
        input_fields_json: "[]".to_string(),
    }
}

fn facet(fields: &[&str], dataset_deps: usize) -> ColumnLineageFacet {
    ColumnLineageFacet {
        fields: fields.iter().map(|f| field(f)).collect(),
        dataset: (0..dataset_deps)
            .map(|_| InputFieldRef {
                namespace: Some("in-ns".to_string()),
                name: Some("in".to_string()),
                field: Some("id".to_string()),
            })
            .collect(),
    }
}

#[test]
fn empty_facet_is_not_lifted() {
    assert!(lift_column_lineage(Some(facet(&[], 0))).is_none());
    assert!(lift_column_lineage(None).is_none());
}

#[test]
fn facet_with_fields_or_dataset_deps_is_lifted() {
    let f = lift_column_lineage(Some(facet(&["customer_id", "email_hash"], 1))).unwrap();
    assert_eq!(f.fields.len(), 2);
    assert_eq!(f.dataset.len(), 1);
    let d = lift_column_lineage(Some(facet(&[], 1))).unwrap();
    assert_eq!(d.fields.len(), 0);
    assert_eq!(d.dataset.len(), 1);
}

#[test]
fn lift_pairs_datasets_with_raw_entries_by_position() {
    // Two datasets; three raw entries: a liftable one, an empty one, and one
    // with no dataset to land on.
    let mut datasets = vec![None, Some(facet(&["kept"], 0))];
    let raw = vec![Some(facet(&["a"], 0)), Some(facet(&[], 0)), Some(facet(&["extra"], 0))];
    lift_onto(&mut datasets, raw);
    assert_eq!(datasets.len(), 2);
    assert_eq!(datasets[0].as_ref().unwrap().fields[0].field, "a");
    assert_eq!(datasets[1].as_ref().unwrap().fields[0].field, "kept");
}

#[test]
fn lifts_column_lineage_from_output_facets() {
    // One output whose `columnLineage` facet names two output fields
    // (customer_id, email_hash) and one dataset-level dependency.
    let raw_outputs = vec![Some(ColumnLineageFacet {
        fields: vec![field("customer_id"), field("email_hash")],
        dataset: vec![InputFieldRef {
            namespace: Some("raw".to_string()),
            name: Some("customers".to_string()),
            field: Some("region".to_string()),
        }],
    })];
    let mut outputs: Vec<Option<ColumnLineageFacet>> = vec![None];
    lift_onto(&mut outputs, raw_outputs);
    let out = outputs.first().expect("one output");
    let cl = out.as_ref().expect("column lineage lifted onto output dataset");
    assert_eq!(cl.fields.len(), 2);
    assert_eq!(cl.dataset.len(), 1);
}
