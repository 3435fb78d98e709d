use hydrofoil::svc::decode::{column_lineage_row_of, event_micros, event_row_of, run_facet_row_of};

const EVENT: &str = r#"{"eventType":"START","eventTime":"1970-01-01T00:00:01.5Z",
  "run":{"runId":"r1","facets":{"nominalTime":{"nominalStartTime":"x"}}},
  "job":{"namespace":"ns","name":"j","facets":{
     "documentation":{"description":"Daily rollup."},
     "tags":{"tags":[{"key":"tier","value":"bronze"},{"value":"no-key"},{"key":"adhoc"}]}}},
  "inputs":[{"namespace":"raw","name":"orders"}],
  "outputs":[{"namespace":"marts","name":"daily","facets":{
     "schema":{"fields":[{"name":"id","type":"int"}]},
     "columnLineage":{"fields":{"id":{"inputFields":[{"namespace":"raw","name":"orders","field":"order_id"}]}}}}}]}"#;

#[test]
fn event_time_reads_as_epoch_micros() {
    assert_eq!(event_micros(EVENT), Some(1_500_000));
    assert_eq!(event_micros(r#"{"eventTime":"soon"}"#), None);
    assert_eq!(event_micros("not json"), None);
}

#[test]
fn event_row_reads_identity_refs_metadata_and_schemas() {
    let row = event_row_of(EVENT).expect("a run event");
    assert_eq!(row.kind, "run");
    assert_eq!(row.event_type.as_deref(), Some("START"));
    assert_eq!(row.event_time, Some(1_500_000));
    assert_eq!(row.run_id.as_deref(), Some("r1"));
    assert_eq!(row.job_namespace.as_deref(), Some("ns"));
    assert_eq!(row.job_name.as_deref(), Some("j"));
    assert_eq!(row.inputs.len(), 1);
    assert_eq!(row.inputs[0].name, "orders");
    assert_eq!(row.outputs[0].namespace, "marts");
    assert_eq!(row.description.as_deref(), Some("Daily rollup."));
    // The entry without a key is dropped.
    assert_eq!(row.tags.len(), 2);
    assert_eq!(row.tags[0].key, "tier");
    assert_eq!(row.tags[0].value.as_deref(), Some("bronze"));
    assert!(row.tags[1].value.is_none());
    assert_eq!(row.output_schemas.len(), 1);
    assert_eq!(row.output_schemas[0].fields, vec![r#"{"name":"id","type":"int"}"#.to_string()]);
}

#[test]
fn references_are_all_or_nothing() {
    let doc = r#"{"eventTime":"1970-01-01T00:00:00Z","run":{"runId":"r"},"job":{"namespace":"n","name":"j"},
      "inputs":[{"namespace":"a","name":"x"},{"namespace":"a"}]}"#;
    let row = event_row_of(doc).unwrap();
    assert!(row.inputs.is_empty());
    assert!(event_row_of(r#"{"producer":"p"}"#).is_none());
}

#[test]
fn run_facets_and_column_lineage_rows() {
    let rf = run_facet_row_of(EVENT);
    assert_eq!(rf.run_id.as_deref(), Some("r1"));
    let facets = rf.facets.expect("run facets");
    assert_eq!(facets.get("nominalTime"), Some(r#"{"nominalStartTime":"x"}"#.to_string()));
    let cl = column_lineage_row_of(EVENT).expect("column lineage");
    assert_eq!(cl.event_time, Some(1_500_000));
    let outs = cl.outputs.unwrap();
    assert_eq!(outs.len(), 1);
    let fields = outs[0].fields.as_ref().unwrap();
    assert_eq!(fields[0].field, "id");
    assert_eq!(fields[0].input_fields[0].field.as_deref(), Some("order_id"));
    // An empty facet does not lift.
    let empty = r#"{"outputs":[{"namespace":"m","name":"d","facets":{"columnLineage":{"fields":{}}}}]}"#;
    assert!(column_lineage_row_of(empty).is_none());
}
