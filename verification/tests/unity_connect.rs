use hydrofoil::svc::unity::{unity_connect_step, ConnectStep, TableLookup};

#[test]
fn existing_table_is_used() {
    assert_eq!(unity_connect_step(TableLookup::Found, false, "c", "s", "t"), Ok(ConnectStep::Use));
    assert_eq!(unity_connect_step(TableLookup::Found, true, "c", "s", "t"), Ok(ConnectStep::Use));
}

#[test]
fn missing_table_is_created_only_with_auto_create() {
    assert_eq!(
        unity_connect_step(TableLookup::NotFound, true, "main", "lineage", "events"),
        Ok(ConnectStep::Create)
    );
    assert_eq!(
        unity_connect_step(TableLookup::NotFound, false, "main", "lineage", "events"),
        Err("unity-managed table main.lineage.events not found and auto_create is disabled; \
             create it first or set delta.auto_create=true"
            .to_string())
    );
}

#[test]
fn other_lookup_failures_pass_through() {
    assert_eq!(
        unity_connect_step(TableLookup::Failed("unity catalog client: 403".to_string()), true, "c", "s", "t"),
        Err("unity catalog client: 403".to_string())
    );
}
