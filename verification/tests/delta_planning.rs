use hydrofoil::external_tables::{CreateExternalTable, DeltaTableFactory, SaveMode};
use hydrofoil::planner::{
    plan_create_delta_table, CreateDeltaTable, CreateDeltaTableMode, DeltaCommand,
    DeltaCommandType, DeltaPlanner,
};
use hydrofoil::strmap::StringMap;

fn request(location: &str) -> CreateExternalTable {
    let mut options = StringMap::new();
    options.insert("delta.appendOnly".to_string(), "true".to_string());
    CreateExternalTable {
        name: "lake.sales".to_string(),
        location: location.to_string(),
        file_type: "DELTA".to_string(),
        table_partition_cols: Vec::new(),
        if_not_exists: false,
        or_replace: false,
        unbounded: false,
        temporary: false,
        options,
    }
}

#[test]
fn create_parses_the_location_and_copies_options() {
    let plan = DeltaTableFactory.create(&request("s3://bucket/sales")).unwrap();
    assert_eq!(plan.location, "s3://bucket/sales");
    assert_eq!(plan.save_mode, SaveMode::ErrorIfExists);
    assert!(plan.partition_columns.is_none());
    assert_eq!(plan.configuration.get("delta.appendOnly"), Some("true".to_string()));
}

#[test]
fn create_normalizes_the_location_as_a_url() {
    // The url crate lower-cases the scheme and adds the root path.
    let plan = DeltaTableFactory.create(&request("HTTP://Example.com")).unwrap();
    assert_eq!(plan.location, "http://example.com/");
}

#[test]
fn create_save_modes() {
    let mut r = request("file:///tmp/t");
    r.if_not_exists = true;
    assert_eq!(DeltaTableFactory.create(&r).unwrap().save_mode, SaveMode::Ignore);
    r.or_replace = true;
    assert_eq!(DeltaTableFactory.create(&r).unwrap().save_mode, SaveMode::Overwrite);
    r.if_not_exists = false;
    assert_eq!(DeltaTableFactory.create(&r).unwrap().save_mode, SaveMode::Overwrite);
}

#[test]
fn create_keeps_partition_columns() {
    let mut r = request("file:///tmp/t");
    r.table_partition_cols = vec!["day".to_string(), "region".to_string()];
    let plan = DeltaTableFactory.create(&r).unwrap();
    assert_eq!(plan.partition_columns, Some(vec!["day".to_string(), "region".to_string()]));
}

#[test]
fn create_refuses_unbounded_and_temporary_tables() {
    let mut r = request("file:///tmp/t");
    r.unbounded = true;
    r.temporary = true;
    assert_eq!(
        DeltaTableFactory.create(&r).unwrap_err().message,
        "Creating unbounded Delta tables is not supported"
    );
    r.unbounded = false;
    assert_eq!(
        DeltaTableFactory.create(&r).unwrap_err().message,
        "Creating temporary Delta tables is not supported"
    );
}

#[test]
fn create_refuses_a_location_that_is_no_url() {
    let err = DeltaTableFactory.create(&request("relative/path")).unwrap_err();
    assert_eq!(err.message, "relative URL without a base");
}

#[test]
fn create_with_location_takes_the_parse_result() {
    let r = request("ignored");
    let plan = DeltaTableFactory.create_with_location(&r, Ok("memory:///t/".to_string())).unwrap();
    assert_eq!(plan.location, "memory:///t/");
    let err = DeltaTableFactory.create_with_location(&r, Err("bad".to_string())).unwrap_err();
    assert_eq!(err.message, "bad");
}

#[test]
fn file_format_is_delta() {
    assert_eq!(DeltaTableFactory::file_format(), "DELTA");
}

fn command(mode: CreateDeltaTableMode, location: Option<&str>) -> CreateDeltaTable {
    let mut properties = StringMap::new();
    properties.insert("owner".to_string(), "etl".to_string());
    CreateDeltaTable {
        mode,
        table_name: Some("main.sales".to_string()),
        location: location.map(str::to_string),
        partitioning_columns: vec!["day".to_string()],
        properties,
    }
}

#[test]
fn plans_create_delta_table_as_external_table() {
    let t = plan_create_delta_table(&command(CreateDeltaTableMode::Create, Some("s3://b/sales"))).unwrap();
    assert_eq!(t.name, "main.sales");
    assert_eq!(t.location, "s3://b/sales");
    assert_eq!(t.file_type, "DELTA");
    assert_eq!(t.table_partition_cols, vec!["day".to_string()]);
    assert!(!t.if_not_exists && !t.or_replace && !t.unbounded && !t.temporary);
    assert_eq!(t.options.get("owner"), Some("etl".to_string()));
}

#[test]
fn plan_maps_the_create_modes() {
    let t = plan_create_delta_table(&command(CreateDeltaTableMode::CreateIfNotExists, Some("s3://b/t"))).unwrap();
    assert!(t.if_not_exists && !t.or_replace);
    let t = plan_create_delta_table(&command(CreateDeltaTableMode::CreateOrReplace, Some("s3://b/t"))).unwrap();
    assert!(!t.if_not_exists && t.or_replace);
    let t = plan_create_delta_table(&command(CreateDeltaTableMode::Replace, Some("s3://b/t"))).unwrap();
    assert!(!t.if_not_exists && !t.or_replace);
}

#[test]
fn plan_requires_a_location() {
    let err = plan_create_delta_table(&command(CreateDeltaTableMode::Create, None)).unwrap_err();
    assert_eq!(
        err.message,
        "CreateDeltaTable command requires a location. Registration to catalogs not yet implemented."
    );
}

#[test]
fn unnamed_table_plans_with_an_empty_name() {
    let mut c = command(CreateDeltaTableMode::Create, Some("s3://b/t"));
    c.table_name = None;
    assert_eq!(c.table_name(), "");
    assert_eq!(plan_create_delta_table(&c).unwrap().name, "");
}

#[test]
fn delta_planner_dispatches_on_the_command() {
    let planner = DeltaPlanner;
    let none = DeltaCommand { command_type: None };
    assert_eq!(planner.plan_delta_connect(&none).unwrap_err().message, "DeltaCommand has no command_type");
    let other = DeltaCommand {
        command_type: Some(DeltaCommandType::Unsupported { description: "CloneTable".to_string() }),
    };
    assert_eq!(
        planner.plan_delta_connect(&other).unwrap_err().message,
        "Unsupported command in DeltaPlanner: CloneTable"
    );
    let create = DeltaCommand {
        command_type: Some(DeltaCommandType::CreateDeltaTable(command(
            CreateDeltaTableMode::Create,
            Some("s3://b/t"),
        ))),
    };
    assert_eq!(planner.plan_delta_connect(&create).unwrap().location, "s3://b/t");
}
