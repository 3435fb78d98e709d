//! Planning Delta Connect commands: a `CreateDeltaTable` becomes a
//! `CREATE EXTERNAL TABLE ... STORED AS DELTA` request.

use vstd::prelude::*;

use crate::external_tables::{delta_file_format, CreateExternalTable, DeltaTableFactory, PlanError};
use crate::strmap::StringMap;
use crate::text::{copy_strings, owned};

verus! {

/// The `CreateDeltaTable.Mode` of the Delta Connect protocol.
#[derive(Debug, Clone, Copy, PartialEq, Eq, Structural)]
pub enum CreateDeltaTableMode {
    Unspecified,
    Create,
    CreateIfNotExists,
    Replace,
    CreateOrReplace,
}

/// A Delta Connect `CreateDeltaTable` command as the planner reads it; its
/// columns are converted to an Arrow schema beside it.
#[derive(Debug)]
pub struct CreateDeltaTable {
    pub mode: CreateDeltaTableMode,
    pub table_name: Option<String>,
    pub location: Option<String>,
    pub partitioning_columns: Vec<String>,
    pub properties: StringMap,
}

impl CreateDeltaTable {
    /// The table name, empty when unset.
    pub fn table_name(&self) -> (r: &str)
        ensures
            r@ == match self.table_name {
                Some(n) => n@,
                None => Seq::<char>::empty(),
            },
    {
        match &self.table_name {
            Some(n) => n.as_str(),
            None => {
                let e = "";
                proof {
                    reveal_strlit("");
                }
                e
            },
        }
    }
}

/// The command a Delta Connect request carries.
#[derive(Debug)]
pub enum DeltaCommandType {
    CreateDeltaTable(CreateDeltaTable),
    /// Any other command, with its debug rendering.
    Unsupported { description: String },
}

/// A Delta Connect request.
#[derive(Debug)]
pub struct DeltaCommand {
    pub command_type: Option<DeltaCommandType>,
}

/// Plans Delta Connect commands.
#[derive(Debug, Clone, Copy)]
pub struct DeltaPlanner;

pub open spec fn missing_location_text() -> Seq<char> {
    "CreateDeltaTable command requires a location. Registration to catalogs not yet implemented."@
}

/// `command` planned as an external-table request: refused without a
/// location; otherwise a non-temporary, bounded `DELTA` table at the location
/// with the command's name, partitioning and properties, created only when
/// absent for `CreateIfNotExists` and replacing for `CreateOrReplace`.
pub open spec fn planned_create(command: CreateDeltaTable, r: Result<CreateExternalTable, PlanError>) -> bool {
    match command.location {
        None => r matches Err(e) && e.message@ == missing_location_text(),
        Some(loc) => r matches Ok(t) && t.location@ == loc@ && t.name@ == match command.table_name {
            Some(n) => n@,
            None => Seq::<char>::empty(),
        } && t.file_type@ == delta_file_format() && t.table_partition_cols@
            == command.partitioning_columns@ && t.if_not_exists == (command.mode
            == CreateDeltaTableMode::CreateIfNotExists) && t.or_replace == (command.mode
            == CreateDeltaTableMode::CreateOrReplace) && t.options@ == command.properties@
            && !t.unbounded && !t.temporary,
    }
}

/// Plan a `CreateDeltaTable` command.
pub fn plan_create_delta_table(command: &CreateDeltaTable) -> (r: Result<CreateExternalTable, PlanError>)
    ensures
        planned_create(*command, r),
{
    let location = match &command.location {
        Some(l) => l.clone(),
        None => {
            return Err(
                PlanError {
                    message: owned(
                        "CreateDeltaTable command requires a location. Registration to catalogs not yet implemented.",
                    ),
                },
            )
        },
    };
    Ok(
        CreateExternalTable {
            name: owned(command.table_name()),
            location,
            file_type: owned(DeltaTableFactory::file_format()),
            table_partition_cols: copy_strings(&command.partitioning_columns),
            if_not_exists: command.mode == CreateDeltaTableMode::CreateIfNotExists,
            or_replace: command.mode == CreateDeltaTableMode::CreateOrReplace,
            unbounded: false,
            temporary: false,
            options: command.properties.copy(),
        },
    )
}

impl DeltaPlanner {
    /// Plan a Delta Connect request: only `CreateDeltaTable` is supported.
    pub fn plan_delta_connect(&self, command: &DeltaCommand) -> (r: Result<CreateExternalTable, PlanError>)
        ensures
            match command.command_type {
                None => r matches Err(e) && e.message@ == "DeltaCommand has no command_type"@,
                Some(DeltaCommandType::CreateDeltaTable(c)) => planned_create(c, r),
                Some(DeltaCommandType::Unsupported { description }) => r matches Err(e)
                    && e.message@ == "Unsupported command in DeltaPlanner: "@ + description@,
            },
    {
        match &command.command_type {
            None => Err(PlanError { message: owned("DeltaCommand has no command_type") }),
            Some(DeltaCommandType::CreateDeltaTable(c)) => plan_create_delta_table(c),
            Some(DeltaCommandType::Unsupported { description }) => {
                let mut m = owned("Unsupported command in DeltaPlanner: ");
                m.append(description.as_str());
                Err(PlanError { message: m })
            },
        }
    }
}

} // verus!
