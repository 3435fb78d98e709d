//! Creating external Delta tables: what a `CREATE EXTERNAL TABLE ... STORED
//! AS DELTA` request asks of the Delta create builder.

use vstd::prelude::*;

use crate::strmap::StringMap;
use crate::urls::{parse_url, url_parse, url_result_view};
use crate::text::owned;

verus! {

/// A `CREATE EXTERNAL TABLE` request as the Delta factory reads it. The
/// column schema travels beside it, converted by the Delta kernel.
#[derive(Debug)]
pub struct CreateExternalTable {
    /// The table reference as written.
    pub name: String,
    pub location: String,
    pub file_type: String,
    pub table_partition_cols: Vec<String>,
    pub if_not_exists: bool,
    pub or_replace: bool,
    pub unbounded: bool,
    pub temporary: bool,
    pub options: StringMap,
}

/// What happens to an existing table at the location.
#[derive(Debug, Clone, Copy, PartialEq, Eq, Structural)]
pub enum SaveMode {
    ErrorIfExists,
    Ignore,
    Overwrite,
}

/// A planning failure, with its message.
#[derive(Debug)]
pub struct PlanError {
    pub message: String,
}

/// What the Delta create builder is given.
#[derive(Debug)]
pub struct CreateDeltaPlan {
    /// The parsed location's serialization.
    pub location: String,
    pub save_mode: SaveMode,
    /// Partition columns, when the request names any.
    pub partition_columns: Option<Vec<String>>,
    /// Table configuration: every option, as given.
    pub configuration: StringMap,
}

/// The table factory registered for `STORED AS DELTA`.
#[derive(Debug, Clone, Copy)]
pub struct DeltaTableFactory;

/// `DELTA`
pub open spec fn delta_file_format() -> Seq<char> {
    seq!['D', 'E', 'L', 'T', 'A']
}

/// The save mode a request asks for: replace wins over if-not-exists.
pub open spec fn save_mode_of(cmd: CreateExternalTable) -> SaveMode {
    if cmd.or_replace {
        SaveMode::Overwrite
    } else if cmd.if_not_exists {
        SaveMode::Ignore
    } else {
        SaveMode::ErrorIfExists
    }
}

pub open spec fn unbounded_text() -> Seq<char> {
    "Creating unbounded Delta tables is not supported"@
}

pub open spec fn temporary_text() -> Seq<char> {
    "Creating temporary Delta tables is not supported"@
}

/// The outcome of a create request whose location parsed to `location`:
/// unbounded and temporary tables are refused, then an unparsable location;
/// otherwise the plan holds the location, the save mode, the partition
/// columns when there are any, and the options.
pub open spec fn create_ok(
    cmd: CreateExternalTable,
    location: Result<Seq<char>, Seq<char>>,
    r: Result<CreateDeltaPlan, PlanError>,
) -> bool {
    if cmd.unbounded {
        r matches Err(e) && e.message@ == unbounded_text()
    } else if cmd.temporary {
        r matches Err(e) && e.message@ == temporary_text()
    } else {
        match location {
            Err(m) => r matches Err(e) && e.message@ == m,
            Ok(u) => r matches Ok(p) && p.location@ == u && p.save_mode == save_mode_of(cmd) && (
            if cmd.table_partition_cols@.len() == 0 {
                p.partition_columns is None
            } else {
                p.partition_columns matches Some(c) && c@ == cmd.table_partition_cols@
            }) && p.configuration@ == cmd.options@,
        }
    }
}

impl DeltaTableFactory {
    /// The format name the factory is registered under.
    pub fn file_format() -> (r: &'static str)
        ensures
            r@ == delta_file_format(),
    {
        let r = "DELTA";
        proof {
            reveal_strlit("DELTA");
        }
        r
    }

    /// Plan a create request whose location parsed to `location` (its
    /// serialization, or the parse error's message).
    pub fn create_with_location(&self, cmd: &CreateExternalTable, location: Result<String, String>) -> (r:
        Result<CreateDeltaPlan, PlanError>)
        ensures
            create_ok(*cmd, url_result_view(location), r),
    {
        if cmd.unbounded {
            return Err(PlanError { message: owned("Creating unbounded Delta tables is not supported") });
        }
        if cmd.temporary {
            return Err(PlanError { message: owned("Creating temporary Delta tables is not supported") });
        }
        let location = match location {
            Ok(u) => u,
            Err(m) => return Err(PlanError { message: m }),
        };
        let save_mode = if cmd.or_replace {
            SaveMode::Overwrite
        } else if cmd.if_not_exists {
            SaveMode::Ignore
        } else {
            SaveMode::ErrorIfExists
        };
        let partition_columns = if cmd.table_partition_cols.len() == 0 {
            None
        } else {
            Some(crate::text::copy_strings(&cmd.table_partition_cols))
        };
        Ok(CreateDeltaPlan { location, save_mode, partition_columns, configuration: cmd.options.copy() })
    }

    /// Plan a create request: its location is parsed as a URL first.
    pub fn create(&self, cmd: &CreateExternalTable) -> (r: Result<CreateDeltaPlan, PlanError>)
        ensures
            create_ok(*cmd, url_parse(cmd.location@), r),
    {
        let location = parse_url(cmd.location.as_str());
        self.create_with_location(cmd, location)
    }
}

} // verus!
