//! The decision a Unity Catalog managed sink makes when it connects: use the
//! table, create it, or give up.

use vstd::prelude::*;

use crate::text::owned;

verus! {

/// What looking the target table up in Unity Catalog gave.
#[derive(Debug)]
pub enum TableLookup {
    Found,
    NotFound,
    /// Any other failure, with its message.
    Failed(String),
}

/// What connecting goes on to do with the table.
#[derive(Debug, Clone, Copy, PartialEq, Eq, Structural)]
pub enum ConnectStep {
    Use,
    Create,
}

/// `unity-managed table <catalog>.<schema>.<table> not found and auto_create
/// is disabled; create it first or set delta.auto_create=true`
pub open spec fn missing_table_text(catalog: Seq<char>, schema: Seq<char>, table: Seq<char>) -> Seq<char> {
    "unity-managed table "@ + catalog + "."@ + schema + "."@ + table
        + " not found and auto_create is disabled; create it first or set delta.auto_create=true"@
}

/// The step after looking the table up: an existing table is used; a missing
/// one is created when `auto_create` is set and is an error otherwise; any
/// other failure of the lookup is passed on.
pub fn unity_connect_step(lookup: TableLookup, auto_create: bool, catalog: &str, schema: &str, table: &str) -> (r:
    Result<ConnectStep, String>)
    ensures
        lookup is Found ==> r == Ok::<ConnectStep, String>(ConnectStep::Use),
        lookup is NotFound && auto_create ==> r == Ok::<ConnectStep, String>(ConnectStep::Create),
        lookup is NotFound && !auto_create ==> (r matches Err(m) && m@ == missing_table_text(
            catalog@,
            schema@,
            table@,
        )),
        lookup matches TableLookup::Failed(e) ==> (r matches Err(m) && m@ == e@),
{
    match lookup {
        TableLookup::Found => Ok(ConnectStep::Use),
        TableLookup::NotFound => if auto_create {
            Ok(ConnectStep::Create)
        } else {
            let mut m = owned("unity-managed table ");
            m.append(catalog);
            m.append(".");
            m.append(schema);
            m.append(".");
            m.append(table);
            m.append(
                " not found and auto_create is disabled; create it first or set delta.auto_create=true",
            );
            Err(m)
        },
        TableLookup::Failed(e) => Err(e),
    }
}

} // verus!
