//! The read side's error type and the handle on the events table.

use vstd::prelude::*;

use crate::strmap::StringMap;
use crate::svc::config::Config;

verus! {

/// Errors of the read endpoints: 404 for `NotFound`, 500 otherwise.
#[derive(Debug)]
pub enum ReadError {
    OpenTable(String),
    Query(String),
    NotFound(String),
}

/// Where the events table lives: the table location and the object-store
/// options the writer uses.
#[derive(Debug)]
pub struct LineageStore {
    table_uri: String,
    storage_options: StringMap,
}

impl LineageStore {
    pub closed spec fn spec_table_uri(&self) -> Seq<char> {
        self.table_uri@
    }

    pub closed spec fn spec_storage_options(&self) -> Seq<(Seq<char>, Seq<char>)> {
        self.storage_options@
    }

    /// A store over the writer's `delta.table_path` with the service's
    /// storage options, whatever the delta mode.
    pub fn from_config(cfg: &Config) -> (r: Self)
        ensures
            r.spec_table_uri() == cfg.delta.table_path@,
            r.spec_storage_options() == cfg.storage_options@,
    {
        LineageStore {
            table_uri: cfg.delta.table_path.clone(),
            storage_options: cfg.storage_options.copy(),
        }
    }

    pub fn table_uri(&self) -> (r: &str)
        ensures
            r@ == self.spec_table_uri(),
    {
        self.table_uri.as_str()
    }

    pub fn storage_options(&self) -> (r: &StringMap)
        ensures
            r@ == self.spec_storage_options(),
    {
        &self.storage_options
    }
}

/// The default page size of the listing endpoints.
pub fn default_limit() -> (r: usize)
    ensures
        r == 100,
{
    100
}

/// The default traversal depth of the lineage endpoint.
pub fn default_depth() -> (r: usize)
    ensures
        r == 20,
{
    20
}

} // verus!
