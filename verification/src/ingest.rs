//! The `CREATE TABLE` column list of an ingested file's schema.

use vstd::prelude::*;

use crate::text::owned;

verus! {

/// The Arrow column types ingestion maps to SQL; any other type carries its
/// rendering for the error message.
#[derive(Debug)]
pub enum ColumnType {
    Boolean,
    Int8,
    Int16,
    Int32,
    Int64,
    Float32,
    Float64,
    Utf8,
    LargeUtf8,
    Utf8View,
    Date32,
    Date64,
    Timestamp,
    Other(String),
}

/// One column of a file's schema.
#[derive(Debug)]
pub struct ColumnSpec {
    pub name: String,
    pub data_type: ColumnType,
    pub nullable: bool,
}

/// The SQL type of a column type, when it has one.
pub open spec fn sql_type_text(t: ColumnType) -> Option<Seq<char>> {
    match t {
        ColumnType::Boolean => Some("BOOLEAN"@),
        ColumnType::Int8 | ColumnType::Int16 | ColumnType::Int32 => Some("INT"@),
        ColumnType::Int64 => Some("BIGINT"@),
        ColumnType::Float32 => Some("FLOAT"@),
        ColumnType::Float64 => Some("DOUBLE"@),
        ColumnType::Utf8 | ColumnType::LargeUtf8 | ColumnType::Utf8View => Some("STRING"@),
        ColumnType::Date32 | ColumnType::Date64 => Some("DATE"@),
        ColumnType::Timestamp => Some("TIMESTAMP"@),
        ColumnType::Other(_) => None,
    }
}

/// The message for an unsupported column.
pub open spec fn unsupported_text(c: ColumnSpec) -> Seq<char> {
    "column '"@ + c.name@ + "' has unsupported type "@ + match c.data_type {
        ColumnType::Other(d) => d@,
        _ => Seq::empty(),
    }
}

/// Map a column's type to its SQL type.
pub fn sql_type(c: &ColumnSpec) -> (r: Result<&'static str, String>)
    ensures
        match r {
            Ok(t) => sql_type_text(c.data_type) == Some(t@),
            Err(e) => sql_type_text(c.data_type) is None && e@ == unsupported_text(*c),
        },
{
    match &c.data_type {
        ColumnType::Boolean => Ok("BOOLEAN"),
        ColumnType::Int8 | ColumnType::Int16 | ColumnType::Int32 => Ok("INT"),
        ColumnType::Int64 => Ok("BIGINT"),
        ColumnType::Float32 => Ok("FLOAT"),
        ColumnType::Float64 => Ok("DOUBLE"),
        ColumnType::Utf8 | ColumnType::LargeUtf8 | ColumnType::Utf8View => Ok("STRING"),
        ColumnType::Date32 | ColumnType::Date64 => Ok("DATE"),
        ColumnType::Timestamp => Ok("TIMESTAMP"),
        ColumnType::Other(d) => {
            let mut e = owned("column '");
            e.append(c.name.as_str());
            e.append("' has unsupported type ");
            e.append(d.as_str());
            Err(e)
        },
    }
}

/// One column of the clause: the quoted name, the SQL type, and
/// ` NOT NULL` for a non-nullable column.
pub open spec fn column_text(c: ColumnSpec, ty: Seq<char>) -> Seq<char> {
    "`"@ + c.name@ + "` "@ + ty + if c.nullable {
        Seq::empty()
    } else {
        " NOT NULL"@
    }
}

/// The column list of the first `n` columns, `, `-separated, or the error
/// of the first unsupported one.
pub open spec fn ddl_spec(cols: Seq<ColumnSpec>, n: int) -> Result<Seq<char>, Seq<char>>
    decreases n,
{
    if n <= 0 {
        Ok(Seq::empty())
    } else {
        match ddl_spec(cols, n - 1) {
            Err(e) => Err(e),
            Ok(prefix) => match sql_type_text(cols[n - 1].data_type) {
                None => Err(unsupported_text(cols[n - 1])),
                Some(ty) => Ok(
                    if n == 1 {
                        column_text(cols[0], ty)
                    } else {
                        prefix + ", "@ + column_text(cols[n - 1], ty)
                    },
                ),
            },
        }
    }
}

/// Render a schema as the column list of a `CREATE TABLE (...)` clause; an
/// unsupported column type is an error.
pub fn ddl_columns(cols: &Vec<ColumnSpec>) -> (r: Result<String, String>)
    ensures
        match r {
            Ok(s) => ddl_spec(cols@, cols@.len() as int) == Ok::<Seq<char>, Seq<char>>(s@),
            Err(e) => ddl_spec(cols@, cols@.len() as int) == Err::<Seq<char>, Seq<char>>(e@),
        },
{
    let mut out = String::new();
    let mut i: usize = 0;
    while i < cols.len()
        invariant
            i <= cols.len(),
            ddl_spec(cols@, i as int) == Ok::<Seq<char>, Seq<char>>(out@),
        decreases cols.len() - i,
    {
        let ty = match sql_type(&cols[i]) {
            Ok(t) => t,
            Err(e) => {
                proof {
                    assert(ddl_spec(cols@, i + 1) == Err::<Seq<char>, Seq<char>>(e@));
                    lemma_ddl_err_sticks(cols@, i + 1, cols@.len() as int, e@);
                }
                return Err(e);
            },
        };
        let mut col = owned("`");
        col.append(cols[i].name.as_str());
        col.append("` ");
        col.append(ty);
        if !cols[i].nullable {
            col.append(" NOT NULL");
        }
        assert(col@ =~= column_text(cols@[i as int], ty@));
        let ghost prefix = out@;
        if i > 0 {
            out.append(", ");
        }
        out.append(col.as_str());
        proof {
            if i > 0 {
                assert(out@ =~= prefix + ", "@ + column_text(cols@[i as int], ty@));
            } else {
                assert(prefix.len() == 0);
                assert(out@ =~= column_text(cols@[0], ty@));
            }
        }
        i = i + 1;
    }
    Ok(out)
}

proof fn lemma_ddl_err_sticks(cols: Seq<ColumnSpec>, n: int, m: int, e: Seq<char>)
    requires
        1 <= n <= m,
        ddl_spec(cols, n) == Err::<Seq<char>, Seq<char>>(e),
    ensures
        ddl_spec(cols, m) == Err::<Seq<char>, Seq<char>>(e),
    decreases m - n,
{
    if n < m {
        lemma_ddl_err_sticks(cols, n, m - 1, e);
    }
}

/// What the first frame of an ingest stream names; its target schema and
/// data chunks are decoded beside it.
#[derive(Debug)]
pub struct FirstFrame {
    pub catalog: String,
    pub schema: String,
    pub table: String,
    pub create_if_missing: bool,
    /// A local Parquet file to read instead of streamed chunks.
    pub source_path: Option<String>,
}

/// Why an ingest request is refused.
#[derive(Debug)]
pub enum IngestError {
    InvalidArgument(String),
    Internal(String),
}

/// `catalog.schema.table`
pub open spec fn qualified_text(catalog: Seq<char>, schema: Seq<char>, table: Seq<char>) -> Seq<char> {
    catalog + "."@ + schema + "."@ + table
}

/// The table a first frame names, qualified; every part must be set.
pub fn ingest_target(first: &FirstFrame) -> (r: Result<String, IngestError>)
    ensures
        first.catalog@.len() == 0 || first.schema@.len() == 0 || first.table@.len() == 0 <==> r is Err,
        r matches Err(e) ==> e matches IngestError::InvalidArgument(m) && m@
            == "first frame must set catalog, schema, and table"@,
        r matches Ok(q) ==> q@ == qualified_text(first.catalog@, first.schema@, first.table@),
{
    if first.catalog.as_str().is_empty() || first.schema.as_str().is_empty()
        || first.table.as_str().is_empty() {
        return Err(
            IngestError::InvalidArgument(owned("first frame must set catalog, schema, and table")),
        );
    }
    let mut q = first.catalog.clone();
    q.append(".");
    q.append(first.schema.as_str());
    q.append(".");
    q.append(first.table.as_str());
    Ok(q)
}

/// The lineage context of an ingest into `qualified`: a fresh run of the job
/// named after the qualified table, with statement `INGEST INTO <qualified>`.
pub fn ingest_lineage_context(qualified: &str) -> (r: crate::lineage::LineageContext)
    ensures
        r.run_id matches Some(id) && crate::text::is_uuid_text(id@, '7'),
        r.job_name matches Some(n) && n@ == crate::lineage::sql_job_name(qualified@),
        r.sql matches Some(s) && s@ == "INGEST INTO "@ + qualified@,
        r.job_namespace is None,
        r.parent_run is None,
        r.job_facets.producer@.len() == 0,
        r.job_facets.description is None,
        r.job_facets.tags@.len() == 0,
        r.job_facets.owners@.len() == 0,
{
    let mut sql = owned("INGEST INTO ");
    sql.append(qualified);
    crate::lineage::LineageContext {
        run_id: Some(crate::lineage::new_run_id()),
        job_name: Some(crate::lineage::job_name_from_sql(qualified)),
        job_namespace: None,
        parent_run: None,
        job_facets: crate::lineage::JobFacets {
            producer: String::new(),
            description: None,
            tags: Vec::new(),
            owners: Vec::new(),
        },
        sql: Some(sql),
    }
}

/// What to do with the target once its resolution is known.
#[derive(Debug, Clone, Copy, PartialEq, Eq, Structural)]
pub enum TargetStep {
    /// The managed table exists: append to it.
    Append,
    /// Create the managed table, then resolve it again.
    Create,
}

/// The next step for target `qualified`: append when it resolved; create it
/// when missing and the frame asks for that; otherwise refuse.
pub fn target_step(resolved: bool, create_if_missing: bool, qualified: &str) -> (r: Result<
    TargetStep,
    IngestError,
>)
    ensures
        resolved ==> r == Ok::<TargetStep, IngestError>(TargetStep::Append),
        !resolved && create_if_missing ==> r == Ok::<TargetStep, IngestError>(TargetStep::Create),
        !resolved && !create_if_missing ==> (r matches Err(IngestError::InvalidArgument(m)) && m@
            == "table "@ + qualified@
            + " is not a Unity Catalog managed table and create_if_missing is false"@),
{
    if resolved {
        Ok(TargetStep::Append)
    } else if create_if_missing {
        Ok(TargetStep::Create)
    } else {
        let mut m = owned("table ");
        m.append(qualified);
        m.append(" is not a Unity Catalog managed table and create_if_missing is false");
        Err(IngestError::InvalidArgument(m))
    }
}

/// After creating target `qualified`, it must resolve.
pub fn resolved_after_create(resolved: bool, qualified: &str) -> (r: Result<(), IngestError>)
    ensures
        resolved <==> r is Ok,
        r matches Err(e) ==> e matches IngestError::Internal(m) && m@ == "managed table "@
            + qualified@ + " could not be resolved after create"@,
{
    if resolved {
        Ok(())
    } else {
        let mut m = owned("managed table ");
        m.append(qualified);
        m.append(" could not be resolved after create");
        Err(IngestError::Internal(m))
    }
}

/// Where an ingest's batches come from.
#[derive(Debug)]
pub enum BatchSource {
    /// A local Parquet file.
    LocalFile(String),
    /// The streamed Arrow IPC chunks.
    Stream,
}

/// A non-empty source path is read from disk; otherwise the stream is
/// decoded.
pub fn batch_source(first: &FirstFrame) -> (r: BatchSource)
    ensures
        match first.source_path {
            Some(p) => if p@.len() > 0 {
                r matches BatchSource::LocalFile(q) && q@ == p@
            } else {
                r is Stream
            },
            None => r is Stream,
        },
{
    match &first.source_path {
        Some(p) => if p.as_str().is_empty() {
            BatchSource::Stream
        } else {
            BatchSource::LocalFile(p.clone())
        },
        None => BatchSource::Stream,
    }
}

/// The `CREATE TABLE ... USING DELTA` statement of a managed ingest target,
/// or why its schema cannot be created.
pub fn create_table_ddl(qualified: &str, cols: &Vec<ColumnSpec>) -> (r: Result<String, IngestError>)
    ensures
        match ddl_spec(cols@, cols@.len() as int) {
            Ok(c) => r matches Ok(s) && s@ == "CREATE TABLE "@ + qualified@ + " ("@ + c
                + ") USING DELTA"@,
            Err(e) => r matches Err(IngestError::InvalidArgument(m)) && m@ == "unsupported schema: "@
                + e,
        },
{
    match ddl_columns(cols) {
        Ok(c) => {
            let mut s = owned("CREATE TABLE ");
            s.append(qualified);
            s.append(" (");
            s.append(c.as_str());
            s.append(") USING DELTA");
            Ok(s)
        },
        Err(e) => {
            let mut m = owned("unsupported schema: ");
            m.append(e.as_str());
            Err(IngestError::InvalidArgument(m))
        },
    }
}

/// The rows a preview samples: the requested count (100 when unset), at most
/// 1000.
pub fn preview_sample_rows(requested: Option<u32>) -> (r: usize)
    ensures
        r == (match requested {
            Some(n) => if n <= 1000 {
                n
            } else {
                1000
            },
            None => 100,
        }),
{
    crate::query::effective_limit(requested, 100, 1000)
}

/// A preview needs a path that is not blank.
pub fn preview_path_check(path: &str) -> (r: Result<(), IngestError>)
    ensures
        crate::text::trim_seq(path@).len() == 0 <==> r is Err,
        r matches Err(e) ==> e matches IngestError::InvalidArgument(m) && m@ == "path is required"@,
{
    let t = crate::text::trim(path);
    if t.as_str().is_empty() {
        Err(IngestError::InvalidArgument(owned("path is required")))
    } else {
        Ok(())
    }
}

/// The SQL type each Arrow column type is created as: `BOOLEAN`; `INT` for
/// 8-, 16- and 32-bit integers; `BIGINT` for 64-bit; `FLOAT` for 32-bit and
/// `DOUBLE` for 64-bit floats; `STRING` for the UTF-8 types; `DATE` for both
/// date types; `TIMESTAMP`; any other type has none.
pub proof fn lemma_sql_types(name: String)
    ensures
        sql_type_text(ColumnType::Boolean) == Some("BOOLEAN"@),
        sql_type_text(ColumnType::Int8) == Some("INT"@),
        sql_type_text(ColumnType::Int16) == Some("INT"@),
        sql_type_text(ColumnType::Int32) == Some("INT"@),
        sql_type_text(ColumnType::Int64) == Some("BIGINT"@),
        sql_type_text(ColumnType::Float32) == Some("FLOAT"@),
        sql_type_text(ColumnType::Float64) == Some("DOUBLE"@),
        sql_type_text(ColumnType::Utf8) == Some("STRING"@),
        sql_type_text(ColumnType::LargeUtf8) == Some("STRING"@),
        sql_type_text(ColumnType::Utf8View) == Some("STRING"@),
        sql_type_text(ColumnType::Date32) == Some("DATE"@),
        sql_type_text(ColumnType::Date64) == Some("DATE"@),
        sql_type_text(ColumnType::Timestamp) == Some("TIMESTAMP"@),
        sql_type_text(ColumnType::Other(name)) is None,
{
}

} // verus!
