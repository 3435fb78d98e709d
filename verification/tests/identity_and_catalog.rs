use hydrofoil::identity::{
    principal_claims_from_headers, uc_token_from_http_headers, uc_token_from_metadata,
    DEFAULT_PRINCIPAL, PRINCIPAL, REGION, ROLE, UC_TOKEN,
};
use hydrofoil::ingest::{ddl_columns, ColumnSpec, ColumnType};
use hydrofoil::query::{effective_limit, query_lineage_context, query_sql_check, referenced_tables};
use hydrofoil::server::session_id_from_metadata;
use hydrofoil::strmap::StringMap;
use hydrofoil::tags::{
    parse_comment_tags, split_tags, table_acl_facts, Column, ConventionTagProvider, Table,
};

fn meta(pairs: &[(&str, &str)]) -> StringMap {
    let mut m = StringMap::new();
    for (k, v) in pairs {
        m.insert(k.to_string(), v.to_string());
    }
    m
}

fn strs(items: &[&str]) -> Vec<String> {
    items.iter().map(|s| s.to_string()).collect()
}

#[test]
fn defaults_to_anonymous_when_absent() {
    let c = principal_claims_from_headers(&StringMap::new());
    assert_eq!(c.uid, DEFAULT_PRINCIPAL);
    assert!(c.role.is_none() && c.region.is_none());
}

#[test]
fn parses_principal_and_attributes() {
    let m = meta(&[(PRINCIPAL, "User::\"alice\""), (ROLE, "analyst"), (REGION, "eu")]);
    let c = principal_claims_from_headers(&m);
    assert_eq!(c.uid, "User::\"alice\"");
    assert_eq!(c.role.as_deref(), Some("analyst"));
    assert_eq!(c.region.as_deref(), Some("eu"));
}

#[test]
fn parses_email_encoded_principal_uid() {
    let m = meta(&[(PRINCIPAL, "User::\"alice@example.com\"")]);
    assert_eq!(principal_claims_from_headers(&m).uid, "User::\"alice@example.com\"");
}

#[test]
fn uc_token_from_metadata_reads_dedicated_key() {
    let m = meta(&[(UC_TOKEN, "jwt-abc"), ("authorization", "Bearer session-id")]);
    assert_eq!(uc_token_from_metadata(&m).as_deref(), Some("jwt-abc"));
    let only_auth = meta(&[("authorization", "Bearer session-id")]);
    assert!(uc_token_from_metadata(&only_auth).is_none());
}

#[test]
fn uc_token_from_metadata_absent_is_none() {
    assert!(uc_token_from_metadata(&StringMap::new()).is_none());
    assert!(uc_token_from_metadata(&meta(&[(UC_TOKEN, "")])).is_none());
}

#[test]
fn uc_token_from_http_headers_strips_bearer() {
    let h = meta(&[("authorization", "Bearer jwt-xyz")]);
    assert_eq!(uc_token_from_http_headers(&h).as_deref(), Some("jwt-xyz"));
    assert!(uc_token_from_http_headers(&StringMap::new()).is_none());
    assert!(uc_token_from_http_headers(&meta(&[("authorization", "Basic abc")])).is_none());
    assert!(uc_token_from_http_headers(&meta(&[("authorization", "Bearer   ")])).is_none());
}

#[test]
fn session_id_prefers_header_then_cookie_then_bearer() {
    let all = meta(&[
        ("x-session-id", "s-header"),
        ("cookie", "a=b; session_id=s-cookie"),
        ("authorization", "Bearer s-bearer"),
    ]);
    assert_eq!(session_id_from_metadata(&all).as_deref(), Some("s-header"));
    let cookie = meta(&[("cookie", "a=b;  session_id=s-cookie ;c=d"), ("authorization", "Bearer x")]);
    assert_eq!(session_id_from_metadata(&cookie).as_deref(), Some("s-cookie"));
    let bearer = meta(&[("cookie", "a=b"), ("authorization", "Bearer  s-bearer ")]);
    assert_eq!(session_id_from_metadata(&bearer).as_deref(), Some("s-bearer"));
    assert!(session_id_from_metadata(&StringMap::new()).is_none());
}

fn col(name: &str, comment: Option<&str>) -> Column {
    Column { name: name.to_string(), comment: comment.map(|c| c.to_string()) }
}

#[test]
fn classifies_table_and_column_tags_from_properties_and_comments() {
    let table = Table {
        owner: None,
        properties: meta(&[("tags", "Regulated, internal"), ("tag.ssn", "pii,sensitive")]),
        columns: vec![
            col("ssn", Some("SSN [tags: pii]")),
            col("email", Some("contact [tags: pii, contact_info]")),
            col("id", None),
        ],
    };
    let c = ConventionTagProvider.classify(&table);
    assert_eq!(c.table_tags, strs(&["internal", "regulated"]));
    let ssn = c.column_tags.iter().find(|t| t.column == "ssn").unwrap();
    assert_eq!(ssn.tags, strs(&["pii", "sensitive"]));
    let email = c.column_tags.iter().find(|t| t.column == "email").unwrap();
    assert_eq!(email.tags, strs(&["contact_info", "pii"]));
    assert!(!c.column_tags.iter().any(|t| t.column == "id"));
}

#[test]
fn acl_facts_read_owner_and_readers_writers() {
    let table = Table {
        owner: Some("User::\"alice\"".to_string()),
        properties: meta(&[("readers", "readers,privileged_readers"), ("writers", "lakehouse_admins")]),
        columns: Vec::new(),
    };
    let (owner, readers, writers) = table_acl_facts(&table);
    assert_eq!(owner.as_deref(), Some("User::\"alice\""));
    assert_eq!(readers, strs(&["privileged_readers", "readers"]));
    assert_eq!(writers, strs(&["lakehouse_admins"]));
}

#[test]
fn empty_metadata_yields_empty_classification() {
    let table = Table { owner: None, properties: StringMap::new(), columns: Vec::new() };
    let c = ConventionTagProvider.classify(&table);
    assert!(c.table_tags.is_empty());
    assert!(c.column_tags.is_empty());
}

#[test]
fn split_and_comment_tags() {
    assert_eq!(split_tags(" PII, ,Regulated ,"), strs(&["pii", "regulated"]));
    assert!(split_tags("").is_empty());
    assert_eq!(parse_comment_tags("x [tags: A,b] y"), strs(&["a", "b"]));
    assert!(parse_comment_tags("no marker").is_empty());
    assert!(parse_comment_tags("[tags: unclosed").is_empty());
}

#[test]
fn classification_tag_property_without_tags_keeps_column() {
    let table = Table { owner: None, properties: meta(&[("tag.x", " , ")]), columns: Vec::new() };
    let c = ConventionTagProvider.classify(&table);
    assert_eq!(c.column_tags.len(), 1);
    assert_eq!(c.column_tags[0].column, "x");
    assert!(c.column_tags[0].tags.is_empty());
}

fn spec(name: &str, data_type: ColumnType, nullable: bool) -> ColumnSpec {
    ColumnSpec { name: name.to_string(), data_type, nullable }
}

#[test]
fn ddl_columns_maps_types_and_nullability() {
    let cols = vec![
        spec("id", ColumnType::Int64, false),
        spec("name", ColumnType::Utf8, true),
        spec("flag", ColumnType::Boolean, true),
    ];
    let ddl = ddl_columns(&cols).unwrap();
    assert_eq!(ddl, "`id` BIGINT NOT NULL, `name` STRING, `flag` BOOLEAN");
}

#[test]
fn ddl_columns_rejects_unsupported_type() {
    let cols = vec![spec("blob", ColumnType::Other("Binary".to_string()), true)];
    let err = ddl_columns(&cols).unwrap_err();
    assert!(err.contains("unsupported type"), "got: {err}");
    assert_eq!(err, "column 'blob' has unsupported type Binary");
}

#[test]
fn referenced_tables_are_deduped_and_sorted() {
    let names = strs(&["uc.s.b", "uc.s.a", "uc.s.b"]);
    assert_eq!(referenced_tables(&names), strs(&["uc.s.a", "uc.s.b"]));
}

#[test]
fn row_cap_clamps_to_maximum() {
    assert_eq!(effective_limit(None, 1_000, 10_000), 1_000);
    assert_eq!(effective_limit(Some(50), 1_000, 10_000), 50);
    assert_eq!(effective_limit(Some(50_000), 1_000, 10_000), 10_000);
}

#[test]
fn query_lineage_context_names_the_job_after_the_sql() {
    let cx = query_lineage_context("SELECT  id FROM t");
    assert_eq!(cx.sql.as_deref(), Some("SELECT  id FROM t"));
    assert_eq!(cx.job_name, Some(hydrofoil::lineage::job_name_from_sql("SELECT id FROM t")));
    assert_eq!(cx.run_id.map(|r| r.len()), Some(36));
}

#[test]
fn query_needs_sql() {
    assert!(query_sql_check("SELECT 1").is_ok());
    assert_eq!(query_sql_check(" \n ").unwrap_err(), "sql is required");
}
