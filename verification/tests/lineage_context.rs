use hydrofoil::agent::{
    agent_context_from_metadata, AgentContext, AGENT_ID, AGENT_PURPOSE, AGENT_SESSION, AGENT_TASK,
};
use hydrofoil::identity::DEFAULT_PRINCIPAL;
use hydrofoil::lineage::{
    context_from_metadata, execution_context, execution_context_with, fnv1a_64,
    hydrofoil_run_facet, job_name_from_metadata, job_name_from_sql, normalize_whitespace,
    JobFacets, LineageContext, ParentJob, ParentRunFacet, JOB_DESCRIPTION, JOB_NAME,
    JOB_NAMESPACE, JOB_OWNERS, JOB_TAGS, PARENT_JOB_NAME, PARENT_JOB_NAMESPACE, PARENT_RUN_ID,
    ROOT_PARENT_JOB_NAME, ROOT_PARENT_JOB_NAMESPACE, ROOT_PARENT_RUN_ID,
};
use hydrofoil::strmap::StringMap;

fn meta(pairs: &[(&str, &str)]) -> StringMap {
    let mut m = StringMap::new();
    for (k, v) in pairs {
        m.insert(k.to_string(), v.to_string());
    }
    m
}

const PRODUCER: &str = "https://github.com/hydrofoil";

fn no_facets() -> JobFacets {
    JobFacets { producer: String::new(), description: None, tags: Vec::new(), owners: Vec::new() }
}

#[test]
fn job_name_hash_is_stable_and_whitespace_insensitive() {
    let a = job_name_from_sql("SELECT id FROM t");
    let b = job_name_from_sql("SELECT id FROM t");
    let c = job_name_from_sql("SELECT   id\nFROM\tt");
    assert_eq!(a, b, "identical SQL -> identical job name");
    assert_eq!(a, c, "whitespace-only differences collapse to one job");
    assert!(a.starts_with("query-"), "name is the query-<hex> form: {a}");
    assert_eq!(a.len(), "query-".len() + 12, "12 hex chars: {a}");
}

#[test]
fn job_name_differs_for_different_sql() {
    assert_ne!(
        job_name_from_sql("SELECT 1"),
        job_name_from_sql("SELECT 2"),
        "different queries -> different jobs"
    );
}

#[test]
fn fnv1a_known_values() {
    assert_eq!(fnv1a_64(b""), 0xcbf2_9ce4_8422_2325);
    assert_eq!(fnv1a_64(b"a"), 0xaf63_dc4c_8601_ec8c);
    assert_eq!(fnv1a_64(b"foobar"), 0x85944171f73967e8);
}

#[test]
fn job_name_is_hash_prefix_of_normalized_sql() {
    let h = fnv1a_64(b"SELECT 1");
    let expected = format!("query-{}", &format!("{h:016x}")[..12]);
    assert_eq!(job_name_from_sql("  SELECT \t 1 \n"), expected);
}

#[test]
fn normalize_collapses_and_trims() {
    assert_eq!(normalize_whitespace("  a \t\n b  c "), "a b c");
    assert_eq!(normalize_whitespace(""), "");
    assert_eq!(normalize_whitespace(" \r\n "), "");
    assert_eq!(normalize_whitespace("x"), "x");
}

#[test]
fn job_name_header_wins_over_hash() {
    let m = meta(&[(JOB_NAME, "dbt.orders")]);
    assert_eq!(job_name_from_metadata(&m, "SELECT id FROM t"), "dbt.orders");
}

#[test]
fn job_name_falls_back_to_hash_when_header_absent_or_blank() {
    let expected = job_name_from_sql("SELECT id FROM t");
    assert_eq!(job_name_from_metadata(&StringMap::new(), "SELECT id FROM t"), expected);
    let m = meta(&[(JOB_NAME, "   ")]);
    assert_eq!(job_name_from_metadata(&m, "SELECT id FROM t"), expected);
}

#[test]
fn job_name_header_is_trimmed() {
    let m = meta(&[(JOB_NAME, "  dbt.orders \t")]);
    assert_eq!(job_name_from_metadata(&m, "SELECT 1"), "dbt.orders");
}

#[test]
fn parses_full_parent_context() {
    let m = meta(&[
        (PARENT_RUN_ID, "run-123"),
        (PARENT_JOB_NAMESPACE, "airflow"),
        (PARENT_JOB_NAME, "dag.task"),
    ]);
    let cx = context_from_metadata(&m, PRODUCER);
    let parent = cx.parent_run.expect("parent facet present");
    assert_eq!(parent.run_id, "run-123");
    assert_eq!(parent.job.namespace, "airflow");
    assert_eq!(parent.job.name, "dag.task");
    assert!(parent.root.is_none());
}

#[test]
fn partial_parent_context_is_ignored() {
    let m = meta(&[(PARENT_RUN_ID, "run-123"), (PARENT_JOB_NAMESPACE, "airflow")]);
    let cx = context_from_metadata(&m, PRODUCER);
    assert!(cx.parent_run.is_none());
}

#[test]
fn parses_root_parent_when_complete() {
    let m = meta(&[
        (PARENT_RUN_ID, "run-1"),
        (PARENT_JOB_NAMESPACE, "ns"),
        (PARENT_JOB_NAME, "job"),
        (ROOT_PARENT_RUN_ID, "root-1"),
        (ROOT_PARENT_JOB_NAMESPACE, "root-ns"),
        (ROOT_PARENT_JOB_NAME, "root-job"),
    ]);
    let cx = context_from_metadata(&m, PRODUCER);
    let root = cx.parent_run.unwrap().root.expect("root present");
    assert_eq!(root.run_id, "root-1");
    assert_eq!(root.job.namespace, "root-ns");
}

#[test]
fn empty_metadata_yields_empty_context() {
    let cx = context_from_metadata(&StringMap::new(), PRODUCER);
    assert!(cx.parent_run.is_none());
    assert!(cx.job_namespace.is_none());
    assert!(cx.job_facets.description.is_none());
    assert!(cx.job_facets.tags.is_empty());
    assert!(cx.job_facets.owners.is_empty());
}

#[test]
fn parses_namespace_override_and_job_facets() {
    let m = meta(&[
        (JOB_NAMESPACE, "demo-pipeline"),
        (JOB_DESCRIPTION, "Daily rollup."),
        (JOB_TAGS, "tier:bronze;adhoc;domain:ops:catalog"),
        (JOB_OWNERS, "team:data-platform;user:robert.pack"),
    ]);
    let cx = context_from_metadata(&m, PRODUCER);
    assert_eq!(cx.job_namespace.as_deref(), Some("demo-pipeline"));
    assert_eq!(cx.job_facets.description.as_deref(), Some("Daily rollup."));
    let bases = cx.job_facets.facet_bases();
    let (name, doc) = &bases[0];
    assert_eq!(name, "documentation");
    assert!(doc.schema.contains("Documentation"));
    assert_eq!(doc.producer, PRODUCER);
    let tags = &cx.job_facets.tags;
    assert_eq!(tags.len(), 3);
    assert_eq!(tags[0].key, "tier");
    assert_eq!(tags[0].value.as_deref(), Some("bronze"));
    assert_eq!(tags[1].key, "adhoc");
    assert!(tags[1].value.is_none());
    assert_eq!(tags[2].source.as_deref(), Some("catalog"));
    let owners = &cx.job_facets.owners;
    assert_eq!(owners[0].type_.as_deref(), Some("team"));
    assert_eq!(owners[0].name, "data-platform");
    assert_eq!(owners[1].name, "robert.pack");
}

#[test]
fn malformed_metadata_entries_are_skipped_not_fatal() {
    let m = meta(&[(JOB_NAMESPACE, "  "), (JOB_TAGS, ";;:;"), (JOB_OWNERS, " ; ")]);
    let cx = context_from_metadata(&m, PRODUCER);
    assert!(cx.job_namespace.is_none());
    assert!(cx.job_facets.tags.is_empty());
    assert!(cx.job_facets.owners.is_empty());
    assert!(cx.job_facets.description.is_none());
}

#[test]
fn bare_owner_name_has_no_type() {
    let m = meta(&[(JOB_OWNERS, " alice ; team: ")]);
    let owners = context_from_metadata(&m, PRODUCER).job_facets.owners;
    assert_eq!(owners.len(), 2);
    assert_eq!(owners[0].name, "alice");
    assert!(owners[0].type_.is_none());
    assert_eq!(owners[1].name, "team");
    assert!(owners[1].type_.is_none());
}

fn planning(parent: Option<ParentRunFacet>) -> LineageContext {
    LineageContext {
        run_id: Some("0190a1b2-c3d4-7e5f-8a9b-0c1d2e3f4a5b".to_string()),
        job_name: Some("query-abc".to_string()),
        job_namespace: None,
        parent_run: parent,
        job_facets: no_facets(),
        sql: Some("SELECT 1".to_string()),
    }
}

#[test]
fn execution_context_mints_fresh_run_parented_to_planning() {
    let planning = planning(None);
    let exec1 = execution_context(&planning, "default", PRODUCER);
    let exec2 = execution_context(&planning, "default", PRODUCER);
    assert_ne!(exec1.run_id, exec2.run_id, "each execution is a distinct run");
    assert_ne!(exec1.run_id, planning.run_id);
    assert_ne!(exec2.run_id, planning.run_id);
    for exec in [&exec1, &exec2] {
        let parent = exec.parent_run.as_ref().expect("parent facet present");
        assert_eq!(Some(parent.run_id.clone()), planning.run_id);
        assert_eq!(parent.job.name, "query-abc");
        assert_eq!(parent.job.namespace, "default");
        assert!(parent.root.is_none(), "no orchestrator parent -> no root");
        let base = parent.base();
        assert_eq!(base.producer, PRODUCER);
        assert_eq!(base.schema, "1-0-0/ParentRunFacet.json");
    }
    assert_eq!(exec1.job_name, planning.job_name);
    assert_eq!(exec1.sql, planning.sql);
}

#[test]
fn execution_context_promotes_orchestrator_parent_to_root() {
    let orchestrator = ParentRunFacet {
        producer: "https://airflow".to_string(),
        run_id: "airflow-run-1".to_string(),
        job: ParentJob { namespace: "airflow".to_string(), name: "dag.task".to_string() },
        root: None,
    };
    let planning = planning(Some(orchestrator));
    let exec = execution_context(&planning, "default", PRODUCER);
    let parent = exec.parent_run.expect("parent present");
    assert_eq!(Some(parent.run_id.clone()), planning.run_id);
    let root = parent.root.expect("root present");
    assert_eq!(root.run_id, "airflow-run-1");
    assert_eq!(root.job.name, "dag.task");
}

#[test]
fn execution_without_planning_run_keeps_parent() {
    let mut p = planning(None);
    p.run_id = None;
    p.job_name = None;
    let exec = execution_context_with(&p, "default", PRODUCER, "run-9".to_string());
    assert_eq!(exec.run_id.as_deref(), Some("run-9"));
    assert!(exec.parent_run.is_none());
}

#[test]
fn hydrofoil_run_facet_carries_principal_and_agent() {
    let agent = AgentContext {
        agent_id: Some("assistant-7".into()),
        task: Some("verify-volume".into()),
        ..Default::default()
    };
    let facet = hydrofoil_run_facet(Some("User::\"alice\""), Some(&agent), "https://hydrofoil")
        .expect("facet present");
    assert_eq!(facet.principal.as_deref(), Some("User::\"alice\""));
    let a = facet.agent.expect("agent present");
    assert_eq!(a.agent_id.as_deref(), Some("assistant-7"));
    assert_eq!(a.task.as_deref(), Some("verify-volume"));
    assert_eq!(facet.producer, "https://hydrofoil");
    assert_eq!(facet.schema_url, "https://hydrofoil/spec/facets/1-0-0/HydrofoilRunFacet.json");
}

#[test]
fn hydrofoil_run_facet_absent_for_anonymous_without_agent() {
    assert!(hydrofoil_run_facet(Some(DEFAULT_PRINCIPAL), None, "p").is_none());
    assert!(hydrofoil_run_facet(None, None, "p").is_none());
    let agent = AgentContext { agent_id: Some("assistant-7".into()), ..Default::default() };
    let facet = hydrofoil_run_facet(Some(DEFAULT_PRINCIPAL), Some(&agent), "p").unwrap();
    assert!(facet.principal.is_none());
    assert_eq!(facet.agent.unwrap().agent_id.as_deref(), Some("assistant-7"));
}

#[test]
fn empty_metadata_yields_none() {
    assert!(agent_context_from_metadata(&StringMap::new()).is_none());
}

#[test]
fn parses_full_agent_context() {
    let m = meta(&[
        (AGENT_ID, "agent-7"),
        (AGENT_SESSION, "conv-42"),
        (AGENT_TASK, "summarize-sales"),
        (AGENT_PURPOSE, "quarterly report"),
    ]);
    let ctx = agent_context_from_metadata(&m).expect("agent context present");
    assert_eq!(ctx.agent_id.as_deref(), Some("agent-7"));
    assert_eq!(ctx.agent_session.as_deref(), Some("conv-42"));
    assert_eq!(ctx.task.as_deref(), Some("summarize-sales"));
    assert_eq!(ctx.purpose.as_deref(), Some("quarterly report"));
    assert!(!ctx.is_empty());
}

#[test]
fn parses_partial_agent_context() {
    let m = meta(&[(AGENT_ID, "agent-7")]);
    let ctx = agent_context_from_metadata(&m).expect("agent context present");
    assert_eq!(ctx.agent_id.as_deref(), Some("agent-7"));
    assert!(ctx.agent_session.is_none());
    assert!(ctx.task.is_none());
    assert!(ctx.purpose.is_none());
}

#[test]
fn request_context_pins_run_job_and_sql() {
    let m = meta(&[
        (JOB_NAMESPACE, "analytics"),
        (JOB_NAME, "nightly"),
        (PARENT_RUN_ID, "run-123"),
        (PARENT_JOB_NAMESPACE, "airflow"),
        (PARENT_JOB_NAME, "dag.task"),
    ]);
    let cx = hydrofoil::lineage::request_lineage_context(&m, PRODUCER, "r-1".to_string(), Some("SELECT 1"));
    assert_eq!(cx.run_id.as_deref(), Some("r-1"));
    assert_eq!(cx.job_name.as_deref(), Some("nightly"));
    assert_eq!(cx.sql.as_deref(), Some("SELECT 1"));
    assert_eq!(cx.job_namespace.as_deref(), Some("analytics"));
    assert_eq!(cx.parent_run.as_ref().map(|p| p.run_id.as_str()), Some("run-123"));

    let bare = hydrofoil::lineage::request_lineage_context(&meta(&[]), PRODUCER, "r-2".to_string(), None);
    assert_eq!(bare.run_id.as_deref(), Some("r-2"));
    assert!(bare.job_name.is_none() && bare.sql.is_none());
}

#[test]
fn facets_are_stamped_with_the_producer_and_their_schemas() {
    let m = meta(&[
        (JOB_DESCRIPTION, "Daily rollup."),
        (JOB_TAGS, "tier:bronze"),
        (JOB_OWNERS, "team:data-platform"),
    ]);
    let bases = context_from_metadata(&m, PRODUCER).job_facets.facet_bases();
    let got: Vec<(&str, &str, &str)> = bases
        .iter()
        .map(|(n, b)| (n.as_str(), b.producer.as_str(), b.schema.as_str()))
        .collect();
    assert_eq!(
        got,
        vec![
            ("documentation", PRODUCER, "1-1-0/DocumentationJobFacet.json"),
            ("tags", PRODUCER, "1-0-0/TagsJobFacet.json"),
            ("ownership", PRODUCER, "1-0-1/OwnershipJobFacet.json"),
        ]
    );
    // Malformed entries make no facet at all.
    let none = context_from_metadata(&meta(&[(JOB_TAGS, ";;:;")]), PRODUCER).job_facets.facet_bases();
    assert!(none.is_empty());
}
