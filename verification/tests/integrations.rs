use hydrofoil::config::{
    lineage_job_namespace, lineage_transport, lineage_transport_for, policy_reference,
    unity_wiring, LineageConfig, PolicyConfig, UnityConfig,
};

fn lineage(url: Option<&str>, endpoint: Option<&str>, api_key: Option<&str>) -> LineageConfig {
    LineageConfig {
        url: url.map(str::to_string),
        endpoint: endpoint.map(str::to_string),
        namespace: None,
        api_key: api_key.map(str::to_string),
    }
}

#[test]
fn lineage_without_url_drops_events() {
    assert!(lineage_transport(&lineage(None, None, None)).unwrap().is_none());
    assert!(lineage_transport(&lineage(Some(""), None, None)).unwrap().is_none());
}

#[test]
fn lineage_endpoint_defaults_and_token() {
    let t = lineage_transport(&lineage(Some("http://marquez:5000//"), None, Some("k3y")))
        .unwrap()
        .unwrap();
    assert_eq!(t.endpoint_url, "http://marquez:5000/api/v1/lineage");
    assert_eq!(t.token, Some("k3y".to_string()));
}

#[test]
fn lineage_custom_endpoint_without_token() {
    let t = lineage_transport(&lineage(Some("http://marquez:5000"), Some("/events"), Some("")))
        .unwrap()
        .unwrap();
    assert_eq!(t.endpoint_url, "http://marquez:5000/events");
    assert_eq!(t.token, None);
}

#[test]
fn lineage_url_that_does_not_parse_is_an_error() {
    let err = lineage_transport(&lineage(Some("marquez"), None, None)).unwrap_err();
    assert_eq!(err, "relative URL without a base");
}

#[test]
fn lineage_transport_for_takes_the_parse_result() {
    let cfg = lineage(Some("x"), None, Some("tok"));
    let t = lineage_transport_for(&cfg, Ok("http://h/p".to_string())).unwrap().unwrap();
    assert_eq!(t.endpoint_url, "http://h/p");
    assert_eq!(t.token, Some("tok".to_string()));
    assert_eq!(lineage_transport_for(&cfg, Err("nope".to_string())).unwrap_err(), "nope");
}

#[test]
fn job_namespace_override() {
    let mut cfg = lineage(None, None, None);
    assert_eq!(lineage_job_namespace(&cfg, "default"), "default");
    cfg.namespace = Some(String::new());
    assert_eq!(lineage_job_namespace(&cfg, "default"), "default");
    cfg.namespace = Some("analytics".to_string());
    assert_eq!(lineage_job_namespace(&cfg, "default"), "analytics");
}

#[test]
fn policy_reference_requires_a_non_empty_ref() {
    assert_eq!(policy_reference(&PolicyConfig { oci_ref: None }), None);
    assert_eq!(policy_reference(&PolicyConfig { oci_ref: Some(String::new()) }), None);
    assert_eq!(
        policy_reference(&PolicyConfig { oci_ref: Some("localhost:10100/p:latest".to_string()) }),
        Some("localhost:10100/p:latest".to_string())
    );
}

#[test]
fn unity_wiring_filters_empty_settings() {
    assert!(unity_wiring(&UnityConfig::default()).is_none());
    let w = unity_wiring(&UnityConfig {
        endpoint: Some("http://uc:8080/api/2.1/unity-catalog/".to_string()),
        token: Some(String::new()),
        region: Some("eu-west-1".to_string()),
    })
    .unwrap();
    assert_eq!(w.endpoint, "http://uc:8080/api/2.1/unity-catalog/");
    assert_eq!(w.token, None);
    assert_eq!(w.region, Some("eu-west-1".to_string()));
}
