use hydrofoil::config::{props_for, Config, IcebergRestCatalog};
use hydrofoil::strmap::StringMap;

#[test]
fn test_defaults() {
    let cfg = Config::default();
    assert_eq!(cfg.host, "0.0.0.0");
    assert_eq!(cfg.port, 50051);
    assert!(cfg.http_enabled);
    assert_eq!(cfg.http_port, 9082);
    assert_eq!(cfg.query_max_limit, 10_000);
    assert_eq!(cfg.query_default_limit, 1_000);
    assert_eq!(cfg.session_ttl_secs, 1800);
    assert!(cfg.lineage.url.is_none());
    assert!(cfg.policy.oci_ref.is_none());
    assert!(cfg.unity.endpoint.is_none());
}

#[test]
fn test_iceberg_disabled_by_default() {
    assert!(Config::default().iceberg.rest_catalogs.is_empty());
}

#[test]
fn secrets_fill_only_unset_fields() {
    let mut cfg = Config::default();
    cfg.unity.region = Some("eu-central-1".to_string());
    let mut env = StringMap::new();
    env.insert("OPENLINEAGE_API_KEY".to_string(), "key-1".to_string());
    env.insert("UC_TOKEN".to_string(), String::new());
    env.insert("AWS_REGION".to_string(), "us-east-1".to_string());
    cfg.overlay_secrets(&env);
    assert_eq!(cfg.lineage.api_key.as_deref(), Some("key-1"));
    assert!(cfg.unity.token.is_none(), "empty values are ignored");
    assert_eq!(cfg.unity.region.as_deref(), Some("eu-central-1"), "set values win");
}

#[test]
fn rest_catalog_properties() {
    let cat = IcebergRestCatalog {
        name: "polaris".to_string(),
        uri: "http://polaris:8181/api/catalog".to_string(),
        warehouse: Some("wh".to_string()),
        token: None,
        credential: Some("id:secret".to_string()),
        oauth2_server_uri: None,
    };
    let props = props_for(&cat);
    assert_eq!(props.get("uri").as_deref(), Some("http://polaris:8181/api/catalog"));
    assert_eq!(props.get("warehouse").as_deref(), Some("wh"));
    assert_eq!(props.get("credential").as_deref(), Some("id:secret"));
    assert!(props.get("token").is_none());
    assert_eq!(props.len(), 3);
}
