use hydrofoil::strmap::StringMap;
use hydrofoil::svc::config::{Config, ConfigError, DeltaConfig, DeltaTarget, SinkKind, WriterConfig};
use hydrofoil::svc::read::{default_depth, default_limit, LineageStore};
use hydrofoil::svc::writer::{writer_config, BufferedWriterConfig};

#[test]
fn config_test_defaults() {
    let cfg = Config::default();
    assert_eq!(cfg.port, 8091);
    assert_eq!(cfg.delta.table_path, "/data/events");
    assert_eq!(cfg.delta.partition_cols, vec!["event_kind"]);
    assert_eq!(cfg.sinks, vec![SinkKind::Delta]);
}

#[test]
fn test_iceberg_sink_without_feature_fails_validation() {
    let cfg = Config { sinks: vec![SinkKind::Iceberg], ..Config::default() };
    assert!(matches!(cfg.validate(), Err(ConfigError::IcebergNotCompiled)));
}

#[test]
fn default_config_validates() {
    assert!(Config::default().validate().is_ok());
}

#[test]
fn test_writer_defaults() {
    let w = WriterConfig::default();
    assert_eq!(w.buffer_size, 100);
    assert_eq!(w.flush_interval_ms, 500);
    assert_eq!(w.channel_capacity, 1000);
    assert_eq!(Config::default().writer.buffer_size, 100);
}

#[test]
fn writer_config_carries_the_tuning() {
    let w = writer_config(&WriterConfig { buffer_size: 3, flush_interval_ms: 7, channel_capacity: 16 });
    assert_eq!(w.buffer_size, 3);
    assert_eq!(w.flush_interval_ms, 7);
    assert_eq!(w.channel_capacity, 16);
    let d = BufferedWriterConfig::default();
    assert_eq!((d.buffer_size, d.flush_interval_ms, d.channel_capacity), (100, 500, 1000));
}

#[test]
fn test_default_mode_resolves_local() {
    let cfg = DeltaConfig::default();
    let target = cfg.resolve(&StringMap::new()).unwrap();
    match target {
        DeltaTarget::Local { table_uri, partition_cols, .. } => {
            assert_eq!(table_uri, "/data/events");
            assert_eq!(partition_cols, vec!["event_kind"]);
        }
        other => panic!("expected Local, got {other:?}"),
    }
}

#[test]
fn test_unity_mode_missing_endpoint_errors() {
    let cfg = DeltaConfig {
        mode: "unity-managed".into(),
        catalog: Some("c".into()),
        schema: Some("s".into()),
        table: Some("t".into()),
        ..DeltaConfig::default()
    };
    assert!(matches!(cfg.resolve(&StringMap::new()), Err(ConfigError::UnityMissingEndpoint)));
}

#[test]
fn test_unity_mode_missing_fqn_errors() {
    let cfg = DeltaConfig {
        mode: "unity-external".into(),
        endpoint: Some("http://uc/".into()),
        ..DeltaConfig::default()
    };
    assert!(matches!(cfg.resolve(&StringMap::new()), Err(ConfigError::UnityMissingTableName)));
}

#[test]
fn test_unknown_mode_errors() {
    let cfg = DeltaConfig { mode: "hudi-managed".into(), ..DeltaConfig::default() };
    assert!(matches!(
        cfg.resolve(&StringMap::new()),
        Err(ConfigError::UnknownDeltaMode(ref m)) if m == "hudi-managed"
    ));
}

#[test]
fn test_unity_managed_resolves_with_endpoint_and_fqn() {
    let cfg = DeltaConfig {
        mode: "unity-managed".into(),
        catalog: Some("demo".into()),
        schema: Some("managed_demo".into()),
        table: Some("events".into()),
        endpoint: Some("http://uc:8081/api/2.1/unity-catalog/".into()),
        ..DeltaConfig::default()
    };
    match cfg.resolve(&StringMap::new()).unwrap() {
        DeltaTarget::UnityManaged(t) => {
            assert_eq!(t.catalog, "demo");
            assert_eq!(t.schema, "managed_demo");
            assert_eq!(t.table, "events");
            assert_eq!(t.endpoint, "http://uc:8081/api/2.1/unity-catalog/");
            assert!(t.auto_create, "managed defaults to auto_create=true");
        }
        other => panic!("expected UnityManaged, got {other:?}"),
    }
}

#[test]
fn test_unity_external_endpoint_falls_back_to_storage_options() {
    let cfg = DeltaConfig {
        mode: "unity-external".into(),
        catalog: Some("demo".into()),
        schema: Some("ext".into()),
        table: Some("events".into()),
        ..DeltaConfig::default()
    };
    let mut so = StringMap::new();
    so.insert("unity_catalog_url".to_string(), "http://uc:8081/".to_string());
    so.insert("unity_catalog_token".to_string(), "tok".to_string());
    match cfg.resolve(&so).unwrap() {
        DeltaTarget::UnityExternal(t) => {
            assert_eq!(t.endpoint, "http://uc:8081/");
            assert_eq!(t.token.as_deref(), Some("tok"));
        }
        other => panic!("expected UnityExternal, got {other:?}"),
    }
}

#[test]
fn store_reads_the_writer_table() {
    let mut cfg = Config::default();
    cfg.delta.table_path = "/tmp/ev".to_string();
    cfg.storage_options.insert("aws_region".to_string(), "eu-west-1".to_string());
    let store = LineageStore::from_config(&cfg);
    assert_eq!(store.table_uri(), "/tmp/ev");
    assert_eq!(store.storage_options().get("aws_region").as_deref(), Some("eu-west-1"));
}

#[test]
fn read_endpoint_defaults() {
    assert_eq!(default_limit(), 100);
    assert_eq!(default_depth(), 20);
}
