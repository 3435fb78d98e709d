use hydrofoil::telemetry::{
    decimal_string, ClientConfigKey, ClientOptionsInner, ConfigValue, DurationValue, Parse,
};

#[test]
fn defaults_render_as_configuration_text() {
    let o = ClientOptionsInner::default();
    assert_eq!(o.get_config_value(ClientConfigKey::Timeout), Some("30s".to_string()));
    assert_eq!(o.get_config_value(ClientConfigKey::ConnectTimeout), Some("5s".to_string()));
    assert_eq!(o.get_config_value(ClientConfigKey::Http1Only), Some("true".to_string()));
    assert_eq!(o.get_config_value(ClientConfigKey::AllowHttp), Some("false".to_string()));
    assert_eq!(o.get_config_value(ClientConfigKey::RandomizeAddresses), Some("true".to_string()));
    assert_eq!(o.get_config_value(ClientConfigKey::PoolIdleTimeout), None);
    assert_eq!(o.get_config_value(ClientConfigKey::UserAgent), None);
    assert_eq!(o.get_config_value(ClientConfigKey::ProxyUrl), None);
}

#[test]
fn with_config_keeps_text_until_use() {
    let o = ClientOptionsInner::default()
        .with_config(ClientConfigKey::AllowHttp, "yes".to_string())
        .with_config(ClientConfigKey::Timeout, "1m 30s".to_string())
        .with_config(ClientConfigKey::PoolMaxIdlePerHost, "8".to_string())
        .with_config(ClientConfigKey::ProxyUrl, "http://proxy:3128".to_string())
        .with_config(ClientConfigKey::UserAgent, "hydrofoil-test/1".to_string());
    assert_eq!(o.get_config_value(ClientConfigKey::AllowHttp), Some("yes".to_string()));
    assert_eq!(o.get_config_value(ClientConfigKey::Timeout), Some("1m 30s".to_string()));
    assert_eq!(o.get_config_value(ClientConfigKey::PoolMaxIdlePerHost), Some("8".to_string()));
    assert_eq!(o.get_config_value(ClientConfigKey::ProxyUrl), Some("http://proxy:3128".to_string()));
    assert_eq!(o.get_config_value(ClientConfigKey::UserAgent), Some("hydrofoil-test/1".to_string()));

    let c = o.client_settings().unwrap();
    assert!(!c.https_only);
    assert_eq!(c.timeout.map(|d| d.as_secs()), Some(90));
    assert_eq!(c.pool_max_idle_per_host, Some(8));
    assert_eq!(c.proxy.as_ref().map(|p| p.url.as_str()), Some("http://proxy:3128"));
    assert_eq!(c.user_agent, "hydrofoil-test/1");
}

#[test]
fn client_settings_from_defaults() {
    let c = ClientOptionsInner::default().client_settings().unwrap();
    assert_eq!(c.user_agent, "hydrofoil-object-store/0.1");
    assert!(c.proxy.is_none());
    assert_eq!(c.timeout.map(|d| d.as_secs()), Some(30));
    assert_eq!(c.connect_timeout.map(|d| d.as_secs()), Some(5));
    assert!(c.http1_only && !c.http2_only && !c.accept_invalid_certs && c.https_only);
    assert!(!c.http2_keep_alive_while_idle);
    assert!(c.http2_max_frame_size.is_none());
}

#[test]
fn first_bad_option_is_the_error() {
    let o = ClientOptionsInner::default()
        .with_config(ClientConfigKey::Http2Only, "maybe".to_string())
        .with_config(ClientConfigKey::ConnectTimeout, "soon".to_string());
    let e = o.client_settings().unwrap_err();
    assert_eq!(e.message, "failed to parse \"soon\" as Duration");
    assert_eq!(e.store, "Config");
    let o = ClientOptionsInner::default().with_config(ClientConfigKey::UserAgent, "bad\u{1}agent".to_string());
    assert_eq!(o.client_settings().unwrap_err().message, "failed to parse \"bad\u{1}agent\" as HeaderValue");
    assert_eq!(o.get_config_value(ClientConfigKey::UserAgent), None);
}

#[test]
fn non_ascii_user_agent_is_a_header_value_but_reads_back_as_none() {
    let o = ClientOptionsInner::default().with_config(ClientConfigKey::UserAgent, "agent-é".to_string());
    assert_eq!(o.client_settings().unwrap().user_agent, "agent-é");
    assert_eq!(o.get_config_value(ClientConfigKey::UserAgent), None);
}

#[test]
fn durations_parse_with_humantime() {
    let d = <DurationValue as Parse>::parse("2h 15m").unwrap();
    assert_eq!((d.as_secs(), d.subsec_nanos()), (8100, 0));
    let d = <DurationValue as Parse>::parse("250ms").unwrap();
    assert_eq!((d.as_secs(), d.subsec_nanos()), (0, 250_000_000));
    let e = <DurationValue as Parse>::parse("later").unwrap_err();
    assert_eq!(e.message, "failed to parse \"later\" as Duration");
    let mut cv = ConfigValue::Parsed(DurationValue::from_secs(1));
    cv.parse("3s".to_string());
    assert_eq!(cv.get().unwrap().as_secs(), 3);
}

#[test]
fn decimal_rendering() {
    assert_eq!(decimal_string(0), "0");
    assert_eq!(decimal_string(7), "7");
    assert_eq!(decimal_string(1000), "1000");
    assert_eq!(decimal_string(u64::MAX), u64::MAX.to_string());
}

#[test]
fn durations_that_could_reach_u64_max_seconds_are_refused() {
    let e = <DurationValue as Parse>::parse("18446744073709551615s 1000000000ns").unwrap_err();
    assert_eq!(
        e.message,
        "failed to parse \"18446744073709551615s 1000000000ns\" as Duration"
    );
}

#[test]
fn long_numbers_of_short_units_still_parse() {
    let d = <DurationValue as Parse>::parse("123456789012ms").unwrap();
    assert_eq!(d.as_secs(), 123_456_789);
    assert_eq!(d.subsec_nanos(), 12_000_000);
    let d = <DurationValue as Parse>::parse("1.000000000000s").unwrap();
    assert_eq!(d.as_secs(), 1);
    assert_eq!(d.subsec_nanos(), 0);
    let d = <DurationValue as Parse>::parse("1000000000000ns").unwrap();
    assert_eq!(d.as_secs(), 1000);
    let d = <DurationValue as Parse>::parse("100000000000y").unwrap();
    assert_eq!(d.as_secs(), 3_155_760_000_000_000_000);
}

#[test]
fn proxy_urls_are_checked_as_the_http_client_reads_them() {
    let bad = ClientOptionsInner::default().with_config(ClientConfigKey::ProxyUrl, "http://[::1".to_string());
    let e = bad.client_settings().unwrap_err();
    assert_eq!(e.store, "HTTP client");
    assert!(!e.message.is_empty());
    // A bare host:port is taken with http:// in front.
    let ok = ClientOptionsInner::default().with_config(ClientConfigKey::ProxyUrl, "127.0.0.1:3128".to_string());
    let c = ok.client_settings().unwrap();
    assert_eq!(c.proxy.unwrap().url, "127.0.0.1:3128");
}
