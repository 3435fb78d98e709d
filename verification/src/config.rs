//! Query-server configuration: documented defaults, and the overlay of
//! environment secrets onto the fields they configure. Each integration
//! (OpenLineage, Cedar policy, Unity Catalog, Iceberg) stays disabled while
//! the field that enables it is absent.

use vstd::prelude::*;

use crate::strmap::StringMap;
use crate::text::owned;

verus! {

/// `0.0.0.0`: the Flight SQL listen host.
pub fn default_host() -> (r: String)
    ensures
        r@ == "0.0.0.0"@,
{
    owned("0.0.0.0")
}

/// `50051`: the Flight SQL listen port.
pub fn default_port() -> (r: u16)
    ensures
        r == 50051,
{
    50051
}

/// `1800`: the idle session TTL, 30 minutes.
pub fn default_session_ttl_secs() -> (r: u64)
    ensures
        r == 1800,
{
    1800
}

/// `9082`: the HTTP query-surface port.
pub fn default_http_port() -> (r: u16)
    ensures
        r == 9082,
{
    9082
}

/// The HTTP query surface is on by default.
pub fn default_http_enabled() -> (r: bool)
    ensures
        r,
{
    true
}

/// `10000`: the hard cap on a query's row limit.
pub fn default_query_max_limit() -> (r: u32)
    ensures
        r == 10_000,
{
    10_000
}

/// `1000`: the row limit of a request that names none.
pub fn default_query_default_limit() -> (r: u32)
    ensures
        r == 1_000,
{
    1_000
}

/// OpenLineage integration; enabled when `url` is set.
#[derive(Debug, Clone, Default)]
pub struct LineageConfig {
    pub url: Option<String>,
    /// Path appended to `url`; `/api/v1/lineage` when unset.
    pub endpoint: Option<String>,
    /// Default job namespace.
    pub namespace: Option<String>,
    /// Bearer token (from `OPENLINEAGE_API_KEY`).
    pub api_key: Option<String>,
}

/// Cedar policy enforcement; enabled when `oci_ref` is set.
#[derive(Debug, Clone, Default)]
pub struct PolicyConfig {
    pub oci_ref: Option<String>,
}

/// Unity Catalog integration; enabled when `endpoint` is set.
#[derive(Debug, Clone, Default)]
pub struct UnityConfig {
    pub endpoint: Option<String>,
    /// Bearer token (from `UC_TOKEN`).
    pub token: Option<String>,
    /// AWS region hint (falls back to `AWS_REGION`).
    pub region: Option<String>,
}

/// A standalone Iceberg REST catalog registered into every session.
#[derive(Debug, Clone, Default)]
pub struct IcebergRestCatalog {
    /// DataFusion catalog name.
    pub name: String,
    /// REST catalog base URI.
    pub uri: String,
    pub warehouse: Option<String>,
    pub token: Option<String>,
    /// OAuth2 `client_id:client_secret`, used when `token` is absent.
    pub credential: Option<String>,
    pub oauth2_server_uri: Option<String>,
}

/// Iceberg integration; an empty list leaves it disabled.
#[derive(Debug, Clone, Default)]
pub struct IcebergConfig {
    pub rest_catalogs: Vec<IcebergRestCatalog>,
}

/// The query server's configuration.
#[derive(Debug, Clone)]
pub struct Config {
    pub host: String,
    pub port: u16,
    pub http_enabled: bool,
    pub http_port: u16,
    pub query_max_limit: u32,
    pub query_default_limit: u32,
    pub session_ttl_secs: u64,
    pub lineage: LineageConfig,
    pub policy: PolicyConfig,
    pub unity: UnityConfig,
    pub iceberg: IcebergConfig,
}

impl Default for Config {
    fn default() -> (r: Self)
        ensures
            r.host@ == "0.0.0.0"@,
            r.port == 50051,
            r.http_enabled,
            r.http_port == 9082,
            r.query_max_limit == 10_000,
            r.query_default_limit == 1_000,
            r.session_ttl_secs == 1800,
            r.lineage.url is None,
            r.lineage.endpoint is None,
            r.lineage.namespace is None,
            r.lineage.api_key is None,
            r.policy.oci_ref is None,
            r.unity.endpoint is None,
            r.unity.token is None,
            r.unity.region is None,
            r.iceberg.rest_catalogs@.len() == 0,
    {
        Config {
            host: default_host(),
            port: default_port(),
            http_enabled: default_http_enabled(),
            http_port: default_http_port(),
            query_max_limit: default_query_max_limit(),
            query_default_limit: default_query_default_limit(),
            session_ttl_secs: default_session_ttl_secs(),
            lineage: LineageConfig { url: None, endpoint: None, namespace: None, api_key: None },
            policy: PolicyConfig { oci_ref: None },
            unity: UnityConfig { endpoint: None, token: None, region: None },
            iceberg: IcebergConfig { rest_catalogs: Vec::new() },
        }
    }
}

/// A secret from the environment fills a field only when the field is still
/// unset and the value is non-empty.
pub open spec fn overlay_field(field: Option<String>, env: Seq<(Seq<char>, Seq<char>)>, key: Seq<char>) -> Option<Seq<char>> {
    match field {
        Some(v) => Some(v@),
        None => match crate::strmap::lookup(env, key) {
            Some(v) => if v.len() > 0 {
                Some(v)
            } else {
                None
            },
            None => None,
        },
    }
}

fn overlay_one(field: &mut Option<String>, env: &StringMap, key: &str)
    ensures
        crate::text::opt_view(*final(field)) == overlay_field(*old(field), env@, key@),
{
    if field.is_none() {
        match env.get(key) {
            Some(v) => {
                if v.as_str().unicode_len() > 0 {
                    *field = Some(v);
                }
            },
            None => {},
        }
    }
}

impl Config {
    /// Overlay the secret environment variables onto their fields without
    /// replacing a value the file or the `HYDROFOIL__*` layer already set:
    /// `OPENLINEAGE_API_KEY` to `lineage.api_key`, `UC_TOKEN` to
    /// `unity.token`, `AWS_REGION` to `unity.region`. Empty values are
    /// ignored. `env` holds the environment's values of those variables.
    pub fn overlay_secrets(&mut self, env: &StringMap)
        ensures
            crate::text::opt_view(final(self).lineage.api_key) == overlay_field(
                old(self).lineage.api_key,
                env@,
                "OPENLINEAGE_API_KEY"@,
            ),
            crate::text::opt_view(final(self).unity.token) == overlay_field(
                old(self).unity.token,
                env@,
                "UC_TOKEN"@,
            ),
            crate::text::opt_view(final(self).unity.region) == overlay_field(
                old(self).unity.region,
                env@,
                "AWS_REGION"@,
            ),
            final(self).host == old(self).host,
            final(self).port == old(self).port,
            final(self).http_enabled == old(self).http_enabled,
            final(self).http_port == old(self).http_port,
            final(self).query_max_limit == old(self).query_max_limit,
            final(self).query_default_limit == old(self).query_default_limit,
            final(self).session_ttl_secs == old(self).session_ttl_secs,
            final(self).lineage.url == old(self).lineage.url,
            final(self).lineage.endpoint == old(self).lineage.endpoint,
            final(self).lineage.namespace == old(self).lineage.namespace,
            final(self).policy == old(self).policy,
            final(self).unity.endpoint == old(self).unity.endpoint,
            final(self).iceberg == old(self).iceberg,
    {
        overlay_one(&mut self.lineage.api_key, env, "OPENLINEAGE_API_KEY");
        overlay_one(&mut self.unity.token, env, "UC_TOKEN");
        overlay_one(&mut self.unity.region, env, "AWS_REGION");
    }
}

/// The Iceberg REST property map of a configured catalog: `uri` always, and
/// `warehouse`, `token`, `credential`, `oauth2-server-uri` when set.
pub fn props_for(cat: &IcebergRestCatalog) -> (props: StringMap)
    ensures
        props.spec_get("uri"@) == Some(cat.uri@),
        props.spec_get("warehouse"@) == crate::text::opt_view(cat.warehouse),
        props.spec_get("token"@) == crate::text::opt_view(cat.token),
        props.spec_get("credential"@) == crate::text::opt_view(cat.credential),
        props.spec_get("oauth2-server-uri"@) == crate::text::opt_view(cat.oauth2_server_uri),
        forall|k: Seq<char>|
            k != "uri"@ && k != "warehouse"@ && k != "token"@ && k != "credential"@ && k
                != "oauth2-server-uri"@ ==> #[trigger] props.spec_get(k) is None,
{
    proof {
        reveal_strlit("uri");
        reveal_strlit("warehouse");
        reveal_strlit("token");
        reveal_strlit("credential");
        reveal_strlit("oauth2-server-uri");
        assert("uri"@.len() == 3);
        assert("warehouse"@.len() == 9);
        assert("token"@.len() == 5);
        assert("credential"@.len() == 10);
        assert("oauth2-server-uri"@.len() == 17);
    }
    let mut props = StringMap::new();
    props.insert(owned("uri"), cat.uri.clone());
    if let Some(w) = &cat.warehouse {
        props.insert(owned("warehouse"), w.clone());
    }
    if let Some(t) = &cat.token {
        props.insert(owned("token"), t.clone());
    }
    if let Some(c) = &cat.credential {
        props.insert(owned("credential"), c.clone());
    }
    if let Some(u) = &cat.oauth2_server_uri {
        props.insert(owned("oauth2-server-uri"), u.clone());
    }
    props
}

/// The text of a setting that is present and not empty.
pub open spec fn non_empty(o: Option<String>) -> Option<Seq<char>> {
    match o {
        Some(s) => if s@.len() > 0 {
            Some(s@)
        } else {
            None
        },
        None => None,
    }
}

fn non_empty_exec(o: &Option<String>) -> (r: Option<String>)
    ensures
        crate::text::opt_view(r) == non_empty(*o),
{
    match o {
        Some(s) => if s.as_str().is_empty() {
            None
        } else {
            Some(s.clone())
        },
        None => None,
    }
}

/// `s` without its trailing `/`s.
pub open spec fn trim_end_slashes(s: Seq<char>) -> Seq<char>
    decreases s.len(),
{
    if s.len() > 0 && s.last() == '/' {
        trim_end_slashes(s.drop_last())
    } else {
        s
    }
}

/// `/api/v1/lineage`
pub open spec fn default_lineage_endpoint() -> Seq<char> {
    "/api/v1/lineage"@
}

/// The OpenLineage endpoint `lineage` names: its `url` without trailing `/`,
/// then its `endpoint` (`/api/v1/lineage` when unset).
pub open spec fn lineage_endpoint_text(url: Seq<char>, endpoint: Option<String>) -> Seq<char> {
    trim_end_slashes(url) + match endpoint {
        Some(e) => e@,
        None => default_lineage_endpoint(),
    }
}

/// Where lineage events are sent: the endpoint URL and the bearer token.
#[derive(Debug)]
pub struct LineageTransport {
    pub endpoint_url: String,
    pub token: Option<String>,
}

/// The transport for an endpoint whose parse gave `parsed`.
pub open spec fn transport_ok(
    cfg: LineageConfig,
    parsed: Result<Seq<char>, Seq<char>>,
    r: Result<Option<LineageTransport>, String>,
) -> bool {
    match parsed {
        Ok(u) => r matches Ok(Some(t)) && t.endpoint_url@ == u && crate::text::opt_view(t.token)
            == non_empty(cfg.api_key),
        Err(m) => r matches Err(e) && e@ == m,
    }
}

/// The transport for the parse result of the endpoint URL (its
/// serialization, or the error's message): the bearer token is a non-empty
/// `api_key`.
pub fn lineage_transport_for(cfg: &LineageConfig, parsed: Result<String, String>) -> (r: Result<
    Option<LineageTransport>,
    String,
>)
    ensures
        transport_ok(*cfg, crate::urls::url_result_view(parsed), r),
{
    match parsed {
        Ok(u) => Ok(Some(LineageTransport { endpoint_url: u, token: non_empty_exec(&cfg.api_key) })),
        Err(m) => Err(m),
    }
}

/// The OpenLineage transport the configuration asks for: none (events are
/// dropped) without a non-empty `url`; else the endpoint of
/// [`lineage_endpoint_text`], parsed as a URL, with a non-empty `api_key` as
/// bearer token. An endpoint that does not parse is an error.
pub fn lineage_transport(cfg: &LineageConfig) -> (r: Result<Option<LineageTransport>, String>)
    ensures
        non_empty(cfg.url) is None ==> r matches Ok(None),
        non_empty(cfg.url) matches Some(u) ==> transport_ok(
            *cfg,
            crate::urls::url_parse(lineage_endpoint_text(u, cfg.endpoint)),
            r,
        ),
{
    let url = match non_empty_exec(&cfg.url) {
        Some(u) => u,
        None => return Ok(None),
    };
    let v = crate::text::chars_of(url.as_str());
    let mut end: usize = v.len();
    proof {
        assert(v@.take(v.len() as int) =~= v@);
    }
    while end > 0 && v[end - 1] == '/'
        invariant
            end <= v.len(),
            trim_end_slashes(v@) == trim_end_slashes(v@.take(end as int)),
        decreases end,
    {
        proof {
            let t = v@.take(end as int);
            assert(t.drop_last() =~= v@.take(end - 1));
        }
        end = end - 1;
    }
    proof {
        let t = v@.take(end as int);
        assert(trim_end_slashes(t) == t);
        assert(v@.subrange(0, end as int) =~= t);
    }
    let mut full = crate::text::string_of_range(&v, 0, end);
    match &cfg.endpoint {
        Some(e) => full.append(e.as_str()),
        None => {
            let d = "/api/v1/lineage";
            full.append(d);
        },
    }
    proof {
        assert(full@ =~= lineage_endpoint_text(url@, cfg.endpoint));
    }
    let parsed = crate::urls::parse_url(full.as_str());
    lineage_transport_for(cfg, parsed)
}

/// The default job namespace: a non-empty `lineage.namespace`, else
/// `fallback`.
pub fn lineage_job_namespace(cfg: &LineageConfig, fallback: &str) -> (r: String)
    ensures
        r@ == match non_empty(cfg.namespace) {
            Some(n) => n,
            None => fallback@,
        },
{
    match non_empty_exec(&cfg.namespace) {
        Some(n) => n,
        None => owned(fallback),
    }
}

/// The Cedar policy image a non-empty `policy.oci_ref` names.
pub fn policy_reference(cfg: &PolicyConfig) -> (r: Option<String>)
    ensures
        crate::text::opt_view(r) == non_empty(cfg.oci_ref),
{
    non_empty_exec(&cfg.oci_ref)
}

/// How Unity Catalog is reached: the endpoint, a bearer token (none means an
/// unauthenticated server is allowed), and the AWS region hint.
#[derive(Debug)]
pub struct UnityWiring {
    pub endpoint: String,
    pub token: Option<String>,
    pub region: Option<String>,
}

/// Unity Catalog wiring: none without a non-empty `unity.endpoint`; else the
/// endpoint with the non-empty `token` and `region`.
pub fn unity_wiring(cfg: &UnityConfig) -> (r: Option<UnityWiring>)
    ensures
        non_empty(cfg.endpoint) is None <==> r is None,
        r matches Some(w) ==> Some(w.endpoint@) == non_empty(cfg.endpoint) && crate::text::opt_view(
            w.token,
        ) == non_empty(cfg.token) && crate::text::opt_view(w.region) == non_empty(cfg.region),
{
    match non_empty_exec(&cfg.endpoint) {
        Some(endpoint) => Some(
            UnityWiring {
                endpoint,
                token: non_empty_exec(&cfg.token),
                region: non_empty_exec(&cfg.region),
            },
        ),
        None => None,
    }
}

} // verus!
