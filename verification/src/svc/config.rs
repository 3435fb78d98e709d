//! Lineage-service configuration: the documented defaults, the resolution of
//! the flat Delta section into a validated sink target, and the cross-field
//! checks that make a misconfigured deployment refuse to start.

use vstd::prelude::*;

use crate::strmap::{StringMap, str_eq};
use crate::text::{ascii_lower_seq, ascii_lowercase, copy_opt, copy_strings, owned};

verus! {

/// Which lakehouse sink the service fans a write batch out to.
#[derive(Debug, Clone, Copy, PartialEq, Eq, Structural)]
pub enum SinkKind {
    Delta,
    /// Apache Iceberg; this build carries no Iceberg writer.
    Iceberg,
}

/// Why a configuration cannot be used.
#[derive(Debug)]
pub enum ConfigError {
    /// The configuration source could not be read or deserialized.
    Source(String),
    /// The Iceberg sink is selected but this build carries no Iceberg writer.
    IcebergNotCompiled,
    /// `delta.mode` names none of `local`, `unity-external`, `unity-managed`.
    UnknownDeltaMode(String),
    /// A Unity mode without `delta.endpoint` or `UNITY_CATALOG_URL`.
    UnityMissingEndpoint,
    /// A Unity mode without all of `delta.catalog`, `delta.schema`, `delta.table`.
    UnityMissingTableName,
    /// A Unity mode is selected but this build carries no Unity writer.
    UnityNotCompiled,
}

/// Delta sink target configuration: a flat section with a `mode` discriminator.
#[derive(Debug)]
pub struct DeltaConfig {
    /// `"local"` (default), `"unity-external"`, or `"unity-managed"`.
    pub mode: String,
    /// Events-table location for `local` mode.
    pub table_path: String,
    /// Partition columns.
    pub partition_cols: Vec<String>,
    pub catalog: Option<String>,
    pub schema: Option<String>,
    pub table: Option<String>,
    /// Unity Catalog REST endpoint; falls back to `UNITY_CATALOG_URL`.
    pub endpoint: Option<String>,
    /// AWS region hint; falls back to `AWS_REGION`.
    pub region: Option<String>,
    /// `unity-managed` only: create the table when missing (default `true`).
    pub auto_create: Option<bool>,
}

pub open spec fn default_table_path_text() -> Seq<char> {
    seq!['/', 'd', 'a', 't', 'a', '/', 'e', 'v', 'e', 'n', 't', 's']
}

pub open spec fn event_kind_text() -> Seq<char> {
    seq!['e', 'v', 'e', 'n', 't', '_', 'k', 'i', 'n', 'd']
}

pub open spec fn local_text() -> Seq<char> {
    seq!['l', 'o', 'c', 'a', 'l']
}

/// `/data/events`
pub fn default_table_path() -> (r: String)
    ensures
        r@ == default_table_path_text(),
{
    let v = vec!['/', 'd', 'a', 't', 'a', '/', 'e', 'v', 'e', 'n', 't', 's'];
    let r = crate::text::string_of_chars(&v);
    assert(r@ =~= default_table_path_text());
    r
}

/// `["event_kind"]`
pub fn default_partition_cols() -> (r: Vec<String>)
    ensures
        r@.len() == 1,
        r@[0]@ == event_kind_text(),
{
    let v = vec!['e', 'v', 'e', 'n', 't', '_', 'k', 'i', 'n', 'd'];
    let s = crate::text::string_of_chars(&v);
    assert(s@ =~= event_kind_text());
    let mut r: Vec<String> = Vec::new();
    r.push(s);
    r
}

/// `local`
pub fn default_delta_mode() -> (r: String)
    ensures
        r@ == local_text(),
{
    let v = vec!['l', 'o', 'c', 'a', 'l'];
    let r = crate::text::string_of_chars(&v);
    assert(r@ =~= local_text());
    r
}

impl DeltaConfig {
    /// Whether every field holds its documented default.
    pub open spec fn is_default(&self) -> bool {
        &&& self.mode@ == local_text()
        &&& self.table_path@ == default_table_path_text()
        &&& self.partition_cols@.len() == 1
        &&& self.partition_cols@[0]@ == event_kind_text()
        &&& self.catalog is None
        &&& self.schema is None
        &&& self.table is None
        &&& self.endpoint is None
        &&& self.region is None
        &&& self.auto_create is None
    }
}

impl Default for DeltaConfig {
    fn default() -> (r: Self)
        ensures
            r.is_default(),
    {
        DeltaConfig {
            mode: default_delta_mode(),
            table_path: default_table_path(),
            partition_cols: default_partition_cols(),
            catalog: None,
            schema: None,
            table: None,
            endpoint: None,
            region: None,
            auto_create: None,
        }
    }
}

/// The fields shared by the two Unity Catalog modes.
#[derive(Debug)]
pub struct UnityTarget {
    pub endpoint: String,
    pub token: Option<String>,
    pub region: Option<String>,
    pub catalog: String,
    pub schema: String,
    pub table: String,
    pub partition_cols: Vec<String>,
    /// Only meaningful for `unity-managed`. Defaults to `true`.
    pub auto_create: bool,
}

/// The validated Delta sink target.
#[derive(Debug)]
pub enum DeltaTarget {
    /// A Delta table tracked in no catalog (local path or object-store URI).
    Local { table_uri: String, storage_options: StringMap, partition_cols: Vec<String> },
    /// A Unity Catalog external table.
    UnityExternal(UnityTarget),
    /// A Unity Catalog managed table.
    UnityManaged(UnityTarget),
}

impl DeltaConfig {
    /// The Unity target this section and `so` describe: endpoint from
    /// `delta.endpoint` else `unity_catalog_url`, token from
    /// `unity_catalog_token`, region from `delta.region` else `aws_region`.
    pub open spec fn unity_target_matches(&self, so: Seq<(Seq<char>, Seq<char>)>, t: UnityTarget) -> bool {
        &&& t.endpoint@ == match self.endpoint {
            Some(e) => e@,
            None => crate::strmap::lookup(so, "unity_catalog_url"@).unwrap(),
        }
        &&& crate::text::opt_view(t.token) == crate::strmap::lookup(so, "unity_catalog_token"@)
        &&& crate::text::opt_view(t.region) == match self.region {
            Some(r) => Some(r@),
            None => crate::strmap::lookup(so, "aws_region"@),
        }
        &&& t.catalog == self.catalog.unwrap()
        &&& t.schema == self.schema.unwrap()
        &&& t.table == self.table.unwrap()
        &&& t.partition_cols@ == self.partition_cols@
        &&& t.auto_create == match self.auto_create {
            Some(b) => b,
            None => true,
        }
    }

    pub open spec fn is_unity_mode(&self) -> bool {
        self.mode@ == "unity-external"@ || self.mode@ == "unity-managed"@
    }

    pub open spec fn is_local_mode(&self) -> bool {
        self.mode@ == "local"@ || self.mode@ == "raw"@
    }

    /// Convert the flat section into a validated target. `local` (or `raw`)
    /// keeps the table path and the storage options; the Unity modes need an
    /// endpoint (from the section or `unity_catalog_url`) and all three of
    /// catalog, schema and table; any other mode is refused.
    pub fn resolve(&self, storage_options: &StringMap) -> (r: Result<DeltaTarget, ConfigError>)
        ensures
            self.is_local_mode() ==> (r matches Ok(DeltaTarget::Local { table_uri, storage_options: so, partition_cols })
                && table_uri == self.table_path && so@ == storage_options@ && partition_cols@
                == self.partition_cols@),
            !self.is_local_mode() && self.is_unity_mode() ==> {
                if self.endpoint is None && storage_options.spec_get("unity_catalog_url"@) is None {
                    r matches Err(ConfigError::UnityMissingEndpoint)
                } else if self.catalog is None || self.schema is None || self.table is None {
                    r matches Err(ConfigError::UnityMissingTableName)
                } else if self.mode@ == "unity-external"@ {
                    r matches Ok(DeltaTarget::UnityExternal(t)) && self.unity_target_matches(storage_options@, t)
                } else {
                    r matches Ok(DeltaTarget::UnityManaged(t)) && self.unity_target_matches(storage_options@, t)
                }
            },
            !self.is_local_mode() && !self.is_unity_mode() ==> (r matches Err(ConfigError::UnknownDeltaMode(m)) && m@ == self.mode@),
    {
        let mode = self.mode.as_str();
        if str_eq(mode, "local") || str_eq(mode, "raw") {
            return Ok(
                DeltaTarget::Local {
                    table_uri: self.table_path.clone(),
                    storage_options: storage_options.copy(),
                    partition_cols: copy_strings(&self.partition_cols),
                },
            );
        }
        let external = str_eq(mode, "unity-external");
        if external || str_eq(mode, "unity-managed") {
            let endpoint = match &self.endpoint {
                Some(e) => e.clone(),
                None => match storage_options.get("unity_catalog_url") {
                    Some(e) => e,
                    None => return Err(ConfigError::UnityMissingEndpoint),
                },
            };
            let token = storage_options.get("unity_catalog_token");
            let region = match &self.region {
                Some(r) => Some(r.clone()),
                None => storage_options.get("aws_region"),
            };
            let (catalog, schema, table) = match (&self.catalog, &self.schema, &self.table) {
                (Some(c), Some(s), Some(t)) => (c.clone(), s.clone(), t.clone()),
                _ => return Err(ConfigError::UnityMissingTableName),
            };
            let target = UnityTarget {
                endpoint,
                token,
                region,
                catalog,
                schema,
                table,
                partition_cols: copy_strings(&self.partition_cols),
                auto_create: match self.auto_create {
                    Some(b) => b,
                    None => true,
                },
            };
            if external {
                return Ok(DeltaTarget::UnityExternal(target));
            } else {
                return Ok(DeltaTarget::UnityManaged(target));
            }
        }
        Err(ConfigError::UnknownDeltaMode(owned(mode)))
    }
}


/// Apache Iceberg sink settings (read only by a build that carries the
/// Iceberg writer).
#[derive(Debug)]
pub struct IcebergConfig {
    /// Iceberg REST catalog URI.
    pub catalog_uri: String,
    /// REST `warehouse` property.
    pub warehouse: String,
    pub namespace: String,
    pub table: String,
    /// Identity-transform partition columns; empty means unpartitioned.
    pub partition_cols: Vec<String>,
    /// Bearer token for REST requests.
    pub token: Option<String>,
}

/// Tuning of the buffered writer between ingestion and the sinks.
#[derive(Debug, Clone, Copy)]
pub struct WriterConfig {
    /// Flush once this many events are buffered.
    pub buffer_size: usize,
    /// Flush at least this often, even below `buffer_size`.
    pub flush_interval_ms: u64,
    /// Bounded ingestion channel depth.
    pub channel_capacity: usize,
}

impl Default for WriterConfig {
    fn default() -> (r: Self)
        ensures
            r.buffer_size == 100,
            r.flush_interval_ms == 500,
            r.channel_capacity == 1000,
    {
        WriterConfig { buffer_size: 100, flush_interval_ms: 500, channel_capacity: 1000 }
    }
}

/// `8091`
pub fn default_port() -> (r: u16)
    ensures
        r == 8091,
{
    8091
}

/// `[Delta]`
pub fn default_sinks() -> (r: Vec<SinkKind>)
    ensures
        r@ == seq![SinkKind::Delta],
{
    let mut r: Vec<SinkKind> = Vec::new();
    r.push(SinkKind::Delta);
    assert(r@ =~= seq![SinkKind::Delta]);
    r
}

/// The whole lineage-service configuration.
#[derive(Debug)]
pub struct Config {
    pub port: u16,
    pub sinks: Vec<SinkKind>,
    pub delta: DeltaConfig,
    /// Object-store options forwarded to the writer; secrets are layered in
    /// from the environment by [`Config::overlay_storage_env`].
    pub storage_options: StringMap,
    pub writer: WriterConfig,
}

impl Default for Config {
    fn default() -> (r: Self)
        ensures
            r.port == 8091,
            r.sinks@ == seq![SinkKind::Delta],
            r.delta.is_default(),
            r.storage_options@.len() == 0,
            r.writer.buffer_size == 100,
            r.writer.flush_interval_ms == 500,
            r.writer.channel_capacity == 1000,
    {
        Config {
            port: default_port(),
            sinks: default_sinks(),
            delta: DeltaConfig::default(),
            storage_options: StringMap::new(),
            writer: WriterConfig::default(),
        }
    }
}

/// The environment variables whose values are layered into
/// `storage_options`, keyed by their lower-cased names.
pub fn storage_option_env_keys() -> (r: Vec<&'static str>)
    ensures
        r@.len() == 7,
        r@[0]@ == "AWS_REGION"@,
        r@[1]@ == "AWS_ACCESS_KEY_ID"@,
        r@[2]@ == "AWS_SECRET_ACCESS_KEY"@,
        r@[3]@ == "AWS_ENDPOINT_URL"@,
        r@[4]@ == "AWS_S3_ALLOW_UNSAFE_RENAME"@,
        r@[5]@ == "UNITY_CATALOG_URL"@,
        r@[6]@ == "UNITY_CATALOG_TOKEN"@,
{
    let mut r: Vec<&'static str> = Vec::new();
    r.push("AWS_REGION");
    r.push("AWS_ACCESS_KEY_ID");
    r.push("AWS_SECRET_ACCESS_KEY");
    r.push("AWS_ENDPOINT_URL");
    r.push("AWS_S3_ALLOW_UNSAFE_RENAME");
    r.push("UNITY_CATALOG_URL");
    r.push("UNITY_CATALOG_TOKEN");
    r
}

impl Config {
    /// Layer the environment's storage secrets into `storage_options`: for
    /// each key of [`storage_option_env_keys`] that `env` holds, the value is
    /// stored under the lower-cased key, replacing any earlier value.
    pub fn overlay_storage_env(&mut self, env: &StringMap)
        ensures
            final(self).port == old(self).port,
            final(self).sinks == old(self).sinks,
            final(self).delta == old(self).delta,
            final(self).writer == old(self).writer,
            forall|q: Seq<char>| #[trigger] final(self).storage_options.spec_get(q) == overlay_lookup(
                old(self).storage_options@,
                env@,
                q,
            ),
    {
        let keys = storage_option_env_keys();
        let ghost base = self.storage_options@;
        proof {
            assert(keys@.map_values(|k: &str| k@) =~= storage_option_env_keys_spec());
        }
        let mut i: usize = 0;
        while i < keys.len()
            invariant
                i <= keys.len(),
                keys@.len() == 7,
                keys@.map_values(|k: &str| k@) == storage_option_env_keys_spec(),
                self.port == old(self).port,
                self.sinks == old(self).sinks,
                self.delta == old(self).delta,
                self.writer == old(self).writer,
                base == old(self).storage_options@,
                forall|q: Seq<char>| #[trigger] self.storage_options.spec_get(q) == overlay_upto(
                    base,
                    env@,
                    keys@.map_values(|k: &str| k@),
                    i as int,
                    q,
                ),
            decreases keys.len() - i,
        {
            let key = keys[i];
            match env.get(key) {
                Some(val) => {
                    let lower = ascii_lowercase(key);
                    self.storage_options.insert(lower, val);
                },
                None => {},
            }
            i = i + 1;
        }
    }

    /// Cross-field checks serde cannot express: this build carries neither an
    /// Iceberg nor a Unity writer, so selecting the Iceberg sink or a Unity
    /// Delta mode is refused, as is any Delta section that does not resolve.
    pub fn validate(&self) -> (r: Result<(), ConfigError>)
        ensures
            self.sinks@.contains(SinkKind::Iceberg) ==> r matches Err(ConfigError::IcebergNotCompiled),
            !self.sinks@.contains(SinkKind::Iceberg) && self.delta.is_local_mode() ==> r is Ok,
            !self.sinks@.contains(SinkKind::Iceberg) && !self.delta.is_local_mode()
                && !self.delta.is_unity_mode() ==> (r matches Err(ConfigError::UnknownDeltaMode(m))
                && m@ == self.delta.mode@),
            !self.sinks@.contains(SinkKind::Iceberg) && !self.delta.is_local_mode()
                && self.delta.is_unity_mode() ==> {
                if self.delta.endpoint is None && self.storage_options.spec_get(
                    "unity_catalog_url"@,
                ) is None {
                    r matches Err(ConfigError::UnityMissingEndpoint)
                } else if self.delta.catalog is None || self.delta.schema is None
                    || self.delta.table is None {
                    r matches Err(ConfigError::UnityMissingTableName)
                } else {
                    r matches Err(ConfigError::UnityNotCompiled)
                }
            },
    {
        let mut i: usize = 0;
        while i < self.sinks.len()
            invariant
                i <= self.sinks.len(),
                forall|j: int| 0 <= j < i ==> self.sinks@[j] != SinkKind::Iceberg,
            decreases self.sinks.len() - i,
        {
            if self.sinks[i] == SinkKind::Iceberg {
                return Err(ConfigError::IcebergNotCompiled);
            }
            i = i + 1;
        }
        let target = self.delta.resolve(&self.storage_options)?;
        match target {
            DeltaTarget::Local { .. } => Ok(()),
            _ => Err(ConfigError::UnityNotCompiled),
        }
    }
}

pub open spec fn storage_option_env_keys_spec() -> Seq<Seq<char>> {
    seq![
        "AWS_REGION"@,
        "AWS_ACCESS_KEY_ID"@,
        "AWS_SECRET_ACCESS_KEY"@,
        "AWS_ENDPOINT_URL"@,
        "AWS_S3_ALLOW_UNSAFE_RENAME"@,
        "UNITY_CATALOG_URL"@,
        "UNITY_CATALOG_TOKEN"@,
    ]
}

/// `storage_options` after the first `n` keys of `keys` were layered in from
/// `env`: the last such key whose lower-cased form is `q` and that `env`
/// holds decides; otherwise the base value stands.
pub open spec fn overlay_upto(
    base: Seq<(Seq<char>, Seq<char>)>,
    env: Seq<(Seq<char>, Seq<char>)>,
    keys: Seq<Seq<char>>,
    n: int,
    q: Seq<char>,
) -> Option<Seq<char>>
    decreases n,
{
    if n <= 0 {
        crate::strmap::lookup(base, q)
    } else {
        let k = keys[n - 1];
        if ascii_lower_seq(k) == q && crate::strmap::lookup(env, k) is Some {
            crate::strmap::lookup(env, k)
        } else {
            overlay_upto(base, env, keys, n - 1, q)
        }
    }
}

/// `storage_options` after all storage keys were layered in from `env`.
pub open spec fn overlay_lookup(
    base: Seq<(Seq<char>, Seq<char>)>,
    env: Seq<(Seq<char>, Seq<char>)>,
    q: Seq<char>,
) -> Option<Seq<char>> {
    overlay_upto(base, env, storage_option_env_keys_spec(), 7, q)
}

} // verus!
