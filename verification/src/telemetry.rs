//! The HTTP client options of the object stores: set by key as text, read
//! back as text, and parsed into the client's settings when it is built. A
//! value is either already parsed or kept as the text it was configured with.

use vstd::prelude::*;

use crate::text::{ascii_lower_seq, ascii_lowercase, chars_of, owned};

verus! {

/// A configuration value that failed to parse.
#[derive(Debug)]
pub struct ParseError {
    /// Where the error arose: `Config` for an option that does not parse,
    /// `HTTP client` for one the HTTP client refuses.
    pub store: String,
    pub message: String,
}

/// The message of a value `v` that does not parse as a `kind_name`.
pub open spec fn parse_failure_text(v: Seq<char>, kind_name: Seq<char>) -> Seq<char> {
    "failed to parse \""@ + v + "\" as "@ + kind_name
}

fn parse_failure(v: &str, kind_name: &str) -> (e: ParseError)
    ensures
        e.store@ == "Config"@,
        e.message@ == parse_failure_text(v@, kind_name@),
{
    let mut m = owned("failed to parse \"");
    m.append(v);
    m.append("\" as ");
    m.append(kind_name);
    ParseError { store: owned("Config"), message: m }
}

/// A value that can be read from configuration text.
pub trait Parse: Sized {
    /// The value the text denotes, if any.
    spec fn parse_spec(v: Seq<char>) -> Option<Self>;

    /// The type's name in error messages.
    spec fn kind_name() -> Seq<char>;

    fn parse(v: &str) -> (r: Result<Self, ParseError>)
        ensures
            match r {
                Ok(x) => Self::parse_spec(v@) == Some(x),
                Err(e) => Self::parse_spec(v@) is None && e.store@ == "Config"@ && e.message@
                    == parse_failure_text(v@, Self::kind_name()),
            },
    ;
}

/// The booleans configuration text may spell, ASCII case-insensitively.
pub open spec fn bool_of(v: Seq<char>) -> Option<bool> {
    let l = ascii_lower_seq(v);
    if l == "1"@ || l == "true"@ || l == "on"@ || l == "yes"@ || l == "y"@ {
        Some(true)
    } else if l == "0"@ || l == "false"@ || l == "off"@ || l == "no"@ || l == "n"@ {
        Some(false)
    } else {
        None
    }
}

impl Parse for bool {
    open spec fn parse_spec(v: Seq<char>) -> Option<bool> {
        bool_of(v)
    }

    open spec fn kind_name() -> Seq<char> {
        "boolean"@
    }

    fn parse(v: &str) -> (r: Result<bool, ParseError>) {
        let lower = ascii_lowercase(v);
        let l = lower.as_str();
        let eq = |a: &str, b: &str| -> (r: bool)
            ensures
                r == (a@ == b@),
            { crate::strmap::str_eq(a, b) };
        if eq(l, "1") || eq(l, "true") || eq(l, "on") || eq(l, "yes") || eq(l, "y") {
            Ok(true)
        } else if eq(l, "0") || eq(l, "false") || eq(l, "off") || eq(l, "no") || eq(l, "n") {
            Ok(false)
        } else {
            Err(parse_failure(v, "boolean"))
        }
    }
}

pub open spec fn is_digit(c: char) -> bool {
    '0' <= c && c <= '9'
}

/// The value of a run of decimal digits.
pub open spec fn digits_value(s: Seq<char>) -> nat
    decreases s.len(),
{
    if s.len() == 0 {
        0
    } else {
        digits_value(s.drop_last()) * 10 + ((s.last() as nat) - ('0' as nat)) as nat
    }
}

/// Decimal text without its optional leading `+`.
pub open spec fn decimal_body(v: Seq<char>) -> Seq<char> {
    if v.len() > 0 && v[0] == '+' {
        v.drop_first()
    } else {
        v
    }
}

pub open spec fn all_digits(s: Seq<char>) -> bool {
    forall|i: int| 0 <= i < s.len() ==> is_digit(#[trigger] s[i])
}

/// The unsigned integer, at most `max`, that decimal text denotes: an
/// optional `+`, then one or more ASCII digits.
pub open spec fn unsigned_of(v: Seq<char>, max: nat) -> Option<nat> {
    let body = decimal_body(v);
    if body.len() > 0 && all_digits(body) && digits_value(body) <= max {
        Some(digits_value(body))
    } else {
        None
    }
}

proof fn lemma_digits_value_grows(s: Seq<char>, k: int)
    requires
        0 <= k <= s.len(),
        forall|i: int| 0 <= i < s.len() ==> is_digit(#[trigger] s[i]),
    ensures
        digits_value(s.take(k)) <= digits_value(s),
    decreases s.len() - k,
{
    if k < s.len() {
        lemma_digits_value_grows(s.drop_last(), k);
        assert(s.drop_last().take(k) =~= s.take(k));
        assert(s.drop_last().len() == s.len() - 1);
        assert(digits_value(s) >= digits_value(s.drop_last()));
    } else {
        assert(s.take(k) =~= s);
    }
}

/// Decimal text to an unsigned integer no larger than `max`.
fn parse_unsigned(v: &str, max: u64) -> (r: Option<u64>)
    ensures
        match r {
            Some(x) => unsigned_of(v@, max as nat) == Some(x as nat),
            None => unsigned_of(v@, max as nat) is None,
        },
{
    let c = chars_of(v);
    let start: usize = if c.len() > 0 && c[0] == '+' {
        1
    } else {
        0
    };
    let ghost body = decimal_body(v@);
    assert(body =~= v@.skip(start as int));
    if start >= c.len() {
        return None;
    }
    let mut value: u64 = 0;
    let mut i: usize = start;
    while i < c.len()
        invariant
            start <= i <= c.len(),
            c@ == v@,
            body == v@.skip(start as int),
            body == decimal_body(v@),
            body.len() > 0,
            value as nat == digits_value(body.take(i - start)),
            value <= max,
            forall|k: int| 0 <= k < i - start ==> is_digit(#[trigger] body[k]),
        decreases c.len() - i,
    {
        let ch = c[i];
        assert(body[i - start] == ch);
        if !('0' <= ch && ch <= '9') {
            proof {
                let k = (i - start) as int;
                assert(!is_digit(body[k]));
                assert(!all_digits(body));
                assert(unsigned_of(v@, max as nat) is None);
            }
            return None;
        }
        let d: u64 = (ch as u32 - '0' as u32) as u64;
        assert(body.take(i - start + 1).drop_last() =~= body.take(i - start));
        if d > max || value > (max - d) / 10 {
            proof {
                assert(value * 10 + d > max) by (nonlinear_arith)
                    requires
                        d > max || value > (max - d) / 10,
                        d <= 9,
                ;
                if all_digits(body) {
                    lemma_digits_value_grows(body, i - start + 1);
                    assert(digits_value(body.take(i - start + 1)) == value * 10 + d);
                }
                assert(unsigned_of(v@, max as nat) is None);
            }
            return None;
        }
        proof {
            assert(value * 10 + d <= max) by (nonlinear_arith)
                requires
                    value <= (max - d) / 10,
                    d <= max,
            ;
        }
        value = value * 10 + d;
        i = i + 1;
    }
    assert(body.take(i - start) =~= body);
    Some(value)
}

impl Parse for usize {
    open spec fn parse_spec(v: Seq<char>) -> Option<usize> {
        match unsigned_of(v, usize::MAX as nat) {
            Some(x) => Some(x as usize),
            None => None,
        }
    }

    open spec fn kind_name() -> Seq<char> {
        "usize"@
    }

    fn parse(v: &str) -> (r: Result<usize, ParseError>) {
        match parse_unsigned(v, usize::MAX as u64) {
            Some(x) => Ok(x as usize),
            None => Err(parse_failure(v, "usize")),
        }
    }
}

impl Parse for u32 {
    open spec fn parse_spec(v: Seq<char>) -> Option<u32> {
        match unsigned_of(v, u32::MAX as nat) {
            Some(x) => Some(x as u32),
            None => None,
        }
    }

    open spec fn kind_name() -> Seq<char> {
        "u32"@
    }

    fn parse(v: &str) -> (r: Result<u32, ParseError>) {
        match parse_unsigned(v, u32::MAX as u64) {
            Some(x) => Ok(x as u32),
            None => Err(parse_failure(v, "u32")),
        }
    }
}

/// An option value: parsed, or the configured text to parse on use.
#[derive(Debug)]
pub enum ConfigValue<T> {
    Parsed(T),
    Deferred(String),
}

impl<T: Parse + Copy> ConfigValue<T> {
    /// Replace the value with configuration text, parsed on use.
    pub fn parse(&mut self, v: String)
        ensures
            *final(self) == ConfigValue::<T>::Deferred(v),
    {
        *self = ConfigValue::Deferred(v);
    }

    /// The value: as parsed, or parsed now from its text.
    pub fn get(&self) -> (r: Result<T, ParseError>)
        ensures
            match *self {
                ConfigValue::Parsed(x) => r matches Ok(y) && y == x,
                ConfigValue::Deferred(s) => match r {
                    Ok(y) => T::parse_spec(s@) == Some(y),
                    Err(e) => T::parse_spec(s@) is None && e.message@ == parse_failure_text(
                        s@,
                        T::kind_name(),
                    ) && e.store@ == "Config"@,
                },
            },
    {
        match self {
            ConfigValue::Parsed(v) => Ok(*v),
            ConfigValue::Deferred(s) => T::parse(s.as_str()),
        }
    }
}

/// What `humantime::parse_duration` makes of a text: whole seconds and
/// sub-second nanoseconds, or nothing when it does not parse.
pub uninterp spec fn humantime_parse(text: Seq<char>) -> Option<(u64, u32)>;

/// What `humantime::format_duration` renders for a duration.
pub uninterp spec fn humantime_format(secs: u64, nanos: u32) -> Seq<char>;

/// A span of time: whole seconds and the nanoseconds below a second.
#[derive(Debug, Clone, Copy)]
pub struct DurationValue {
    secs: u64,
    nanos: u32,
}

impl DurationValue {
    #[verifier::type_invariant]
    spec fn inv(self) -> bool {
        self.nanos < 1_000_000_000
    }

    pub closed spec fn spec_secs(self) -> u64 {
        self.secs
    }

    pub closed spec fn spec_nanos(self) -> u32 {
        self.nanos
    }

    /// `secs` whole seconds.
    pub fn from_secs(secs: u64) -> (r: Self)
        ensures
            r.spec_secs() == secs,
            r.spec_nanos() == 0,
    {
        DurationValue { secs, nanos: 0 }
    }

    pub fn as_secs(&self) -> (r: u64)
        ensures
            r == self.spec_secs(),
    {
        self.secs
    }

    pub fn subsec_nanos(&self) -> (r: u32)
        ensures
            r == self.spec_nanos(),
            r < 1_000_000_000,
    {
        proof {
            use_type_invariant(self);
        }
        self.nanos
    }
}

/// The duration of `secs` seconds and `nanos` nanoseconds.
pub closed spec fn duration_of(secs: u64, nanos: u32) -> DurationValue {
    DurationValue { secs, nanos }
}

pub proof fn lemma_duration_of(secs: u64, nanos: u32)
    ensures
        duration_of(secs, nanos).spec_secs() == secs,
        duration_of(secs, nanos).spec_nanos() == nanos,
{
}

/// `humantime::parse_duration`: seconds and sub-second nanoseconds of the
/// duration a text spells, named by [`humantime_parse`]; a `Duration`'s
/// nanoseconds are below one second. Only texts whose bound (see
/// [`crate::duration_text::duration_bound`]) stays below `u64::MAX` seconds
/// are handed over: on a text whose seconds reach `u64::MAX` the parser's
/// final carry into `Duration::new` could overflow and panic.
#[verifier::external_body]
fn parse_duration_text(text: &str) -> (r: Option<(u64, u32)>)
    requires
        crate::duration_text::duration_text_in_range(text@),
    ensures
        r == humantime_parse(text@),
        r matches Some((_, n)) ==> n < 1_000_000_000,
{
    humantime::parse_duration(text).ok().map(|d| (d.as_secs(), d.subsec_nanos()))
}

/// `humantime::format_duration` of a duration, named by
/// [`humantime_format`].
#[verifier::external_body]
fn format_duration_text(secs: u64, nanos: u32) -> (r: String)
    requires
        nanos < 1_000_000_000,
    ensures
        r@ == humantime_format(secs, nanos),
{
    humantime::format_duration(std::time::Duration::new(secs, nanos)).to_string()
}

impl Parse for DurationValue {
    open spec fn parse_spec(v: Seq<char>) -> Option<DurationValue> {
        if !crate::duration_text::duration_text_in_range(v) {
            None
        } else {
            match humantime_parse(v) {
                Some((s, n)) => Some(duration_of(s, n)),
                None => None,
            }
        }
    }

    open spec fn kind_name() -> Seq<char> {
        "Duration"@
    }

    fn parse(v: &str) -> (r: Result<DurationValue, ParseError>) {
        if !crate::duration_text::duration_text_in_range_exec(v) {
            return Err(parse_failure(v, "Duration"));
        }
        match parse_duration_text(v) {
            Some((s, n)) => Ok(DurationValue { secs: s, nanos: n }),
            None => Err(parse_failure(v, "Duration")),
        }
    }
}

/// The decimal digit of `d` below ten.
pub open spec fn decimal_digit(d: nat) -> char {
    ((d + 48) as u8) as char
}

/// The decimal rendering of `n`.
pub open spec fn decimal_text(n: nat) -> Seq<char>
    decreases n,
{
    if n < 10 {
        seq![decimal_digit(n)]
    } else {
        decimal_text(n / 10).push(decimal_digit(n % 10))
    }
}

/// The decimal rendering of `n`, as `to_string` gives it.
pub fn decimal_string(n: u64) -> (r: String)
    ensures
        r@ == decimal_text(n as nat),
    decreases n,
{
    let d: u8 = (n % 10) as u8;
    let c = (d + 48) as char;
    assert(c == decimal_digit((n % 10) as nat));
    if n < 10 {
        let mut s = String::new();
        crate::text::push_char(&mut s, c);
        assert(s@ =~= seq![decimal_digit(n as nat)]);
        s
    } else {
        let mut s = decimal_string(n / 10);
        crate::text::push_char(&mut s, c);
        s
    }
}

/// The value a configured option stands for, or the message of why its text
/// does not parse.
pub open spec fn value_of<T: Parse>(cv: ConfigValue<T>) -> Result<T, Seq<char>> {
    match cv {
        ConfigValue::Parsed(x) => Ok(x),
        ConfigValue::Deferred(s) => match T::parse_spec(s@) {
            Some(y) => Ok(y),
            None => Err(parse_failure_text(s@, T::kind_name())),
        },
    }
}

/// [`value_of`] for an option that may be unset.
pub open spec fn opt_value_of<T: Parse>(o: Option<ConfigValue<T>>) -> Result<Option<T>, Seq<char>> {
    match o {
        None => Ok(None),
        Some(cv) => match value_of(cv) {
            Ok(x) => Ok(Some(x)),
            Err(e) => Err(e),
        },
    }
}

fn opt_get<T: Parse + Copy>(o: &Option<ConfigValue<T>>) -> (r: Result<Option<T>, ParseError>)
    ensures
        match opt_value_of(*o) {
            Ok(x) => r matches Ok(y) && y == x,
            Err(m) => r matches Err(e) && e.message@ == m && e.store@ == "Config"@,
        },
{
    match o {
        None => Ok(None),
        Some(cv) => match cv.get() {
            Ok(x) => Ok(Some(x)),
            Err(e) => Err(e),
        },
    }
}

/// The configuration keys of the object-store HTTP client.
#[derive(Debug, Clone, Copy, PartialEq, Eq, Structural)]
pub enum ClientConfigKey {
    AllowHttp,
    AllowInvalidCertificates,
    ConnectTimeout,
    DefaultContentType,
    Http1Only,
    Http2Only,
    Http2KeepAliveInterval,
    Http2KeepAliveTimeout,
    Http2KeepAliveWhileIdle,
    Http2MaxFrameSize,
    PoolIdleTimeout,
    PoolMaxIdlePerHost,
    ProxyUrl,
    ProxyCaCertificate,
    ProxyExcludes,
    RandomizeAddresses,
    Timeout,
    UserAgent,
}

/// The HTTP client options of the object stores. Values set by key are kept
/// as text and parsed when the client is built.
#[derive(Debug)]
pub struct ClientOptionsInner {
    /// The configured user agent, checked as a header value on use.
    pub user_agent: Option<String>,
    pub default_content_type: Option<String>,
    pub proxy_url: Option<String>,
    pub proxy_ca_certificate: Option<String>,
    pub proxy_excludes: Option<String>,
    pub allow_http: ConfigValue<bool>,
    pub allow_insecure: ConfigValue<bool>,
    pub timeout: Option<ConfigValue<DurationValue>>,
    pub connect_timeout: Option<ConfigValue<DurationValue>>,
    pub pool_idle_timeout: Option<ConfigValue<DurationValue>>,
    pub pool_max_idle_per_host: Option<ConfigValue<usize>>,
    pub http2_keep_alive_interval: Option<ConfigValue<DurationValue>>,
    pub http2_keep_alive_timeout: Option<ConfigValue<DurationValue>>,
    pub http2_keep_alive_while_idle: ConfigValue<bool>,
    pub http2_max_frame_size: Option<ConfigValue<u32>>,
    pub http1_only: ConfigValue<bool>,
    pub http2_only: ConfigValue<bool>,
    pub randomize_addresses: ConfigValue<bool>,
}

pub open spec fn parsed_secs(o: Option<ConfigValue<DurationValue>>, secs: u64) -> bool {
    o matches Some(ConfigValue::Parsed(d)) && d.spec_secs() == secs && d.spec_nanos() == 0
}

impl Default for ClientOptionsInner {
    /// A request timeout of 30 s and a connect timeout of 5 s; HTTP/1 only;
    /// addresses shuffled; neither plain HTTP nor invalid certificates
    /// allowed; nothing else set.
    fn default() -> (r: Self)
        ensures
            r.user_agent is None,
            r.default_content_type is None,
            r.proxy_url is None,
            r.proxy_ca_certificate is None,
            r.proxy_excludes is None,
            r.allow_http == ConfigValue::<bool>::Parsed(false),
            r.allow_insecure == ConfigValue::<bool>::Parsed(false),
            parsed_secs(r.timeout, 30),
            parsed_secs(r.connect_timeout, 5),
            r.pool_idle_timeout is None,
            r.pool_max_idle_per_host is None,
            r.http2_keep_alive_interval is None,
            r.http2_keep_alive_timeout is None,
            r.http2_keep_alive_while_idle == ConfigValue::<bool>::Parsed(false),
            r.http2_max_frame_size is None,
            r.http1_only == ConfigValue::<bool>::Parsed(true),
            r.http2_only == ConfigValue::<bool>::Parsed(false),
            r.randomize_addresses == ConfigValue::<bool>::Parsed(true),
    {
        ClientOptionsInner {
            user_agent: None,
            default_content_type: None,
            proxy_url: None,
            proxy_ca_certificate: None,
            proxy_excludes: None,
            allow_http: ConfigValue::Parsed(false),
            allow_insecure: ConfigValue::Parsed(false),
            timeout: Some(ConfigValue::Parsed(DurationValue::from_secs(30))),
            connect_timeout: Some(ConfigValue::Parsed(DurationValue::from_secs(5))),
            pool_idle_timeout: None,
            pool_max_idle_per_host: None,
            http2_keep_alive_interval: None,
            http2_keep_alive_timeout: None,
            http2_keep_alive_while_idle: ConfigValue::Parsed(false),
            http2_max_frame_size: None,
            http1_only: ConfigValue::Parsed(true),
            http2_only: ConfigValue::Parsed(false),
            randomize_addresses: ConfigValue::Parsed(true),
        }
    }
}

/// The options with `key` set to text `v`: a flag or a number or a duration
/// is kept as text to parse later, a text option as it is.
pub open spec fn options_with(o: ClientOptionsInner, key: ClientConfigKey, v: String) -> ClientOptionsInner {
    match key {
        ClientConfigKey::AllowHttp => ClientOptionsInner { allow_http: ConfigValue::Deferred(v), ..o },
        ClientConfigKey::AllowInvalidCertificates => ClientOptionsInner { allow_insecure: ConfigValue::Deferred(v), ..o },
        ClientConfigKey::ConnectTimeout => ClientOptionsInner { connect_timeout: Some(ConfigValue::Deferred(v)), ..o },
        ClientConfigKey::DefaultContentType => ClientOptionsInner { default_content_type: Some(v), ..o },
        ClientConfigKey::Http1Only => ClientOptionsInner { http1_only: ConfigValue::Deferred(v), ..o },
        ClientConfigKey::Http2Only => ClientOptionsInner { http2_only: ConfigValue::Deferred(v), ..o },
        ClientConfigKey::Http2KeepAliveInterval => ClientOptionsInner { http2_keep_alive_interval: Some(ConfigValue::Deferred(v)), ..o },
        ClientConfigKey::Http2KeepAliveTimeout => ClientOptionsInner { http2_keep_alive_timeout: Some(ConfigValue::Deferred(v)), ..o },
        ClientConfigKey::Http2KeepAliveWhileIdle => ClientOptionsInner { http2_keep_alive_while_idle: ConfigValue::Deferred(v), ..o },
        ClientConfigKey::Http2MaxFrameSize => ClientOptionsInner { http2_max_frame_size: Some(ConfigValue::Deferred(v)), ..o },
        ClientConfigKey::PoolIdleTimeout => ClientOptionsInner { pool_idle_timeout: Some(ConfigValue::Deferred(v)), ..o },
        ClientConfigKey::PoolMaxIdlePerHost => ClientOptionsInner { pool_max_idle_per_host: Some(ConfigValue::Deferred(v)), ..o },
        ClientConfigKey::ProxyUrl => ClientOptionsInner { proxy_url: Some(v), ..o },
        ClientConfigKey::ProxyCaCertificate => ClientOptionsInner { proxy_ca_certificate: Some(v), ..o },
        ClientConfigKey::ProxyExcludes => ClientOptionsInner { proxy_excludes: Some(v), ..o },
        ClientConfigKey::RandomizeAddresses => ClientOptionsInner { randomize_addresses: ConfigValue::Deferred(v), ..o },
        ClientConfigKey::Timeout => ClientOptionsInner { timeout: Some(ConfigValue::Deferred(v)), ..o },
        ClientConfigKey::UserAgent => ClientOptionsInner { user_agent: Some(v), ..o },
    }
}

impl ClientOptionsInner {
    /// Set an option by key.
    pub fn with_config(self, key: ClientConfigKey, value: String) -> (r: Self)
        ensures
            r == options_with(self, key, value),
    {
        let mut o = self;
        match key {
            ClientConfigKey::AllowHttp => o.allow_http.parse(value),
            ClientConfigKey::AllowInvalidCertificates => o.allow_insecure.parse(value),
            ClientConfigKey::ConnectTimeout => o.connect_timeout = Some(ConfigValue::Deferred(value)),
            ClientConfigKey::DefaultContentType => o.default_content_type = Some(value),
            ClientConfigKey::Http1Only => o.http1_only.parse(value),
            ClientConfigKey::Http2Only => o.http2_only.parse(value),
            ClientConfigKey::Http2KeepAliveInterval => o.http2_keep_alive_interval = Some(ConfigValue::Deferred(value)),
            ClientConfigKey::Http2KeepAliveTimeout => o.http2_keep_alive_timeout = Some(ConfigValue::Deferred(value)),
            ClientConfigKey::Http2KeepAliveWhileIdle => o.http2_keep_alive_while_idle.parse(value),
            ClientConfigKey::Http2MaxFrameSize => o.http2_max_frame_size = Some(ConfigValue::Deferred(value)),
            ClientConfigKey::PoolIdleTimeout => o.pool_idle_timeout = Some(ConfigValue::Deferred(value)),
            ClientConfigKey::PoolMaxIdlePerHost => o.pool_max_idle_per_host = Some(ConfigValue::Deferred(value)),
            ClientConfigKey::ProxyUrl => o.proxy_url = Some(value),
            ClientConfigKey::ProxyCaCertificate => o.proxy_ca_certificate = Some(value),
            ClientConfigKey::ProxyExcludes => o.proxy_excludes = Some(value),
            ClientConfigKey::RandomizeAddresses => o.randomize_addresses.parse(value),
            ClientConfigKey::Timeout => o.timeout = Some(ConfigValue::Deferred(value)),
            ClientConfigKey::UserAgent => o.user_agent = Some(value),
        }
        o
    }
}

/// A flag as configuration text: `true`/`false`, or the text it was set to.
pub open spec fn flag_text(cv: ConfigValue<bool>) -> Seq<char> {
    match cv {
        ConfigValue::Parsed(b) => if b {
            "true"@
        } else {
            "false"@
        },
        ConfigValue::Deferred(s) => s@,
    }
}

/// A duration as configuration text: humantime's rendering, or the text it
/// was set to.
pub open spec fn duration_text(cv: ConfigValue<DurationValue>) -> Seq<char> {
    match cv {
        ConfigValue::Parsed(d) => humantime_format(d.spec_secs(), d.spec_nanos()),
        ConfigValue::Deferred(s) => s@,
    }
}

pub open spec fn usize_text(cv: ConfigValue<usize>) -> Seq<char> {
    match cv {
        ConfigValue::Parsed(n) => decimal_text(n as nat),
        ConfigValue::Deferred(s) => s@,
    }
}

pub open spec fn u32_text(cv: ConfigValue<u32>) -> Seq<char> {
    match cv {
        ConfigValue::Parsed(n) => decimal_text(n as nat),
        ConfigValue::Deferred(s) => s@,
    }
}

pub open spec fn opt_duration_text(o: Option<ConfigValue<DurationValue>>) -> Option<Seq<char>> {
    match o {
        Some(cv) => Some(duration_text(cv)),
        None => None,
    }
}

/// Text that `http::HeaderValue::from_str` accepts and `to_str` reads back:
/// tabs and visible ASCII only.
pub open spec fn visible_header_chars(s: Seq<char>) -> bool {
    forall|i: int| 0 <= i < s.len() ==> s[i] == '\t' || (' ' <= #[trigger] s[i] && s[i] <= '~')
}

/// The text of option `key`; a user agent that does not read back as a
/// visible header value has none.
pub open spec fn config_text(o: ClientOptionsInner, key: ClientConfigKey) -> Option<Seq<char>> {
    match key {
        ClientConfigKey::AllowHttp => Some(flag_text(o.allow_http)),
        ClientConfigKey::AllowInvalidCertificates => Some(flag_text(o.allow_insecure)),
        ClientConfigKey::ConnectTimeout => opt_duration_text(o.connect_timeout),
        ClientConfigKey::DefaultContentType => crate::text::opt_view(o.default_content_type),
        ClientConfigKey::Http1Only => Some(flag_text(o.http1_only)),
        ClientConfigKey::Http2KeepAliveInterval => opt_duration_text(o.http2_keep_alive_interval),
        ClientConfigKey::Http2KeepAliveTimeout => opt_duration_text(o.http2_keep_alive_timeout),
        ClientConfigKey::Http2KeepAliveWhileIdle => Some(flag_text(o.http2_keep_alive_while_idle)),
        ClientConfigKey::Http2MaxFrameSize => match o.http2_max_frame_size {
            Some(cv) => Some(u32_text(cv)),
            None => None,
        },
        ClientConfigKey::Http2Only => Some(flag_text(o.http2_only)),
        ClientConfigKey::PoolIdleTimeout => opt_duration_text(o.pool_idle_timeout),
        ClientConfigKey::PoolMaxIdlePerHost => match o.pool_max_idle_per_host {
            Some(cv) => Some(usize_text(cv)),
            None => None,
        },
        ClientConfigKey::ProxyUrl => crate::text::opt_view(o.proxy_url),
        ClientConfigKey::ProxyCaCertificate => crate::text::opt_view(o.proxy_ca_certificate),
        ClientConfigKey::ProxyExcludes => crate::text::opt_view(o.proxy_excludes),
        ClientConfigKey::RandomizeAddresses => Some(flag_text(o.randomize_addresses)),
        ClientConfigKey::Timeout => opt_duration_text(o.timeout),
        ClientConfigKey::UserAgent => match o.user_agent {
            Some(t) => if visible_header_chars(t@) {
                Some(t@)
            } else {
                None
            },
            None => None,
        },
    }
}

fn flag_string(cv: &ConfigValue<bool>) -> (r: String)
    ensures
        r@ == flag_text(*cv),
{
    match cv {
        ConfigValue::Parsed(b) => if *b {
            owned("true")
        } else {
            owned("false")
        },
        ConfigValue::Deferred(s) => s.clone(),
    }
}

fn opt_duration_string(o: &Option<ConfigValue<DurationValue>>) -> (r: Option<String>)
    ensures
        crate::text::opt_view(r) == opt_duration_text(*o),
{
    match o {
        Some(ConfigValue::Parsed(d)) => Some(format_duration_text(d.as_secs(), d.subsec_nanos())),
        Some(ConfigValue::Deferred(s)) => Some(s.clone()),
        None => None,
    }
}

/// `http::HeaderValue::from_str` then `HeaderValue::to_str`: the text read
/// back from the header value, which `to_str` gives only when every byte is a
/// tab or visible ASCII (http's `is_visible_ascii`); `from_str` accepts a
/// superset of those texts, so the text comes back unchanged exactly then.
#[verifier::external_body]
fn header_value_text(text: &str) -> (r: Option<String>)
    ensures
        match r {
            Some(t) => visible_header_chars(text@) && t@ == text@,
            None => !visible_header_chars(text@),
        },
{
    http::HeaderValue::from_str(text).ok().and_then(|v| v.to_str().ok().map(|t| t.to_string()))
}

impl ClientOptionsInner {
    /// Get an option by key, as configuration text.
    pub fn get_config_value(&self, key: ClientConfigKey) -> (r: Option<String>)
        ensures
            crate::text::opt_view(r) == config_text(*self, key),
    {
        match key {
            ClientConfigKey::AllowHttp => Some(flag_string(&self.allow_http)),
            ClientConfigKey::AllowInvalidCertificates => Some(flag_string(&self.allow_insecure)),
            ClientConfigKey::ConnectTimeout => opt_duration_string(&self.connect_timeout),
            ClientConfigKey::DefaultContentType => crate::text::copy_opt(&self.default_content_type),
            ClientConfigKey::Http1Only => Some(flag_string(&self.http1_only)),
            ClientConfigKey::Http2KeepAliveInterval => opt_duration_string(
                &self.http2_keep_alive_interval,
            ),
            ClientConfigKey::Http2KeepAliveTimeout => opt_duration_string(
                &self.http2_keep_alive_timeout,
            ),
            ClientConfigKey::Http2KeepAliveWhileIdle => Some(
                flag_string(&self.http2_keep_alive_while_idle),
            ),
            ClientConfigKey::Http2MaxFrameSize => match &self.http2_max_frame_size {
                Some(ConfigValue::Parsed(n)) => Some(decimal_string(*n as u64)),
                Some(ConfigValue::Deferred(s)) => Some(s.clone()),
                None => None,
            },
            ClientConfigKey::Http2Only => Some(flag_string(&self.http2_only)),
            ClientConfigKey::PoolIdleTimeout => opt_duration_string(&self.pool_idle_timeout),
            ClientConfigKey::PoolMaxIdlePerHost => match &self.pool_max_idle_per_host {
                Some(ConfigValue::Parsed(n)) => Some(decimal_string(*n as u64)),
                Some(ConfigValue::Deferred(s)) => Some(s.clone()),
                None => None,
            },
            ClientConfigKey::ProxyUrl => crate::text::copy_opt(&self.proxy_url),
            ClientConfigKey::ProxyCaCertificate => crate::text::copy_opt(&self.proxy_ca_certificate),
            ClientConfigKey::ProxyExcludes => crate::text::copy_opt(&self.proxy_excludes),
            ClientConfigKey::RandomizeAddresses => Some(flag_string(&self.randomize_addresses)),
            ClientConfigKey::Timeout => opt_duration_string(&self.timeout),
            ClientConfigKey::UserAgent => match &self.user_agent {
                Some(t) => header_value_text(t.as_str()),
                None => None,
            },
        }
    }
}

/// Text that `http::HeaderValue::from_str` accepts: no control character
/// but the tab, and no DEL.
pub open spec fn valid_header_chars(s: Seq<char>) -> bool {
    forall|i: int| 0 <= i < s.len() ==> s[i] == '\t' || (' ' <= #[trigger] s[i] && s[i] != '\u{7f}')
}

/// `http::HeaderValue::from_str`: whether it accepts the text, which it
/// does exactly when every byte is a tab or at least a space and not DEL
/// (http's `is_valid`); the bytes of a non-ASCII character all are.
#[verifier::external_body]
fn header_value_accepts(text: &str) -> (r: bool)
    ensures
        r == valid_header_chars(text@),
{
    http::HeaderValue::from_str(text).is_ok()
}

/// A proxy every request goes through.
#[derive(Debug)]
pub struct ProxySettings {
    pub url: String,
    /// A PEM certificate trusted as a root for the proxy.
    pub ca_certificate: Option<String>,
    /// Hosts that bypass the proxy.
    pub excludes: Option<String>,
}

/// What the HTTP client is built with. Compression stays off: it would
/// break the `Content-Length` object sizes rely on.
#[derive(Debug)]
pub struct ClientSettings {
    pub user_agent: String,
    pub proxy: Option<ProxySettings>,
    pub timeout: Option<DurationValue>,
    pub connect_timeout: Option<DurationValue>,
    pub pool_idle_timeout: Option<DurationValue>,
    pub pool_max_idle_per_host: Option<usize>,
    pub http2_keep_alive_interval: Option<DurationValue>,
    pub http2_keep_alive_timeout: Option<DurationValue>,
    pub http2_keep_alive_while_idle: bool,
    pub http2_max_frame_size: Option<u32>,
    pub http1_only: bool,
    /// HTTP/2 with prior knowledge.
    pub http2_only: bool,
    pub accept_invalid_certs: bool,
    pub https_only: bool,
}

/// `hydrofoil-object-store/0.1`
pub open spec fn default_user_agent() -> Seq<char> {
    "hydrofoil-object-store/0.1"@
}

/// What `reqwest::Proxy::all` says of a proxy URL: `None` when it takes it,
/// else its error's `Display`.
pub uninterp spec fn reqwest_proxy_error(url: Seq<char>) -> Option<Seq<char>>;

/// `reqwest::Proxy::all(url)`: `None` when reqwest takes the proxy URL (after
/// trying it with `http://` in front when it has no scheme), else the error's
/// `Display`. A function of the URL alone.
#[verifier::external_body]
fn proxy_error(url: &str) -> (r: Option<String>)
    ensures
        crate::text::opt_view(r) == reqwest_proxy_error(url@),
{
    reqwest::Proxy::all(url).err().map(|e| e.to_string())
}

/// Whether the user agent is a header value and the proxy URL is one reqwest
/// refuses.
pub open spec fn proxy_refused(o: ClientOptionsInner) -> bool {
    &&& !(o.user_agent matches Some(t) && !valid_header_chars(t@))
    &&& o.proxy_url matches Some(u) && reqwest_proxy_error(u@) is Some
}

/// The first option, in the order the client is built, whose text does not
/// parse, with the message of why.
pub open spec fn first_client_error(o: ClientOptionsInner) -> Option<Seq<char>> {
    if o.user_agent matches Some(t) && !valid_header_chars(t@) {
        Some(parse_failure_text(o.user_agent->0@, "HeaderValue"@))
    } else if proxy_refused(o) {
        reqwest_proxy_error(o.proxy_url->0@)
    } else if opt_value_of(o.timeout) is Err {
        Some(opt_value_of(o.timeout)->Err_0)
    } else if opt_value_of(o.connect_timeout) is Err {
        Some(opt_value_of(o.connect_timeout)->Err_0)
    } else if opt_value_of(o.pool_idle_timeout) is Err {
        Some(opt_value_of(o.pool_idle_timeout)->Err_0)
    } else if opt_value_of(o.pool_max_idle_per_host) is Err {
        Some(opt_value_of(o.pool_max_idle_per_host)->Err_0)
    } else if opt_value_of(o.http2_keep_alive_interval) is Err {
        Some(opt_value_of(o.http2_keep_alive_interval)->Err_0)
    } else if opt_value_of(o.http2_keep_alive_timeout) is Err {
        Some(opt_value_of(o.http2_keep_alive_timeout)->Err_0)
    } else if value_of(o.http2_keep_alive_while_idle) is Err {
        Some(value_of(o.http2_keep_alive_while_idle)->Err_0)
    } else if opt_value_of(o.http2_max_frame_size) is Err {
        Some(opt_value_of(o.http2_max_frame_size)->Err_0)
    } else if value_of(o.http1_only) is Err {
        Some(value_of(o.http1_only)->Err_0)
    } else if value_of(o.http2_only) is Err {
        Some(value_of(o.http2_only)->Err_0)
    } else if value_of(o.allow_insecure) is Err {
        Some(value_of(o.allow_insecure)->Err_0)
    } else if value_of(o.allow_http) is Err {
        Some(value_of(o.allow_http)->Err_0)
    } else {
        None
    }
}

/// `c` is what options `o`, every one of which parses, build.
pub open spec fn settings_of(c: ClientSettings, o: ClientOptionsInner) -> bool {
    &&& c.user_agent@ == match o.user_agent {
        Some(t) => t@,
        None => default_user_agent(),
    }
    &&& match o.proxy_url {
        Some(u) => c.proxy matches Some(p) && p.url@ == u@ && crate::text::opt_view(p.ca_certificate)
            == crate::text::opt_view(o.proxy_ca_certificate) && crate::text::opt_view(p.excludes)
            == crate::text::opt_view(o.proxy_excludes),
        None => c.proxy is None,
    }
    &&& opt_value_of(o.timeout) == Ok::<Option<DurationValue>, Seq<char>>(c.timeout)
    &&& opt_value_of(o.connect_timeout) == Ok::<Option<DurationValue>, Seq<char>>(c.connect_timeout)
    &&& opt_value_of(o.pool_idle_timeout) == Ok::<Option<DurationValue>, Seq<char>>(c.pool_idle_timeout)
    &&& opt_value_of(o.pool_max_idle_per_host) == Ok::<Option<usize>, Seq<char>>(c.pool_max_idle_per_host)
    &&& opt_value_of(o.http2_keep_alive_interval) == Ok::<Option<DurationValue>, Seq<char>>(
        c.http2_keep_alive_interval,
    )
    &&& opt_value_of(o.http2_keep_alive_timeout) == Ok::<Option<DurationValue>, Seq<char>>(
        c.http2_keep_alive_timeout,
    )
    &&& value_of(o.http2_keep_alive_while_idle) == Ok::<bool, Seq<char>>(c.http2_keep_alive_while_idle)
    &&& opt_value_of(o.http2_max_frame_size) == Ok::<Option<u32>, Seq<char>>(c.http2_max_frame_size)
    &&& value_of(o.http1_only) == Ok::<bool, Seq<char>>(c.http1_only)
    &&& value_of(o.http2_only) == Ok::<bool, Seq<char>>(c.http2_only)
    &&& value_of(o.allow_insecure) == Ok::<bool, Seq<char>>(c.accept_invalid_certs)
    &&& value_of(o.allow_http) == Ok::<bool, Seq<char>>(!c.https_only)
}

impl ClientOptionsInner {
    /// Resolve every option into what the HTTP client is built with: the
    /// first option whose text does not parse, or a proxy URL reqwest
    /// refuses, is the error. The proxy's PEM certificate is handed on as
    /// text: it is checked where the client is built, by the TLS backend's
    /// certificate parser.
    pub fn client_settings(&self) -> (r: Result<ClientSettings, ParseError>)
        ensures
            match first_client_error(*self) {
                Some(m) => r matches Err(e) && e.message@ == m && e.store@ == if proxy_refused(*self) {
                    "HTTP client"@
                } else {
                    "Config"@
                },
                None => r matches Ok(c) && settings_of(c, *self),
            },
    {
        let user_agent = match &self.user_agent {
            Some(t) => {
                if !header_value_accepts(t.as_str()) {
                    return Err(parse_failure(t.as_str(), "HeaderValue"));
                }
                t.clone()
            },
            None => owned("hydrofoil-object-store/0.1"),
        };
        if let Some(u) = &self.proxy_url {
            if let Some(e) = proxy_error(u.as_str()) {
                return Err(ParseError { store: owned("HTTP client"), message: e });
            }
        }
        let proxy = match &self.proxy_url {
            Some(u) => Some(
                ProxySettings {
                    url: u.clone(),
                    ca_certificate: crate::text::copy_opt(&self.proxy_ca_certificate),
                    excludes: crate::text::copy_opt(&self.proxy_excludes),
                },
            ),
            None => None,
        };
        let timeout = match opt_get(&self.timeout) {
            Ok(v) => v,
            Err(e) => return Err(e),
        };
        let connect_timeout = match opt_get(&self.connect_timeout) {
            Ok(v) => v,
            Err(e) => return Err(e),
        };
        let pool_idle_timeout = match opt_get(&self.pool_idle_timeout) {
            Ok(v) => v,
            Err(e) => return Err(e),
        };
        let pool_max_idle_per_host = match opt_get(&self.pool_max_idle_per_host) {
            Ok(v) => v,
            Err(e) => return Err(e),
        };
        let http2_keep_alive_interval = match opt_get(&self.http2_keep_alive_interval) {
            Ok(v) => v,
            Err(e) => return Err(e),
        };
        let http2_keep_alive_timeout = match opt_get(&self.http2_keep_alive_timeout) {
            Ok(v) => v,
            Err(e) => return Err(e),
        };
        let http2_keep_alive_while_idle = match self.http2_keep_alive_while_idle.get() {
            Ok(v) => v,
            Err(e) => return Err(e),
        };
        let http2_max_frame_size = match opt_get(&self.http2_max_frame_size) {
            Ok(v) => v,
            Err(e) => return Err(e),
        };
        let http1_only = match self.http1_only.get() {
            Ok(v) => v,
            Err(e) => return Err(e),
        };
        let http2_only = match self.http2_only.get() {
            Ok(v) => v,
            Err(e) => return Err(e),
        };
        let accept_invalid_certs = match self.allow_insecure.get() {
            Ok(v) => v,
            Err(e) => return Err(e),
        };
        let allow_http = match self.allow_http.get() {
            Ok(v) => v,
            Err(e) => return Err(e),
        };
        Ok(
            ClientSettings {
                user_agent,
                proxy,
                timeout,
                connect_timeout,
                pool_idle_timeout,
                pool_max_idle_per_host,
                http2_keep_alive_interval,
                http2_keep_alive_timeout,
                http2_keep_alive_while_idle,
                http2_max_frame_size,
                http1_only,
                http2_only,
                accept_invalid_certs,
                https_only: !allow_http,
            },
        )
    }
}

/// The texts configuration reads as booleans, ASCII case aside: exactly
/// `1`, `true`, `on`, `yes`, `y` read as true and exactly `0`, `false`,
/// `off`, `no`, `n` as false; any other text is no boolean.
pub proof fn lemma_bool_texts(v: Seq<char>)
    ensures
        bool_of(v) == Some(true) <==> (ascii_lower_seq(v) == "1"@ || ascii_lower_seq(v) == "true"@
            || ascii_lower_seq(v) == "on"@ || ascii_lower_seq(v) == "yes"@ || ascii_lower_seq(v) == "y"@),
        bool_of(v) == Some(false) <==> (ascii_lower_seq(v) == "0"@ || ascii_lower_seq(v) == "false"@
            || ascii_lower_seq(v) == "off"@ || ascii_lower_seq(v) == "no"@ || ascii_lower_seq(v) == "n"@),
{
    reveal_strlit("1");
    reveal_strlit("true");
    reveal_strlit("on");
    reveal_strlit("yes");
    reveal_strlit("y");
    reveal_strlit("0");
    reveal_strlit("false");
    reveal_strlit("off");
    reveal_strlit("no");
    reveal_strlit("n");
    assert("1"@.len() == 1 && "y"@.len() == 1 && "0"@.len() == 1 && "n"@.len() == 1);
    assert("on"@.len() == 2 && "no"@.len() == 2 && "yes"@.len() == 3 && "off"@.len() == 3);
    assert("true"@.len() == 4 && "false"@.len() == 5);
    assert("0"@[0] != "1"@[0] && "0"@[0] != "y"@[0] && "n"@[0] != "1"@[0] && "n"@[0] != "y"@[0]);
    assert("no"@[0] != "on"@[0] && "off"@[0] != "yes"@[0]);
}

} // verus!
