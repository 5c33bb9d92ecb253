//! Layered configuration of the service.
//!
//! Configuration is resolved with the following precedence (lowest to
//! highest): built-in defaults, a config file, environment variables
//! prefixed with `VICO_VEE_`, command-line arguments. Reading the file and
//! the environment is the caller's part; this module combines the layers.
use vstd::prelude::*;
use crate::auth::to_lower;
use crate::osmosis::path_join;
use crate::text::{owned, push_str, str_eq, parse_unsigned, spec_parse_unsigned, int_error_text};

verus! {

broadcast use vstd::string::group_string_axioms;

/// Log output format.
#[derive(Debug, Clone, Copy, PartialEq, Eq, Structural)]
pub enum LogFormat {
    Pretty,
    Json,
    Compact,
}

impl Default for LogFormat {
    fn default() -> (r: Self)
        ensures
            r == LogFormat::Pretty,
    {
        LogFormat::Pretty
    }
}

/// API-key authentication configuration.
#[derive(Debug, Clone)]
pub struct ApiKeysConfig {
    /// Path to the TOML file containing API keys.
    pub file: String,
    /// Inline API keys supplied through the `VICO_VEE_API_KEYS` variable.
    pub env_override: Option<String>,
    /// Require a valid API key on every scoped route; on by default.
    pub require_auth: bool,
}

/// Service configuration.
#[derive(Debug, Clone)]
pub struct Config {
    /// TCP port to listen on.
    pub port: u16,
    /// Interface address to bind to.
    pub bind: String,
    /// Base directory for persistent data.
    pub data_dir: String,
    /// Base directory for configuration files.
    pub config_dir: String,
    /// URL of the local Ollama instance used by ODIN probes.
    pub ollama_url: String,
    /// Log output format.
    pub log_format: LogFormat,
    /// Path to a TLS certificate (PEM).
    pub tls_cert: Option<String>,
    /// Path to a TLS private key (PEM).
    pub tls_key: Option<String>,
    /// Path to the API-keys file.
    pub api_keys_file: String,
    /// API-key authentication configuration.
    pub api_keys: ApiKeysConfig,
    /// Maximum request body size in megabytes.
    pub body_limit_mb: usize,
    /// Request handling timeout in seconds.
    pub request_timeout_secs: u64,
    /// Rate limit: requests per second per IP.
    pub rate_limit_per_sec: u32,
    /// Rate limit: maximum burst per IP.
    pub rate_limit_burst: u32,
}

/// Command-line overrides.
#[derive(Debug, Clone)]
pub struct Cli {
    pub port: Option<u16>,
    pub bind: Option<String>,
    pub data_dir: Option<String>,
    pub config_dir: Option<String>,
    pub ollama_url: Option<String>,
    pub log_format: Option<String>,
    pub tls_cert: Option<String>,
    pub tls_key: Option<String>,
    pub api_keys_file: Option<String>,
    pub body_limit_mb: Option<usize>,
    pub request_timeout_secs: Option<u64>,
    pub rate_limit_per_sec: Option<u32>,
    pub rate_limit_burst: Option<u32>,
    pub require_auth: Option<bool>,
}

impl Default for Cli {
    fn default() -> (r: Self)
        ensures
            r.port is None && r.bind is None && r.data_dir is None && r.config_dir is None
                && r.ollama_url is None && r.log_format is None && r.tls_cert is None
                && r.tls_key is None && r.api_keys_file is None && r.body_limit_mb is None
                && r.request_timeout_secs is None && r.rate_limit_per_sec is None
                && r.rate_limit_burst is None && r.require_auth is None,
    {
        Cli {
            port: None,
            bind: None,
            data_dir: None,
            config_dir: None,
            ollama_url: None,
            log_format: None,
            tls_cert: None,
            tls_key: None,
            api_keys_file: None,
            body_limit_mb: None,
            request_timeout_secs: None,
            rate_limit_per_sec: None,
            rate_limit_burst: None,
            require_auth: None,
        }
    }
}

/// The values of the `VICO_VEE_*` environment variables that are set.
#[derive(Debug, Clone)]
pub struct ConfigEnv {
    pub port: Option<String>,
    pub bind: Option<String>,
    pub data_dir: Option<String>,
    pub config_dir: Option<String>,
    pub ollama_url: Option<String>,
    pub log_format: Option<String>,
    pub tls_cert: Option<String>,
    pub tls_key: Option<String>,
    pub api_keys_file: Option<String>,
    pub body_limit_mb: Option<String>,
    pub request_timeout_secs: Option<String>,
    pub rate_limit_per_sec: Option<String>,
    pub rate_limit_burst: Option<String>,
    /// `VICO_VEE_REQUIRE_AUTH`: `true` or `false`.
    pub require_auth: Option<String>,
    /// `VICO_VEE_API_KEYS`: the API keys inline, in the keys file's format.
    pub api_keys: Option<String>,
}

pub fn default_port() -> (r: u16)
    ensures
        r == 9987,
{
    9987
}

pub fn default_bind() -> (r: String)
    ensures
        r@ == "0.0.0.0"@,
{
    owned("0.0.0.0")
}

pub fn default_ollama_url() -> (r: String)
    ensures
        r@ == "http://127.0.0.1:11434"@,
{
    owned("http://127.0.0.1:11434")
}

pub fn default_body_limit_mb() -> (r: usize)
    ensures
        r == 16,
{
    16
}

pub fn default_request_timeout_secs() -> (r: u64)
    ensures
        r == 30,
{
    30
}

pub fn default_rate_limit_per_sec() -> (r: u32)
    ensures
        r == 10,
{
    10
}

pub fn default_rate_limit_burst() -> (r: u32)
    ensures
        r == 50,
{
    50
}

fn join_str(root: &str, rel: &str) -> (r: String)
    ensures
        r@ == path_join(root@, rel@),
{
    let cs = crate::text::chars_of(root);
    let mut out = owned(root);
    if cs.len() > 0 && cs[cs.len() - 1] != '/' {
        crate::text::push_char(&mut out, '/');
    }
    push_str(&mut out, rel);
    out
}

/// The API-keys file in a configuration directory.
pub fn default_api_keys_file(config_dir: &str) -> (r: String)
    ensures
        r@ == path_join(config_dir@, "api_keys.toml"@),
{
    join_str(config_dir, "api_keys.toml")
}

/// `dirs::data_dir`: the platform's data directory, when it can be found.
/// What it returns depends on the environment; nothing is claimed of it.
#[verifier::external_body]
fn platform_data_dir() -> (r: Option<String>) {
    dirs::data_dir().map(|p| p.to_string_lossy().into_owned())
}

/// `dirs::config_dir`: the platform's configuration directory, when it can
/// be found. What it returns depends on the environment; nothing is claimed
/// of it.
#[verifier::external_body]
fn platform_config_dir() -> (r: Option<String>) {
    dirs::config_dir().map(|p| p.to_string_lossy().into_owned())
}

fn service_dir(base: Option<String>) -> (r: String)
    ensures
        base is Some ==> r@ == path_join(base->Some_0@, "vico-vee"@),
        base is None ==> r@ == path_join("/tmp"@, "vico-vee"@),
{
    match base {
        Some(b) => join_str(b.as_str(), "vico-vee"),
        None => join_str("/tmp", "vico-vee"),
    }
}

/// Base directory for persistent data: the `VICO_VEE_DATA_DIR` value when
/// set, else `vico-vee` in the platform's data directory.
pub fn vee_data_dir(env_override: Option<String>) -> (r: String)
    ensures
        env_override is Some ==> r@ == env_override->Some_0@,
{
    match env_override {
        Some(d) => d,
        None => service_dir(platform_data_dir()),
    }
}

/// Base directory for configuration files: the `VICO_VEE_CONFIG_DIR` value
/// when set, else `vico-vee` in the platform's configuration directory.
pub fn vee_config_dir(env_override: Option<String>) -> (r: String)
    ensures
        env_override is Some ==> r@ == env_override->Some_0@,
{
    match env_override {
        Some(d) => d,
        None => service_dir(platform_config_dir()),
    }
}

/// The built-in defaults, with the given directories.
pub open spec fn is_default_config(c: Config, data_dir: Seq<char>, config_dir: Seq<char>) -> bool {
    &&& c.port == 9987
    &&& c.bind@ == "0.0.0.0"@
    &&& c.data_dir@ == data_dir
    &&& c.config_dir@ == config_dir
    &&& c.ollama_url@ == "http://127.0.0.1:11434"@
    &&& c.log_format == LogFormat::Pretty
    &&& c.tls_cert is None
    &&& c.tls_key is None
    &&& c.api_keys_file@ == path_join(config_dir, "api_keys.toml"@)
    &&& c.api_keys.file@ == path_join(config_dir, "api_keys.toml"@)
    &&& c.api_keys.env_override is None
    &&& c.api_keys.require_auth
    &&& c.body_limit_mb == 16
    &&& c.request_timeout_secs == 30
    &&& c.rate_limit_per_sec == 10
    &&& c.rate_limit_burst == 50
}

impl Config {
    /// The built-in defaults with the given data and configuration
    /// directories.
    pub fn with_dirs(data_dir: String, config_dir: String) -> (r: Config)
        ensures
            is_default_config(r, data_dir@, config_dir@),
    {
        let keys_file = default_api_keys_file(config_dir.as_str());
        let keys_file2 = default_api_keys_file(config_dir.as_str());
        Config {
            port: default_port(),
            bind: default_bind(),
            data_dir,
            config_dir,
            ollama_url: default_ollama_url(),
            log_format: LogFormat::Pretty,
            tls_cert: None,
            tls_key: None,
            api_keys_file: keys_file,
            api_keys: ApiKeysConfig { file: keys_file2, env_override: None, require_auth: true },
            body_limit_mb: default_body_limit_mb(),
            request_timeout_secs: default_request_timeout_secs(),
            rate_limit_per_sec: default_rate_limit_per_sec(),
            rate_limit_burst: default_rate_limit_burst(),
        }
    }
}

impl Default for Config {
    /// The built-in defaults, in the platform's directories.
    fn default() -> (r: Self)
        ensures
            is_default_config(r, r.data_dir@, r.config_dir@),
    {
        Config::with_dirs(vee_data_dir(None), vee_config_dir(None))
    }
}

/// The log format a name stands for, compared case-insensitively.
pub open spec fn spec_parse_log_format(s: Seq<char>) -> Result<LogFormat, Seq<char>> {
    let l = to_lower(s);
    if l == "pretty"@ {
        Ok(LogFormat::Pretty)
    } else if l == "json"@ {
        Ok(LogFormat::Json)
    } else if l == "compact"@ {
        Ok(LogFormat::Compact)
    } else {
        Err("unknown log format: "@ + l)
    }
}

pub fn parse_log_format(s: &str) -> (r: Result<LogFormat, String>)
    ensures
        match spec_parse_log_format(s@) {
            Ok(f) => r == Ok::<LogFormat, String>(f),
            Err(e) => r is Err && r->Err_0@ == e,
        },
{
    let l = crate::auth::lowercase(s);
    if str_eq(l.as_str(), "pretty") {
        Ok(LogFormat::Pretty)
    } else if str_eq(l.as_str(), "json") {
        Ok(LogFormat::Json)
    } else if str_eq(l.as_str(), "compact") {
        Ok(LogFormat::Compact)
    } else {
        let mut msg = owned("unknown log format: ");
        push_str(&mut msg, l.as_str());
        Err(msg)
    }
}

pub open spec fn over<T>(v: Option<T>, old: T) -> T {
    match v {
        Some(x) => x,
        None => old,
    }
}

pub open spec fn over_str(v: Option<String>, old: Seq<char>) -> Seq<char> {
    match v {
        Some(x) => x@,
        None => old,
    }
}

pub open spec fn opt_view(v: Option<String>) -> Option<Seq<char>> {
    match v {
        Some(x) => Some(x@),
        None => None,
    }
}

/// What the command line makes of a configuration: each option given
/// replaces the field; a log format that does not parse leaves it as it was.
pub open spec fn cli_applied(old: Config, cli: Cli, new: Config) -> bool {
    &&& new.port == over(cli.port, old.port)
    &&& new.bind@ == over_str(cli.bind, old.bind@)
    &&& new.data_dir@ == over_str(cli.data_dir, old.data_dir@)
    &&& new.config_dir@ == over_str(cli.config_dir, old.config_dir@)
    &&& new.ollama_url@ == over_str(cli.ollama_url, old.ollama_url@)
    &&& new.log_format == match cli.log_format {
        Some(v) => match spec_parse_log_format(v@) {
            Ok(f) => f,
            Err(_) => old.log_format,
        },
        None => old.log_format,
    }
    &&& opt_view(new.tls_cert) == (if cli.tls_cert is Some { opt_view(cli.tls_cert) } else { opt_view(old.tls_cert) })
    &&& opt_view(new.tls_key) == (if cli.tls_key is Some { opt_view(cli.tls_key) } else { opt_view(old.tls_key) })
    &&& new.api_keys_file@ == over_str(cli.api_keys_file, old.api_keys_file@)
    &&& new.body_limit_mb == over(cli.body_limit_mb, old.body_limit_mb)
    &&& new.request_timeout_secs == over(cli.request_timeout_secs, old.request_timeout_secs)
    &&& new.rate_limit_per_sec == over(cli.rate_limit_per_sec, old.rate_limit_per_sec)
    &&& new.rate_limit_burst == over(cli.rate_limit_burst, old.rate_limit_burst)
    &&& new.api_keys.file == old.api_keys.file
    &&& new.api_keys.env_override == old.api_keys.env_override
    &&& new.api_keys.require_auth == over(cli.require_auth, old.api_keys.require_auth)
}

impl Config {
    /// Apply command-line overrides.
    pub fn apply_cli(&mut self, cli: Cli)
        ensures
            cli_applied(*old(self), cli, *final(self)),
    {
        let port = pick(cli.port, self.port);
        let bind = pick_string(cli.bind, &self.bind);
        let data_dir = pick_string(cli.data_dir, &self.data_dir);
        let config_dir = pick_string(cli.config_dir, &self.config_dir);
        let ollama_url = pick_string(cli.ollama_url, &self.ollama_url);
        let log_format = pick_log_format(&cli.log_format, self.log_format);
        let tls_cert = pick_opt(cli.tls_cert, &self.tls_cert);
        let tls_key = pick_opt(cli.tls_key, &self.tls_key);
        let api_keys_file = pick_string(cli.api_keys_file, &self.api_keys_file);
        let body_limit_mb = pick(cli.body_limit_mb, self.body_limit_mb);
        let request_timeout_secs = pick(cli.request_timeout_secs, self.request_timeout_secs);
        let rate_limit_per_sec = pick(cli.rate_limit_per_sec, self.rate_limit_per_sec);
        let rate_limit_burst = pick(cli.rate_limit_burst, self.rate_limit_burst);
        let require_auth = pick(cli.require_auth, self.api_keys.require_auth);
        self.port = port;
        self.bind = bind;
        self.data_dir = data_dir;
        self.config_dir = config_dir;
        self.ollama_url = ollama_url;
        self.log_format = log_format;
        self.tls_cert = tls_cert;
        self.tls_key = tls_key;
        self.api_keys_file = api_keys_file;
        self.body_limit_mb = body_limit_mb;
        self.request_timeout_secs = request_timeout_secs;
        self.rate_limit_per_sec = rate_limit_per_sec;
        self.rate_limit_burst = rate_limit_burst;
        self.api_keys.require_auth = require_auth;
    }
}

fn pick<T: Copy>(v: Option<T>, old: T) -> (r: T)
    ensures
        r == over(v, old),
{
    match v {
        Some(x) => x,
        None => old,
    }
}

fn pick_string(v: Option<String>, old: &String) -> (r: String)
    ensures
        r@ == over_str(v, old@),
{
    match v {
        Some(x) => x,
        None => old.clone(),
    }
}

fn pick_opt(v: Option<String>, old: &Option<String>) -> (r: Option<String>)
    ensures
        opt_view(r) == (if v is Some { opt_view(v) } else { opt_view(*old) }),
{
    match v {
        Some(x) => Some(x),
        None => match old {
            Some(o) => Some(o.clone()),
            None => None,
        },
    }
}

fn pick_log_format(v: &Option<String>, old: LogFormat) -> (r: LogFormat)
    ensures
        r == match *v {
            Some(s) => match spec_parse_log_format(s@) {
                Ok(f) => f,
                Err(_) => old,
            },
            None => old,
        },
{
    match v {
        Some(s) => match parse_log_format(s.as_str()) {
            Ok(f) => f,
            Err(_) => old,
        },
        None => old,
    }
}

/// A numeric variable's value, or the message that refusing it gives.
pub open spec fn env_number(v: Option<String>, max: nat, name: Seq<char>) -> Result<Option<nat>, Seq<char>> {
    match v {
        None => Ok(None),
        Some(t) => match spec_parse_unsigned(t@, max) {
            Ok(n) => Ok(Some(n)),
            Err(k) => Err(name + ": "@ + int_error_text(k)),
        },
    }
}

pub open spec fn env_log_format(v: Option<String>) -> Result<Option<LogFormat>, Seq<char>> {
    match v {
        None => Ok(None),
        Some(t) => match spec_parse_log_format(t@) {
            Ok(f) => Ok(Some(f)),
            Err(e) => Err(e),
        },
    }
}

/// `VICO_VEE_REQUIRE_AUTH`: `true` or `false` set the requirement; any other
/// value is not read and leaves it as it was.
pub open spec fn env_require_auth(v: Option<String>) -> Option<bool> {
    match v {
        Some(t) => if t@ == "true"@ {
            Some(true)
        } else if t@ == "false"@ {
            Some(false)
        } else {
            None
        },
        None => None,
    }
}

/// The first refused variable, in the order port, log format, body limit,
/// request timeout, rate limit, burst.
pub open spec fn env_error(env: ConfigEnv) -> Option<Seq<char>> {
    if env_number(env.port, 65535, "VICO_VEE_PORT"@) is Err {
        Some(env_number(env.port, 65535, "VICO_VEE_PORT"@)->Err_0)
    } else if env_log_format(env.log_format) is Err {
        Some(env_log_format(env.log_format)->Err_0)
    } else if env_number(env.body_limit_mb, usize::MAX as nat, "VICO_VEE_BODY_LIMIT_MB"@) is Err {
        Some(env_number(env.body_limit_mb, usize::MAX as nat, "VICO_VEE_BODY_LIMIT_MB"@)->Err_0)
    } else if env_number(env.request_timeout_secs, u64::MAX as nat, "VICO_VEE_REQUEST_TIMEOUT_SECS"@) is Err {
        Some(env_number(env.request_timeout_secs, u64::MAX as nat, "VICO_VEE_REQUEST_TIMEOUT_SECS"@)->Err_0)
    } else if env_number(env.rate_limit_per_sec, u32::MAX as nat, "VICO_VEE_RATE_LIMIT_PER_SEC"@) is Err {
        Some(env_number(env.rate_limit_per_sec, u32::MAX as nat, "VICO_VEE_RATE_LIMIT_PER_SEC"@)->Err_0)
    } else if env_number(env.rate_limit_burst, u32::MAX as nat, "VICO_VEE_RATE_LIMIT_BURST"@) is Err {
        Some(env_number(env.rate_limit_burst, u32::MAX as nat, "VICO_VEE_RATE_LIMIT_BURST"@)->Err_0)
    } else {
        None
    }
}

pub open spec fn num_or(r: Result<Option<nat>, Seq<char>>, old: int) -> int {
    match r {
        Ok(Some(n)) => n as int,
        _ => old,
    }
}

/// What the environment makes of a configuration when every variable is
/// accepted: each variable set replaces its field.
pub open spec fn env_applied(old: Config, env: ConfigEnv, new: Config) -> bool {
    &&& new.port == num_or(env_number(env.port, 65535, "VICO_VEE_PORT"@), old.port as int)
    &&& new.bind@ == over_str(env.bind, old.bind@)
    &&& new.data_dir@ == over_str(env.data_dir, old.data_dir@)
    &&& new.config_dir@ == over_str(env.config_dir, old.config_dir@)
    &&& new.ollama_url@ == over_str(env.ollama_url, old.ollama_url@)
    &&& new.log_format == match env_log_format(env.log_format) {
        Ok(Some(f)) => f,
        _ => old.log_format,
    }
    &&& opt_view(new.tls_cert) == (if env.tls_cert is Some { opt_view(env.tls_cert) } else { opt_view(old.tls_cert) })
    &&& opt_view(new.tls_key) == (if env.tls_key is Some { opt_view(env.tls_key) } else { opt_view(old.tls_key) })
    &&& new.api_keys_file@ == over_str(env.api_keys_file, old.api_keys_file@)
    &&& new.body_limit_mb == num_or(env_number(env.body_limit_mb, usize::MAX as nat, "VICO_VEE_BODY_LIMIT_MB"@), old.body_limit_mb as int)
    &&& new.request_timeout_secs == num_or(env_number(env.request_timeout_secs, u64::MAX as nat, "VICO_VEE_REQUEST_TIMEOUT_SECS"@), old.request_timeout_secs as int)
    &&& new.rate_limit_per_sec == num_or(env_number(env.rate_limit_per_sec, u32::MAX as nat, "VICO_VEE_RATE_LIMIT_PER_SEC"@), old.rate_limit_per_sec as int)
    &&& new.rate_limit_burst == num_or(env_number(env.rate_limit_burst, u32::MAX as nat, "VICO_VEE_RATE_LIMIT_BURST"@), old.rate_limit_burst as int)
    &&& new.api_keys.file == old.api_keys.file
    &&& opt_view(new.api_keys.env_override) == (if env.api_keys is Some { opt_view(env.api_keys) } else { opt_view(old.api_keys.env_override) })
    &&& new.api_keys.require_auth == match env_require_auth(env.require_auth) {
        Some(b) => b,
        None => old.api_keys.require_auth,
    }
}

fn env_num(v: &Option<String>, max: u64, name: &str) -> (r: Result<Option<u64>, String>)
    ensures
        match env_number(*v, max as nat, name@) {
            Ok(None) => r == Ok::<Option<u64>, String>(None),
            Ok(Some(n)) => r == Ok::<Option<u64>, String>(Some(n as u64)),
            Err(e) => r is Err && r->Err_0@ == e,
        },
{
    match v {
        None => Ok(None),
        Some(t) => match parse_unsigned(t.as_str(), max) {
            Ok(n) => Ok(Some(n)),
            Err(e) => {
                let mut msg = owned(name);
                push_str(&mut msg, ": ");
                push_str(&mut msg, e.as_str());
                Err(msg)
            },
        },
    }
}

fn env_require(v: &Option<String>) -> (r: Option<bool>)
    ensures
        r == env_require_auth(*v),
{
    match v {
        None => None,
        Some(t) => {
            if str_eq(t.as_str(), "true") {
                Some(true)
            } else if str_eq(t.as_str(), "false") {
                Some(false)
            } else {
                None
            }
        },
    }
}

fn env_string(v: &Option<String>, old: &String) -> (r: String)
    ensures
        r@ == over_str(*v, old@),
{
    match v {
        Some(x) => x.clone(),
        None => old.clone(),
    }
}

fn env_opt(v: &Option<String>, old: &Option<String>) -> (r: Option<String>)
    ensures
        opt_view(r) == (if v is Some { opt_view(*v) } else { opt_view(*old) }),
{
    match v {
        Some(x) => Some(x.clone()),
        None => match old {
            Some(o) => Some(o.clone()),
            None => None,
        },
    }
}

impl Config {
    /// Apply the `VICO_VEE_*` environment variables. A variable that does not
    /// parse is refused with its message, and the configuration is left as
    /// it was.
    #[verifier::rlimit(40)]
    pub fn apply_env(&mut self, env: &ConfigEnv) -> (r: Result<(), String>)
        ensures
            match env_error(*env) {
                Some(e) => r is Err && r->Err_0@ == e && *final(self) == *old(self),
                None => r is Ok && env_applied(*old(self), *env, *final(self)),
            },
    {
        let port = match env_num(&env.port, 65535, "VICO_VEE_PORT") {
            Ok(p) => p,
            Err(e) => return Err(e),
        };
        let log_format = match &env.log_format {
            None => None,
            Some(t) => match parse_log_format(t.as_str()) {
                Ok(f) => Some(f),
                Err(e) => return Err(e),
            },
        };
        let body = match env_num(&env.body_limit_mb, usize::MAX as u64, "VICO_VEE_BODY_LIMIT_MB") {
            Ok(p) => p,
            Err(e) => return Err(e),
        };
        let timeout = match env_num(&env.request_timeout_secs, u64::MAX, "VICO_VEE_REQUEST_TIMEOUT_SECS") {
            Ok(p) => p,
            Err(e) => return Err(e),
        };
        let rate = match env_num(&env.rate_limit_per_sec, u32::MAX as u64, "VICO_VEE_RATE_LIMIT_PER_SEC") {
            Ok(p) => p,
            Err(e) => return Err(e),
        };
        let burst = match env_num(&env.rate_limit_burst, u32::MAX as u64, "VICO_VEE_RATE_LIMIT_BURST") {
            Ok(p) => p,
            Err(e) => return Err(e),
        };
        let require = env_require(&env.require_auth);
        let env_override = env_opt(&env.api_keys, &self.api_keys.env_override);
        let bind = env_string(&env.bind, &self.bind);
        let data_dir = env_string(&env.data_dir, &self.data_dir);
        let config_dir = env_string(&env.config_dir, &self.config_dir);
        let ollama_url = env_string(&env.ollama_url, &self.ollama_url);
        let tls_cert = env_opt(&env.tls_cert, &self.tls_cert);
        let tls_key = env_opt(&env.tls_key, &self.tls_key);
        let api_keys_file = env_string(&env.api_keys_file, &self.api_keys_file);
        if let Some(p) = port {
            self.port = p as u16;
        }
        self.bind = bind;
        self.data_dir = data_dir;
        self.config_dir = config_dir;
        self.ollama_url = ollama_url;
        if let Some(f) = log_format {
            self.log_format = f;
        }
        self.tls_cert = tls_cert;
        self.tls_key = tls_key;
        self.api_keys_file = api_keys_file;
        if let Some(b) = body {
            self.body_limit_mb = b as usize;
        }
        if let Some(t) = timeout {
            self.request_timeout_secs = t;
        }
        if let Some(x) = rate {
            self.rate_limit_per_sec = x as u32;
        }
        if let Some(x) = burst {
            self.rate_limit_burst = x as u32;
        }
        self.api_keys.env_override = env_override;
        if let Some(b) = require {
            self.api_keys.require_auth = b;
        }
        Ok(())
    }

    /// The defaults, in the directories the environment names, with the
    /// environment variables applied.
    pub fn from_env(env: &ConfigEnv) -> (r: Result<Config, String>)
        ensures
            match env_error(*env) {
                Some(e) => r is Err && r->Err_0@ == e,
                None => r is Ok && exists|base: Config| #[trigger] is_default_config(base, base.data_dir@, base.config_dir@)
                    && (env.data_dir is Some ==> base.data_dir@ == env.data_dir->Some_0@)
                    && (env.config_dir is Some ==> base.config_dir@ == env.config_dir->Some_0@)
                    && env_applied(base, *env, r->Ok_0),
            },
    {
        let mut config = Config::with_dirs(vee_data_dir(env.data_dir.clone()), vee_config_dir(env.config_dir.clone()));
        let ghost base = config;
        match config.apply_env(env) {
            Ok(()) => Ok(config),
            Err(e) => Err(e),
        }
    }

    /// Layer the configuration: the file's configuration when there is one,
    /// else the defaults; then the environment; then the command line.
    pub fn load(cli: Option<Cli>, file_config: Option<Config>, env: &ConfigEnv) -> (r: Result<Config, String>)
        ensures
            env_error(*env) is None ==> r is Ok && loaded(cli, file_config, *env, r->Ok_0),
            match env_error(*env) {
                Some(e) => r is Err && r->Err_0@ == e,
                None => r is Ok && exists|base: Config, mid: Config| {
                    &&& match file_config {
                        Some(f) => base == f,
                        None => is_default_config(base, base.data_dir@, base.config_dir@),
                    }
                    &&& #[trigger] env_applied(base, *env, mid)
                    &&& match cli {
                        Some(c) => cli_applied(mid, c, r->Ok_0),
                        None => r->Ok_0 == mid,
                    }
                },
            },
    {
        let mut config = match file_config {
            Some(f) => f,
            None => Config::with_dirs(vee_data_dir(env.data_dir.clone()), vee_config_dir(env.config_dir.clone())),
        };
        let ghost base = config;
        match config.apply_env(env) {
            Ok(()) => {},
            Err(e) => return Err(e),
        }
        let ghost mid = config;
        if let Some(c) = cli {
            config.apply_cli(c);
        }
        Ok(config)
    }
}


/// A configuration that loading can give: the file's configuration, or the
/// defaults, with the environment applied and then the command line.
pub open spec fn loaded(cli: Option<Cli>, file_config: Option<Config>, env: ConfigEnv, c: Config) -> bool {
    exists|base: Config, mid: Config| {
        &&& match file_config {
            Some(f) => base == f,
            None => is_default_config(base, base.data_dir@, base.config_dir@),
        }
        &&& #[trigger] env_applied(base, env, mid)
        &&& match cli {
            Some(k) => cli_applied(mid, k, c),
            None => c == mid,
        }
    }
}

/// Whether the command line leaves a setting alone.
pub open spec fn cli_silent<T>(cli: Option<Cli>, pick: spec_fn(Cli) -> Option<T>) -> bool {
    match cli {
        Some(k) => pick(k) is None,
        None => true,
    }
}

/// Layered configuration: a text setting given on the command line is the
/// loaded value; otherwise one set in the environment is; otherwise the
/// file's value stands. The listening port follows the same order, an
/// environment value counting when it parses.
pub proof fn lemma_load_precedence(cli: Option<Cli>, file_config: Option<Config>, env: ConfigEnv, c: Config)
    requires
        loaded(cli, file_config, env, c),
    ensures
        cli is Some && cli->Some_0.ollama_url is Some ==> c.ollama_url@ == cli->Some_0.ollama_url->Some_0@,
        cli_silent(cli, |k: Cli| k.ollama_url) && env.ollama_url is Some ==> c.ollama_url@ == env.ollama_url->Some_0@,
        cli_silent(cli, |k: Cli| k.ollama_url) && env.ollama_url is None && file_config is Some ==> c.ollama_url@ == file_config->Some_0.ollama_url@,
        cli is Some && cli->Some_0.bind is Some ==> c.bind@ == cli->Some_0.bind->Some_0@,
        cli_silent(cli, |k: Cli| k.bind) && env.bind is Some ==> c.bind@ == env.bind->Some_0@,
        cli_silent(cli, |k: Cli| k.bind) && env.bind is None && file_config is Some ==> c.bind@ == file_config->Some_0.bind@,
        cli is Some && cli->Some_0.data_dir is Some ==> c.data_dir@ == cli->Some_0.data_dir->Some_0@,
        cli_silent(cli, |k: Cli| k.data_dir) && env.data_dir is Some ==> c.data_dir@ == env.data_dir->Some_0@,
        cli is Some && cli->Some_0.config_dir is Some ==> c.config_dir@ == cli->Some_0.config_dir->Some_0@,
        cli_silent(cli, |k: Cli| k.config_dir) && env.config_dir is Some ==> c.config_dir@ == env.config_dir->Some_0@,
        cli is Some && cli->Some_0.api_keys_file is Some ==> c.api_keys_file@ == cli->Some_0.api_keys_file->Some_0@,
        cli_silent(cli, |k: Cli| k.api_keys_file) && env.api_keys_file is Some ==> c.api_keys_file@ == env.api_keys_file->Some_0@,
        cli_silent(cli, |k: Cli| k.api_keys_file) && env.api_keys_file is None && file_config is Some ==> c.api_keys_file@ == file_config->Some_0.api_keys_file@,
        cli is Some && cli->Some_0.port is Some ==> c.port == cli->Some_0.port->Some_0,
        cli_silent(cli, |k: Cli| k.port) && env.port is Some && spec_parse_unsigned(env.port->Some_0@, 65535) is Ok
            ==> c.port == spec_parse_unsigned(env.port->Some_0@, 65535)->Ok_0,
        cli_silent(cli, |k: Cli| k.port) && env.port is None && file_config is Some ==> c.port == file_config->Some_0.port,
{
    let (base, mid) = choose|base: Config, mid: Config| {
        &&& match file_config {
            Some(f) => base == f,
            None => is_default_config(base, base.data_dir@, base.config_dir@),
        }
        &&& #[trigger] env_applied(base, env, mid)
        &&& match cli {
            Some(k) => cli_applied(mid, k, c),
            None => c == mid,
        }
    };
    assert(env_applied(base, env, mid));
}

} // verus!
