//! Configuration data for client and server, and key decoding.
//!
//! The structures mirror the recognized TOML keys; reading and
//! deserializing the file itself is the embedding program's concern.

use vstd::prelude::*;
use base64::Engine;

verus! {

// ── Client configuration ────────────────────────────────────────────

pub struct ClientConfig {
    pub server: ServerAddress,
    pub obfuscation: ObfuscationConfig,
    pub routing: RoutingConfig,
    pub client: ClientSettings,
    pub geoip: Option<GeoIpConfig>,
}

pub struct ServerAddress {
    pub address: String,
    pub port: u16,
}

pub struct ObfuscationConfig {
    /// The shared key, base64-encoded.
    pub key: String,
    pub modifier: String,
    pub salt: u64,
    pub padding_min: u8,
    pub padding_max: u8,
}

pub struct RoutingConfig {
    pub default_action: String,
    pub rules: Vec<RoutingRule>,
}

pub struct RoutingRule {
    pub action: String,
    pub domains: Vec<String>,
    pub ip_ranges: Vec<String>,
    pub geoip: Vec<String>,
}

pub struct ClientSettings {
    pub listen_port: u16,
    pub auto_redirect: bool,
    pub on_server_down: String,
    pub log_level: String,
}

pub struct GeoIpConfig {
    pub database: String,
}

// ── Server configuration ────────────────────────────────────────────

pub struct ServerConfig {
    pub server: ServerListenConfig,
    pub obfuscation: ObfuscationConfig,
    pub limits: LimitsConfig,
    pub fallback: FallbackConfig,
    pub logging: LoggingConfig,
}

pub struct ServerListenConfig {
    pub listen: String,
    pub port: u16,
}

pub struct LimitsConfig {
    pub max_connections: u32,
    pub connection_timeout_sec: u64,
}

pub struct FallbackConfig {
    pub enabled: bool,
    pub response_file: Option<String>,
}

pub struct LoggingConfig {
    pub level: String,
    pub file: Option<String>,
}

// ── Defaults ────────────────────────────────────────────────────────

pub fn default_modifier() -> (r: String)
    ensures
        r@ == "positional_xor_rotate"@,
{
    "positional_xor_rotate".to_owned()
}

pub fn default_salt() -> (r: u64)
    ensures
        r == 0xDEADBEEF,
{
    0xDEADBEEF
}

pub fn default_padding_min() -> (r: u8)
    ensures
        r == 16,
{
    16
}

pub fn default_padding_max() -> (r: u8)
    ensures
        r == 128,
{
    128
}

pub fn default_action() -> (r: String)
    ensures
        r@ == "direct"@,
{
    "direct".to_owned()
}

pub fn default_listen_port() -> (r: u16)
    ensures
        r == 1080,
{
    1080
}

pub fn default_true() -> (r: bool)
    ensures
        r == true,
{
    true
}

pub fn default_on_server_down() -> (r: String)
    ensures
        r@ == "direct"@,
{
    "direct".to_owned()
}

pub fn default_log_level() -> (r: String)
    ensures
        r@ == "warn"@,
{
    "warn".to_owned()
}

pub fn default_listen_addr() -> (r: String)
    ensures
        r@ == "0.0.0.0"@,
{
    "0.0.0.0".to_owned()
}

pub fn default_max_connections() -> (r: u32)
    ensures
        r == 256,
{
    256
}

pub fn default_timeout() -> (r: u64)
    ensures
        r == 300,
{
    300
}

impl Default for ClientSettings {
    fn default() -> (r: ClientSettings)
        ensures
            r.listen_port == 1080,
            r.auto_redirect == true,
            r.on_server_down@ == "direct"@,
            r.log_level@ == "warn"@,
    {
        ClientSettings {
            listen_port: default_listen_port(),
            auto_redirect: true,
            on_server_down: default_on_server_down(),
            log_level: default_log_level(),
        }
    }
}

impl Default for LimitsConfig {
    fn default() -> (r: LimitsConfig)
        ensures
            r.max_connections == 256,
            r.connection_timeout_sec == 300,
    {
        LimitsConfig {
            max_connections: default_max_connections(),
            connection_timeout_sec: default_timeout(),
        }
    }
}

impl Default for FallbackConfig {
    fn default() -> (r: FallbackConfig)
        ensures
            r.enabled == false,
            r.response_file is None,
    {
        FallbackConfig { enabled: false, response_file: None }
    }
}

impl Default for LoggingConfig {
    fn default() -> (r: LoggingConfig)
        ensures
            r.level@ == "warn"@,
            r.file is None,
    {
        LoggingConfig { level: default_log_level(), file: None }
    }
}

// ── Key decoding ────────────────────────────────────────────────────

/// What decoding the whitespace-trimmed input as standard base64 yields.
pub uninterp spec fn base64_decode_of(s: Seq<char>) -> Option<Seq<u8>>;

/// Relies on the base64 crate's STANDARD engine: what `decode` returns
/// on the whitespace-trimmed input depends on the characters alone.
#[verifier::external_body]
fn base64_decode_trimmed(s: &str) -> (r: Option<Vec<u8>>)
    ensures
        match r {
            Some(v) => base64_decode_of(s@) == Some(v@),
            None => base64_decode_of(s@) is None,
        },
{
    base64::engine::general_purpose::STANDARD.decode(s.trim()).ok()
}

/// Failures of `decode_key`.
#[derive(Debug, Clone, Copy, PartialEq, Eq, Structural)]
pub enum KeyError {
    /// The configured key is not valid base64.
    InvalidBase64,
    /// The key decodes to zero bytes; an empty key is rejected here, at
    /// configuration time, never at run time.
    EmptyKey,
}

/// Decode the base64 key from the configuration into its raw bytes,
/// which must be non-empty.
pub fn decode_key(key_str: &str) -> (r: Result<Vec<u8>, KeyError>)
    ensures
        match base64_decode_of(key_str@) {
            None => r == Err::<Vec<u8>, KeyError>(KeyError::InvalidBase64),
            Some(bytes) => if bytes.len() == 0 {
                r == Err::<Vec<u8>, KeyError>(KeyError::EmptyKey)
            } else {
                r matches Ok(v) && v@ == bytes && v@.len() > 0
            },
        },
{
    match base64_decode_trimmed(key_str) {
        None => Err(KeyError::InvalidBase64),
        Some(bytes) => {
            if bytes.len() == 0 {
                Err(KeyError::EmptyKey)
            } else {
                Ok(bytes)
            }
        },
    }
}

} // verus!
