//! Settings: of the configuration file and of the environment.

use vstd::prelude::*;

use crate::text;

verus! {

/// The name of the configuration file.
pub const CONFIG_FILE_NAME: &'static str = "dv-hls-gateway.json";

/// All settings of the configuration file.
#[derive(Debug, Clone)]
pub struct AppConfig {
    pub server: ServerConfig,
    pub auth: AuthConfig,
    pub key_api: KeyApiConfig,
}

/// Where the server listens.
#[derive(Debug, Clone)]
pub struct ServerConfig {
    pub host: String,
    pub port: u16,
}

/// The key of the control interface.
#[derive(Debug, Clone)]
pub struct AuthConfig {
    pub key: String,
}

/// The service that hands out content keys.
#[derive(Debug, Clone)]
pub struct KeyApiConfig {
    pub url: String,
    pub token: String,
    pub attempts: usize,
    pub retry_base_ms: u64,
    pub retry_max_ms: u64,
}

/// What the configuration lacks.
#[derive(Debug, Clone, Copy, PartialEq, Eq, Structural)]
pub enum ConfigError {
    NoUrl,
    NoToken,
}

impl ConfigError {
    /// The error in words.
    pub open spec fn text(self) -> Seq<char> {
        match self {
            ConfigError::NoUrl => {
                "dynamic key API URL is not configured; set key_api.url in dv-hls-gateway.json"@
            },
            ConfigError::NoToken => {
                "dynamic key API token is not configured; set key_api.token in dv-hls-gateway.json"@
            },
        }
    }

    /// The error in words.
    pub fn message(&self) -> (r: &'static str)
        ensures
            r@ == self.text(),
    {
        match self {
            ConfigError::NoUrl => {
                "dynamic key API URL is not configured; set key_api.url in dv-hls-gateway.json"
            },
            ConfigError::NoToken => {
                "dynamic key API token is not configured; set key_api.token in dv-hls-gateway.json"
            },
        }
    }
}

/// Whether a character is a lower-case hexadecimal digit.
pub open spec fn is_lower_hex(c: char) -> bool {
    ('0' <= c && c <= '9') || ('a' <= c && c <= 'f')
}

/// Calls `uuid::Uuid::new_v4` and writes the result with `Uuid::simple`. Claimed: 32 lower-case
/// hexadecimal digits. Which ones they are is left to chance.
#[verifier::external_body]
fn random_digits() -> (r: String)
    ensures
        r@.len() == 32,
        forall|i: int| 0 <= i < 32 ==> is_lower_hex(#[trigger] r@[i]),
{
    uuid::Uuid::new_v4().simple().to_string()
}

/// The key of the control interface made of random digits.
pub open spec fn auth_key(digits: Seq<char>) -> Seq<char> {
    "dvhls-"@ + digits
}

/// The key of the control interface made of random digits.
pub fn auth_key_from(digits: &str) -> (r: String)
    ensures
        r@ == auth_key(digits@),
{
    let mut out: String = text::clone_text("dvhls-");
    text::push_str(&mut out, digits);
    out
}

/// Whether a text can be a generated key.
pub open spec fn is_auth_key(s: Seq<char>) -> bool {
    exists|d: Seq<char>|
        d.len() == 32 && (forall|i: int| 0 <= i < 32 ==> is_lower_hex(#[trigger] d[i])) && s
            == #[trigger] auth_key(d)
}

/// A new key of the control interface.
pub fn generate_auth_key() -> (r: String)
    ensures
        is_auth_key(r@),
{
    let digits: String = random_digits();
    let key: String = auth_key_from(digits.as_str());
    assert(key@ == auth_key(digits@));
    key
}

impl ServerConfig {
    pub open spec fn is_default(self) -> bool {
        self.host@ == "0.0.0.0"@ && self.port == 37201
    }
}

impl KeyApiConfig {
    pub open spec fn is_default(self) -> bool {
        self.url@.len() == 0 && self.token@.len() == 0 && self.attempts == 12 && self.retry_base_ms
            == 400 && self.retry_max_ms == 8_000
    }

    /// The address and the token of the service.
    pub fn require_endpoint(&self) -> (r: Result<(String, String), ConfigError>)
        ensures
            match r {
                Ok((u, t)) => endpoint_of(self.url@, self.token@) == Ok::<
                    (Seq<char>, Seq<char>),
                    ConfigError,
                >((u@, t@)),
                Err(e) => endpoint_of(self.url@, self.token@) == Err::<
                    (Seq<char>, Seq<char>),
                    ConfigError,
                >(e),
            },
    {
        endpoint(self.url.as_str(), self.token.as_str())
    }
}

/// The address and the token of the key service; neither may be blank.
pub open spec fn endpoint_of(url: Seq<char>, token: Seq<char>) -> Result<
    (Seq<char>, Seq<char>),
    ConfigError,
> {
    if text::trimmed(url).len() == 0 {
        Err(ConfigError::NoUrl)
    } else if text::trimmed(token).len() == 0 {
        Err(ConfigError::NoToken)
    } else {
        Ok((text::trimmed(url), text::trimmed(token)))
    }
}

/// The address and the token of the key service.
pub fn endpoint(url: &str, token: &str) -> (r: Result<(String, String), ConfigError>)
    ensures
        match r {
            Ok((u, t)) => endpoint_of(url@, token@) == Ok::<(Seq<char>, Seq<char>), ConfigError>(
                (u@, t@),
            ),
            Err(e) => endpoint_of(url@, token@) == Err::<(Seq<char>, Seq<char>), ConfigError>(e),
        },
{
    let u: Vec<char> = text::trim(text::to_chars(url).as_slice());
    let t: Vec<char> = text::trim(text::to_chars(token).as_slice());
    if u.len() == 0 {
        return Err(ConfigError::NoUrl);
    }
    if t.len() == 0 {
        return Err(ConfigError::NoToken);
    }
    Ok((text::from_chars(u.as_slice()), text::from_chars(t.as_slice())))
}

impl AuthConfig {
    /// The key without the white space around it.
    pub fn effective_key(&self) -> (r: String)
        ensures
            r@ == text::trimmed(self.key@),
    {
        text::from_chars(text::trim(text::to_chars(self.key.as_str()).as_slice()).as_slice())
    }

    /// Whether a request that states a key is let in. Nothing is, where no key is set.
    pub fn admits(&self, stated: &str) -> (r: bool)
        ensures
            r == (text::trimmed(self.key@).len() > 0 && stated@ == text::trimmed(self.key@)),
    {
        let key: String = self.effective_key();
        !key.as_str().is_empty() && text::same(stated, key.as_str())
    }
}

impl Default for ServerConfig {
    fn default() -> (r: Self)
        ensures
            r.is_default(),
    {
        ServerConfig { host: text::clone_text("0.0.0.0"), port: 37201 }
    }
}

impl Default for AuthConfig {
    fn default() -> (r: Self)
        ensures
            is_auth_key(r.key@),
    {
        AuthConfig { key: generate_auth_key() }
    }
}

impl Default for KeyApiConfig {
    fn default() -> (r: Self)
        ensures
            r.is_default(),
    {
        KeyApiConfig {
            url: String::new(),
            token: String::new(),
            attempts: 12,
            retry_base_ms: 400,
            retry_max_ms: 8_000,
        }
    }
}

impl Default for AppConfig {
    fn default() -> (r: Self)
        ensures
            r.server.is_default(),
            is_auth_key(r.auth.key@),
            r.key_api.is_default(),
    {
        AppConfig {
            server: ServerConfig::default(),
            auth: AuthConfig::default(),
            key_api: KeyApiConfig::default(),
        }
    }
}

/// Whether a stated key has to be replaced by a generated one.
pub fn needs_auth_key(key: Option<&str>) -> (r: bool)
    ensures
        r == (match key {
            Some(k) => text::trimmed(k@).len() == 0,
            None => true,
        }),
{
    match key {
        Some(k) => text::trim(text::to_chars(k).as_slice()).len() == 0,
        None => true,
    }
}

/// The number that a setting states, if there is one up to `max`.
pub open spec fn number_setting(value: Option<&str>, max: int) -> Option<int> {
    match value {
        Some(v) => text::parsed_number(text::trimmed(v@), max),
        None => None,
    }
}

/// A number that a setting states, or else a default, but at least `least`.
pub open spec fn limited_setting(value: Option<&str>, max: int, default: int, least: int) -> int {
    let v = match number_setting(value, max) {
        Some(n) => n,
        None => default,
    };
    if v < least {
        least
    } else {
        v
    }
}

/// A setting in 64 bits, or else a default, but at least `least`.
pub fn setting_u64(value: Option<&str>, default: u64, least: u64) -> (r: u64)
    ensures
        r == limited_setting(value, u64::MAX as int, default as int, least as int),
{
    let v: u64 = match value {
        Some(s) => match text::parse_number(
            text::trim(text::to_chars(s).as_slice()).as_slice(),
            u64::MAX,
        ) {
            Some(n) => n,
            None => default,
        },
        None => default,
    };
    if v < least {
        least
    } else {
        v
    }
}

/// A setting that counts, or else a default, but at least `least`.
pub fn setting_usize(value: Option<&str>, default: usize, least: usize) -> (r: usize)
    ensures
        r == limited_setting(value, usize::MAX as int, default as int, least as int),
{
    let v: usize = match value {
        Some(s) => match text::parse_number(
            text::trim(text::to_chars(s).as_slice()).as_slice(),
            usize::MAX as u64,
        ) {
            Some(n) => n as usize,
            None => default,
        },
        None => default,
    };
    if v < least {
        least
    } else {
        v
    }
}

/// What a switch states.
pub open spec fn switch_of(value: Option<&str>) -> Option<bool> {
    match value {
        None => None,
        Some(v) => {
            let s = text::ascii_lowercase(text::trimmed(v@));
            if s == "1"@ || s == "true"@ || s == "yes"@ || s == "on"@ {
                Some(true)
            } else if s == "0"@ || s == "false"@ || s == "no"@ || s == "off"@ {
                Some(false)
            } else {
                None
            }
        },
    }
}

/// A switch, or else a default.
pub fn setting_bool(value: Option<&str>, default: bool) -> (r: bool)
    ensures
        r == (match switch_of(value) {
            Some(b) => b,
            None => default,
        }),
{
    match value {
        None => default,
        Some(v) => {
            let l: Vec<char> = text::to_ascii_lower(
                text::trim(text::to_chars(v).as_slice()).as_slice(),
            );
            let s: &[char] = l.as_slice();
            if text::is(s, "1") || text::is(s, "true") || text::is(s, "yes") || text::is(s, "on") {
                true
            } else if text::is(s, "0") || text::is(s, "false") || text::is(s, "no") || text::is(
                s,
                "off",
            ) {
                false
            } else {
                default
            }
        },
    }
}

} // verus!
