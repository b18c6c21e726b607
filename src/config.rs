//! The settings that every translation call uses: the API key and the endpoint.
use vstd::prelude::*;
use vstd::string::{StringExecFns, StringSliceAdditionalSpecFns};

verus! {

#[verifier::external_type_specification]
#[verifier::external_body]
pub struct ExTomlError(toml::de::Error);

/// Whether a text parses as a TOML document.
pub uninterp spec fn toml_parses(text: Seq<char>) -> bool;

/// In the TOML document `text`, the string `key` of the table `table`, if
/// there is such a string.
pub uninterp spec fn toml_str_at(text: Seq<char>, table: Seq<char>, key: Seq<char>) -> Option<
    Seq<char>,
>;

pub open spec fn option_text(o: Option<String>) -> Option<Seq<char>> {
    match o {
        Some(s) => Some(s@),
        None => None,
    }
}

/// The most bytes of a configuration text that may open a level of nesting.
pub const MAX_OPENERS: usize = 256;

/// Whether a byte may open a level of nesting in TOML: `[` of an array or a
/// table header, `{` of an inline table, `.` of a dotted key. Every `.` is
/// counted, also one in a string or a number.
pub open spec fn is_opener(b: u8) -> bool {
    b == 0x5b || b == 0x7b || b == 0x2e
}

/// How many bytes of `b` may open a level of nesting; it bounds how deeply
/// the document nests.
pub open spec fn openers(b: Seq<u8>) -> nat
    decreases b.len(),
{
    if b.len() == 0 {
        0
    } else {
        openers(b.drop_last()) + if is_opener(b.last()) {
            1nat
        } else {
            0nat
        }
    }
}

/// A text shallow enough for the TOML parser, which recurses once per level
/// of nesting with no limit of its own.
pub open spec fn shallow(text: &str) -> bool {
    openers(text.spec_bytes()) <= MAX_OPENERS
}

/// Whether the text holds at most `MAX_OPENERS` bytes that may open a level
/// of nesting.
pub fn is_shallow(text: &str) -> (r: bool)
    ensures
        r == shallow(text),
{
    let b = text.as_bytes();
    let n = b.len();
    let mut count: usize = 0;
    let mut i: usize = 0;
    while i < n
        invariant
            n == b@.len(),
            b@ == text.spec_bytes(),
            i <= n,
            count <= i,
            count == openers(b@.take(i as int)),
        decreases n - i,
    {
        assert(b@.take(i + 1).drop_last() =~= b@.take(i as int));
        let c = b[i];
        if c == 0x5b || c == 0x7b || c == 0x2e {
            count = count + 1;
        }
        i = i + 1;
    }
    assert(b@.take(n as int) =~= b@);
    count <= MAX_OPENERS
}

/// Relies on `FromStr for toml::Value`, `toml::Value::get` and
/// `toml::Value::as_str`: parses `text`, then reads the string `key` of the
/// table `table`.
#[verifier::external_body]
fn toml_setting(text: &str, table: &str, key: &str) -> (r: Result<Option<String>, toml::de::Error>)
    requires
        shallow(text),
    ensures
        r is Ok == toml_parses(text@),
        r is Ok ==> option_text(r->Ok_0) == toml_str_at(text@, table@, key@),
{
    let doc = text.parse::<toml::Value>()?;
    Ok(doc.get(table).and_then(|t| t.get(key)).and_then(|v| v.as_str()).map(|s| s.to_string()))
}

pub struct Config {
    pub api_key: String,
    pub endpoint: String,
}

#[derive(PartialEq, Eq, Structural, Clone, Copy, Debug)]
pub enum ConfigError {
    MissingApiKey,
    MissingEndpoint,
    Syntax,
    TooNested,
}

impl ConfigError {
    pub fn message(&self) -> (r: String)
        ensures
            *self == ConfigError::MissingApiKey ==> r@ == "Missing API key"@,
            *self == ConfigError::MissingEndpoint ==> r@ == "Missing endpoint"@,
            *self == ConfigError::Syntax ==> r@ == "Malformed configuration"@,
            *self == ConfigError::TooNested ==> r@ == "Configuration nests too deeply"@,
    {
        match self {
            ConfigError::MissingApiKey => String::from_str("Missing API key"),
            ConfigError::MissingEndpoint => String::from_str("Missing endpoint"),
            ConfigError::Syntax => String::from_str("Malformed configuration"),
            ConfigError::TooNested => String::from_str("Configuration nests too deeply"),
        }
    }
}

impl Config {
    /// Builds the settings from the two values found in the `settings` table;
    /// the key is looked for first.
    pub fn from_fields(api_key: Option<String>, endpoint: Option<String>) -> (r: Result<
        Config,
        ConfigError,
    >)
        ensures
            api_key is None ==> r == Err::<Config, ConfigError>(ConfigError::MissingApiKey),
            api_key is Some && endpoint is None ==> r == Err::<Config, ConfigError>(
                ConfigError::MissingEndpoint,
            ),
            api_key is Some && endpoint is Some ==> r is Ok && r->Ok_0.api_key@ == api_key->Some_0@
                && r->Ok_0.endpoint@ == endpoint->Some_0@,
    {
        match api_key {
            None => Err(ConfigError::MissingApiKey),
            Some(k) => match endpoint {
                None => Err(ConfigError::MissingEndpoint),
                Some(e) => Ok(Config { api_key: k, endpoint: e }),
            },
        }
    }

    /// Reads the settings from a TOML document: the strings `api_key` and
    /// `endpoint` of the table `settings`. A text that does not parse gives
    /// `Syntax`; otherwise the two values are checked as `from_fields` checks
    /// them.
    pub fn from_toml(text: &str) -> (r: Result<Config, ConfigError>)
        ensures
            !shallow(text) ==> r == Err::<Config, ConfigError>(ConfigError::TooNested),
            shallow(text) && !toml_parses(text@) ==> r == Err::<Config, ConfigError>(ConfigError::Syntax),
            shallow(text) && toml_parses(text@) && toml_str_at(text@, "settings"@, "api_key"@) is None ==> r
                == Err::<Config, ConfigError>(ConfigError::MissingApiKey),
            shallow(text) && toml_parses(text@) && toml_str_at(text@, "settings"@, "api_key"@) is Some
                && toml_str_at(text@, "settings"@, "endpoint"@) is None ==> r == Err::<
                Config,
                ConfigError,
            >(ConfigError::MissingEndpoint),
            shallow(text) && toml_parses(text@) && toml_str_at(text@, "settings"@, "api_key"@) is Some
                && toml_str_at(text@, "settings"@, "endpoint"@) is Some ==> r is Ok
                && Some(r->Ok_0.api_key@) == toml_str_at(text@, "settings"@, "api_key"@)
                && Some(r->Ok_0.endpoint@) == toml_str_at(text@, "settings"@, "endpoint"@),
    {
        if !is_shallow(text) {
            return Err(ConfigError::TooNested);
        }
        let api_key = match toml_setting(text, "settings", "api_key") {
            Ok(v) => v,
            Err(_) => {
                return Err(ConfigError::Syntax);
            },
        };
        let endpoint = match toml_setting(text, "settings", "endpoint") {
            Ok(v) => v,
            Err(_) => {
                return Err(ConfigError::Syntax);
            },
        };
        Config::from_fields(api_key, endpoint)
    }
}

} // verus!
