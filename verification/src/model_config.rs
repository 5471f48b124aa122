//! Model configuration settings read from the user's configuration.
//!
//! Reading the configuration (environment first, then the config file) is the
//! caller's; these functions decide what a raw setting means.

use vstd::prelude::*;

use crate::text::{
    append_chars, chars_of, contains, contains_chars, lower_ascii_seq, lower_chars, string_of,
    to_lowercase, trim, trim_chars, unicode_lowercase, views,
};

verus! {

/// Models known to batch independent tool calls: never Gemma, nothing on
/// Bedrock, and Codex models; anything else is not claimed.
pub open spec fn known_parallel(provider: Seq<char>, model: Seq<char>) -> bool {
    let p = lower_ascii_seq(provider);
    let m = lower_ascii_seq(model);
    if contains(m, "gemma"@) {
        false
    } else if p == "bedrock"@ {
        false
    } else {
        contains(p, "codex"@) || contains(m, "codex"@)
    }
}

/// Models already treated as supporting batched calls. Matching is on
/// substrings, ASCII case ignored, because ids arrive dated and suffixed.
pub fn known_parallel_tool_calls(provider_name: &str, model_name: &str) -> (r: bool)
    ensures
        r == known_parallel(provider_name@, model_name@),
{
    let p = lower_chars(chars_of(provider_name).as_slice());
    let m = lower_chars(chars_of(model_name).as_slice());
    if contains_chars(m.as_slice(), chars_of("gemma").as_slice()) {
        return false;
    }
    if crate::text::eq_str(p.as_slice(), "bedrock") {
        return false;
    }
    contains_chars(p.as_slice(), chars_of("codex").as_slice()) || contains_chars(
        m.as_slice(),
        chars_of("codex").as_slice(),
    )
}

/// Whether the agent may batch independent tool calls: an explicit setting
/// wins outright; else the model's known capability; else no.
pub fn resolved_parallel_tool_calls(explicit: Option<bool>, provider_name: &str, model_name: &str) -> (r: bool)
    ensures
        r == match explicit {
            Some(b) => b,
            None => known_parallel(provider_name@, model_name@),
        },
{
    match explicit {
        Some(b) => b,
        None => known_parallel_tool_calls(provider_name, model_name),
    }
}

pub open spec fn bool_words_message(key: Seq<char>, value: Seq<char>) -> Seq<char> {
    "Invalid value for '"@ + key + "': '"@ + value
        + "' - must be one of: 1, true, yes, on, 0, false, no, off"@
}

/// A boolean setting written as a word.
pub open spec fn bool_word(lowered: Seq<char>) -> Option<bool> {
    if lowered == "1"@ || lowered == "true"@ || lowered == "yes"@ || lowered == "on"@ {
        Some(true)
    } else if lowered == "0"@ || lowered == "false"@ || lowered == "no"@ || lowered == "off"@ {
        Some(false)
    } else {
        None
    }
}

fn is_one_of(s: &[char], a: &str, b: &str, c: &str, d: &str) -> (r: bool)
    ensures
        r == (s@ == a@ || s@ == b@ || s@ == c@ || s@ == d@),
{
    crate::text::eq_str(s, a) || crate::text::eq_str(s, b) || crate::text::eq_str(s, c)
        || crate::text::eq_str(s, d)
}

fn bool_error(key: &str, value: &str) -> (r: String)
    ensures
        r@ == bool_words_message(key@, value@),
{
    let mut v = chars_of("Invalid value for '");
    append_chars(&mut v, chars_of(key).as_slice());
    append_chars(&mut v, chars_of("': '").as_slice());
    append_chars(&mut v, chars_of(value).as_slice());
    append_chars(
        &mut v,
        chars_of("' - must be one of: 1, true, yes, on, 0, false, no, off").as_slice(),
    );
    string_of(v.as_slice())
}

/// Read a boolean setting `key` written as `value` (case ignored).
pub fn parse_bool_config(key: &str, value: &str) -> (r: Result<bool, String>)
    ensures
        match bool_word(unicode_lowercase(value@)) {
            Some(b) => r == Ok::<bool, String>(b),
            None => r matches Err(m) && m@ == bool_words_message(key@, value@),
        },
{
    let lowered = to_lowercase(value);
    let l = chars_of(lowered.as_str());
    if is_one_of(l.as_slice(), "1", "true", "yes", "on") {
        Ok(true)
    } else if is_one_of(l.as_slice(), "0", "false", "no", "off") {
        Ok(false)
    } else {
        Err(bool_error(key, value))
    }
}

/// A configuration value as the configuration file holds it.
#[derive(Debug, Clone, PartialEq, Eq)]
pub enum ConfigValue {
    Bool(bool),
    /// A number, as written.
    Number(String),
    Text(String),
    /// Anything else, rendered back to text.
    Other(String),
}

/// Read a boolean setting from a configuration value: a boolean as is, a
/// number or text as a word.
pub fn parse_yaml_bool_config(key: &str, value: ConfigValue) -> (r: Result<bool, String>)
    ensures
        match value {
            ConfigValue::Bool(b) => r == Ok::<bool, String>(b),
            ConfigValue::Number(t) | ConfigValue::Text(t) => match bool_word(unicode_lowercase(t@)) {
                Some(b) => r == Ok::<bool, String>(b),
                None => r matches Err(m) && m@ == bool_words_message(key@, t@),
            },
            ConfigValue::Other(t) => r matches Err(m) && m@ == bool_words_message(key@, trim(t@)),
        },
{
    match value {
        ConfigValue::Bool(b) => Ok(b),
        ConfigValue::Number(t) => parse_bool_config(key, t.as_str()),
        ConfigValue::Text(t) => parse_bool_config(key, t.as_str()),
        ConfigValue::Other(t) => {
            let trimmed = trim_chars(chars_of(t.as_str()).as_slice());
            let ts = string_of(trimmed.as_slice());
            Err(bool_error(key, ts.as_str()))
        },
    }
}

/// The toolshim setting (`GOOSE_TOOLSHIM`), when set.
pub fn get_goose_toolshim(raw: Option<ConfigValue>) -> (r: Result<Option<bool>, String>)
    ensures
        match raw {
            None => r == Ok::<Option<bool>, String>(None),
            Some(v) => match v {
                ConfigValue::Bool(b) => r == Ok::<Option<bool>, String>(Some(b)),
                ConfigValue::Number(t) | ConfigValue::Text(t) => match bool_word(unicode_lowercase(t@)) {
                    Some(b) => r == Ok::<Option<bool>, String>(Some(b)),
                    None => r is Err,
                },
                ConfigValue::Other(_) => r is Err,
            },
        },
{
    match raw {
        None => Ok(None),
        Some(v) => match parse_yaml_bool_config("GOOSE_TOOLSHIM", v) {
            Ok(b) => Ok(Some(b)),
            Err(e) => Err(e),
        },
    }
}

/// The global toolshim setting, false when unset or unreadable.
pub fn global_toolshim(raw: Option<ConfigValue>) -> (r: bool)
    ensures
        r == match raw {
            Some(ConfigValue::Bool(b)) => b,
            Some(ConfigValue::Number(t)) => bool_word(unicode_lowercase(t@)) == Some(true),
            Some(ConfigValue::Text(t)) => bool_word(unicode_lowercase(t@)) == Some(true),
            _ => false,
        },
{
    match get_goose_toolshim(raw) {
        Ok(Some(b)) => b,
        _ => false,
    }
}

/// The prompt-cache TTL setting (`GOOSE_CACHE_TTL`): `5m` or `1h`, case and
/// surrounding whitespace ignored.
pub fn get_goose_cache_ttl(raw: Option<&str>) -> (r: Result<Option<String>, String>)
    ensures
        match raw {
            None => r matches Ok(None),
            Some(v) => {
                let t = unicode_lowercase(trim(v@));
                if t == "5m"@ || t == "1h"@ {
                    r matches Ok(Some(s)) && s@ == t
                } else {
                    r matches Err(m) && m@ == "GOOSE_CACHE_TTL must be '5m' or '1h', got '"@ + t + "'"@
                }
            },
        },
{
    match raw {
        None => Ok(None),
        Some(v) => {
            let trimmed = trim_chars(chars_of(v).as_slice());
            let ts = string_of(trimmed.as_slice());
            let lowered = to_lowercase(ts.as_str());
            let l = chars_of(lowered.as_str());
            if crate::text::eq_str(l.as_slice(), "5m") || crate::text::eq_str(l.as_slice(), "1h") {
                Ok(Some(lowered))
            } else {
                let mut m = chars_of("GOOSE_CACHE_TTL must be '5m' or '1h', got '");
                append_chars(&mut m, l.as_slice());
                append_chars(&mut m, chars_of("'").as_slice());
                Err(string_of(m.as_slice()))
            }
        },
    }
}

/// The toolshim model setting (`GOOSE_TOOLSHIM_OLLAMA_MODEL`): any text
/// that is not blank.
pub fn get_goose_toolshim_model(raw: Option<&str>) -> (r: Result<Option<String>, String>)
    ensures
        match raw {
            None => r matches Ok(None),
            Some(v) => if trim(v@).len() == 0 {
                r matches Err(m) && m@ == "Invalid value for 'GOOSE_TOOLSHIM_OLLAMA_MODEL': '"@ + v@
                    + "' - cannot be empty if set"@
            } else {
                r matches Ok(Some(s)) && s@ == v@
            },
        },
{
    match raw {
        None => Ok(None),
        Some(v) => {
            let trimmed = trim_chars(chars_of(v).as_slice());
            if trimmed.len() == 0 {
                let mut m = chars_of("Invalid value for 'GOOSE_TOOLSHIM_OLLAMA_MODEL': '");
                append_chars(&mut m, chars_of(v).as_slice());
                append_chars(&mut m, chars_of("' - cannot be empty if set").as_slice());
                Err(string_of(m.as_slice()))
            } else {
                Ok(Some(v.to_owned()))
            }
        },
    }
}

} // verus!
