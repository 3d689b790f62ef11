//! Configuration-facing types and the pure helpers of configuration
//! resolution: well-known paths under the settings directory, schema-type
//! names, and the built-in base URL of each known provider. Reading files and
//! the environment stays outside the library; these functions take the home
//! directory and hand back paths as plain strings.

use vstd::prelude::*;
use crate::strutil::eq_str;

verus! {

/// Which of the two supported wire protocols a provider speaks.
#[derive(Clone, Copy, Debug, PartialEq, Eq, Structural)]
pub enum SchemaType {
    OpenAI,
    Anthropic,
}

/// The command policy a user configured: a fallback action, extra deny
/// patterns, and extra auto-approved commands.
#[derive(Debug)]
pub struct PolicyConfig {
    pub default_action: String,
    pub deny_patterns: Vec<String>,
    pub auto_commands: Vec<String>,
}

/// The resolved provider settings the orchestrator runs with. The sampling
/// temperature is carried in thousandths, so that the whole configuration is
/// exact.
#[derive(Debug)]
pub struct LlmSettings {
    pub provider: String,
    pub schema_type: SchemaType,
    pub model: String,
    pub temperature_milli: i64,
    pub max_tokens: i32,
    pub api_key: Option<String>,
    pub base_url: String,
}

/// The settings directory under the user's home directory.
pub fn minimal_dir(home: &str) -> (r: String)
    ensures
        r@ == home@ + "/.minimal"@,
{
    let mut s = String::new();
    s.append(home);
    s.append("/.minimal");
    proof {
        assert(s@ =~= home@ + "/.minimal"@);
    }
    s
}

/// The configuration file inside the settings directory.
pub fn config_path(dir: &str) -> (r: String)
    ensures
        r@ == dir@ + "/config.json"@,
{
    let mut s = String::new();
    s.append(dir);
    s.append("/config.json");
    proof {
        assert(s@ =~= dir@ + "/config.json"@);
    }
    s
}

/// The system prompt file inside the settings directory.
pub fn system_md_path(dir: &str) -> (r: String)
    ensures
        r@ == dir@ + "/system.md"@,
{
    let mut s = String::new();
    s.append(dir);
    s.append("/system.md");
    proof {
        assert(s@ =~= dir@ + "/system.md"@);
    }
    s
}

/// The skill directory inside the settings directory.
pub fn skills_dir(dir: &str) -> (r: String)
    ensures
        r@ == dir@ + "/skills"@,
{
    let mut s = String::new();
    s.append(dir);
    s.append("/skills");
    proof {
        assert(s@ =~= dir@ + "/skills"@);
    }
    s
}

/// Accepts the session only when the settings directory is already there;
/// the caller reports how to create it.
pub fn ensure_minimal_dir(dir_exists: bool) -> (r: Result<(), String>)
    ensures
        r is Ok <==> dir_exists,
        r matches Err(e) ==> e@ == "~/.minimal directory not found."@,
{
    if dir_exists {
        Ok(())
    } else {
        Err("~/.minimal directory not found.".to_owned())
    }
}

/// The schema type a configuration string names, if any.
pub fn normalize_schema_type(value: &str) -> (r: Option<SchemaType>)
    ensures
        r == (if value@ == "openai"@ {
            Some(SchemaType::OpenAI)
        } else if value@ == "anthropic"@ {
            Some(SchemaType::Anthropic)
        } else {
            None::<SchemaType>
        }),
{
    if eq_str(value, "openai") {
        Some(SchemaType::OpenAI)
    } else if eq_str(value, "anthropic") {
        Some(SchemaType::Anthropic)
    } else {
        None
    }
}

/// The built-in base URL for a known provider name under a given schema
/// type.
pub open spec fn spec_default_base_url(provider: Seq<char>, schema_type: SchemaType) -> Option<
    Seq<char>,
> {
    match schema_type {
        SchemaType::OpenAI => if provider == "openai"@ {
            Some("https://api.openai.com/v1"@)
        } else if provider == "groq"@ {
            Some("https://api.groq.com/openai/v1"@)
        } else if provider == "deepseek"@ {
            Some("https://api.deepseek.com"@)
        } else {
            None
        },
        SchemaType::Anthropic => if provider == "anthropic"@ {
            Some("https://api.anthropic.com"@)
        } else if provider == "minimax"@ {
            Some("https://api.minimax.io/anthropic"@)
        } else {
            None
        },
    }
}

/// The built-in base URL for a known provider name.
pub fn default_base_url(provider: &str, schema_type: &SchemaType) -> (r: Option<String>)
    ensures
        view_opt_string(r) == spec_default_base_url(provider@, *schema_type),
{
    match schema_type {
        SchemaType::OpenAI => {
            if eq_str(provider, "openai") {
                Some("https://api.openai.com/v1".to_owned())
            } else if eq_str(provider, "groq") {
                Some("https://api.groq.com/openai/v1".to_owned())
            } else if eq_str(provider, "deepseek") {
                Some("https://api.deepseek.com".to_owned())
            } else {
                None
            }
        },
        SchemaType::Anthropic => {
            if eq_str(provider, "anthropic") {
                Some("https://api.anthropic.com".to_owned())
            } else if eq_str(provider, "minimax") {
                Some("https://api.minimax.io/anthropic".to_owned())
            } else {
                None
            }
        },
    }
}

/// The view of an optional string result.
pub open spec fn view_opt_string(o: Option<String>) -> Option<Seq<char>> {
    match o {
        Some(s) => Some(s@),
        None => None,
    }
}

} // verus!
