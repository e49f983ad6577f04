//! Configuration, user settings and the choice of provider and model.
use crate::llm::ChatMessage;
use vstd::prelude::*;
use vstd::string::{StrSliceExecFns, StringExecFns};

verus! {

broadcast use vstd::string::group_string_axioms;

// ─── Configuration ─────────────────────────────────────────────────────────

/// Server configuration, as read from the environment.
#[derive(Debug, Clone)]
pub struct Config {
    pub openai_key: Option<String>,
    pub anthropic_key: Option<String>,
    pub bind_addr: String,
    pub data_dir: String,
    pub default_provider: String,
    pub default_model: String,
}

/// Why no configuration could be made.
#[derive(Debug, Clone, Copy, PartialEq, Eq)]
pub enum ConfigError {
    /// Neither an OpenAI nor an Anthropic key is set.
    NoApiKey,
}

/// What the start-up log line reports of a configuration: whether each key
/// is set, never the key itself.
#[derive(Debug, Clone)]
pub struct ConfigSummary {
    pub openai: bool,
    pub anthropic: bool,
    pub data_dir: String,
    pub bind_addr: String,
    pub default_provider: String,
    pub default_model: String,
}

/// A key counts as set when it is present and not empty.
pub open spec fn key_value(v: Option<String>) -> Option<Seq<char>> {
    match v {
        Some(s) => if s@.len() > 0 {
            Some(s@)
        } else {
            None
        },
        None => None,
    }
}

pub open spec fn opt_str_view(v: Option<String>) -> Option<Seq<char>> {
    match v {
        Some(s) => Some(s@),
        None => None,
    }
}

pub open spec fn or_default(v: Option<String>, d: Seq<char>) -> Seq<char> {
    match v {
        Some(s) => s@,
        None => d,
    }
}

fn non_empty(v: Option<String>) -> (r: Option<String>)
    ensures
        opt_str_view(r) == key_value(v),
{
    match v {
        Some(s) => if s.as_str().unicode_len() > 0 {
            Some(s)
        } else {
            None
        },
        None => None,
    }
}

fn or_default_exec(v: Option<String>, d: &str) -> (r: String)
    ensures
        r@ == or_default(v, d@),
{
    match v {
        Some(s) => s,
        None => String::from_str(d),
    }
}

impl Config {
    /// Build the configuration from the values of `OPENAI_API_KEY`,
    /// `ANTHROPIC_API_KEY`, `BIND_ADDR`, `DATA_DIR`, `DEFAULT_PROVIDER` and
    /// `DEFAULT_MODEL` (`None` where unset). Empty keys count as unset; at
    /// least one key must be set.
    pub fn from_vars(
        openai_key: Option<String>,
        anthropic_key: Option<String>,
        bind_addr: Option<String>,
        data_dir: Option<String>,
        default_provider: Option<String>,
        default_model: Option<String>,
    ) -> (r: Result<Config, ConfigError>)
        ensures
            (key_value(openai_key) is None && key_value(anthropic_key) is None) <==> r is Err,
            r matches Ok(c) ==> {
                &&& opt_str_view(c.openai_key) == key_value(openai_key)
                &&& opt_str_view(c.anthropic_key) == key_value(anthropic_key)
                &&& c.bind_addr@ == or_default(bind_addr, "127.0.0.1:7878"@)
                &&& c.data_dir@ == or_default(data_dir, "./data"@)
                &&& c.default_provider@ == or_default(default_provider, "openai"@)
                &&& c.default_model@ == or_default(default_model, "gpt-4o"@)
            },
    {
        let openai_key = non_empty(openai_key);
        let anthropic_key = non_empty(anthropic_key);
        if openai_key.is_none() && anthropic_key.is_none() {
            return Err(ConfigError::NoApiKey);
        }
        Ok(Config {
            openai_key,
            anthropic_key,
            bind_addr: or_default_exec(bind_addr, "127.0.0.1:7878"),
            data_dir: or_default_exec(data_dir, "./data"),
            default_provider: or_default_exec(default_provider, "openai"),
            default_model: or_default_exec(default_model, "gpt-4o"),
        })
    }

    /// What the start-up log line reports: which keys are set (not their
    /// values), the data directory, the address and the defaults.
    pub fn log_summary(&self) -> (s: ConfigSummary)
        ensures
            s.openai == self.openai_key is Some,
            s.anthropic == self.anthropic_key is Some,
            s.data_dir@ == self.data_dir@,
            s.bind_addr@ == self.bind_addr@,
            s.default_provider@ == self.default_provider@,
            s.default_model@ == self.default_model@,
    {
        ConfigSummary {
            openai: self.openai_key.is_some(),
            anthropic: self.anthropic_key.is_some(),
            data_dir: self.data_dir.clone(),
            bind_addr: self.bind_addr.clone(),
            default_provider: self.default_provider.clone(),
            default_model: self.default_model.clone(),
        }
    }

    /// Path of the database file: `cissp.db` inside the data directory.
    pub fn db_path(&self) -> (p: String)
        ensures
            p@ == joined_path(self.data_dir@, "cissp.db"@),
    {
        let n = self.data_dir.as_str().unicode_len();
        if n == 0 {
            return String::from_str("cissp.db");
        }
        let last = self.data_dir.as_str().get_char(n - 1);
        let mut p = self.data_dir.clone();
        if last != '/' {
            p.append("/");
        }
        p.append("cissp.db");
        p
    }
}

/// A relative file name appended to a directory with one `/` between them.
pub open spec fn joined_path(dir: Seq<char>, name: Seq<char>) -> Seq<char> {
    if dir.len() == 0 {
        name
    } else if dir.last() == '/' {
        dir + name
    } else {
        dir + "/"@ + name
    }
}

// ─── Settings ───────────────────────────────────────────────────────────────

/// The non-secret settings shown to the browser.
#[derive(Debug, Clone)]
pub struct Settings {
    pub provider: String,
    pub model: String,
    pub has_openai: bool,
    pub has_anthropic: bool,
}

/// A change of settings; absent fields stay as they are.
#[derive(Debug, Clone)]
pub struct PatchPayload {
    pub provider: Option<String>,
    pub model: Option<String>,
}

/// Why a settings change is refused.
#[derive(Debug, Clone, Copy, PartialEq, Eq)]
pub enum SettingsError {
    /// The provider is neither `openai` nor `anthropic`.
    UnknownProvider,
}

/// The settings in effect: the stored provider and model, or the
/// configured defaults; and which keys are configured.
pub fn current_settings(stored_provider: Option<String>, stored_model: Option<String>, cfg: &Config) -> (s: Settings)
    ensures
        s.provider@ == or_default(stored_provider, cfg.default_provider@),
        s.model@ == or_default(stored_model, cfg.default_model@),
        s.has_openai == cfg.openai_key is Some,
        s.has_anthropic == cfg.anthropic_key is Some,
{
    let provider = match stored_provider {
        Some(p) => p,
        None => cfg.default_provider.clone(),
    };
    let model = match stored_model {
        Some(m) => m,
        None => cfg.default_model.clone(),
    };
    Settings {
        provider,
        model,
        has_openai: cfg.openai_key.is_some(),
        has_anthropic: cfg.anthropic_key.is_some(),
    }
}

/// Whether `p` names a supported provider.
pub open spec fn known_provider(p: Seq<char>) -> bool {
    p == "openai"@ || p == "anthropic"@
}

/// A settings change is accepted unless it names an unknown provider.
pub fn check_patch(patch: &PatchPayload) -> (r: Result<(), SettingsError>)
    ensures
        r is Err <==> (patch.provider matches Some(p) && !known_provider(p@)),
{
    match &patch.provider {
        Some(p) => {
            if *p == String::from_str("openai") || *p == String::from_str("anthropic") {
                Ok(())
            } else {
                Err(SettingsError::UnknownProvider)
            }
        },
        None => Ok(()),
    }
}

// ─── Chat coach ─────────────────────────────────────────────────────────────

/// A chat request from the browser.
#[derive(Debug, Clone)]
pub struct StreamPayload {
    pub message: String,
    pub provider: Option<String>,
    pub model: Option<String>,
}

/// A stored chat turn.
#[derive(Debug, Clone)]
pub struct HistoryMessage {
    pub id: i64,
    pub role: String,
    pub content: String,
    pub created_at: i64,
}

/// The provider or model of a request: its own choice, else the stored
/// setting, else the configured default.
pub fn pick_setting(request: Option<String>, stored: Option<String>, default: &String) -> (r: String)
    ensures
        r@ == or_default(request, or_default(stored, default@)),
{
    match request {
        Some(v) => v,
        None => match stored {
            Some(v) => v,
            None => default.clone(),
        },
    }
}

/// Whether requests go to Anthropic (any other provider name means OpenAI).
pub fn uses_anthropic(provider: &str) -> (b: bool)
    ensures
        b == (provider@ == "anthropic"@),
{
    String::from_str(provider) == String::from_str("anthropic")
}

/// The OpenAI message list of a chat: the system prompt, then the history.
pub fn openai_chat_messages(system: &str, history: Vec<ChatMessage>) -> (msgs: Vec<ChatMessage>)
    ensures
        msgs@.len() == history@.len() + 1,
        msgs@[0].role@ == "system"@,
        msgs@[0].content@ == system@,
        msgs@.skip(1) == history@,
{
    let mut msgs: Vec<ChatMessage> = Vec::new();
    msgs.push(ChatMessage { role: String::from_str("system"), content: String::from_str(system) });
    let ghost h = history@;
    let mut history = history;
    msgs.append(&mut history);
    assert(msgs@.skip(1) =~= h);
    msgs
}

/// Whether an assistant reply is stored: only a non-empty one.
pub fn should_store_reply(content: &str) -> (b: bool)
    ensures
        b == (content@.len() > 0),
{
    content.unicode_len() > 0
}

} // verus!
