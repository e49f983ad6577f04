use cissp_coach::llm::ChatMessage;
use cissp_coach::settings::{
    check_patch, current_settings, openai_chat_messages, pick_setting, should_store_reply,
    uses_anthropic, Config, ConfigError, PatchPayload, SettingsError,
};

fn s(v: &str) -> Option<String> {
    Some(v.to_string())
}

fn config() -> Config {
    Config::from_vars(s("sk-1"), None, None, None, None, None).unwrap()
}

#[test]
fn config_defaults_and_key_rules() {
    let c = config();
    assert_eq!(c.openai_key.as_deref(), Some("sk-1"));
    assert_eq!(c.anthropic_key, None);
    assert_eq!(c.bind_addr, "127.0.0.1:7878");
    assert_eq!(c.data_dir, "./data");
    assert_eq!(c.default_provider, "openai");
    assert_eq!(c.default_model, "gpt-4o");
    assert!(matches!(
        Config::from_vars(s(""), s(""), None, None, None, None),
        Err(ConfigError::NoApiKey)
    ));
    assert!(matches!(Config::from_vars(None, None, None, None, None, None), Err(ConfigError::NoApiKey)));
    let c = Config::from_vars(s(""), s("ak"), s("0.0.0.0:80"), s("/var/lib/c"), s("anthropic"), s("sonnet-model"))
        .unwrap();
    assert_eq!(c.openai_key, None);
    assert_eq!(c.anthropic_key.as_deref(), Some("ak"));
    assert_eq!(c.bind_addr, "0.0.0.0:80");
    assert_eq!(c.default_provider, "anthropic");
    assert_eq!(c.default_model, "sonnet-model");
}

#[test]
fn log_summary_hides_keys() {
    let c = config();
    let sm = c.log_summary();
    assert!(sm.openai);
    assert!(!sm.anthropic);
    assert_eq!(sm.data_dir, "./data");
    assert_eq!(sm.bind_addr, "127.0.0.1:7878");
    assert_eq!(sm.default_provider, "openai");
    assert_eq!(sm.default_model, "gpt-4o");
}

#[test]
fn db_path_joins_the_data_dir() {
    let mut c = config();
    assert_eq!(c.db_path(), "./data/cissp.db");
    c.data_dir = "/srv/".to_string();
    assert_eq!(c.db_path(), "/srv/cissp.db");
    c.data_dir = String::new();
    assert_eq!(c.db_path(), "cissp.db");
}

#[test]
fn settings_fall_back_to_defaults() {
    let c = config();
    let st = current_settings(None, s("gpt-4.1"), &c);
    assert_eq!(st.provider, "openai");
    assert_eq!(st.model, "gpt-4.1");
    assert!(st.has_openai);
    assert!(!st.has_anthropic);
}

#[test]
fn patches_name_a_known_provider() {
    assert!(check_patch(&PatchPayload { provider: s("anthropic"), model: None }).is_ok());
    assert!(check_patch(&PatchPayload { provider: None, model: s("x") }).is_ok());
    assert_eq!(
        check_patch(&PatchPayload { provider: s("gemini"), model: None }),
        Err(SettingsError::UnknownProvider)
    );
}

#[test]
fn chat_choices() {
    let d = "gpt-4o".to_string();
    assert_eq!(pick_setting(s("a"), s("b"), &d), "a");
    assert_eq!(pick_setting(None, s("b"), &d), "b");
    assert_eq!(pick_setting(None, None, &d), "gpt-4o");
    assert!(uses_anthropic("anthropic"));
    assert!(!uses_anthropic("openai"));
    assert!(!uses_anthropic("Anthropic"));
    assert!(should_store_reply("hi"));
    assert!(!should_store_reply(""));
    let msgs = openai_chat_messages(
        "sys",
        vec![ChatMessage { role: "user".to_string(), content: "q".to_string() }],
    );
    assert_eq!(msgs.len(), 2);
    assert_eq!(msgs[0].role, "system");
    assert_eq!(msgs[0].content, "sys");
    assert_eq!(msgs[1].content, "q");
}
