use karmx::model_config::{
    get_goose_cache_ttl, get_goose_toolshim, get_goose_toolshim_model, global_toolshim,
    known_parallel_tool_calls, parse_bool_config, resolved_parallel_tool_calls, ConfigValue,
};

#[test]
fn gemma_is_never_batched_even_though_it_is_bedrock() {
    assert!(!known_parallel_tool_calls("bedrock", "gemma-3-12b"));
}

#[test]
fn bedrock_is_conservative() {
    assert!(!known_parallel_tool_calls("bedrock", "anthropic.mistral-3"));
}

#[test]
fn codex_is_known_to_batch() {
    assert!(known_parallel_tool_calls("chatgpt_codex", "gpt-5.3-codex"));
    assert!(known_parallel_tool_calls("openai", "gpt-5.3-codex"));
}

#[test]
fn unknown_models_do_not_claim_the_capability() {
    assert!(!known_parallel_tool_calls("karmx_custom", "local-model"));
    assert!(!known_parallel_tool_calls("ollama", "qwen2.5-coder"));
    assert!(!known_parallel_tool_calls("openai", "gpt-4o"));
}

#[test]
fn matching_is_case_insensitive() {
    assert!(known_parallel_tool_calls("ChatGPT_Codex", "GPT-5.3-Codex"));
    assert!(!known_parallel_tool_calls("Bedrock", "GEMMA-3"));
}

#[test]
fn an_explicit_setting_wins() {
    assert!(resolved_parallel_tool_calls(Some(true), "ollama", "qwen"));
    assert!(!resolved_parallel_tool_calls(Some(false), "openai", "gpt-5.3-codex"));
    assert!(resolved_parallel_tool_calls(None, "openai", "gpt-5.3-codex"));
}

#[test]
fn env_var_populates_cache_ttl() {
    assert_eq!(get_goose_cache_ttl(Some("1h")), Ok(Some("1h".to_string())));
    assert_eq!(get_goose_cache_ttl(Some(" 5M ")), Ok(Some("5m".to_string())));
}

#[test]
fn absent_env_var_leaves_cache_ttl_unset() {
    assert_eq!(get_goose_cache_ttl(None), Ok(None));
}

#[test]
fn invalid_env_var_is_rejected() {
    assert_eq!(
        get_goose_cache_ttl(Some("2h")),
        Err("GOOSE_CACHE_TTL must be '5m' or '1h', got '2h'".to_string())
    );
}

#[test]
fn boolean_settings_accept_the_usual_words() {
    assert_eq!(parse_bool_config("K", "TRUE"), Ok(true));
    assert_eq!(parse_bool_config("K", "0"), Ok(false));
    assert!(parse_bool_config("K", "maybe").is_err());
    assert_eq!(get_goose_toolshim(None), Ok(None));
    assert_eq!(get_goose_toolshim(Some(ConfigValue::Bool(true))), Ok(Some(true)));
    assert!(get_goose_toolshim(Some(ConfigValue::Text("nope".into()))).is_err());
    assert!(global_toolshim(Some(ConfigValue::Text("yes".into()))));
    assert!(!global_toolshim(Some(ConfigValue::Text("nope".into()))));
    assert!(!global_toolshim(None));
}

#[test]
fn toolshim_model_must_not_be_blank() {
    assert_eq!(get_goose_toolshim_model(None), Ok(None));
    assert_eq!(get_goose_toolshim_model(Some("qwen")), Ok(Some("qwen".to_string())));
    assert!(get_goose_toolshim_model(Some("  ")).is_err());
}
