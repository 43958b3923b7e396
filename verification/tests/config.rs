use quickcommand::config::{
    config_path_from_env, default_model_from_list, env_config_from_values,
    installed_models_from_list, parse_ollama_list, pick_default_model, resolve_config,
    CliOverrides, EnvConfig, FileConfig, Mode, Provider,
};
use quickcommand::error::QuickcommandError;

#[test]
fn cli_env_file_precedence_is_correct() {
    let file = FileConfig {
        provider: Some(Provider::Ollama),
        mode: Some(Mode::Copy),
        ollama_host: Some("http://file-host".into()),
        ollama_model: Some("file-model".into()),
    };
    let env = EnvConfig {
        provider: Some(Provider::Ollama),
        mode: Some(Mode::Execute),
        ollama_host: Some("http://env-host".into()),
        ollama_model: Some("env-model".into()),
    };
    let cli = CliOverrides {
        mode: Some(Mode::Copy),
    };

    let resolved = resolve_config(Some(&file), &env, &cli, "default-model");

    assert_eq!(resolved.mode, Mode::Copy);
    assert_eq!(resolved.ollama_host, "http://env-host");
    assert_eq!(resolved.ollama_model, "env-model");
}

#[test]
fn resolve_config_falls_back_to_file_then_defaults() {
    let file = FileConfig {
        provider: None,
        mode: Some(Mode::Execute),
        ollama_host: Some("http://file-host".into()),
        ollama_model: None,
    };
    let env = EnvConfig::default();
    let resolved = resolve_config(Some(&file), &env, &CliOverrides::default(), "default-model");
    assert_eq!(resolved.provider, Provider::Ollama);
    assert_eq!(resolved.mode, Mode::Execute);
    assert_eq!(resolved.ollama_host, "http://file-host");
    assert_eq!(resolved.ollama_model, "default-model");

    let bare = resolve_config(None, &env, &CliOverrides::default(), "m");
    assert_eq!(bare.mode, Mode::Copy);
    assert_eq!(bare.ollama_host, "http://localhost:11434");
    assert_eq!(bare.ollama_model, "m");
}

#[test]
fn preferred_model_is_selected_first() {
    let models = vec![
        "llama3.2:3b".to_string(),
        "qwen3.5:9b".to_string(),
        "starcoder2:3b".to_string(),
    ];

    let selected = pick_default_model(&models);

    assert_eq!(selected.as_deref(), Some("qwen3.5:9b"));
}

#[test]
fn first_model_is_fallback_when_preferred_missing() {
    let models = vec!["llama3.2:3b".to_string(), "starcoder2:3b".to_string()];
    let selected = pick_default_model(&models);
    assert_eq!(selected.as_deref(), Some("llama3.2:3b"));
}

#[test]
fn no_model_is_picked_from_empty_list() {
    let models: Vec<String> = Vec::new();
    assert_eq!(pick_default_model(&models), None);
}

#[test]
fn parse_ollama_list_reads_first_column() {
    let output = "\
NAME             ID              SIZE      MODIFIED
llama3.2:3b      abc             2.0 GB    6 hours ago
qwen3.5:9b       def             6.6 GB    11 days ago
";

    let parsed = parse_ollama_list(output);

    assert_eq!(parsed, vec!["llama3.2:3b", "qwen3.5:9b"]);
}

#[test]
fn parse_ollama_list_skips_blank_lines_and_headers() {
    let output = "\n   \n  NAME ID\r\n\tmistral:7b x\r\n   \nNAMEless y\nphi3 z";
    assert_eq!(parse_ollama_list(output), vec!["mistral:7b", "phi3"]);
    assert!(parse_ollama_list("").is_empty());
}

#[test]
fn default_model_comes_from_list_or_preference() {
    assert_eq!(default_model_from_list(None), "qwen3.5:9b");
    assert_eq!(default_model_from_list(Some("NAME ID\n")), "qwen3.5:9b");
    assert_eq!(
        default_model_from_list(Some("NAME ID\nllama3.2:3b a\n")),
        "llama3.2:3b"
    );
    assert_eq!(installed_models_from_list(None), vec!["qwen3.5:9b"]);
    assert_eq!(
        installed_models_from_list(Some("NAME ID\nllama3.2:3b a\n")),
        vec!["llama3.2:3b"]
    );
}

#[test]
fn config_path_defaults_to_dot_config() {
    let path = config_path_from_env(None, Some("/Users/test")).expect("path should resolve");
    assert_eq!(path, "/Users/test/.config/quickcommand/config.toml");
}

#[test]
fn config_path_prefers_xdg_and_needs_a_base() {
    let path = config_path_from_env(Some("/xdg/"), Some("/Users/test")).unwrap();
    assert_eq!(path, "/xdg/quickcommand/config.toml");
    let error = config_path_from_env(None, None).unwrap_err();
    assert_eq!(
        error,
        QuickcommandError::Io("Could not determine the config directory.".into())
    );
}

#[test]
fn mode_and_provider_names_round_trip() {
    assert_eq!(Mode::parse(Mode::Copy.as_str()), Some(Mode::Copy));
    assert_eq!(Mode::parse(Mode::Execute.as_str()), Some(Mode::Execute));
    assert_eq!(Mode::parse("Execute"), None);
    assert_eq!(Provider::parse("ollama"), Ok(Provider::Ollama));
    assert_eq!(
        Provider::parse("openai"),
        Err(QuickcommandError::UnsupportedProvider("openai".into()))
    );
}

#[test]
fn env_config_reads_values() {
    let cfg = env_config_from_values(None, Some("bogus"), None, Some("http://h"), Some("m"))
        .unwrap();
    assert_eq!(cfg.provider, None);
    assert_eq!(cfg.mode, None);
    assert_eq!(cfg.ollama_host.as_deref(), Some("http://h"));
    assert_eq!(cfg.ollama_model.as_deref(), Some("m"));
    let cfg = env_config_from_values(Some("ollama"), Some("execute"), Some("http://qc"), Some("http://h"), None)
        .unwrap();
    assert_eq!(cfg.provider, Some(Provider::Ollama));
    assert_eq!(cfg.mode, Some(Mode::Execute));
    assert_eq!(cfg.ollama_host.as_deref(), Some("http://qc"));
    let error = env_config_from_values(Some("x"), None, None, None, None).unwrap_err();
    assert_eq!(error, QuickcommandError::UnsupportedProvider("x".into()));
}
