use quickcommand::app::OutputMode;
use quickcommand::config::{Mode, Provider, ResolvedConfig};
use quickcommand::console::{
    choice_option_lines, config_show_lines, init_file_config, init_model_choice, init_report,
    input_prompt, interpret_choice, interpret_input, interpret_yes_no, is_manual_entry,
    parse_usize_exec, recommended_option, uses_stderr, yes_no_prompt, choice_reading,
    input_reading, next_progress_frame, progress_line, yes_no_reading, Reading,
};

#[test]
fn yes_no_answers() {
    assert_eq!(yes_no_prompt("Run it?", false), "Run it? [y/N]: ");
    assert_eq!(yes_no_prompt("Run it?", true), "Run it? [Y/n]: ");
    assert_eq!(interpret_yes_no("  \n", true), Some(true));
    assert_eq!(interpret_yes_no("", false), Some(false));
    assert_eq!(interpret_yes_no(" YES\n", false), Some(true));
    assert_eq!(interpret_yes_no("n", true), Some(false));
    assert_eq!(interpret_yes_no("No", true), Some(false));
    assert_eq!(interpret_yes_no("maybe", true), None);
}

#[test]
fn input_answers() {
    assert_eq!(input_prompt("Ollama host URL", Some("http://x")), "Ollama host URL [http://x]: ");
    assert_eq!(input_prompt("Name", None), "Name: ");
    assert_eq!(interpret_input("  abc \n", None).as_deref(), Some("abc"));
    assert_eq!(interpret_input("\n", Some("d")).as_deref(), Some("d"));
    assert_eq!(interpret_input("\n", None), None);
}

#[test]
fn choices_by_number_or_text() {
    let options = vec!["3000".to_string(), "8080".to_string()];
    assert_eq!(choice_option_lines(&options), vec!["  1. 3000", "  2. 8080"]);
    assert_eq!(interpret_choice("2", &options).as_deref(), Some("8080"));
    assert_eq!(interpret_choice("+1", &options).as_deref(), Some("3000"));
    assert_eq!(interpret_choice("0", &options).as_deref(), Some("3000"));
    assert_eq!(interpret_choice("3", &options).as_deref(), Some("3"));
    assert_eq!(interpret_choice("9000", &options).as_deref(), Some("9000"));
    assert_eq!(interpret_choice("  ", &options), None);
    assert_eq!(recommended_option(&options, Some(1)).as_deref(), Some("8080"));
    assert_eq!(recommended_option(&options, Some(2)), None);
    let many: Vec<String> = (0..12).map(|i| i.to_string()).collect();
    assert_eq!(choice_option_lines(&many)[11], "  12. 11");
}

#[test]
fn numbers_parse_like_std() {
    for text in ["0", "7", "+42", "0018446744073709551615", "18446744073709551616", "", "+", "-1", "1a", " 1"] {
        assert_eq!(parse_usize_exec(text), text.parse::<usize>().ok(), "{text:?}");
    }
}

#[test]
fn stderr_carries_warnings_and_emit_mode_output() {
    assert!(uses_stderr(OutputMode::Human, true));
    assert!(!uses_stderr(OutputMode::Human, false));
    assert!(uses_stderr(OutputMode::EmitCommand, false));
}

#[test]
fn init_texts() {
    let installed = vec!["llama3.2:3b".to_string(), "qwen3.5:9b".to_string()];
    let (options, recommended) = init_model_choice(&installed, "qwen3.5:9b").unwrap();
    assert_eq!(options, vec!["llama3.2:3b", "qwen3.5:9b", "Enter manually"]);
    assert_eq!(recommended, Some(1));
    let (_, recommended) = init_model_choice(&installed, "other").unwrap();
    assert_eq!(recommended, Some(0));
    assert_eq!(init_model_choice(&[], "x"), None);
    assert!(is_manual_entry("Enter manually"));
    assert!(!is_manual_entry("qwen3.5:9b"));
    let config = init_file_config("http://h".into(), "m".into());
    assert_eq!(config.provider, Some(Provider::Ollama));
    assert_eq!(config.mode, Some(Mode::Copy));
    assert_eq!(config.ollama_host.as_deref(), Some("http://h"));
    assert_eq!(config.ollama_model.as_deref(), Some("m"));
    assert_eq!(
        init_report("/c/config.toml", "/h/.zshrc", false),
        vec![
            "Saved configuration to /c/config.toml.",
            "zsh integration is already up to date in /h/.zshrc.",
            "Restart zsh or run `source ~/.zshrc` to enable prompt insertion.",
        ]
    );
    assert_eq!(
        init_report("/c", "/h/.zshrc", true)[1],
        "Installed zsh integration into /h/.zshrc."
    );
}

#[test]
fn config_show_text() {
    let resolved = ResolvedConfig {
        provider: Provider::Ollama,
        mode: Mode::Execute,
        ollama_host: "http://localhost:11434".into(),
        ollama_model: "qwen3.5:9b".into(),
    };
    assert_eq!(
        config_show_lines("/p", &resolved),
        vec![
            "quickcommand configuration",
            "  path         = /p",
            "  provider     = ollama",
            "  mode         = execute",
            "  ollama_host  = http://localhost:11434",
            "  ollama_model = qwen3.5:9b",
        ]
    );
}

#[test]
fn readings_take_answers_or_ask_again() {
    assert_eq!(yes_no_reading(" Y ", false), Reading::Answer(true));
    assert_eq!(yes_no_reading("", true), Reading::Answer(true));
    assert_eq!(
        yes_no_reading("maybe", false),
        Reading::Retry("Please answer with y/yes or n/no.".to_string())
    );
    assert_eq!(input_reading("  ", Some("x")), Reading::Answer("x".to_string()));
    assert_eq!(
        input_reading("  ", None),
        Reading::Retry("Please enter a value.".to_string())
    );
    let options = vec!["a".to_string(), "b".to_string()];
    assert_eq!(choice_reading("2", &options), Reading::Answer("b".to_string()));
    assert_eq!(choice_reading("c", &options), Reading::Answer("c".to_string()));
    assert_eq!(
        choice_reading("   ", &options),
        Reading::Retry("Please enter a valid number or value.".to_string())
    );
}

#[test]
fn progress_frames_cycle() {
    assert_eq!(progress_line(0, "Generating response..."), "\r\x1b[2K| Generating response...");
    assert_eq!(progress_line(3, "m"), "\r\x1b[2K\\ m");
    assert_eq!(progress_line(6, "m"), "\r\x1b[2K- m");
    assert_eq!(next_progress_frame(0), 1);
    assert_eq!(next_progress_frame(3), 0);
}
