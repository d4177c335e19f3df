use codex_resume_tracker::config::{
    deduplicate_sources, Config, ConfigError, OnClose, SourceKind, SummaryInput, SummaryProvider,
};
use codex_resume_tracker::text::NumberFault;

#[test]
fn defaults_match_product_choices() {
    let config = Config::default();
    assert_eq!(config.summary_provider, SummaryProvider::Codex);
    assert_eq!(config.summary_input, SummaryInput::SixtyFourK);
    assert_eq!(config.on_close, OnClose::Automatic);
    assert_eq!(config.sources, vec![SourceKind::Cli, SourceKind::Vscode]);
    assert!(!config.sources.contains(&SourceKind::Exec));
}

#[test]
fn terminal_template_requires_both_placeholders() {
    let config = Config {
        terminal_argv: vec!["terminal".into(), "{thread_id}".into()],
        ..Config::default()
    };
    assert!(config.validate().is_err());
}

#[test]
fn every_fault_of_a_configuration_is_told() {
    let fault = |config: Config| config.validate().unwrap_err().message();
    assert!(Config::default().validate().is_ok());
    assert_eq!(
        fault(Config { version: 2, ..Config::default() }),
        "unsupported config version 2; expected 1"
    );
    assert_eq!(
        fault(Config { sources: vec![], ..Config::default() }),
        "at least one source must be visible"
    );
    assert_eq!(
        fault(Config { terminal_argv: vec![], ..Config::default() }),
        "terminal_argv must contain an executable"
    );
    assert_eq!(
        fault(Config { terminal_argv: vec![" \t".into()], ..Config::default() }),
        "terminal_argv must contain an executable"
    );
    assert_eq!(
        fault(Config { terminal_argv: vec!["x".into(), "{cwd}".into()], ..Config::default() }),
        "terminal_argv must contain {thread_id}"
    );
    assert_eq!(
        fault(Config { terminal_argv: vec!["x".into(), "{thread_id}".into()], ..Config::default() }),
        "terminal_argv must contain {cwd}"
    );
    assert_eq!(
        fault(Config { openai_model: "  ".into(), ..Config::default() }),
        "openai_model cannot be empty"
    );
    assert_eq!(
        fault(Config { summary_input: SummaryInput::Custom(0), ..Config::default() }),
        "summary character limit must be positive"
    );
}

#[test]
fn names_are_read_in_every_letter_case() {
    assert_eq!(SummaryProvider::from_str("LOCAL"), Ok(SummaryProvider::Local));
    assert_eq!(SummaryProvider::from_str("ephemeral-codex"), Ok(SummaryProvider::Codex));
    assert_eq!(SummaryProvider::from_str("Api"), Ok(SummaryProvider::Openai));
    assert_eq!(
        SummaryProvider::from_str("gemini \"x\"").unwrap_err().message(),
        "unknown summary provider \"gemini \\\"x\\\"\"; use local, codex, or openai"
    );
    assert_eq!(OnClose::from_str("local-first"), Ok(OnClose::LocalFirst));
    assert_eq!(
        OnClose::from_str("never").unwrap_err().message(),
        "unknown on-close behavior \"never\""
    );
    assert_eq!(SourceKind::from_str("Exec"), Ok(SourceKind::Exec));
    assert_eq!(
        SourceKind::from_str("web").unwrap_err().message(),
        "unknown source \"web\"; use cli, vscode, or exec"
    );
}

#[test]
fn input_limits_are_read_and_written() {
    assert_eq!(SummaryInput::from_str(" 16K "), Ok(SummaryInput::SixteenK));
    assert_eq!(SummaryInput::from_str("65536"), Ok(SummaryInput::SixtyFourK));
    assert_eq!(SummaryInput::from_str("all"), Ok(SummaryInput::Entire));
    assert_eq!(SummaryInput::from_str("32768"), Ok(SummaryInput::Custom(32768)));
    assert_eq!(SummaryInput::from_str("custom:12345"), Ok(SummaryInput::Custom(12345)));
    assert_eq!(SummaryInput::Custom(12345).to_string(), "custom:12345");
    assert_eq!(SummaryInput::SixteenK.character_limit(), Some(16384));
    assert_eq!(SummaryInput::SixtyFourK.character_limit(), Some(65536));
    assert_eq!(SummaryInput::Entire.character_limit(), None);
    assert_eq!(SummaryInput::from_str("0"), Err(ConfigError::ZeroLimit));
    assert_eq!(
        SummaryInput::from_str("12x"),
        Err(ConfigError::InvalidLimit { value: "12x".into(), fault: NumberFault::InvalidDigit })
    );
    assert_eq!(
        SummaryInput::from_str("").unwrap_err().message(),
        "invalid summary character limit \"\": cannot parse integer from empty string"
    );
    assert_eq!(
        SummaryInput::from_str("99999999999999999999999").unwrap_err().message(),
        "invalid summary character limit \"99999999999999999999999\": number too large to fit in target type"
    );
}

#[test]
fn sources_are_kept_once_in_their_order() {
    assert_eq!(
        deduplicate_sources(vec![
            SourceKind::Exec,
            SourceKind::Cli,
            SourceKind::Exec,
            SourceKind::Cli,
            SourceKind::Vscode
        ]),
        vec![SourceKind::Exec, SourceKind::Cli, SourceKind::Vscode]
    );
    assert_eq!(Config::default().source_names(), vec!["cli", "vscode"]);
}
