use codex_resume_tracker::config::{Config, OnClose, SourceKind, SummaryInput, SummaryProvider};
use codex_resume_tracker::json::Json;
use codex_resume_tracker::setup::{
    ended_message, hook_command, hook_is_installed, hook_snippet, hooks_path, interactive_wizard,
    merge_hook_text, merge_hook_value, render_hook_snippet, shell_quote, Answer, HookChoice,
};

fn lines(input: &str) -> Vec<String> {
    input.lines().map(str::to_owned).collect()
}

fn answered(input: &str) -> (Config, HookChoice) {
    match interactive_wizard(&lines(input)).outcome {
        Answer::Given(answers) => answers,
        other => panic!("{other:?}"),
    }
}

#[test]
fn wizard_accepts_documented_defaults() {
    let (config, hook) = answered("\n\n\n\n\n");
    assert_eq!(config, Config::default());
    assert_eq!(hook, HookChoice::Automatic);
}

#[test]
fn wizard_supports_custom_choices() {
    let (config, hook) = answered("1\n4\n12345\n2\n4\n2\n");
    assert_eq!(config.summary_provider, SummaryProvider::Local);
    assert_eq!(config.summary_input, SummaryInput::Custom(12_345));
    assert_eq!(config.on_close, OnClose::LocalFirst);
    assert!(config.sources.contains(&SourceKind::Exec));
    assert_eq!(hook, HookChoice::Manual);
}

#[test]
fn the_setup_asks_until_it_is_answered() {
    let run = interactive_wizard(&[]);
    assert!(matches!(run.outcome, Answer::Waiting));
    assert_eq!(
        run.output,
        "Codex Resume Tracker setup\nPress Enter to accept the highlighted default.\n\nSummary provider:\n  1) Local extractive (no external usage)\n  2) Ephemeral Codex [default]\n  3) OpenAI Responses API\nChoice [2]: "
    );
    let more = interactive_wizard(&lines("7\nx\n3"));
    assert!(more.output.starts_with(&run.output));
    assert!(more.output[run.output.len()..].starts_with(
        "Enter a number from 1 to 3.\nChoice [2]: Enter a number from 1 to 3.\nChoice [2]: \nSummary input:\n"
    ));
    assert!(matches!(more.outcome, Answer::Waiting));
    assert_eq!(ended_message(), "setup input ended before all choices were answered");
}

#[test]
fn the_openai_model_is_asked_for() {
    let (config, _) = answered("3\n\n\n\n\n gpt-5 \n");
    assert_eq!(config.openai_model, "gpt-5");
    let (config, _) = answered("3\n\n\n\n\n\n");
    assert_eq!(config.openai_model, "gpt-5-mini");
    assert!(matches!(interactive_wizard(&lines("3\n\n\n\n\n")).outcome, Answer::Waiting));
}

#[test]
fn limits_that_are_no_limits_end_the_setup() {
    let failed = |input: &str| match interactive_wizard(&lines(input)).outcome {
        Answer::Failed(error) => error,
        other => panic!("{other:?}"),
    };
    assert_eq!(
        failed("1\n4\nmany\n"),
        "custom limit must be a positive integer: invalid digit found in string"
    );
    assert_eq!(
        failed("1\n4\n\n"),
        "custom limit must be a positive integer: cannot parse integer from empty string"
    );
    assert_eq!(failed("1\n4\n0\n\n\n\n"), "summary character limit must be positive");
}

#[test]
fn the_remaining_choices_are_told_apart() {
    let (config, hook) = answered("2\n1\n3\n2\n3\n");
    assert_eq!(config.summary_input, SummaryInput::SixteenK);
    assert_eq!(config.on_close, OnClose::Manual);
    assert_eq!(config.sources, vec![SourceKind::Cli]);
    assert_eq!(hook, HookChoice::Skip);
    let (config, _) = answered("2\n3\n1\n3\n1\n");
    assert_eq!(config.summary_input, SummaryInput::Entire);
    assert_eq!(config.sources, vec![SourceKind::Vscode]);
}

#[test]
fn hook_choices_are_read_and_named() {
    assert_eq!(HookChoice::from_str("Merge"), Ok(HookChoice::Automatic));
    assert_eq!(HookChoice::from_str("snippet"), Ok(HookChoice::Manual));
    assert_eq!(HookChoice::from_str("none"), Ok(HookChoice::Skip));
    assert_eq!(
        HookChoice::from_str("maybe").unwrap_err(),
        "unknown hook choice \"maybe\"; use automatic, manual, or skip"
    );
    assert_eq!(HookChoice::default().to_string(), "automatic");
}

#[test]
fn commands_are_quoted_for_a_shell() {
    assert_eq!(shell_quote("/opt/my bin"), "'/opt/my bin'");
    assert_eq!(shell_quote("it's"), "'it'\"'\"'s'");
    assert_eq!(hook_command("/bin/t"), "'/bin/t' hook");
    assert_eq!(
        hooks_path(None, Some("/home/me")).unwrap(),
        "/home/me/.codex/hooks.json"
    );
    assert_eq!(hooks_path(Some("/c/"), None).unwrap(), "/c/hooks.json");
    assert_eq!(
        hooks_path(None, None).unwrap_err(),
        "HOME is not set; cannot resolve CODEX_HOME"
    );
}

#[test]
fn the_snippet_is_the_whole_hook() {
    assert_eq!(
        hook_snippet("/bin/t").compact(),
        "{\"hooks\":{\"SessionEnd\":[{\"hooks\":[{\"command\":\"'/bin/t' hook\",\"statusMessage\":\"Saving Codex resume command\",\"timeout\":3,\"type\":\"command\"}],\"matcher\":\"^other$\"}]}}"
    );
    assert!(render_hook_snippet("/bin/t").starts_with("{\n  \"hooks\": {\n"));
}

const EXISTING: &str = r#"{
    "description": "keep me",
    "custom": {"untouched": true, "ratio": 2},
    "hooks": {
        "SessionStart": [{"hooks":[{"type":"command","command":"notes start"}]}],
        "SessionEnd": [{"matcher":"other","hooks":[{"type":"command","command":"notes end"}]}]
    }
}"#;

#[test]
fn hook_merge_preserves_existing_definitions_and_is_idempotent() {
    let executable = "/opt/bin/codex-resume-tracker";
    let path = "/tmp/hooks.json";
    let after_first = merge_hook_text(Some(EXISTING), path, executable).unwrap().unwrap();
    assert!(after_first.ends_with("}\n"));
    assert_eq!(merge_hook_text(Some(&after_first), path, executable).unwrap(), None);
    let root: serde_json::Value = serde_json::from_str(&after_first).unwrap();
    assert_eq!(root["description"], "keep me");
    assert_eq!(root["custom"]["untouched"], true);
    assert_eq!(root["custom"]["ratio"], 2);
    assert_eq!(root["hooks"]["SessionStart"].as_array().unwrap().len(), 1);
    assert_eq!(root["hooks"]["SessionEnd"].as_array().unwrap().len(), 2);
    assert_eq!(root["hooks"]["SessionEnd"][0]["matcher"], "other");
    assert!(hook_is_installed(Some(&after_first), path, executable).unwrap());
    assert!(!hook_is_installed(Some(EXISTING), path, executable).unwrap());
}

#[test]
fn invalid_existing_hook_shape_returns_error_without_overwriting() {
    let original = "{\"hooks\":{\"SessionEnd\":true}}";
    assert!(merge_hook_text(Some(original), "/tmp/hooks.json", "/bin/tracker").is_err());
    let refused = |source: &str| merge_hook_text(Some(source), "/h.json", "/bin/t").unwrap_err();
    assert_eq!(refused(original), "Codex hooks SessionEnd value must be a JSON array");
    assert_eq!(refused("[]"), "Codex hooks file must contain a JSON object");
    assert_eq!(refused("{\"hooks\":1}"), "Codex hooks file field 'hooks' must be a JSON object");
    assert!(refused("{").starts_with("parse Codex hooks file /h.json: EOF while parsing an object"));
    assert!(!hook_is_installed(Some(original), "/h.json", "/bin/t").unwrap());
}

#[test]
fn a_missing_hooks_file_is_made() {
    let written = merge_hook_text(None, "/h.json", "/bin/t").unwrap().unwrap();
    assert_eq!(written, format!("{}\n", render_hook_snippet("/bin/t")));
    assert!(!hook_is_installed(None, "/h.json", "/bin/t").unwrap());
    let (value, changed) = merge_hook_value(Json::parse("{}").unwrap(), "run me").unwrap();
    assert!(changed);
    let (_, changed) = merge_hook_value(value, "run me").unwrap();
    assert!(!changed);
    let fraction = "{\"ratio\":0.1234567890123456789,\"hooks\":{\"SessionEnd\":[]}}";
    let written = merge_hook_text(Some(fraction), "/h.json", "/bin/t").unwrap().unwrap();
    assert_eq!(merge_hook_text(Some(&written), "/h.json", "/bin/t").unwrap(), None);
}
