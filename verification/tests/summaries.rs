use codex_resume_tracker::app_server::{MessageRole, VisibleMessage};
use codex_resume_tracker::config::{Config, SummaryInput, SummaryProvider};
use codex_resume_tracker::json::Json;
use codex_resume_tracker::paths::AppPaths;
use codex_resume_tracker::summary::{
    build_openai_request, codex_exec_args, format_messages, generate, local_summary,
    normalize_output, output_schema, parse_openai_response, parse_structured_output,
    provider_prompt, quantile_indices, raw_beginning_middle_end, read_codex_reply,
    read_openai_reply, schema_path_for, structured_candidates, truncate_chars, Generation,
    SummaryResult, MAX_OUTPUT_CHARS,
};

fn message(role: MessageRole, text: &str) -> VisibleMessage {
    VisibleMessage { role, text: text.into() }
}

fn json(source: &str) -> Json {
    Json::parse(source).unwrap()
}

fn read(source: &str) -> Option<SummaryResult> {
    let value: serde_json::Value = serde_json::from_str(source).ok()?;
    Some(SummaryResult {
        title: value.get("title")?.as_str()?.to_owned(),
        summary: value.get("summary")?.as_str()?.to_owned(),
    })
}

#[test]
fn local_contract_uses_first_request_and_latest_visible_message() {
    let messages = vec![
        message(MessageRole::User, "Build the tracker"),
        message(MessageRole::Assistant, "I will inspect the repository."),
        message(MessageRole::User, "Also add tags"),
        message(MessageRole::Assistant, "Tags are implemented."),
    ];
    let result = local_summary(&messages).unwrap();
    assert_eq!(result.title, "Build the tracker");
    assert_eq!(result.summary, "Tags are implemented.");
}

#[test]
fn local_summaries_of_unusual_threads() {
    let result = local_summary(&[]).unwrap();
    assert_eq!(result.title, "Untitled Codex session");
    assert_eq!(result.summary, "No visible user or assistant messages were available.");
    let result = local_summary(&[message(MessageRole::Assistant, "only me")]).unwrap();
    assert_eq!(result.title, "only me");
    let blank = [message(MessageRole::User, " \n "), message(MessageRole::Assistant, "x")];
    assert_eq!(local_summary(&blank).unwrap_err(), "summary provider returned an empty title");
    let blank = [message(MessageRole::User, "x"), message(MessageRole::Assistant, " \t")];
    assert_eq!(local_summary(&blank).unwrap_err(), "summary provider returned an empty summary");
}

#[test]
fn normalization_is_whitespace_clean_and_unicode_bounded() {
    let input = format!("  hello\n\tworld   {}", "🦀".repeat(300));
    let output = normalize_output(&input);
    assert!(output.starts_with("hello world "));
    assert_eq!(output.chars().count(), MAX_OUTPUT_CHARS);
    assert!(output.ends_with('…'));
}

#[test]
fn normal_texts_stay_as_they_are() {
    let once = normalize_output(" a\u{a0}b \n c ");
    assert_eq!(once, "a b c");
    assert_eq!(normalize_output(&once), once);
    let long = normalize_output(&"ab ".repeat(200));
    assert_eq!(long.chars().count(), 240);
    assert_eq!(normalize_output(&long), long);
    assert_eq!(normalize_output(&"y".repeat(240)), "y".repeat(240));
}

#[test]
fn capped_sampling_retains_beginning_middle_and_end() {
    let mut messages = Vec::new();
    for index in 0..30 {
        let sentinel = match index {
            0 => "BEGIN_SENTINEL",
            14 => "MIDDLE_SENTINEL",
            29 => "END_SENTINEL",
            _ => "ordinary",
        };
        messages.push(message(
            if index % 2 == 0 { MessageRole::User } else { MessageRole::Assistant },
            &format!("{sentinel} {}", "x".repeat(100)),
        ));
    }
    let sampled = format_messages(&messages, SummaryInput::Custom(1200));
    assert!(sampled.contains("BEGIN_SENTINEL"));
    assert!(sampled.contains("MIDDLE_SENTINEL"));
    assert!(sampled.contains("END_SENTINEL"));
    assert!(sampled.chars().count() <= 1200);
}

#[test]
fn samples_name_their_messages_and_share_the_room() {
    let messages = vec![
        message(MessageRole::User, &"a".repeat(100)),
        message(MessageRole::Assistant, &"b".repeat(100)),
        message(MessageRole::User, "  c  "),
    ];
    let sampled = format_messages(&messages, SummaryInput::Custom(100));
    assert_eq!(
        sampled,
        "[message 1/3] User: aaaaaaaaaa…\n\n[message 2/3] Assistant: bbbbbbbbb…\n\n[message 3/3] User: c"
    );
    assert!(sampled.chars().count() <= 100);
    let pieces = format_messages(&messages, SummaryInput::Custom(20));
    assert_eq!(pieces, "User: …istant…ser: c");
    assert_eq!(format_messages(&messages, SummaryInput::Custom(2)), "Us");
    assert_eq!(format_messages(&[], SummaryInput::SixteenK), "");
}

#[test]
fn entire_policy_does_not_truncate() {
    let messages = vec![message(MessageRole::User, &"z".repeat(80_000))];
    assert_eq!(format_messages(&messages, SummaryInput::Entire).chars().count(), 80_006);
}

#[test]
fn short_threads_are_read_whole() {
    let messages = vec![message(MessageRole::User, " hi "), message(MessageRole::Assistant, "ho")];
    assert_eq!(format_messages(&messages, SummaryInput::SixteenK), "User: hi\n\nAssistant: ho");
}

#[test]
fn quantiles_are_spread_evenly() {
    assert_eq!(quantile_indices(30, 3), vec![0, 14, 29]);
    assert_eq!(quantile_indices(4, 4), vec![0, 1, 2, 3]);
    assert_eq!(quantile_indices(2, 5), vec![0, 1]);
    assert_eq!(quantile_indices(9, 1), vec![0]);
    assert!(quantile_indices(0, 3).is_empty());
    assert!(quantile_indices(3, 0).is_empty());
}

#[test]
fn texts_are_cut_with_an_ellipsis() {
    assert_eq!(truncate_chars("abcd", 4), "abcd");
    assert_eq!(truncate_chars("abcde", 4), "abc…");
    assert_eq!(truncate_chars("abcde", 1), "…");
    assert_eq!(truncate_chars("abcde", 0), "");
    assert_eq!(raw_beginning_middle_end("0123456789", 8), "01…45…89");
    assert_eq!(raw_beginning_middle_end("0123456789", 10), "0123456789");
}

#[test]
fn codex_contract_is_ephemeral_read_only_and_hook_free() {
    let args = codex_exec_args("/workspace", "schema.json");
    let joined = args.join(" ");
    assert!(joined.contains("--ephemeral"));
    assert!(joined.contains("--ignore-user-config"));
    assert!(joined.contains("--disable hooks"));
    assert!(joined.contains("--sandbox read-only"));
    assert!(joined.contains("--output-schema schema.json"));
    assert!(joined.contains("-C /workspace"));
}

#[test]
fn openai_contract_uses_responses_structured_output_without_storage() {
    let request = build_openai_request("gpt-5-mini", "User: hello");
    let request: serde_json::Value = serde_json::from_str(&request.compact()).unwrap();
    assert_eq!(request["model"], "gpt-5-mini");
    assert_eq!(request["store"], false);
    assert_eq!(request["text"]["format"]["type"], "json_schema");
    assert_eq!(request["text"]["format"]["strict"], true);
    assert_eq!(request["text"]["format"]["schema"]["additionalProperties"], false);
    assert_eq!(request["input"][0]["content"][0]["text"], provider_prompt("User: hello"));
    assert_eq!(request["text"]["format"]["name"], "codex_thread_summary");
}

#[test]
fn the_answer_has_a_schema() {
    assert_eq!(
        output_schema().compact(),
        "{\"additionalProperties\":false,\"properties\":{\"summary\":{\"maxLength\":240,\"type\":\"string\"},\"title\":{\"maxLength\":240,\"type\":\"string\"}},\"required\":[\"title\",\"summary\"],\"type\":\"object\"}"
    );
}

#[test]
fn prompts_hold_the_transcript() {
    let prompt = provider_prompt("User: x");
    assert!(prompt.starts_with("Create a concise title and summary for this Codex thread."));
    assert!(prompt.contains("at most 240 Unicode characters."));
    assert!(prompt.ends_with("\n\n<transcript>\nUser: x\n</transcript>"));
}

#[test]
fn openai_response_contract_extracts_structured_output() {
    let response = json(
        r#"{
            "status": "completed",
            "output": [{
                "type": "message",
                "role": "assistant",
                "content": [{
                    "type": "output_text",
                    "text": "{\"title\":\"A title\",\"summary\":\"A summary\"}"
                }]
            }]
        }"#,
    );
    assert_eq!(
        parse_openai_response(&response, &read).unwrap(),
        SummaryResult { title: "A title".into(), summary: "A summary".into() }
    );
}

#[test]
fn provider_errors_do_not_get_reinterpreted_as_another_contract() {
    let response = json(r#"{"status":"failed","error":{"message":"quota"},"output":[]}"#);
    let error = parse_openai_response(&response, &read).unwrap_err().to_string();
    assert!(error.contains("quota"));
}

#[test]
fn responses_without_an_answer_are_refused() {
    let refused = |source: &str| parse_openai_response(&json(source), &read).unwrap_err();
    assert_eq!(
        refused(r#"{"status":"failed","error":{"message":"quota"}}"#),
        "OpenAI response did not complete: {\"message\":\"quota\"}"
    );
    assert_eq!(refused("{}"), "OpenAI response did not complete: response was not completed");
    assert_eq!(
        refused(r#"{"status":"completed"}"#),
        "OpenAI response omitted assistant output_text"
    );
    assert_eq!(
        refused(
            r#"{"status":"completed","output":[{"type":"reasoning","content":[{"type":"output_text","text":"{}"}]}]}"#
        ),
        "OpenAI response omitted assistant output_text"
    );
    assert_eq!(
        refused(
            r#"{"status":"completed","output":[{"type":"message","content":[{"type":"output_text","text":"no"}]}]}"#
        ),
        "parse OpenAI structured output: provider output was not a title/summary JSON object"
    );
    let skipped = json(
        r#"{"status":"completed","output":[{"type":"reasoning"},{"type":"message","content":[{"type":"refusal"}]},
            {"type":"message","content":[{"type":"output_text","text":"{\"title\":\"t\",\"summary\":\"s\"}"}]}]}"#,
    );
    assert_eq!(parse_openai_response(&skipped, &read).unwrap().title, "t");
}

#[test]
fn answers_are_found_whole_or_in_their_last_line() {
    assert_eq!(structured_candidates(" a \nb\r\n"), vec!["a \nb", "b", "a"]);
    let found = parse_structured_output(
        "log line\n{\"title\":\"first\",\"summary\":\"s\"}\n{\"title\":\" last  one \",\"summary\":\"s\"}\nbye\n",
        &read,
    )
    .unwrap();
    assert_eq!(found.title, "last one");
    let whole = parse_structured_output("{\n\"title\":\"t\",\n\"summary\":\"s\"\n}\n", &read).unwrap();
    assert_eq!(whole, SummaryResult { title: "t".into(), summary: "s".into() });
    assert_eq!(
        parse_structured_output("{\"title\":\" \",\"summary\":\"s\"}", &read).unwrap_err(),
        "summary provider returned an empty title"
    );
    assert_eq!(
        parse_structured_output("nothing", &read).unwrap_err(),
        "provider output was not a title/summary JSON object"
    );
}

#[test]
fn replies_of_providers_are_told_in_their_words() {
    assert_eq!(
        read_codex_reply(false, "exit status: 1", "", "  broken\n", &read).unwrap_err(),
        "ephemeral Codex summarizer exited with exit status: 1: broken"
    );
    assert_eq!(
        read_codex_reply(true, "exit status: 0", "no json", "", &read).unwrap_err(),
        "parse ephemeral Codex structured output: provider output was not a title/summary JSON object"
    );
    assert_eq!(
        read_codex_reply(true, "", "{\"title\":\"t\",\"summary\":\"s\"}", "", &read).unwrap().summary,
        "s"
    );
    let long = read_openai_reply(false, "500", &"e".repeat(2000), &read).unwrap_err();
    assert_eq!(long.chars().count(), "OpenAI Responses API returned 500: ".len() + 1000);
    assert!(long.ends_with('…'));
    assert!(read_openai_reply(true, "200", "nope", &read)
        .unwrap_err()
        .starts_with("parse OpenAI Responses API JSON: expected ident at line 1 column 2"));
}

#[test]
fn each_provider_is_asked_in_its_own_way() {
    let messages = [message(MessageRole::User, "ask"), message(MessageRole::Assistant, "answer")];
    let config = Config::default();
    let paths = AppPaths::from_roots("/data", "/config", "/state");
    let run = |provider| generate(provider, SummaryInput::SixteenK, &messages, "/repo", &config, &paths);
    match run(SummaryProvider::Local) {
        Generation::Ready(Ok(result)) => assert_eq!(result.title, "ask"),
        other => panic!("{other:?}"),
    }
    match run(SummaryProvider::Codex) {
        Generation::Codex { args, prompt } => {
            assert_eq!(args, codex_exec_args("/repo", &schema_path_for(&paths)));
            assert_eq!(prompt, provider_prompt("User: ask\n\nAssistant: answer"));
        }
        other => panic!("{other:?}"),
    }
    match run(SummaryProvider::Openai) {
        Generation::Openai { request } => assert_eq!(
            request.compact(),
            build_openai_request("gpt-5-mini", "User: ask\n\nAssistant: answer").compact()
        ),
        other => panic!("{other:?}"),
    }
}
