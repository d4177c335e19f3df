use codex_resume_tracker::app_server::{
    closed_message, compact_json, connection_params, extract_visible_messages, initialize_params,
    notification_line, parse_thread_list_page, read_reply, request_line, source_label,
    thread_list_params, thread_read_params, MessageRole, ThreadListing, VisibleMessage,
};
use codex_resume_tracker::config::{SourceKind, SummaryProvider};
use codex_resume_tracker::json::Json;

fn json(source: &str) -> Json {
    Json::parse(source).unwrap()
}

fn shown(value: Option<&Json>) -> Option<String> {
    value.map(|value| value.compact())
}

#[test]
fn source_filters_are_explicit_and_exec_is_opt_in() {
    let interactive = thread_list_params(&[SourceKind::Cli, SourceKind::Vscode], None);
    assert_eq!(shown(interactive.get("sourceKinds")), Some("[\"cli\",\"vscode\"]".into()));
    assert!(interactive.get("cursor").is_none());

    let all = thread_list_params(
        &[SourceKind::Cli, SourceKind::Vscode, SourceKind::Exec],
        Some("next-page"),
    );
    assert_eq!(shown(all.get("sourceKinds")), Some("[\"cli\",\"vscode\",\"exec\"]".into()));
    assert_eq!(all.text_field("cursor"), Some("next-page"));
    assert_eq!(shown(all.get("archived")), Some("false".into()));
}

#[test]
fn list_page_parses_metadata_and_cursor() {
    let fixture = json(
        r#"{
            "data": [{
                "id": "thr_123",
                "cwd": "/repo",
                "source": "cli",
                "modelProvider": "openai",
                "model": "gpt-5",
                "createdAt": 10,
                "updatedAt": 20,
                "recencyAt": 19,
                "preview": "Build a tracker"
            }],
            "nextCursor": "opaque"
        }"#,
    );
    let (threads, cursor) = parse_thread_list_page(&fixture).unwrap();
    assert_eq!(cursor.as_deref(), Some("opaque"));
    assert_eq!(threads[0].metadata.thread_id, "thr_123");
    assert_eq!(threads[0].metadata.model.as_deref(), Some("gpt-5"));
    assert_eq!(threads[0].metadata.generated_title.as_deref(), Some("Build a tracker"));
    assert_eq!(threads[0].metadata.created_at, Some(10));
    assert_eq!(threads[0].metadata.recency_at, Some(19));
}

#[test]
fn listed_threads_are_read_field_by_field() {
    let page = json(
        r#"{"data":[
            {"id":"a","cwd":"/a","name":"  ","preview":"first words","createdAt":1.5,"updatedAt":-3},
            {"id":"b","cwd":"/b","name":"named","preview":"x","source":{"custom":"desk"},"recencyAt":"7"}
        ],"nextCursor":null}"#,
    );
    let (threads, cursor) = parse_thread_list_page(&page).unwrap();
    assert_eq!(cursor, None);
    assert_eq!(threads.len(), 2);
    assert_eq!(threads[0].metadata.generated_title.as_deref(), Some("first words"));
    assert_eq!(threads[0].metadata.source, "unknown");
    assert_eq!(threads[0].metadata.created_at, None);
    assert_eq!(threads[0].metadata.updated_at, Some(-3));
    assert_eq!(threads[1].metadata.generated_title.as_deref(), Some("named"));
    assert_eq!(threads[1].metadata.source, "custom:desk");
    assert_eq!(threads[1].metadata.recency_at, None);
}

#[test]
fn pages_that_lack_something_are_refused() {
    let refused = |source: &str| parse_thread_list_page(&json(source)).unwrap_err();
    assert_eq!(refused("{\"data\":{}}"), "thread/list result omitted data array");
    assert_eq!(
        refused("{\"data\":[{\"id\":\"a\",\"cwd\":\"/\"},{\"cwd\":1}]}"),
        "thread/list item omitted string field id"
    );
    assert_eq!(
        refused("{\"data\":[{\"id\":\"a\"},{}]}"),
        "thread/list item omitted string field cwd"
    );
}

#[test]
fn extraction_keeps_only_visible_user_and_agent_text() {
    let fixture = json(
        r#"{
            "thread": {
                "turns": [{
                    "items": [
                        {"type":"userMessage","id":"u1","content":[
                            {"type":"text","text":"visible request"},
                            {"type":"localImage","path":"secret.png"}
                        ]},
                        {"type":"reasoning","id":"r1","summary":["private chain"]},
                        {"type":"commandExecution","id":"c1","aggregatedOutput":"tool secret"},
                        {"type":"agentMessage","id":"a1","text":"visible answer"},
                        {"type":"hookPrompt","id":"h1","fragments":[]}
                    ]
                }]
            }
        }"#,
    );
    let messages = extract_visible_messages(&fixture).unwrap();
    assert_eq!(
        messages,
        vec![
            VisibleMessage { role: MessageRole::User, text: "visible request".into() },
            VisibleMessage { role: MessageRole::Assistant, text: "visible answer".into() },
        ]
    );
    let joined =
        messages.iter().map(|message| message.text.as_str()).collect::<Vec<_>>().join(" ");
    assert!(!joined.contains("private chain"));
    assert!(!joined.contains("tool secret"));
}

#[test]
fn texts_of_a_message_are_joined_and_blank_ones_dropped() {
    let read = |items: &str| {
        let source = format!("{{\"thread\":{{\"turns\":[{{}},{{\"items\":{items}}}]}}}}");
        extract_visible_messages(&json(&source)).unwrap()
    };
    let messages = read(
        r#"[{"type":"userMessage","content":[{"type":"text","text":"a"},{"type":"text"},{"type":"text","text":"b"}]},
            {"type":"userMessage","content":[{"type":"text","text":" "}]},
            {"type":"userMessage"},
            {"type":"agentMessage","text":"\n"},
            {"type":"agentMessage"},
            {"text":"x"}]"#,
    );
    assert_eq!(
        messages,
        vec![VisibleMessage { role: MessageRole::User, text: "a\nb".into() }]
    );
    assert_eq!(
        extract_visible_messages(&json("{}")).unwrap_err(),
        "thread/read result omitted thread"
    );
    assert_eq!(
        extract_visible_messages(&json("{\"thread\":{}}")).unwrap_err(),
        "thread/read result omitted turns array"
    );
}

#[test]
fn custom_and_subagent_sources_are_labeled_without_panics() {
    assert_eq!(source_label(&json(r#"{"custom":"desktop"}"#)), "custom:desktop");
    assert_eq!(source_label(&json(r#"{"subAgent":"review"}"#)), "subAgent:review");
    assert_eq!(source_label(&json(r#"{"subAgent":{"thread_spawn":{}}}"#)), "subAgent");
    assert_eq!(source_label(&json("\"cli\"")), "cli");
    assert_eq!(source_label(&json("7")), "unknown");
}

#[test]
fn messages_are_sent_as_lines() {
    assert_eq!(
        request_line("initialize", 1, initialize_params()),
        "{\"id\":1,\"method\":\"initialize\",\"params\":{\"clientInfo\":{\"name\":\"codex_resume_tracker\",\"title\":\"Codex Resume Tracker\",\"version\":\"0.1.0\"}}}\n"
    );
    assert_eq!(
        notification_line("initialized", json("{}")),
        "{\"method\":\"initialized\",\"params\":{}}\n"
    );
    assert_eq!(
        thread_read_params("t\"1").compact(),
        "{\"includeTurns\":true,\"threadId\":\"t\\\"1\"}"
    );
    assert_eq!(
        connection_params().compact(),
        "{\"archived\":false,\"limit\":1,\"sourceKinds\":[\"cli\",\"vscode\"]}"
    );
    assert_eq!(
        thread_list_params(&[SourceKind::Cli], None).compact(),
        "{\"archived\":false,\"limit\":100,\"sortDirection\":\"desc\",\"sortKey\":\"recency_at\",\"sourceKinds\":[\"cli\"]}"
    );
}

#[test]
fn replies_are_told_apart() {
    assert!(read_reply("{\"id\":2,\"result\":{}}\n", "m", 3).unwrap().is_none());
    assert!(read_reply("{\"method\":\"note\"}", "m", 3).unwrap().is_none());
    assert!(read_reply("[]", "m", 3).unwrap().is_none());
    let result = read_reply("{\"id\":3,\"result\":{\"a\":[1,-2,0.5,null]}}", "m", 3).unwrap();
    assert_eq!(compact_json(&result.unwrap()), "{\"a\":[1,-2,0.5,null]}");
    assert_eq!(
        read_reply("{\"id\":3,\"error\":{\"code\":-1}}", "thread/list", 3).unwrap_err(),
        "App Server thread/list failed: {\"code\":-1}"
    );
    assert_eq!(
        read_reply("{\"id\":3}", "thread/list", 3).unwrap_err(),
        "App Server thread/list response omitted result"
    );
    assert_eq!(
        read_reply("oops\n", "m", 3).unwrap_err(),
        "parse App Server response: \"oops\\n\": expected value at line 1 column 1"
    );
    assert_eq!(closed_message("m", None), "Codex App Server closed before replying to m");
    assert_eq!(
        closed_message("m", Some("exit status: 1")),
        "Codex App Server closed before replying to m (status exit status: 1)"
    );
}

#[test]
fn stdio_client_performs_handshake_pagination_and_thread_read() {
    let sources = [SourceKind::Cli, SourceKind::Vscode];
    let reply = |line: &str, method: &str, id: u64| read_reply(line, method, id).unwrap().unwrap();
    let initialized = reply(
        r#"{"id":1,"result":{"userAgent":"fake","codexHome":"/fake","platformFamily":"unix","platformOs":"linux"}}"#,
        "initialize",
        1,
    );
    assert_eq!(initialized.text_field("userAgent"), Some("fake"));
    let listing = ThreadListing::new();
    assert!(listing.params(&sources).get("cursor").is_none());
    let first = reply(
        r#"{"id":2,"result":{"data":[{"id":"thr_page_1","cwd":"/repo/one","source":"cli","modelProvider":"openai","createdAt":10,"updatedAt":20,"recencyAt":20,"preview":"First page"}],"nextCursor":"page-two"}}"#,
        "thread/list",
        2,
    );
    let (listing, more) = listing.accept(&first).unwrap();
    assert!(more);
    assert_eq!(listing.params(&sources).text_field("cursor"), Some("page-two"));
    let second = reply(
        r#"{"id":3,"result":{"data":[{"id":"thr_page_2","cwd":"/repo/two","source":"vscode","modelProvider":"openai","createdAt":30,"updatedAt":40,"recencyAt":40,"preview":"Second page"}],"nextCursor":null}}"#,
        "thread/list",
        3,
    );
    let (listing, more) = listing.accept(&second).unwrap();
    assert!(!more);
    let threads = listing.threads;
    assert_eq!(threads.len(), 2);
    assert_eq!(threads[0].metadata.thread_id, "thr_page_1");
    assert_eq!(threads[1].metadata.generated_title.as_deref(), Some("Second page"));
    let read = reply(
        r#"{"id":4,"result":{"thread":{"id":"thr_page_2","turns":[{"id":"turn_1","status":"completed","items":[{"type":"userMessage","id":"u","content":[{"type":"text","text":"visible request"}]},{"type":"reasoning","id":"r","summary":["must not leak"]},{"type":"commandExecution","id":"c","aggregatedOutput":"must not leak either"},{"type":"agentMessage","id":"a","text":"visible answer"}]}]}}}"#,
        "thread/read",
        4,
    );
    let messages = extract_visible_messages(&read).unwrap();
    assert_eq!(
        messages,
        vec![
            VisibleMessage { role: MessageRole::User, text: "visible request".into() },
            VisibleMessage { role: MessageRole::Assistant, text: "visible answer".into() },
        ]
    );
    assert_eq!(SummaryProvider::Local.to_string(), "local");
}

#[test]
fn a_cursor_that_repeats_ends_the_listing() {
    let page = json("{\"data\":[],\"nextCursor\":\"c\"}");
    let (listing, more) = ThreadListing::new().accept(&page).unwrap();
    assert!(more);
    assert_eq!(
        listing.accept(&page).unwrap_err(),
        "App Server returned a repeated thread/list cursor"
    );
}
