//! Talking to the Codex App Server: the threads that it lists and the messages that it shows.

use vstd::prelude::*;

use crate::config;
use crate::config::SourceKind;
use crate::db::{MetadataView, SessionMetadata};
use crate::json;
use crate::json::{describe, Json, JsonObject, JsonView};
use crate::text;
use crate::text::{join, quote, same, trim};

verus! {

/// Who wrote a visible message.
#[derive(Clone, Copy, Debug, PartialEq, Eq, Structural)]
pub enum MessageRole {
    User,
    Assistant,
}

/// The word that stands before a message of a role.
pub open spec fn role_label(role: MessageRole) -> Seq<char> {
    match role {
        MessageRole::User => "User"@,
        MessageRole::Assistant => "Assistant"@,
    }
}

impl MessageRole {
    pub fn label(self) -> (r: &'static str)
        ensures
            r@ == role_label(self),
    {
        match self {
            MessageRole::User => "User",
            MessageRole::Assistant => "Assistant",
        }
    }
}

/// A message that the user wrote or was shown.
#[derive(Debug, PartialEq, Eq)]
pub struct VisibleMessage {
    pub role: MessageRole,
    pub text: String,
}

/// A visible message as a mathematical value.
pub struct MessageView {
    pub role: MessageRole,
    pub text: Seq<char>,
}

impl View for VisibleMessage {
    type V = MessageView;

    open spec fn view(&self) -> MessageView {
        MessageView { role: self.role, text: self.text@ }
    }
}

impl DeepView for VisibleMessage {
    type V = MessageView;

    open spec fn deep_view(&self) -> MessageView {
        self@
    }
}

impl Clone for VisibleMessage {
    fn clone(&self) -> (r: Self)
        ensures
            r@ == self@,
    {
        VisibleMessage { role: self.role, text: self.text.clone() }
    }
}

/// A thread that the App Server lists.
#[derive(Debug, PartialEq, Eq)]
pub struct RemoteThread {
    pub metadata: SessionMetadata,
}

impl View for RemoteThread {
    type V = MetadataView;

    open spec fn view(&self) -> MetadataView {
        self.metadata@
    }
}

impl DeepView for RemoteThread {
    type V = MetadataView;

    open spec fn deep_view(&self) -> MetadataView {
        self.metadata@
    }
}

impl Clone for RemoteThread {
    fn clone(&self) -> (r: Self)
        ensures
            r@ == self@,
    {
        RemoteThread { metadata: self.metadata.clone() }
    }
}

/// The names of `sources` as JSON texts.
pub open spec fn source_texts(sources: Seq<SourceKind>) -> Seq<JsonView> {
    Seq::new(sources.len(), |i: int| JsonView::Text(config::source_name(sources[i])))
}

fn source_array(sources: &[SourceKind]) -> (r: Json)
    ensures
        r@ == JsonView::Array(source_texts(sources@)),
{
    let mut names: Vec<Json> = Vec::new();
    let mut i: usize = 0;
    while i < sources.len()
        invariant
            i <= sources@.len(),
            names@.len() == i,
            forall|k: int|
                0 <= k < i ==> (#[trigger] names@[k])@ == JsonView::Text(
                    config::source_name(sources@[k]),
                ),
        decreases sources@.len() - i,
    {
        names.push(Json::text(sources[i].as_protocol_str()));
        i += 1;
    }
    assert(names.deep_view() =~= source_texts(sources@));
    Json::array(names)
}

/// What a request for a page of threads asks for.
pub open spec fn list_params(sources: Seq<SourceKind>, cursor: Option<Seq<char>>) -> JsonView {
    let params = Map::empty().insert("limit"@, JsonView::Number(json::whole_number(100))).insert(
        "archived"@,
        JsonView::Bool(false),
    ).insert("sortKey"@, JsonView::Text("recency_at"@)).insert(
        "sortDirection"@,
        JsonView::Text("desc"@),
    ).insert("sourceKinds"@, JsonView::Array(source_texts(sources)));
    match cursor {
        Some(cursor) => JsonView::Object(params.insert("cursor"@, JsonView::Text(cursor))),
        None => JsonView::Object(params),
    }
}

pub fn thread_list_params(sources: &[SourceKind], cursor: Option<&str>) -> (r: Json)
    ensures
        r@ == list_params(
            sources@,
            match cursor {
                Some(cursor) => Some(cursor@),
                None => None,
            },
        ),
{
    let params = JsonObject::new().with("limit", Json::number(100)).with(
        "archived",
        Json::Bool(false),
    ).with("sortKey", Json::text("recency_at")).with("sortDirection", Json::text("desc")).with(
        "sourceKinds",
        source_array(sources),
    );
    match cursor {
        Some(cursor) => Json::object(params.with("cursor", Json::text(cursor))),
        None => Json::object(params),
    }
}

/// What the request that only tests the connection asks for.
pub open spec fn probe_params() -> JsonView {
    JsonView::Object(
        Map::empty().insert("limit"@, JsonView::Number(json::whole_number(1))).insert(
            "archived"@,
            JsonView::Bool(false),
        ).insert(
            "sourceKinds"@,
            JsonView::Array(seq![JsonView::Text("cli"@), JsonView::Text("vscode"@)]),
        ),
    )
}

pub fn connection_params() -> (r: Json)
    ensures
        r@ == probe_params(),
{
    let mut sources: Vec<Json> = Vec::new();
    sources.push(Json::text("cli"));
    sources.push(Json::text("vscode"));
    assert(sources.deep_view() =~= seq![JsonView::Text("cli"@), JsonView::Text("vscode"@)]);
    Json::object(
        JsonObject::new().with("limit", Json::number(1)).with("archived", Json::Bool(false)).with(
            "sourceKinds",
            Json::array(sources),
        ),
    )
}

/// Who the tracker says that it is.
pub open spec fn client_params() -> JsonView {
    JsonView::Object(
        Map::empty().insert(
            "clientInfo"@,
            JsonView::Object(
                Map::empty().insert("name"@, JsonView::Text("codex_resume_tracker"@)).insert(
                    "title"@,
                    JsonView::Text("Codex Resume Tracker"@),
                ).insert("version"@, JsonView::Text(crate::VERSION@)),
            ),
        ),
    )
}

pub fn initialize_params() -> (r: Json)
    ensures
        r@ == client_params(),
{
    let info = JsonObject::new().with("name", Json::text("codex_resume_tracker")).with(
        "title",
        Json::text("Codex Resume Tracker"),
    ).with("version", Json::text(crate::VERSION));
    Json::object(JsonObject::new().with("clientInfo", Json::object(info)))
}

/// What a request for the messages of a thread asks for.
pub open spec fn read_params(thread_id: Seq<char>) -> JsonView {
    JsonView::Object(
        Map::empty().insert("threadId"@, JsonView::Text(thread_id)).insert(
            "includeTurns"@,
            JsonView::Bool(true),
        ),
    )
}

pub fn thread_read_params(thread_id: &str) -> (r: Json)
    ensures
        r@ == read_params(thread_id@),
{
    Json::object(
        JsonObject::new().with("threadId", Json::text(thread_id)).with(
            "includeTurns",
            Json::Bool(true),
        ),
    )
}

/// A message to the App Server that is answered under `id`.
pub open spec fn request_envelope(method: Seq<char>, id: u64, params: JsonView) -> JsonView {
    JsonView::Object(
        Map::empty().insert("method"@, JsonView::Text(method)).insert(
            "id"@,
            JsonView::Number(json::whole_number(id)),
        ).insert("params"@, params),
    )
}

/// A message to the App Server that is not answered.
pub open spec fn notice_envelope(method: Seq<char>, params: JsonView) -> JsonView {
    JsonView::Object(
        Map::empty().insert("method"@, JsonView::Text(method)).insert("params"@, params),
    )
}

/// A value as a line.
pub open spec fn json_line(value: JsonView) -> Seq<char> {
    json::json_compact(value) + "\n"@
}

/// The line that asks the App Server for `method`.
pub fn request_line(method: &str, id: u64, params: Json) -> (r: String)
    ensures
        r@ == json_line(request_envelope(method@, id, params@)),
{
    Json::object(
        JsonObject::new().with("method", Json::text(method)).with("id", Json::number(id)).with(
            "params",
            params,
        ),
    ).compact().concat("\n")
}

/// The line that tells the App Server of `method`.
pub fn notification_line(method: &str, params: Json) -> (r: String)
    ensures
        r@ == json_line(notice_envelope(method@, params@)),
{
    Json::object(
        JsonObject::new().with("method", Json::text(method)).with("params", params),
    ).compact().concat("\n")
}

pub fn compact_json(value: &Json) -> (r: String)
    ensures
        r@ == json::json_compact(value@),
{
    value.compact()
}

/// What a line from the App Server is to the request `method` that waits for the reply `id`: the
/// reply's result, nothing where it is no reply to it, or an error.
pub open spec fn reply_in(envelope: JsonView, method: Seq<char>, id: u64) -> Result<
    Option<JsonView>,
    Seq<char>,
> {
    if json::u64_field(envelope, "id"@) != Some(id) {
        Ok(None)
    } else {
        match json::field(envelope, "error"@) {
            Some(error) => Err("App Server "@ + method + " failed: "@ + json::json_compact(error)),
            None => match json::field(envelope, "result"@) {
                Some(result) => Ok(Some(result)),
                None => Err("App Server "@ + method + " response omitted result"@),
            },
        }
    }
}

pub fn reply_from(envelope: Json, method: &str, id: u64) -> (r: Result<Option<Json>, String>)
    ensures
        match r {
            Ok(Some(result)) => reply_in(envelope@, method@, id) == Ok::<
                Option<JsonView>,
                Seq<char>,
            >(Some(result@)),
            Ok(None) => reply_in(envelope@, method@, id) == Ok::<Option<JsonView>, Seq<char>>(None),
            Err(error) => reply_in(envelope@, method@, id) == Err::<Option<JsonView>, Seq<char>>(
                error@,
            ),
        },
{
    match envelope.u64_field("id") {
        Some(found) => if found != id {
            return Ok(None);
        },
        None => {
            return Ok(None);
        },
    }
    match envelope.get("error") {
        Some(error) => {
            return Err(
                "App Server ".to_owned().concat(method).concat(" failed: ").concat(
                    compact_json(error).as_str(),
                ),
            );
        },
        None => {},
    }
    match envelope {
        Json::Object(fields) => {
            let mut fields = fields;
            match fields.take("result") {
                Some(result) => Ok(Some(result)),
                None => Err(
                    "App Server ".to_owned().concat(method).concat(" response omitted result"),
                ),
            }
        },
        _ => Ok(None),
    }
}

/// What a line from the App Server is to a request: see `reply_in`. A line that is no JSON is an
/// error.
pub open spec fn reply_on(line: Seq<char>, method: Seq<char>, id: u64) -> Result<
    Option<JsonView>,
    Seq<char>,
> {
    match json::json_parsed(line) {
        Ok(envelope) => reply_in(envelope, method, id),
        Err(error) => Err(
            "parse App Server response: "@ + text::quoted(line) + ": "@ + json::error_text(error),
        ),
    }
}

pub fn read_reply(line: &str, method: &str, id: u64) -> (r: Result<Option<Json>, String>)
    ensures
        match r {
            Ok(Some(result)) => reply_on(line@, method@, id) == Ok::<Option<JsonView>, Seq<char>>(
                Some(result@),
            ),
            Ok(None) => reply_on(line@, method@, id) == Ok::<Option<JsonView>, Seq<char>>(None),
            Err(error) => reply_on(line@, method@, id) == Err::<Option<JsonView>, Seq<char>>(
                error@,
            ),
        },
{
    match Json::parse(line) {
        Ok(envelope) => reply_from(envelope, method, id),
        Err(error) => Err(
            "parse App Server response: ".to_owned().concat(quote(line).as_str()).concat(
                ": ",
            ).concat(describe(&error).as_str()),
        ),
    }
}

/// What is said when the App Server ends before it replies.
pub open spec fn closed_text(method: Seq<char>, status: Option<Seq<char>>) -> Seq<char> {
    "Codex App Server closed before replying to "@ + method + match status {
        Some(status) => " (status "@ + status + ")"@,
        None => ""@,
    }
}

pub fn closed_message(method: &str, status: Option<&str>) -> (r: String)
    ensures
        r@ == closed_text(
            method@,
            match status {
                Some(status) => Some(status@),
                None => None,
            },
        ),
{
    let ending = match status {
        Some(status) => " (status ".to_owned().concat(status).concat(")"),
        None => "".to_owned(),
    };
    "Codex App Server closed before replying to ".to_owned().concat(method).concat(ending.as_str())
}

/// Where a thread was started, in a word.
pub open spec fn label_of_source(value: JsonView) -> Seq<char> {
    match value {
        JsonView::Text(name) => name,
        _ => match json::text_field(value, "custom"@) {
            Some(custom) => "custom:"@ + custom,
            None => match json::field(value, "subAgent"@) {
                Some(JsonView::Text(kind)) => "subAgent:"@ + kind,
                Some(_) => "subAgent"@,
                None => "unknown"@,
            },
        },
    }
}

pub fn source_label(value: &Json) -> (r: String)
    ensures
        r@ == label_of_source(value@),
{
    match value.as_str() {
        Some(name) => {
            return name.to_owned();
        },
        None => {},
    }
    match value.text_field("custom") {
        Some(custom) => {
            return "custom:".to_owned().concat(custom);
        },
        None => {},
    }
    match value.get("subAgent") {
        Some(subagent) => match subagent.as_str() {
            Some(kind) => "subAgent:".to_owned().concat(kind),
            None => "subAgent".to_owned(),
        },
        None => "unknown".to_owned(),
    }
}

/// What is said of a listed thread without the text `name`.
pub open spec fn omitted_field(name: Seq<char>) -> Seq<char> {
    "thread/list item omitted string field "@ + name
}

pub fn string_field(value: &Json, name: &str) -> (r: Result<String, String>)
    ensures
        match r {
            Ok(text) => json::text_field(value@, name@) == Some(text@),
            Err(error) => json::text_field(value@, name@) is None && error@ == omitted_field(name@),
        },
{
    match value.text_field(name) {
        Some(text) => Ok(text.to_owned()),
        None => Err("thread/list item omitted string field ".to_owned().concat(name)),
    }
}

/// The title of a listed thread: its name unless that is blank, else its preview.
pub open spec fn listed_title(item: JsonView) -> Option<Seq<char>> {
    match json::text_field(item, "name"@) {
        Some(name) => if text::trimmed(name).len() > 0 {
            Some(name)
        } else {
            json::text_field(item, "preview"@)
        },
        None => json::text_field(item, "preview"@),
    }
}

/// A listed thread, or why it cannot be used.
pub open spec fn listed_thread(item: JsonView) -> Result<MetadataView, Seq<char>> {
    match json::text_field(item, "id"@) {
        None => Err(omitted_field("id"@)),
        Some(thread_id) => match json::text_field(item, "cwd"@) {
            None => Err(omitted_field("cwd"@)),
            Some(cwd) => Ok(
                MetadataView {
                    thread_id,
                    cwd,
                    source: match json::field(item, "source"@) {
                        Some(source) => label_of_source(source),
                        None => "unknown"@,
                    },
                    model: json::text_field(item, "model"@),
                    model_provider: json::text_field(item, "modelProvider"@),
                    created_at: json::i64_field(item, "createdAt"@),
                    updated_at: json::i64_field(item, "updatedAt"@),
                    recency_at: json::i64_field(item, "recencyAt"@),
                    generated_title: listed_title(item),
                },
            ),
        },
    }
}

fn owned_text_field(value: &Json, name: &str) -> (r: Option<String>)
    ensures
        r.deep_view() == json::text_field(value@, name@),
{
    match value.text_field(name) {
        Some(text) => Some(text.to_owned()),
        None => None,
    }
}

fn listed_title_of(item: &Json) -> (r: Option<String>)
    ensures
        r.deep_view() == listed_title(item@),
{
    match item.text_field("name") {
        Some(name) => if !trim(name).as_str().is_empty() {
            return Some(name.to_owned());
        },
        None => {},
    }
    owned_text_field(item, "preview")
}

fn read_listed_thread(item: &Json) -> (r: Result<RemoteThread, String>)
    ensures
        match r {
            Ok(thread) => listed_thread(item@) == Ok::<MetadataView, Seq<char>>(thread@),
            Err(error) => listed_thread(item@) == Err::<MetadataView, Seq<char>>(error@),
        },
{
    let thread_id = match string_field(item, "id") {
        Ok(thread_id) => thread_id,
        Err(error) => {
            return Err(error);
        },
    };
    let cwd = match string_field(item, "cwd") {
        Ok(cwd) => cwd,
        Err(error) => {
            return Err(error);
        },
    };
    let source = match item.get("source") {
        Some(source) => source_label(source),
        None => "unknown".to_owned(),
    };
    Ok(
        RemoteThread {
            metadata: SessionMetadata {
                thread_id,
                cwd,
                source,
                model: owned_text_field(item, "model"),
                model_provider: owned_text_field(item, "modelProvider"),
                created_at: item.i64_field("createdAt"),
                updated_at: item.i64_field("updatedAt"),
                recency_at: item.i64_field("recencyAt"),
                generated_title: listed_title_of(item),
            },
        },
    )
}

/// The listed threads in their order, or why the first one that cannot be used cannot.
pub open spec fn listed_threads(items: Seq<JsonView>) -> Result<Seq<MetadataView>, Seq<char>>
    decreases items.len(),
{
    if items.len() == 0 {
        Ok(Seq::empty())
    } else {
        match listed_threads(items.drop_last()) {
            Err(error) => Err(error),
            Ok(threads) => match listed_thread(items.last()) {
                Err(error) => Err(error),
                Ok(thread) => Ok(threads.push(thread)),
            },
        }
    }
}

/// A page of threads and where the next one starts.
pub open spec fn page_of(result: JsonView) -> Result<
    (Seq<MetadataView>, Option<Seq<char>>),
    Seq<char>,
> {
    match json::array_field(result, "data"@) {
        None => Err("thread/list result omitted data array"@),
        Some(data) => match listed_threads(data) {
            Err(error) => Err(error),
            Ok(threads) => Ok((threads, json::text_field(result, "nextCursor"@))),
        },
    }
}

proof fn lemma_listed_fault_stays(items: Seq<JsonView>, upto: int)
    requires
        0 <= upto <= items.len(),
        listed_threads(items.take(upto)) is Err,
    ensures
        listed_threads(items) == listed_threads(items.take(upto)),
    decreases items.len() - upto,
{
    if upto < items.len() {
        assert(items.take(upto + 1).drop_last() =~= items.take(upto));
        lemma_listed_fault_stays(items, upto + 1);
    } else {
        assert(items.take(upto) =~= items);
    }
}

pub fn parse_thread_list_page(result: &Json) -> (r: Result<
    (Vec<RemoteThread>, Option<String>),
    String,
>)
    ensures
        match r {
            Ok((threads, cursor)) => page_of(result@) == Ok::<
                (Seq<MetadataView>, Option<Seq<char>>),
                Seq<char>,
            >((threads.deep_view(), cursor.deep_view())),
            Err(error) => page_of(result@) == Err::<
                (Seq<MetadataView>, Option<Seq<char>>),
                Seq<char>,
            >(error@),
        },
{
    let data = match result.array_field("data") {
        Some(data) => data,
        None => {
            return Err("thread/list result omitted data array".to_owned());
        },
    };
    let ghost items = data.deep_view();
    let mut threads: Vec<RemoteThread> = Vec::new();
    let mut i: usize = 0;
    assert(items.take(0) =~= Seq::empty());
    assert(threads.deep_view() =~= Seq::empty());
    while i < data.len()
        invariant
            i <= data@.len(),
            items == data.deep_view(),
            json::array_field(result@, "data"@) == Some(items),
            listed_threads(items.take(i as int)) == Ok::<Seq<MetadataView>, Seq<char>>(
                threads.deep_view(),
            ),
        decreases data@.len() - i,
    {
        assert(items.take(i + 1).drop_last() =~= items.take(i as int));
        assert(items.take(i + 1).last() == data@[i as int]@);
        let ghost before = threads.deep_view();
        match read_listed_thread(&data[i]) {
            Ok(thread) => {
                threads.push(thread);
                assert(threads.deep_view() =~= before.push(thread@));
            },
            Err(error) => {
                proof {
                    lemma_listed_fault_stays(items, i + 1);
                }
                return Err(error);
            },
        }
        i += 1;
    }
    assert(items.take(i as int) =~= items);
    Ok((threads, owned_text_field(result, "nextCursor")))
}

/// The texts among the parts of a user's message.
pub open spec fn text_parts(parts: Seq<JsonView>) -> Seq<Seq<char>>
    decreases parts.len(),
{
    if parts.len() == 0 {
        Seq::empty()
    } else {
        let rest = text_parts(parts.drop_last());
        match json::text_field(parts.last(), "text"@) {
            Some(part) if json::text_field(parts.last(), "type"@) == Some("text"@) => rest.push(
                part,
            ),
            _ => rest,
        }
    }
}

/// What the user wrote: the texts of the message, one per line.
pub open spec fn user_text(item: JsonView) -> Seq<char> {
    match json::array_field(item, "content"@) {
        Some(parts) => text::joined(text_parts(parts), "\n"@),
        None => text::joined(Seq::empty(), "\n"@),
    }
}

/// The message that an item of a turn shows, if it shows one.
pub open spec fn visible_message(item: JsonView) -> Option<MessageView> {
    match json::text_field(item, "type"@) {
        Some(kind) => if kind == "userMessage"@ {
            if text::trimmed(user_text(item)).len() > 0 {
                Some(MessageView { role: MessageRole::User, text: user_text(item) })
            } else {
                None
            }
        } else if kind == "agentMessage"@ {
            match json::text_field(item, "text"@) {
                Some(text) if text::trimmed(text).len() > 0 => Some(
                    MessageView { role: MessageRole::Assistant, text },
                ),
                _ => None,
            }
        } else {
            None
        },
        None => None,
    }
}

/// The messages that the items of a turn show, in their order.
pub open spec fn item_messages(items: Seq<JsonView>) -> Seq<MessageView>
    decreases items.len(),
{
    if items.len() == 0 {
        Seq::empty()
    } else {
        match visible_message(items.last()) {
            Some(message) => item_messages(items.drop_last()).push(message),
            None => item_messages(items.drop_last()),
        }
    }
}

/// The messages that turns show, in their order. A turn without items shows none.
pub open spec fn turn_messages(turns: Seq<JsonView>) -> Seq<MessageView>
    decreases turns.len(),
{
    if turns.len() == 0 {
        Seq::empty()
    } else {
        turn_messages(turns.drop_last()) + match json::array_field(turns.last(), "items"@) {
            Some(items) => item_messages(items),
            None => Seq::empty(),
        }
    }
}

/// The messages of a thread that was read.
pub open spec fn messages_of(result: JsonView) -> Result<Seq<MessageView>, Seq<char>> {
    match json::field(result, "thread"@) {
        None => Err("thread/read result omitted thread"@),
        Some(thread) => match json::array_field(thread, "turns"@) {
            None => Err("thread/read result omitted turns array"@),
            Some(turns) => Ok(turn_messages(turns)),
        },
    }
}

fn is_text_field(value: &Json, name: &str, expected: &str) -> (r: bool)
    ensures
        r == (json::text_field(value@, name@) == Some(expected@)),
{
    match value.text_field(name) {
        Some(text) => same(text, expected),
        None => false,
    }
}

fn read_user_text(item: &Json) -> (r: String)
    ensures
        r@ == user_text(item@),
{
    let mut texts: Vec<String> = Vec::new();
    match item.array_field("content") {
        Some(parts) => {
            let ghost all = parts.deep_view();
            let mut i: usize = 0;
            assert(all.take(0) =~= Seq::empty());
            assert(texts.deep_view() =~= Seq::empty());
            while i < parts.len()
                invariant
                    i <= parts@.len(),
                    all == parts.deep_view(),
                    texts.deep_view() == text_parts(all.take(i as int)),
                decreases parts@.len() - i,
            {
                assert(all.take(i + 1).drop_last() =~= all.take(i as int));
                assert(all.take(i + 1).last() == parts@[i as int]@);
                let ghost before = texts.deep_view();
                if is_text_field(&parts[i], "type", "text") {
                    match parts[i].text_field("text") {
                        Some(text) => {
                            let part = text.to_owned();
                            texts.push(part);
                            assert(texts.deep_view() =~= before.push(part@));
                        },
                        None => {},
                    }
                }
                i += 1;
            }
            assert(all.take(i as int) =~= all);
        },
        None => {
            assert(texts.deep_view() =~= Seq::empty());
        },
    }
    join(&texts, "\n")
}

fn read_visible_message(item: &Json) -> (r: Option<VisibleMessage>)
    ensures
        r.deep_view() == visible_message(item@),
{
    let kind = match item.text_field("type") {
        Some(kind) => kind,
        None => {
            return None;
        },
    };
    if same(kind, "userMessage") {
        let text = read_user_text(item);
        if trim(text.as_str()).as_str().is_empty() {
            None
        } else {
            Some(VisibleMessage { role: MessageRole::User, text })
        }
    } else if same(kind, "agentMessage") {
        match item.text_field("text") {
            Some(text) => if trim(text).as_str().is_empty() {
                None
            } else {
                Some(VisibleMessage { role: MessageRole::Assistant, text: text.to_owned() })
            },
            None => None,
        }
    } else {
        None
    }
}

fn append_items(messages: &mut Vec<VisibleMessage>, items: &Vec<Json>)
    ensures
        final(messages).deep_view() == old(messages).deep_view() + item_messages(items.deep_view()),
{
    let ghost all = items.deep_view();
    let ghost start = messages.deep_view();
    let mut i: usize = 0;
    assert(all.take(0) =~= Seq::empty());
    assert(start + Seq::<MessageView>::empty() =~= start);
    while i < items.len()
        invariant
            i <= items@.len(),
            all == items.deep_view(),
            messages.deep_view() == start + item_messages(all.take(i as int)),
        decreases items@.len() - i,
    {
        assert(all.take(i + 1).drop_last() =~= all.take(i as int));
        assert(all.take(i + 1).last() == items@[i as int]@);
        let ghost before = messages.deep_view();
        match read_visible_message(&items[i]) {
            Some(message) => {
                messages.push(message);
                assert(messages.deep_view() =~= before.push(message@));
                assert(before.push(message@) =~= start + item_messages(all.take(i + 1)));
            },
            None => {},
        }
        i += 1;
    }
    assert(all.take(i as int) =~= all);
}

pub fn extract_visible_messages(result: &Json) -> (r: Result<Vec<VisibleMessage>, String>)
    ensures
        match r {
            Ok(messages) => messages_of(result@) == Ok::<Seq<MessageView>, Seq<char>>(
                messages.deep_view(),
            ),
            Err(error) => messages_of(result@) == Err::<Seq<MessageView>, Seq<char>>(error@),
        },
{
    let thread = match result.get("thread") {
        Some(thread) => thread,
        None => {
            return Err("thread/read result omitted thread".to_owned());
        },
    };
    let turns = match thread.array_field("turns") {
        Some(turns) => turns,
        None => {
            return Err("thread/read result omitted turns array".to_owned());
        },
    };
    let ghost all = turns.deep_view();
    let mut messages: Vec<VisibleMessage> = Vec::new();
    let mut i: usize = 0;
    assert(all.take(0) =~= Seq::empty());
    assert(messages.deep_view() =~= Seq::empty());
    while i < turns.len()
        invariant
            i <= turns@.len(),
            all == turns.deep_view(),
            messages.deep_view() == turn_messages(all.take(i as int)),
        decreases turns@.len() - i,
    {
        assert(all.take(i + 1).drop_last() =~= all.take(i as int));
        assert(all.take(i + 1).last() == turns@[i as int]@);
        match turns[i].array_field("items") {
            Some(items) => {
                append_items(&mut messages, items);
            },
            None => {
                assert(messages.deep_view() + Seq::<MessageView>::empty()
                    =~= messages.deep_view());
            },
        }
        i += 1;
    }
    assert(all.take(i as int) =~= all);
    Ok(messages)
}

/// The threads of the pages that were read so far, and where the next page starts.
#[derive(Debug, PartialEq, Eq)]
pub struct ThreadListing {
    pub threads: Vec<RemoteThread>,
    pub cursor: Option<String>,
}

/// A listing as a mathematical value.
#[verifier::ext_equal]
pub struct ListingView {
    pub threads: Seq<MetadataView>,
    pub cursor: Option<Seq<char>>,
}

impl View for ThreadListing {
    type V = ListingView;

    open spec fn view(&self) -> ListingView {
        ListingView { threads: self.threads.deep_view(), cursor: self.cursor.deep_view() }
    }
}

/// The listing before the first page.
pub open spec fn empty_listing() -> ListingView {
    ListingView { threads: Seq::empty(), cursor: None }
}

/// The listing after one more page, and whether a further page follows. A page that leads to itself
/// is an error.
pub open spec fn listed_page(listing: ListingView, result: JsonView) -> Result<
    (ListingView, bool),
    Seq<char>,
> {
    match page_of(result) {
        Err(error) => Err(error),
        Ok((page, next)) => {
            let threads = listing.threads + page;
            match next {
                None => Ok((ListingView { threads, cursor: listing.cursor }, false)),
                Some(cursor) => if next == listing.cursor {
                    Err("App Server returned a repeated thread/list cursor"@)
                } else {
                    Ok((ListingView { threads, cursor: next }, true))
                },
            }
        },
    }
}

fn same_cursor(a: &Option<String>, b: &str) -> (r: bool)
    ensures
        r == (a.deep_view() == Some(b@)),
{
    match a {
        Some(a) => same(a.as_str(), b),
        None => false,
    }
}

fn append_threads(threads: &mut Vec<RemoteThread>, page: Vec<RemoteThread>)
    ensures
        final(threads).deep_view() == old(threads).deep_view() + page.deep_view(),
{
    let ghost added = page.deep_view();
    let mut rest = page;
    threads.append(&mut rest);
    assert(threads.deep_view() =~= old(threads).deep_view() + added);
}

impl ThreadListing {
    pub fn new() -> (r: ThreadListing)
        ensures
            r@ == empty_listing(),
    {
        let r = ThreadListing { threads: Vec::new(), cursor: None };
        assert(r@ =~= empty_listing());
        r
    }

    /// What the request for the next page asks for.
    pub fn params(&self, sources: &[SourceKind]) -> (r: Json)
        ensures
            r@ == list_params(sources@, self@.cursor),
    {
        match &self.cursor {
            Some(cursor) => thread_list_params(sources, Some(cursor.as_str())),
            None => thread_list_params(sources, None),
        }
    }

    /// Takes a page in, and says whether a further page follows.
    pub fn accept(self, result: &Json) -> (r: Result<(ThreadListing, bool), String>)
        ensures
            match r {
                Ok((listing, more)) => listed_page(self@, result@) == Ok::<
                    (ListingView, bool),
                    Seq<char>,
                >((listing@, more)),
                Err(error) => listed_page(self@, result@) == Err::<(ListingView, bool), Seq<char>>(
                    error@,
                ),
            },
    {
        let (page, next) = match parse_thread_list_page(result) {
            Ok(parsed) => parsed,
            Err(error) => {
                return Err(error);
            },
        };
        let mut threads = self.threads;
        append_threads(&mut threads, page);
        match next {
            None => Ok((ThreadListing { threads, cursor: self.cursor }, false)),
            Some(cursor) => if same_cursor(&self.cursor, cursor.as_str()) {
                Err("App Server returned a repeated thread/list cursor".to_owned())
            } else {
                Ok((ThreadListing { threads, cursor: Some(cursor) }, true))
            },
        }
    }
}

/// The items of a turn.
pub open spec fn turn_items(turn: JsonView) -> Seq<JsonView> {
    match json::array_field(turn, "items"@) {
        Some(items) => items,
        None => Seq::empty(),
    }
}

proof fn lemma_item_source(items: Seq<JsonView>, k: int) -> (j: int)
    requires
        0 <= k < item_messages(items).len(),
    ensures
        0 <= j < items.len(),
        visible_message(items[j]) == Some(item_messages(items)[k]),
    decreases items.len(),
{
    let rest = items.drop_last();
    if k < item_messages(rest).len() {
        let j = lemma_item_source(rest, k);
        assert(rest[j] == items[j]);
        j
    } else {
        items.len() - 1
    }
}

proof fn lemma_message_source(turns: Seq<JsonView>, k: int) -> (at: (int, int))
    requires
        0 <= k < turn_messages(turns).len(),
    ensures
        0 <= at.0 < turns.len(),
        0 <= at.1 < turn_items(turns[at.0]).len(),
        visible_message(turn_items(turns[at.0])[at.1]) == Some(turn_messages(turns)[k]),
    decreases turns.len(),
{
    let rest = turns.drop_last();
    let before = turn_messages(rest).len();
    if k < before {
        let at = lemma_message_source(rest, k);
        assert(rest[at.0] == turns[at.0]);
        at
    } else {
        let j = lemma_item_source(turn_items(turns.last()), k - before);
        (turns.len() - 1, j)
    }
}

/// Every message of a thread is shown by an item of one of its turns: by a user message for the
/// user's role and by an agent message for the assistant's. It is not blank. Nothing else of a
/// thread, such as reasoning or the output of tools, becomes a message.
pub proof fn only_visible_items_become_messages(turns: Seq<JsonView>, k: int)
    requires
        0 <= k < turn_messages(turns).len(),
    ensures
        text::trimmed(turn_messages(turns)[k].text).len() > 0,
        exists|t: int, j: int|
            #![trigger turn_items(turns[t])[j]]
            0 <= t < turns.len() && 0 <= j < turn_items(turns[t]).len() && visible_message(
                turn_items(turns[t])[j],
            ) == Some(turn_messages(turns)[k]) && json::text_field(
                turn_items(turns[t])[j],
                "type"@,
            ) == Some(
                match turn_messages(turns)[k].role {
                    MessageRole::User => "userMessage"@,
                    MessageRole::Assistant => "agentMessage"@,
                },
            ),
{
    let at = lemma_message_source(turns, k);
    let item = turn_items(turns[at.0])[at.1];
    assert(visible_message(item) == Some(turn_messages(turns)[k]));
}

/// The threads of a page come after those of the pages before it, each in the order in which the
/// App Server listed them, and no thread of an accepted page is lost.
pub proof fn pages_are_kept_in_order(listing: ListingView, result: JsonView)
    requires
        listed_page(listing, result) is Ok,
    ensures
        page_of(result) is Ok,
        listed_page(listing, result)->Ok_0.0.threads == listing.threads + page_of(
            result,
        )->Ok_0.0,
        listed_page(listing, result)->Ok_0.1 ==> listed_page(listing, result)->Ok_0.0.cursor
            != listing.cursor,
{
}

} // verus!
