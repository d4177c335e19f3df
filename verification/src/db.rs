//! The tracked sessions and the jobs that enrich them.

use vstd::prelude::*;

use crate::config;
use crate::config::{SummaryInput, SummaryProvider};
use crate::summary;
use crate::table::Table;
use crate::text;
use crate::text::{
    copy_text, copy_texts, count_bytes, join, less, quote, same, signed_text, split_whitespace,
    to_ascii_lowercase, to_lowercase, trim, until_nul,
};

verus! {

/// What the App Server says of a thread.
#[derive(Debug, PartialEq, Eq)]
pub struct SessionMetadata {
    pub thread_id: String,
    pub cwd: String,
    pub source: String,
    pub model: Option<String>,
    pub model_provider: Option<String>,
    pub created_at: Option<i64>,
    pub updated_at: Option<i64>,
    pub recency_at: Option<i64>,
    pub generated_title: Option<String>,
}

/// The metadata of a thread as a mathematical value.
#[verifier::ext_equal]
pub struct MetadataView {
    pub thread_id: Seq<char>,
    pub cwd: Seq<char>,
    pub source: Seq<char>,
    pub model: Option<Seq<char>>,
    pub model_provider: Option<Seq<char>>,
    pub created_at: Option<i64>,
    pub updated_at: Option<i64>,
    pub recency_at: Option<i64>,
    pub generated_title: Option<Seq<char>>,
}

impl View for SessionMetadata {
    type V = MetadataView;

    open spec fn view(&self) -> MetadataView {
        MetadataView {
            thread_id: self.thread_id@,
            cwd: self.cwd@,
            source: self.source@,
            model: self.model.deep_view(),
            model_provider: self.model_provider.deep_view(),
            created_at: self.created_at,
            updated_at: self.updated_at,
            recency_at: self.recency_at,
            generated_title: self.generated_title.deep_view(),
        }
    }
}

impl DeepView for SessionMetadata {
    type V = MetadataView;

    open spec fn deep_view(&self) -> MetadataView {
        self@
    }
}

impl Clone for SessionMetadata {
    fn clone(&self) -> (r: Self)
        ensures
            r@ == self@,
    {
        SessionMetadata {
            thread_id: self.thread_id.clone(),
            cwd: self.cwd.clone(),
            source: self.source.clone(),
            model: copy_text(&self.model),
            model_provider: copy_text(&self.model_provider),
            created_at: self.created_at,
            updated_at: self.updated_at,
            recency_at: self.recency_at,
            generated_title: copy_text(&self.generated_title),
        }
    }
}

/// The command that resumes a thread.
pub open spec fn resume_command(thread_id: Seq<char>) -> Seq<char> {
    "codex resume "@ + thread_id
}

fn resume_command_of(thread_id: &str) -> (r: String)
    ensures
        r@ == resume_command(thread_id@),
{
    "codex resume ".to_owned().concat(thread_id)
}

impl SessionMetadata {
    pub fn resume_command(&self) -> (r: String)
        ensures
            r@ == resume_command(self.thread_id@),
    {
        resume_command_of(self.thread_id.as_str())
    }
}

/// A tracked session.
#[derive(Debug, PartialEq, Eq)]
pub struct Session {
    pub thread_id: String,
    pub resume_command: String,
    pub cwd: String,
    pub source: String,
    pub model: Option<String>,
    pub model_provider: Option<String>,
    pub created_at: Option<i64>,
    pub updated_at: Option<i64>,
    pub recency_at: Option<i64>,
    pub ended_at: Option<i64>,
    pub generated_title: Option<String>,
    pub generated_summary: Option<String>,
    pub manual_title: Option<String>,
    pub manual_summary: Option<String>,
    pub notes: String,
    pub pinned: bool,
    pub summary_provider: Option<String>,
    pub summary_cap: Option<String>,
    pub summary_status: String,
    pub summary_error: Option<String>,
    pub tags: Vec<String>,
}

/// A tracked session as a mathematical value.
#[verifier::ext_equal]
pub struct SessionView {
    pub thread_id: Seq<char>,
    pub resume_command: Seq<char>,
    pub cwd: Seq<char>,
    pub source: Seq<char>,
    pub model: Option<Seq<char>>,
    pub model_provider: Option<Seq<char>>,
    pub created_at: Option<i64>,
    pub updated_at: Option<i64>,
    pub recency_at: Option<i64>,
    pub ended_at: Option<i64>,
    pub generated_title: Option<Seq<char>>,
    pub generated_summary: Option<Seq<char>>,
    pub manual_title: Option<Seq<char>>,
    pub manual_summary: Option<Seq<char>>,
    pub notes: Seq<char>,
    pub pinned: bool,
    pub summary_provider: Option<Seq<char>>,
    pub summary_cap: Option<Seq<char>>,
    pub summary_status: Seq<char>,
    pub summary_error: Option<Seq<char>>,
    pub tags: Seq<Seq<char>>,
}

impl View for Session {
    type V = SessionView;

    open spec fn view(&self) -> SessionView {
        SessionView {
            thread_id: self.thread_id@,
            resume_command: self.resume_command@,
            cwd: self.cwd@,
            source: self.source@,
            model: self.model.deep_view(),
            model_provider: self.model_provider.deep_view(),
            created_at: self.created_at,
            updated_at: self.updated_at,
            recency_at: self.recency_at,
            ended_at: self.ended_at,
            generated_title: self.generated_title.deep_view(),
            generated_summary: self.generated_summary.deep_view(),
            manual_title: self.manual_title.deep_view(),
            manual_summary: self.manual_summary.deep_view(),
            notes: self.notes@,
            pinned: self.pinned,
            summary_provider: self.summary_provider.deep_view(),
            summary_cap: self.summary_cap.deep_view(),
            summary_status: self.summary_status@,
            summary_error: self.summary_error.deep_view(),
            tags: self.tags.deep_view(),
        }
    }
}

impl DeepView for Session {
    type V = SessionView;

    open spec fn deep_view(&self) -> SessionView {
        self@
    }
}

impl Clone for Session {
    fn clone(&self) -> (r: Self)
        ensures
            r@ == self@,
    {
        Session {
            thread_id: self.thread_id.clone(),
            resume_command: self.resume_command.clone(),
            cwd: self.cwd.clone(),
            source: self.source.clone(),
            model: copy_text(&self.model),
            model_provider: copy_text(&self.model_provider),
            created_at: self.created_at,
            updated_at: self.updated_at,
            recency_at: self.recency_at,
            ended_at: self.ended_at,
            generated_title: copy_text(&self.generated_title),
            generated_summary: copy_text(&self.generated_summary),
            manual_title: copy_text(&self.manual_title),
            manual_summary: copy_text(&self.manual_summary),
            notes: self.notes.clone(),
            pinned: self.pinned,
            summary_provider: copy_text(&self.summary_provider),
            summary_cap: copy_text(&self.summary_cap),
            summary_status: self.summary_status.clone(),
            summary_error: copy_text(&self.summary_error),
            tags: copy_texts(&self.tags),
        }
    }
}

/// The title that is shown: the manual one, else the generated one.
pub open spec fn shown_title(session: SessionView) -> Seq<char> {
    match session.manual_title {
        Some(title) => title,
        None => match session.generated_title {
            Some(title) => title,
            None => "Untitled Codex session"@,
        },
    }
}

/// The summary that is shown: the manual one, else the generated one.
pub open spec fn shown_summary(session: SessionView) -> Seq<char> {
    match session.manual_summary {
        Some(summary) => summary,
        None => match session.generated_summary {
            Some(summary) => summary,
            None => ""@,
        },
    }
}

/// The text of an optional field, empty where there is none.
pub open spec fn text_or_empty(value: Option<Seq<char>>) -> Seq<char> {
    match value {
        Some(text) => text,
        None => ""@,
    }
}

/// What a search looks through, in the letter case that it was entered in.
pub open spec fn search_fields(session: SessionView) -> Seq<Seq<char>> {
    seq![
        shown_title(session),
        shown_summary(session),
        session.cwd,
        session.source,
        text_or_empty(session.model),
        text_or_empty(session.model_provider),
        session.notes,
        text::joined(session.tags, " "@),
    ]
}

/// What a search looks through.
pub open spec fn search_text(session: SessionView) -> Seq<char> {
    text::unicode_lower(text::joined(search_fields(session), "\n"@))
}

fn or_empty(value: &Option<String>) -> (r: &str)
    ensures
        r@ == text_or_empty(value.deep_view()),
{
    match value {
        Some(text) => text.as_str(),
        None => "",
    }
}

impl Session {
    pub fn title(&self) -> (r: &str)
        ensures
            r@ == shown_title(self@),
    {
        match &self.manual_title {
            Some(title) => title.as_str(),
            None => match &self.generated_title {
                Some(title) => title.as_str(),
                None => "Untitled Codex session",
            },
        }
    }

    pub fn summary(&self) -> (r: &str)
        ensures
            r@ == shown_summary(self@),
    {
        match &self.manual_summary {
            Some(summary) => summary.as_str(),
            None => or_empty(&self.generated_summary),
        }
    }

    pub fn searchable_text(&self) -> (r: String)
        ensures
            r@ == search_text(self@),
    {
        let mut fields: Vec<String> = Vec::new();
        fields.push(self.title().to_owned());
        fields.push(self.summary().to_owned());
        fields.push(self.cwd.clone());
        fields.push(self.source.clone());
        fields.push(or_empty(&self.model).to_owned());
        fields.push(or_empty(&self.model_provider).to_owned());
        fields.push(self.notes.clone());
        fields.push(join(&self.tags, " "));
        assert(fields.deep_view() =~= search_fields(self@));
        to_lowercase(join(&fields, "\n").as_str())
    }
}

/// A request to enrich a thread.
#[derive(Debug, PartialEq, Eq)]
pub struct Job {
    pub thread_id: String,
    pub provider: String,
    pub cap: String,
    pub status: String,
    pub attempts: u32,
    pub last_error: Option<String>,
}

/// A job as a mathematical value.
#[verifier::ext_equal]
pub struct JobView {
    pub thread_id: Seq<char>,
    pub provider: Seq<char>,
    pub cap: Seq<char>,
    pub status: Seq<char>,
    pub attempts: u32,
    pub last_error: Option<Seq<char>>,
}

impl View for Job {
    type V = JobView;

    open spec fn view(&self) -> JobView {
        JobView {
            thread_id: self.thread_id@,
            provider: self.provider@,
            cap: self.cap@,
            status: self.status@,
            attempts: self.attempts,
            last_error: self.last_error.deep_view(),
        }
    }
}

impl DeepView for Job {
    type V = JobView;

    open spec fn deep_view(&self) -> JobView {
        self@
    }
}

impl Clone for Job {
    fn clone(&self) -> (r: Self)
        ensures
            r@ == self@,
    {
        Job {
            thread_id: self.thread_id.clone(),
            provider: self.provider.clone(),
            cap: self.cap.clone(),
            status: self.status.clone(),
            attempts: self.attempts,
            last_error: copy_text(&self.last_error),
        }
    }
}

/// A session as it is stored.
#[derive(Debug, PartialEq, Eq)]
pub struct StoredSession {
    pub session: Session,
    pub last_synced_at: i64,
}

/// A stored session as a mathematical value.
#[verifier::ext_equal]
pub struct StoredView {
    pub session: SessionView,
    pub last_synced_at: i64,
}

impl View for StoredSession {
    type V = StoredView;

    open spec fn view(&self) -> StoredView {
        StoredView {
            session: self.session@,
            last_synced_at: self.last_synced_at,
        }
    }
}

impl DeepView for StoredSession {
    type V = StoredView;

    open spec fn deep_view(&self) -> StoredView {
        self@
    }
}

/// A job as it is stored.
#[derive(Debug, PartialEq, Eq)]
pub struct StoredJob {
    pub provider: String,
    pub cap: String,
    pub status: String,
    pub attempts: i64,
    pub last_error: Option<String>,
    pub created_at: i64,
    pub updated_at: i64,
}

/// A stored job as a mathematical value.
#[verifier::ext_equal]
pub struct StoredJobView {
    pub provider: Seq<char>,
    pub cap: Seq<char>,
    pub status: Seq<char>,
    pub attempts: i64,
    pub last_error: Option<Seq<char>>,
    pub created_at: i64,
    pub updated_at: i64,
}

impl View for StoredJob {
    type V = StoredJobView;

    open spec fn view(&self) -> StoredJobView {
        StoredJobView {
            provider: self.provider@,
            cap: self.cap@,
            status: self.status@,
            attempts: self.attempts,
            last_error: self.last_error.deep_view(),
            created_at: self.created_at,
            updated_at: self.updated_at,
        }
    }
}

impl DeepView for StoredJob {
    type V = StoredJobView;

    open spec fn deep_view(&self) -> StoredJobView {
        self@
    }
}

/// The sessions, the names of the tags and the jobs that the tracker keeps.
#[derive(Debug)]
pub struct Database {
    pub path: String,
    pub sessions: Table<StoredSession>,
    pub tag_names: Vec<String>,
    pub jobs: Table<StoredJob>,
}

/// What the tracker keeps, as a mathematical value.
#[verifier::ext_equal]
pub struct DatabaseView {
    pub sessions: Map<Seq<char>, StoredView>,
    pub tag_names: Seq<Seq<char>>,
    pub jobs: Map<Seq<char>, StoredJobView>,
}

impl View for Database {
    type V = DatabaseView;

    open spec fn view(&self) -> DatabaseView {
        DatabaseView {
            sessions: self.sessions@,
            tag_names: self.tag_names.deep_view(),
            jobs: self.jobs@,
        }
    }
}

/// Whether every session is found by its own name and every job belongs to a session.
pub open spec fn consistent(data: DatabaseView) -> bool {
    &&& forall|id: Seq<char>|
        data.sessions.contains_key(id) ==> (#[trigger] data.sessions[id]).session.thread_id == id
    &&& forall|id: Seq<char>| #[trigger]
        data.jobs.contains_key(id) ==> data.sessions.contains_key(id)
}

/// A session that nothing is known of but its name and its directory.
pub open spec fn blank_session(
    thread_id: Seq<char>,
    cwd: Seq<char>,
    source: Seq<char>,
    summary_status: Seq<char>,
) -> SessionView {
    SessionView {
        thread_id,
        resume_command: resume_command(thread_id),
        cwd,
        source,
        model: None,
        model_provider: None,
        created_at: None,
        updated_at: None,
        recency_at: None,
        ended_at: None,
        generated_title: None,
        generated_summary: None,
        manual_title: None,
        manual_summary: None,
        notes: ""@,
        pinned: false,
        summary_provider: None,
        summary_cap: None,
        summary_status,
        summary_error: None,
        tags: Seq::empty(),
    }
}

fn new_session(thread_id: &str, cwd: &str, source: &str, summary_status: &str) -> (r: Session)
    ensures
        r@ == blank_session(thread_id@, cwd@, source@, summary_status@),
{
    let r = Session {
        thread_id: thread_id.to_owned(),
        resume_command: resume_command_of(thread_id),
        cwd: cwd.to_owned(),
        source: source.to_owned(),
        model: None,
        model_provider: None,
        created_at: None,
        updated_at: None,
        recency_at: None,
        ended_at: None,
        generated_title: None,
        generated_summary: None,
        manual_title: None,
        manual_summary: None,
        notes: "".to_owned(),
        pinned: false,
        summary_provider: None,
        summary_cap: None,
        summary_status: summary_status.to_owned(),
        summary_error: None,
        tags: Vec::new(),
    };
    assert(r@.tags =~= Seq::empty());
    r
}

/// The row of a session, if there is one.
pub open spec fn stored(data: DatabaseView, thread_id: Seq<char>) -> Option<StoredView> {
    if data.sessions.contains_key(thread_id) {
        Some(data.sessions[thread_id])
    } else {
        None
    }
}

/// The row of a session whose end was reported: where it is new, only its end and its directory are
/// known of it, and else these are set and the rest stays.
pub open spec fn hooked(
    row: Option<StoredView>,
    thread_id: Seq<char>,
    cwd: Seq<char>,
    ended_at: i64,
) -> StoredView {
    let session = match row {
        None => blank_session(thread_id, cwd, "unknown"@, "pending_metadata"@),
        Some(row) => row.session,
    };
    StoredView {
        session: SessionView {
            resume_command: resume_command(thread_id),
            cwd,
            ended_at: Some(ended_at),
            ..session
        },
        last_synced_at: ended_at,
    }
}

/// The first of two values that is there.
pub open spec fn either<T>(first: Option<T>, second: Option<T>) -> Option<T> {
    match first {
        Some(value) => Some(value),
        None => second,
    }
}

/// A title, where an empty one is none.
pub open spec fn filled(title: Option<Seq<char>>) -> Option<Seq<char>> {
    match title {
        Some(text) => if text.len() == 0 {
            None
        } else {
            Some(text)
        },
        None => None,
    }
}

/// The row of a session that was listed: what the listing does not say of it stays.
pub open spec fn listed(row: Option<StoredView>, metadata: MetadataView, now: i64) -> StoredView {
    StoredView {
        session: match row {
            None => SessionView {
                model: metadata.model,
                model_provider: metadata.model_provider,
                created_at: metadata.created_at,
                updated_at: metadata.updated_at,
                recency_at: metadata.recency_at,
                generated_title: metadata.generated_title,
                ..blank_session(
                    metadata.thread_id,
                    metadata.cwd,
                    metadata.source,
                    "not_requested"@,
                )
            },
            Some(row) => SessionView {
                resume_command: resume_command(metadata.thread_id),
                cwd: metadata.cwd,
                source: metadata.source,
                model: either(metadata.model, row.session.model),
                model_provider: either(metadata.model_provider, row.session.model_provider),
                created_at: either(metadata.created_at, row.session.created_at),
                updated_at: either(metadata.updated_at, row.session.updated_at),
                recency_at: either(metadata.recency_at, row.session.recency_at),
                generated_title: either(
                    filled(metadata.generated_title),
                    row.session.generated_title,
                ),
                ..row.session
            },
        },
        last_synced_at: now,
    }
}

/// What the tracker keeps, with a row for a session.
pub open spec fn with_row(data: DatabaseView, thread_id: Seq<char>, row: StoredView) -> DatabaseView {
    DatabaseView { sessions: data.sessions.insert(thread_id, row), ..data }
}

/// What the tracker keeps, with a session changed where it is kept.
pub open spec fn with_session(
    data: DatabaseView,
    thread_id: Seq<char>,
    session: SessionView,
) -> DatabaseView {
    match stored(data, thread_id) {
        None => data,
        Some(row) => with_row(data, thread_id, StoredView { session, ..row }),
    }
}

/// What the tracker keeps after the end of a session was reported.
pub open spec fn after_hook(
    data: DatabaseView,
    thread_id: Seq<char>,
    cwd: Seq<char>,
    ended_at: i64,
) -> DatabaseView {
    with_row(data, thread_id, hooked(stored(data, thread_id), thread_id, cwd, ended_at))
}

/// What the tracker keeps after a session was listed.
pub open spec fn after_listing(data: DatabaseView, metadata: MetadataView, now: i64) -> DatabaseView {
    with_row(
        data,
        metadata.thread_id,
        listed(stored(data, metadata.thread_id), metadata, now),
    )
}

/// What the tracker keeps after a summary was made.
pub open spec fn after_summary(
    data: DatabaseView,
    thread_id: Seq<char>,
    title: Seq<char>,
    summary: Seq<char>,
    provider: SummaryProvider,
    cap: SummaryInput,
    now: i64,
) -> DatabaseView {
    match stored(data, thread_id) {
        None => data,
        Some(row) => with_row(
            data,
            thread_id,
            StoredView {
                session: SessionView {
                    generated_title: Some(title),
                    generated_summary: Some(summary),
                    summary_provider: Some(config::provider_name(provider)),
                    summary_cap: Some(config::input_name(cap)),
                    summary_status: "ready"@,
                    summary_error: None,
                    ..row.session
                },
                last_synced_at: now,
            },
        ),
    }
}

/// What the tracker keeps after the state of a summary was set.
pub open spec fn after_status(
    data: DatabaseView,
    thread_id: Seq<char>,
    summary_status: Seq<char>,
    summary_error: Option<Seq<char>>,
) -> DatabaseView {
    with_session(
        data,
        thread_id,
        SessionView { summary_status, summary_error, ..data.sessions[thread_id].session },
    )
}

/// A text that overrides another: a blank one does not.
pub open spec fn override_of(value: Option<Seq<char>>) -> Option<Seq<char>> {
    match value {
        Some(text) => if text::trimmed(text).len() == 0 {
            None
        } else {
            Some(text)
        },
        None => None,
    }
}

fn override_text(value: Option<&str>) -> (r: Option<String>)
    ensures
        r.deep_view() == override_of(value.deep_view()),
{
    match value {
        Some(text) => if trim(text).as_str().is_empty() {
            None
        } else {
            Some(text.to_owned())
        },
        None => None,
    }
}

/// Whether two texts are one, whatever the letter case of their ASCII letters.
pub open spec fn same_word(a: Seq<char>, b: Seq<char>) -> bool {
    text::ascii_folded(a) == text::ascii_folded(b)
}

/// Whether one of `words` is `word`.
pub open spec fn has_word(words: Seq<Seq<char>>, word: Seq<char>) -> bool {
    exists|i: int| 0 <= i < words.len() && same_word(#[trigger] words[i], word)
}

/// What the names of tags are told apart and ordered by, as by the collation `NOCASE` of SQLite: what
/// stands before the first NUL, whatever its letter case, and after that the length in bytes.
pub open spec fn tag_key(tag: Seq<char>) -> (Seq<char>, nat) {
    (text::ascii_folded(text::before_nul(tag)), text::byte_count(tag))
}

/// Whether two names are of one tag.
pub open spec fn same_tag(a: Seq<char>, b: Seq<char>) -> bool {
    tag_key(a) == tag_key(b)
}

/// Whether one of `tags` is `tag`.
pub open spec fn has_tag(tags: Seq<Seq<char>>, tag: Seq<char>) -> bool {
    exists|i: int| 0 <= i < tags.len() && same_tag(#[trigger] tags[i], tag)
}

/// The tags that were entered, each once, with their white space collapsed.
pub open spec fn normal_tags(tags: Seq<Seq<char>>) -> Seq<Seq<char>>
    decreases tags.len(),
{
    if tags.len() == 0 {
        Seq::empty()
    } else {
        let before = normal_tags(tags.drop_last());
        let tag = summary::collapsed(tags.last());
        if tag.len() == 0 || has_word(before, tag) {
            before
        } else {
            before.push(tag)
        }
    }
}

/// The name under which a tag is kept: the one that it was first entered with.
pub open spec fn kept_name(names: Seq<Seq<char>>, tag: Seq<char>) -> Seq<char>
    decreases names.len(),
{
    if names.len() == 0 {
        tag
    } else if same_tag(names[0], tag) {
        names[0]
    } else {
        kept_name(names.drop_first(), tag)
    }
}

/// The names of the tags with those of `tags` that are new.
pub open spec fn with_names(names: Seq<Seq<char>>, tags: Seq<Seq<char>>) -> Seq<Seq<char>>
    decreases tags.len(),
{
    if tags.len() == 0 {
        names
    } else {
        let before = with_names(names, tags.drop_last());
        if has_tag(before, tags.last()) {
            before
        } else {
            before.push(tags.last())
        }
    }
}

/// Whether a tag comes before another.
pub open spec fn tag_precedes(a: Seq<char>, b: Seq<char>) -> bool {
    let x = tag_key(a);
    let y = tag_key(b);
    text::precedes(x.0, y.0) || x.0 == y.0 && x.1 < y.1
}

/// `tags` with `tag` in front of the first that comes after it.
pub open spec fn placed(tags: Seq<Seq<char>>, tag: Seq<char>) -> Seq<Seq<char>>
    decreases tags.len(),
{
    if tags.len() == 0 {
        seq![tag]
    } else if tag_precedes(tag, tags[0]) {
        seq![tag] + tags
    } else {
        seq![tags[0]] + placed(tags.drop_first(), tag)
    }
}

/// The names under which `tags` are kept, in order and each once.
pub open spec fn kept_in_order(names: Seq<Seq<char>>, tags: Seq<Seq<char>>) -> Seq<Seq<char>>
    decreases tags.len(),
{
    if tags.len() == 0 {
        Seq::empty()
    } else {
        let before = kept_in_order(names, tags.drop_last());
        let name = kept_name(names, tags.last());
        if has_tag(before, name) {
            before
        } else {
            placed(before, name)
        }
    }
}

/// What the tracker keeps after the tags of a session were set. Tags for a session that is not kept
/// are refused.
pub open spec fn after_tags(
    data: DatabaseView,
    thread_id: Seq<char>,
    tags: Seq<Seq<char>>,
) -> Result<DatabaseView, Seq<char>> {
    let entered = normal_tags(tags);
    if !data.sessions.contains_key(thread_id) {
        if entered.len() == 0 {
            Ok(data)
        } else {
            Err("FOREIGN KEY constraint failed"@)
        }
    } else {
        let tag_names = with_names(data.tag_names, entered);
        Ok(
            with_session(
                DatabaseView { tag_names, ..data },
                thread_id,
                SessionView {
                    tags: kept_in_order(tag_names, entered),
                    ..data.sessions[thread_id].session
                },
            ),
        )
    }
}

/// The time that a session is listed by.
pub open spec fn recency(session: SessionView) -> i64 {
    match either(
        session.recency_at,
        either(session.updated_at, either(session.ended_at, session.created_at)),
    ) {
        Some(time) => time,
        None => 0,
    }
}

/// Whether a session is listed before another: pinned ones first, then the latest, then by name.
pub open spec fn listed_before(a: SessionView, b: SessionView) -> bool {
    if a.pinned != b.pinned {
        a.pinned
    } else if recency(a) != recency(b) {
        recency(a) > recency(b)
    } else {
        text::precedes(a.thread_id, b.thread_id)
    }
}

/// Whether `list` holds every session once, in order.
pub open spec fn is_listing(sessions: Map<Seq<char>, StoredView>, list: Seq<SessionView>) -> bool {
    &&& forall|i: int, j: int|
        0 <= i < j < list.len() ==> listed_before(#[trigger] list[i], #[trigger] list[j])
    &&& forall|i: int|
        0 <= i < list.len() ==> sessions.contains_key((#[trigger] list[i]).thread_id)
            && sessions[list[i].thread_id].session == list[i]
    &&& forall|id: Seq<char>| #[trigger]
        sessions.contains_key(id) ==> exists|i: int|
            0 <= i < list.len() && (#[trigger] list[i]).thread_id == id
}

/// The row of a job, if there is one.
pub open spec fn stored_job(data: DatabaseView, thread_id: Seq<char>) -> Option<StoredJobView> {
    if data.jobs.contains_key(thread_id) {
        Some(data.jobs[thread_id])
    } else {
        None
    }
}

/// What the tracker keeps, with a row for a job.
pub open spec fn with_job(data: DatabaseView, thread_id: Seq<char>, row: StoredJobView) -> DatabaseView {
    DatabaseView { jobs: data.jobs.insert(thread_id, row), ..data }
}

/// What the tracker keeps after a job was queued. A job for a session that is not kept is refused.
pub open spec fn after_queue(
    data: DatabaseView,
    thread_id: Seq<char>,
    provider: Seq<char>,
    cap: SummaryInput,
    now: i64,
) -> Result<DatabaseView, Seq<char>> {
    if !data.sessions.contains_key(thread_id) {
        Err("FOREIGN KEY constraint failed"@)
    } else {
        let before = stored_job(data, thread_id);
        Ok(
            with_job(
                data,
                thread_id,
                StoredJobView {
                    provider,
                    cap: config::input_name(cap),
                    status: "queued"@,
                    attempts: match before {
                        Some(row) => row.attempts,
                        None => 0,
                    },
                    last_error: None,
                    created_at: match before {
                        Some(row) => row.created_at,
                        None => now,
                    },
                    updated_at: now,
                },
            ),
        )
    }
}

/// A job that was found, or why it cannot be told.
pub open spec fn found_job(data: DatabaseView, thread_id: Seq<char>) -> Result<
    Option<JobView>,
    Seq<char>,
> {
    match stored_job(data, thread_id) {
        None => Ok(None),
        Some(row) => if 0 <= row.attempts <= u32::MAX {
            Ok(
                Some(
                    JobView {
                        thread_id,
                        provider: row.provider,
                        cap: row.cap,
                        status: row.status,
                        attempts: row.attempts as u32,
                        last_error: row.last_error,
                    },
                ),
            )
        } else {
            Err("Integer "@ + text::signed_decimal(row.attempts as int) + " out of range at index 4"@)
        },
    }
}

/// What the tracker keeps after a job was begun.
pub open spec fn after_start(data: DatabaseView, thread_id: Seq<char>, now: i64) -> DatabaseView {
    match stored_job(data, thread_id) {
        None => data,
        Some(row) => with_job(
            data,
            thread_id,
            StoredJobView {
                status: "running"@,
                attempts: if row.attempts < i64::MAX {
                    (row.attempts + 1) as i64
                } else {
                    row.attempts
                },
                updated_at: now,
                ..row
            },
        ),
    }
}

/// What the tracker keeps after a job came to an end.
pub open spec fn after_end(
    data: DatabaseView,
    thread_id: Seq<char>,
    status: Seq<char>,
    last_error: Option<Seq<char>>,
    now: i64,
) -> DatabaseView {
    match stored_job(data, thread_id) {
        None => data,
        Some(row) => with_job(
            data,
            thread_id,
            StoredJobView { status, last_error, updated_at: now, ..row },
        ),
    }
}

fn copy_either(first: &Option<String>, second: &Option<String>) -> (r: Option<String>)
    ensures
        r.deep_view() == either(first.deep_view(), second.deep_view()),
{
    match first {
        Some(text) => Some(text.clone()),
        None => copy_text(second),
    }
}

fn time_either(first: Option<i64>, second: Option<i64>) -> (r: Option<i64>)
    ensures
        r == either(first, second),
{
    match first {
        Some(time) => Some(time),
        None => second,
    }
}

fn filled_title(title: &Option<String>) -> (r: Option<String>)
    ensures
        r.deep_view() == filled(title.deep_view()),
{
    match title {
        Some(text) => if text.as_str().is_empty() {
            None
        } else {
            Some(text.clone())
        },
        None => None,
    }
}

fn is_same_word(a: &str, b: &str) -> (r: bool)
    ensures
        r == same_word(a@, b@),
{
    same(to_ascii_lowercase(a).as_str(), to_ascii_lowercase(b).as_str())
}

fn contains_word(words: &Vec<String>, word: &str) -> (r: bool)
    ensures
        r == has_word(words.deep_view(), word@),
{
    let ghost all = words.deep_view();
    let mut i: usize = 0;
    while i < words.len()
        invariant
            i <= words@.len(),
            all == words.deep_view(),
            forall|k: int| 0 <= k < i ==> !same_word(#[trigger] all[k], word@),
        decreases words@.len() - i,
    {
        assert(all[i as int] == words@[i as int]@);
        if is_same_word(words[i].as_str(), word) {
            assert(same_word(all[i as int], word@));
            return true;
        }
        i += 1;
    }
    false
}

fn is_same_tag(a: &str, b: &str) -> (r: bool)
    ensures
        r == same_tag(a@, b@),
{
    is_same_word(until_nul(a).as_str(), until_nul(b).as_str()) && count_bytes(a) == count_bytes(b)
}

fn tag_less(a: &str, b: &str) -> (r: bool)
    ensures
        r == tag_precedes(a@, b@),
{
    let x = to_ascii_lowercase(until_nul(a).as_str());
    let y = to_ascii_lowercase(until_nul(b).as_str());
    less(x.as_str(), y.as_str()) || same(x.as_str(), y.as_str()) && count_bytes(a) < count_bytes(b)
}

fn contains_tag(tags: &Vec<String>, tag: &str) -> (r: bool)
    ensures
        r == has_tag(tags.deep_view(), tag@),
{
    let ghost all = tags.deep_view();
    let mut i: usize = 0;
    while i < tags.len()
        invariant
            i <= tags@.len(),
            all == tags.deep_view(),
            forall|k: int| 0 <= k < i ==> !same_tag(#[trigger] all[k], tag@),
        decreases tags@.len() - i,
    {
        assert(all[i as int] == tags@[i as int]@);
        if is_same_tag(tags[i].as_str(), tag) {
            assert(same_tag(all[i as int], tag@));
            return true;
        }
        i += 1;
    }
    false
}

fn normalize_tags(tags: &[String]) -> (r: Vec<String>)
    ensures
        r.deep_view() == normal_tags(tags.deep_view()),
{
    let ghost all = tags.deep_view();
    let mut out: Vec<String> = Vec::new();
    let mut i: usize = 0;
    assert(all.take(0) =~= Seq::empty());
    assert(out.deep_view() =~= Seq::empty());
    while i < tags.len()
        invariant
            i <= tags@.len(),
            all == tags.deep_view(),
            out.deep_view() == normal_tags(all.take(i as int)),
        decreases tags@.len() - i,
    {
        assert(all.take(i + 1).drop_last() =~= all.take(i as int));
        assert(all.take(i + 1).last() == tags@[i as int]@);
        let ghost before = out.deep_view();
        let tag = join(&split_whitespace(tags[i].as_str()), " ");
        if !tag.as_str().is_empty() && !contains_word(&out, tag.as_str()) {
            out.push(tag);
            assert(out.deep_view() =~= before.push(tag@));
        }
        i += 1;
    }
    assert(all.take(i as int) =~= all);
    out
}

fn add_names(names: &mut Vec<String>, tags: &Vec<String>)
    ensures
        final(names).deep_view() == with_names(old(names).deep_view(), tags.deep_view()),
{
    let ghost start = names.deep_view();
    let ghost all = tags.deep_view();
    let mut i: usize = 0;
    assert(all.take(0) =~= Seq::empty());
    while i < tags.len()
        invariant
            i <= tags@.len(),
            all == tags.deep_view(),
            names.deep_view() == with_names(start, all.take(i as int)),
        decreases tags@.len() - i,
    {
        assert(all.take(i + 1).drop_last() =~= all.take(i as int));
        assert(all.take(i + 1).last() == tags@[i as int]@);
        let ghost before = names.deep_view();
        if !contains_tag(names, tags[i].as_str()) {
            let name = tags[i].clone();
            names.push(name);
            assert(names.deep_view() =~= before.push(name@));
        }
        i += 1;
    }
    assert(all.take(i as int) =~= all);
}

fn kept_name_of(names: &Vec<String>, tag: &str) -> (r: String)
    ensures
        r@ == kept_name(names.deep_view(), tag@),
{
    let ghost all = names.deep_view();
    let mut i: usize = 0;
    assert(all.skip(0) =~= all);
    while i < names.len()
        invariant
            i <= names@.len(),
            all == names.deep_view(),
            kept_name(all, tag@) == kept_name(all.skip(i as int), tag@),
        decreases names@.len() - i,
    {
        assert(all.skip(i as int)[0] == names@[i as int]@);
        assert(all.skip(i as int).drop_first() =~= all.skip(i + 1));
        if is_same_tag(names[i].as_str(), tag) {
            return names[i].clone();
        }
        i += 1;
    }
    tag.to_owned()
}

proof fn lemma_placed(tags: Seq<Seq<char>>, tag: Seq<char>, at: int)
    requires
        0 <= at <= tags.len(),
        forall|i: int| 0 <= i < at ==> !tag_precedes(tag, #[trigger] tags[i]),
        at < tags.len() ==> tag_precedes(tag, tags[at]),
    ensures
        placed(tags, tag) == tags.insert(at, tag),
    decreases tags.len(),
{
    if tags.len() == 0 {
        assert(tags.insert(at, tag) =~= seq![tag]);
    } else if at == 0 {
        assert(tags.insert(at, tag) =~= seq![tag] + tags);
    } else {
        let rest = tags.drop_first();
        assert(!tag_precedes(tag, tags[0]));
        assert forall|i: int| 0 <= i < at - 1 implies !tag_precedes(tag, #[trigger] rest[i]) by {
            assert(rest[i] == tags[i + 1]);
        }
        if at - 1 < rest.len() {
            assert(rest[at - 1] == tags[at]);
        }
        lemma_placed(rest, tag, at - 1);
        assert(seq![tags[0]] + rest.insert(at - 1, tag) =~= tags.insert(at, tag));
    }
}

fn place(tags: &mut Vec<String>, tag: String)
    ensures
        final(tags).deep_view() == placed(old(tags).deep_view(), tag@),
{
    let ghost all = tags.deep_view();
    let mut at: usize = 0;
    while at < tags.len() && !tag_less(tag.as_str(), tags[at].as_str())
        invariant
            at <= tags@.len(),
            all == tags.deep_view(),
            forall|i: int| 0 <= i < at ==> !tag_precedes(tag@, #[trigger] all[i]),
        decreases tags@.len() - at,
    {
        assert(all[at as int] == tags@[at as int]@);
        at += 1;
    }
    proof {
        if at < tags@.len() {
            assert(all[at as int] == tags@[at as int]@);
        }
        lemma_placed(all, tag@, at as int);
    }
    tags.insert(at, tag);
    assert(tags.deep_view() =~= all.insert(at as int, tag@));
}

fn kept_tags(names: &Vec<String>, tags: &Vec<String>) -> (r: Vec<String>)
    ensures
        r.deep_view() == kept_in_order(names.deep_view(), tags.deep_view()),
{
    let ghost all = tags.deep_view();
    let mut out: Vec<String> = Vec::new();
    let mut i: usize = 0;
    assert(all.take(0) =~= Seq::empty());
    assert(out.deep_view() =~= Seq::empty());
    while i < tags.len()
        invariant
            i <= tags@.len(),
            all == tags.deep_view(),
            out.deep_view() == kept_in_order(names.deep_view(), all.take(i as int)),
        decreases tags@.len() - i,
    {
        assert(all.take(i + 1).drop_last() =~= all.take(i as int));
        assert(all.take(i + 1).last() == tags@[i as int]@);
        let name = kept_name_of(names, tags[i].as_str());
        if !contains_tag(&out, name.as_str()) {
            place(&mut out, name);
        }
        i += 1;
    }
    assert(all.take(i as int) =~= all);
    out
}

fn recency_of(session: &Session) -> (r: i64)
    ensures
        r == recency(session@),
{
    match time_either(
        session.recency_at,
        time_either(session.updated_at, time_either(session.ended_at, session.created_at)),
    ) {
        Some(time) => time,
        None => 0,
    }
}

fn is_listed_before(a: &Session, b: &Session) -> (r: bool)
    ensures
        r == listed_before(a@, b@),
{
    if a.pinned != b.pinned {
        return a.pinned;
    }
    let first: i64 = recency_of(a);
    let second: i64 = recency_of(b);
    if first != second {
        first > second
    } else {
        less(a.thread_id.as_str(), b.thread_id.as_str())
    }
}

/// Of two sessions with different names one is listed before the other, and not the other way
/// round; and the order carries over from one session to the next.
pub proof fn listing_order_is_total(a: SessionView, b: SessionView, c: SessionView)
    ensures
        a.thread_id != b.thread_id ==> listed_before(a, b) || listed_before(b, a),
        listed_before(a, b) ==> !listed_before(b, a),
        listed_before(a, b) && listed_before(b, c) ==> listed_before(a, c),
{
    text::precedes_is_total(a.thread_id, b.thread_id);
    if text::precedes(a.thread_id, b.thread_id) && text::precedes(b.thread_id, c.thread_id) {
        text::precedes_is_transitive(a.thread_id, b.thread_id, c.thread_id);
    }
}

/// Whether `list` holds the sessions of `keys`, in order.
spec fn is_partial_listing(
    sessions: Map<Seq<char>, StoredView>,
    keys: Seq<Seq<char>>,
    list: Seq<SessionView>,
) -> bool {
    &&& forall|i: int, j: int|
        0 <= i < j < list.len() ==> listed_before(#[trigger] list[i], #[trigger] list[j])
    &&& forall|i: int|
        0 <= i < list.len() ==> sessions.contains_key((#[trigger] list[i]).thread_id)
            && sessions[list[i].thread_id].session == list[i] && keys.contains(list[i].thread_id)
    &&& forall|id: Seq<char>| #[trigger]
        keys.contains(id) ==> exists|i: int|
            0 <= i < list.len() && (#[trigger] list[i]).thread_id == id
}

proof fn lemma_one_more_listed(
    sessions: Map<Seq<char>, StoredView>,
    keys: Seq<Seq<char>>,
    list: Seq<SessionView>,
    session: SessionView,
    at: int,
)
    requires
        is_partial_listing(sessions, keys, list),
        sessions.contains_key(session.thread_id),
        sessions[session.thread_id].session == session,
        !keys.contains(session.thread_id),
        0 <= at <= list.len(),
        forall|a: int| 0 <= a < at ==> !listed_before(session, #[trigger] list[a]),
        at < list.len() ==> listed_before(session, list[at]),
    ensures
        is_partial_listing(sessions, keys.push(session.thread_id), list.insert(at, session)),
{
    let after = list.insert(at, session);
    let more = keys.push(session.thread_id);
    assert forall|a: int| 0 <= a < at implies listed_before(#[trigger] list[a], session) by {
        assert(keys.contains(list[a].thread_id));
        listing_order_is_total(list[a], session, session);
    }
    assert forall|a: int| at <= a < list.len() implies listed_before(
        session,
        #[trigger] list[a],
    ) by {
        if a > at {
            listing_order_is_total(session, list[at], list[a]);
        }
    }
    assert forall|i: int, j: int| 0 <= i < j < after.len() implies listed_before(
        #[trigger] after[i],
        #[trigger] after[j],
    ) by {
        if i < at && j < at {
            assert(listed_before(list[i], list[j]));
        } else if i < at && j > at {
            assert(listed_before(list[i], list[j - 1]));
        } else if i > at {
            assert(listed_before(list[i - 1], list[j - 1]));
        } else if i == at {
            assert(after[j] == list[j - 1]);
        } else {
            assert(after[i] == list[i]);
        }
    }
    assert forall|id: Seq<char>| keys.contains(id) implies more.contains(id) by {
        assert(more[keys.index_of(id)] == id);
    }
    assert(more[keys.len() as int] == session.thread_id);
    assert forall|i: int| 0 <= i < after.len() implies sessions.contains_key(
        (#[trigger] after[i]).thread_id,
    ) && sessions[after[i].thread_id].session == after[i] && more.contains(after[i].thread_id) by {
        if i < at {
            assert(after[i] == list[i]);
        } else if i > at {
            assert(after[i] == list[i - 1]);
        }
    }
    assert forall|id: Seq<char>| #[trigger] more.contains(id) implies exists|i: int|
        0 <= i < after.len() && (#[trigger] after[i]).thread_id == id by {
        if id == session.thread_id {
            assert(after[at].thread_id == id);
        } else {
            let k = more.index_of(id);
            assert(keys[k] == id);
            assert(keys.contains(id));
            let i = choose|i: int| 0 <= i < list.len() && (#[trigger] list[i]).thread_id == id;
            let j = if i < at {
                i
            } else {
                i + 1
            };
            assert(after[j].thread_id == id);
        }
    }
}

/// Puts a session in front of the first that it is listed before.
fn insert_listed(
    list: &mut Vec<Session>,
    session: Session,
    sessions: Ghost<Map<Seq<char>, StoredView>>,
    keys: Ghost<Seq<Seq<char>>>,
)
    requires
        is_partial_listing(sessions@, keys@, old(list).deep_view()),
        sessions@.contains_key(session@.thread_id),
        sessions@[session@.thread_id].session == session@,
        !keys@.contains(session@.thread_id),
    ensures
        is_partial_listing(sessions@, keys@.push(session@.thread_id), final(list).deep_view()),
{
    let ghost before = list.deep_view();
    let mut at: usize = 0;
    while at < list.len() && !is_listed_before(&session, &list[at])
        invariant
            at <= list@.len(),
            before == list.deep_view(),
            forall|a: int| 0 <= a < at ==> !listed_before(session@, #[trigger] before[a]),
        decreases list@.len() - at,
    {
        assert(before[at as int] == list@[at as int]@);
        at += 1;
    }
    proof {
        if at < list@.len() {
            assert(before[at as int] == list@[at as int]@);
        }
        lemma_one_more_listed(sessions@, keys@, before, session@, at as int);
    }
    list.insert(at, session);
    assert(list.deep_view() =~= before.insert(at as int, session@));
}

impl Database {
    /// Every name stands once, and what is kept fits together.
    pub open spec fn wf(&self) -> bool {
        self.sessions.wf() && self.jobs.wf() && consistent(self@)
    }

    /// A database that keeps nothing yet.
    pub fn open(path: &str) -> (r: Database)
        ensures
            r.wf(),
            r.path@ == path@,
            r@.sessions == Map::<Seq<char>, StoredView>::empty(),
            r@.tag_names == Seq::<Seq<char>>::empty(),
            r@.jobs == Map::<Seq<char>, StoredJobView>::empty(),
    {
        let r = Database {
            path: path.to_owned(),
            sessions: Table::new(),
            tag_names: Vec::new(),
            jobs: Table::new(),
        };
        assert(r@.tag_names =~= Seq::empty());
        r
    }

    pub fn path(&self) -> (r: &str)
        ensures
            r@ == self.path@,
    {
        self.path.as_str()
    }

    /// Takes in a session as it was stored, in place of one with the same name.
    pub fn restore_session(&mut self, row: StoredSession)
        requires
            old(self).wf(),
        ensures
            final(self).wf(),
            final(self)@ == with_row(old(self)@, row@.session.thread_id, row@),
            final(self).path == old(self).path,
    {
        let thread_id = row.session.thread_id.clone();
        self.sessions.put(thread_id.as_str(), row);
        assert(self@ =~= with_row(old(self)@, row@.session.thread_id, row@));
    }

    /// Takes in the name of a tag as it was stored, unless the tag is there under some name.
    pub fn restore_tag(&mut self, name: String)
        requires
            old(self).wf(),
        ensures
            final(self).wf(),
            final(self)@ == (DatabaseView {
                tag_names: with_names(old(self)@.tag_names, seq![name@]),
                ..old(self)@
            }),
            final(self).path == old(self).path,
    {
        let ghost before = self.tag_names.deep_view();
        let mut names: Vec<String> = Vec::new();
        names.push(name);
        assert(names.deep_view() =~= seq![name@]);
        add_names(&mut self.tag_names, &names);
    }

    /// Takes in a job as it was stored. One for a session that is not kept is refused.
    pub fn restore_job(&mut self, thread_id: &str, row: StoredJob) -> (r: Result<(), String>)
        requires
            old(self).wf(),
        ensures
            final(self).wf(),
            final(self).path == old(self).path,
            match r {
                Ok(()) => old(self)@.sessions.contains_key(thread_id@) && final(self)@ == with_job(
                    old(self)@,
                    thread_id@,
                    row@,
                ),
                Err(error) => !old(self)@.sessions.contains_key(thread_id@) && final(self)@ == old(
                    self,
                )@ && error@ == "FOREIGN KEY constraint failed"@,
            },
    {
        if self.sessions.get(thread_id).is_none() {
            return Err("FOREIGN KEY constraint failed".to_owned());
        }
        self.jobs.put(thread_id, row);
        assert(self@ =~= with_job(old(self)@, thread_id@, row@));
        Ok(())
    }

    /// Notes the end of a session.
    pub fn ingest_hook(&mut self, thread_id: &str, cwd: &str, ended_at: i64)
        requires
            old(self).wf(),
        ensures
            final(self).wf(),
            final(self)@ == after_hook(old(self)@, thread_id@, cwd@, ended_at),
            final(self).path == old(self).path,
    {
        let mut session = match self.sessions.get(thread_id) {
            Some(row) => row.session.clone(),
            None => new_session(thread_id, cwd, "unknown", "pending_metadata"),
        };
        session.resume_command = resume_command_of(thread_id);
        session.cwd = cwd.to_owned();
        session.ended_at = Some(ended_at);
        let row = StoredSession { session, last_synced_at: ended_at };
        assert(row@ =~= hooked(stored(old(self)@, thread_id@), thread_id@, cwd@, ended_at));
        self.sessions.put(thread_id, row);
        assert(self@ =~= after_hook(old(self)@, thread_id@, cwd@, ended_at));
    }

    /// Takes in what the App Server says of a thread, and tells whether the thread is new.
    pub fn upsert_metadata(&mut self, metadata: &SessionMetadata, now: i64) -> (r: bool)
        requires
            old(self).wf(),
        ensures
            final(self).wf(),
            final(self)@ == after_listing(old(self)@, metadata@, now),
            r == !old(self)@.sessions.contains_key(metadata@.thread_id),
            final(self).path == old(self).path,
    {
        let thread_id = metadata.thread_id.as_str();
        let (session, fresh) = match self.sessions.get(thread_id) {
            None => {
                let mut session = new_session(
                    thread_id,
                    metadata.cwd.as_str(),
                    metadata.source.as_str(),
                    "not_requested",
                );
                session.model = copy_text(&metadata.model);
                session.model_provider = copy_text(&metadata.model_provider);
                session.created_at = metadata.created_at;
                session.updated_at = metadata.updated_at;
                session.recency_at = metadata.recency_at;
                session.generated_title = copy_text(&metadata.generated_title);
                (session, true)
            },
            Some(row) => {
                let mut session = row.session.clone();
                session.resume_command = resume_command_of(thread_id);
                session.cwd = metadata.cwd.clone();
                session.source = metadata.source.clone();
                session.model = copy_either(&metadata.model, &row.session.model);
                session.model_provider = copy_either(
                    &metadata.model_provider,
                    &row.session.model_provider,
                );
                session.created_at = time_either(metadata.created_at, row.session.created_at);
                session.updated_at = time_either(metadata.updated_at, row.session.updated_at);
                session.recency_at = time_either(metadata.recency_at, row.session.recency_at);
                session.generated_title = copy_either(
                    &filled_title(&metadata.generated_title),
                    &row.session.generated_title,
                );
                (session, false)
            },
        };
        let row = StoredSession { session, last_synced_at: now };
        assert(row@ =~= listed(stored(old(self)@, metadata@.thread_id), metadata@, now));
        self.sessions.put(thread_id, row);
        assert(self@ =~= after_listing(old(self)@, metadata@, now));
        fresh
    }

    pub fn set_generated_summary(
        &mut self,
        thread_id: &str,
        title: &str,
        summary: &str,
        provider: SummaryProvider,
        cap: SummaryInput,
        now: i64,
    )
        requires
            old(self).wf(),
        ensures
            final(self).wf(),
            final(self)@ == after_summary(
                old(self)@,
                thread_id@,
                title@,
                summary@,
                provider,
                cap,
                now,
            ),
            final(self).path == old(self).path,
    {
        let mut session = match self.sessions.get(thread_id) {
            Some(row) => row.session.clone(),
            None => {
                return;
            },
        };
        session.generated_title = Some(title.to_owned());
        session.generated_summary = Some(summary.to_owned());
        session.summary_provider = Some(provider.to_string());
        session.summary_cap = Some(cap.to_string());
        session.summary_status = "ready".to_owned();
        session.summary_error = None;
        let row = StoredSession { session, last_synced_at: now };
        let ghost expected = after_summary(
            old(self)@,
            thread_id@,
            title@,
            summary@,
            provider,
            cap,
            now,
        );
        assert(row@ =~= expected.sessions[thread_id@]);
        self.sessions.put(thread_id, row);
        assert(self@ =~= expected);
    }

    /// Exchanges a session that is kept for another with the same name.
    fn replace(&mut self, thread_id: &str, session: Session)
        requires
            old(self).wf(),
            old(self)@.sessions.contains_key(thread_id@),
            session@.thread_id == thread_id@,
        ensures
            final(self).wf(),
            final(self)@ == with_session(old(self)@, thread_id@, session@),
            final(self).path == old(self).path,
    {
        let last_synced_at: i64 = match self.sessions.get(thread_id) {
            Some(row) => row.last_synced_at,
            None => 0,
        };
        let row = StoredSession { session, last_synced_at };
        assert(row@ =~= (StoredView { session: session@, ..old(self)@.sessions[thread_id@] }));
        self.sessions.put(thread_id, row);
        assert(self@ =~= with_session(old(self)@, thread_id@, session@));
    }

    /// A copy of a session that is kept.
    fn copy_of(&self, thread_id: &str) -> (r: Option<Session>)
        requires
            self.wf(),
        ensures
            match r {
                Some(session) => self@.sessions.contains_key(thread_id@)
                    && self@.sessions[thread_id@].session == session@ && session@.thread_id
                    == thread_id@,
                None => !self@.sessions.contains_key(thread_id@),
            },
    {
        match self.sessions.get(thread_id) {
            Some(row) => Some(row.session.clone()),
            None => None,
        }
    }

    fn set_status(&mut self, thread_id: &str, status: &str, error: Option<&str>)
        requires
            old(self).wf(),
        ensures
            final(self).wf(),
            final(self)@ == after_status(old(self)@, thread_id@, status@, error.deep_view()),
            final(self).path == old(self).path,
    {
        if let Some(session) = self.copy_of(thread_id) {
            let mut session = session;
            session.summary_status = status.to_owned();
            session.summary_error = match error {
                Some(error) => Some(error.to_owned()),
                None => None,
            };
            assert(session@ =~= (SessionView {
                summary_status: status@,
                summary_error: error.deep_view(),
                ..old(self)@.sessions[thread_id@].session
            }));
            self.replace(thread_id, session);
        }
    }

    pub fn mark_summary_pending(&mut self, thread_id: &str)
        requires
            old(self).wf(),
        ensures
            final(self).wf(),
            final(self)@ == after_status(old(self)@, thread_id@, "pending"@, None),
            final(self).path == old(self).path,
    {
        self.set_status(thread_id, "pending", None);
    }

    pub fn mark_summary_error(&mut self, thread_id: &str, error: &str)
        requires
            old(self).wf(),
        ensures
            final(self).wf(),
            final(self)@ == after_status(old(self)@, thread_id@, "error"@, Some(error@)),
            final(self).path == old(self).path,
    {
        self.set_status(thread_id, "error", Some(error));
    }

    pub fn mark_not_requested(&mut self, thread_id: &str)
        requires
            old(self).wf(),
        ensures
            final(self).wf(),
            final(self)@ == after_status(old(self)@, thread_id@, "not_requested"@, None),
            final(self).path == old(self).path,
    {
        self.set_status(thread_id, "not_requested", None);
    }

    pub fn set_manual_title(&mut self, thread_id: &str, value: Option<&str>)
        requires
            old(self).wf(),
        ensures
            final(self).wf(),
            final(self)@ == with_session(
                old(self)@,
                thread_id@,
                SessionView {
                    manual_title: override_of(value.deep_view()),
                    ..old(self)@.sessions[thread_id@].session
                },
            ),
            final(self).path == old(self).path,
    {
        if let Some(session) = self.copy_of(thread_id) {
            let mut session = session;
            session.manual_title = override_text(value);
            assert(session@ =~= (SessionView {
                manual_title: override_of(value.deep_view()),
                ..old(self)@.sessions[thread_id@].session
            }));
            self.replace(thread_id, session);
        }
    }

    pub fn set_manual_summary(&mut self, thread_id: &str, value: Option<&str>)
        requires
            old(self).wf(),
        ensures
            final(self).wf(),
            final(self)@ == with_session(
                old(self)@,
                thread_id@,
                SessionView {
                    manual_summary: override_of(value.deep_view()),
                    ..old(self)@.sessions[thread_id@].session
                },
            ),
            final(self).path == old(self).path,
    {
        if let Some(session) = self.copy_of(thread_id) {
            let mut session = session;
            session.manual_summary = override_text(value);
            assert(session@ =~= (SessionView {
                manual_summary: override_of(value.deep_view()),
                ..old(self)@.sessions[thread_id@].session
            }));
            self.replace(thread_id, session);
        }
    }

    pub fn set_notes(&mut self, thread_id: &str, notes: &str)
        requires
            old(self).wf(),
        ensures
            final(self).wf(),
            final(self)@ == with_session(
                old(self)@,
                thread_id@,
                SessionView { notes: notes@, ..old(self)@.sessions[thread_id@].session },
            ),
            final(self).path == old(self).path,
    {
        if let Some(session) = self.copy_of(thread_id) {
            let mut session = session;
            session.notes = notes.to_owned();
            assert(session@ =~= (SessionView {
                notes: notes@,
                ..old(self)@.sessions[thread_id@].session
            }));
            self.replace(thread_id, session);
        }
    }

    /// Pins a session that is not pinned and the other way round, and tells whether it is now.
    pub fn toggle_pin(&mut self, thread_id: &str) -> (r: Result<bool, String>)
        requires
            old(self).wf(),
        ensures
            final(self).wf(),
            final(self).path == old(self).path,
            match stored(old(self)@, thread_id@) {
                Some(row) => r == Ok::<bool, String>(!row.session.pinned) && final(self)@
                    == with_session(
                    old(self)@,
                    thread_id@,
                    SessionView { pinned: !row.session.pinned, ..row.session },
                ),
                None => final(self)@ == old(self)@ && match r {
                    Ok(_) => false,
                    Err(error) => error@ == "Query returned no rows"@,
                },
            },
    {
        match self.copy_of(thread_id) {
            Some(session) => {
                let mut session = session;
                let pinned = !session.pinned;
                session.pinned = pinned;
                assert(session@ =~= (SessionView {
                    pinned,
                    ..old(self)@.sessions[thread_id@].session
                }));
                self.replace(thread_id, session);
                Ok(pinned)
            },
            None => Err("Query returned no rows".to_owned()),
        }
    }

    pub fn set_tags(&mut self, thread_id: &str, tags: &[String]) -> (r: Result<(), String>)
        requires
            old(self).wf(),
        ensures
            final(self).wf(),
            final(self).path == old(self).path,
            match r {
                Ok(()) => after_tags(old(self)@, thread_id@, tags.deep_view()) == Ok::<
                    DatabaseView,
                    Seq<char>,
                >(final(self)@),
                Err(error) => final(self)@ == old(self)@ && after_tags(
                    old(self)@,
                    thread_id@,
                    tags.deep_view(),
                ) == Err::<DatabaseView, Seq<char>>(error@),
            },
    {
        let entered = normalize_tags(tags);
        match self.copy_of(thread_id) {
            Some(session) => {
                add_names(&mut self.tag_names, &entered);
                let ghost middle = self@;
                assert(middle =~= (DatabaseView {
                    tag_names: with_names(old(self)@.tag_names, entered.deep_view()),
                    ..old(self)@
                }));
                let mut session = session;
                session.tags = kept_tags(&self.tag_names, &entered);
                assert(session@ =~= (SessionView {
                    tags: kept_in_order(middle.tag_names, entered.deep_view()),
                    ..old(self)@.sessions[thread_id@].session
                }));
                self.replace(thread_id, session);
                Ok(())
            },
            None => {
                assert(entered.deep_view().len() == entered@.len());
                if entered.len() == 0 {
                    Ok(())
                } else {
                    Err("FOREIGN KEY constraint failed".to_owned())
                }
            },
        }
    }

    /// All sessions, in the order in which they are shown.
    pub fn list_sessions(&self) -> (r: Vec<Session>)
        requires
            self.wf(),
        ensures
            is_listing(self@.sessions, r.deep_view()),
    {
        let ghost sessions = self.sessions@;
        let ghost keys = self.sessions.keys();
        proof {
            self.sessions.keys_are_the_domain();
        }
        let count: usize = self.sessions.len();
        let mut out: Vec<Session> = Vec::new();
        let mut i: usize = 0;
        assert(out.deep_view() =~= Seq::empty());
        while i < count
            invariant
                i <= count,
                self.wf(),
                sessions == self.sessions@,
                keys == self.sessions.keys(),
                count == sessions.dom().len(),
                count == keys.len(),
                forall|a: int, b: int|
                    0 <= a < b < keys.len() ==> #[trigger] keys[a] != #[trigger] keys[b],
                is_partial_listing(sessions, keys.take(i as int), out.deep_view()),
            decreases count - i,
        {
            let (_, row) = self.sessions.row(i);
            let session = row.session.clone();
            let ghost before = out.deep_view();
            let ghost done = keys.take(i as int);
            assert(session@.thread_id == keys[i as int]);
            assert(!done.contains(session@.thread_id)) by {
                if done.contains(session@.thread_id) {
                    let k = done.index_of(session@.thread_id);
                    assert(keys[k] == keys[i as int]);
                }
            }
            insert_listed(&mut out, session, Ghost(sessions), Ghost(done));
            assert(keys.take(i + 1) =~= done.push(session@.thread_id));
            i += 1;
        }
        proof {
            let list = out.deep_view();
            assert(keys.take(i as int) =~= keys);
            self.sessions.keys_are_the_domain();
            assert forall|id: Seq<char>| #[trigger] sessions.contains_key(id) implies exists|k: int|
                0 <= k < list.len() && (#[trigger] list[k]).thread_id == id by {
                assert(keys.contains(id));
            }
        }
        out
    }

    pub fn get_session(&self, thread_id: &str) -> (r: Option<Session>)
        requires
            self.wf(),
        ensures
            match r {
                Some(session) => self@.sessions.contains_key(thread_id@)
                    && self@.sessions[thread_id@].session == session@,
                None => !self@.sessions.contains_key(thread_id@),
            },
    {
        self.copy_of(thread_id)
    }

    pub fn count_sessions(&self) -> (r: usize)
        requires
            self.wf(),
        ensures
            r == self@.sessions.dom().len(),
    {
        self.sessions.len()
    }

    pub fn queue_job(&mut self, thread_id: &str, provider: &str, cap: SummaryInput, now: i64) -> (r:
        Result<(), String>)
        requires
            old(self).wf(),
        ensures
            final(self).wf(),
            final(self).path == old(self).path,
            match r {
                Ok(()) => after_queue(old(self)@, thread_id@, provider@, cap, now) == Ok::<
                    DatabaseView,
                    Seq<char>,
                >(final(self)@),
                Err(error) => final(self)@ == old(self)@ && after_queue(
                    old(self)@,
                    thread_id@,
                    provider@,
                    cap,
                    now,
                ) == Err::<DatabaseView, Seq<char>>(error@),
            },
    {
        if self.sessions.get(thread_id).is_none() {
            return Err("FOREIGN KEY constraint failed".to_owned());
        }
        let attempts: i64 = match self.jobs.get(thread_id) {
            Some(row) => row.attempts,
            None => 0,
        };
        let created_at: i64 = match self.jobs.get(thread_id) {
            Some(row) => row.created_at,
            None => now,
        };
        let row = StoredJob {
            provider: provider.to_owned(),
            cap: cap.to_string(),
            status: "queued".to_owned(),
            attempts,
            last_error: None,
            created_at,
            updated_at: now,
        };
        let ghost expected = after_queue(old(self)@, thread_id@, provider@, cap, now)->Ok_0;
        assert(row@ =~= expected.jobs[thread_id@]);
        self.jobs.put(thread_id, row);
        assert(self@ =~= expected);
        Ok(())
    }

    pub fn get_job(&self, thread_id: &str) -> (r: Result<Option<Job>, String>)
        requires
            self.wf(),
        ensures
            match r {
                Ok(job) => found_job(self@, thread_id@) == Ok::<Option<JobView>, Seq<char>>(
                    job.deep_view(),
                ),
                Err(error) => found_job(self@, thread_id@) == Err::<Option<JobView>, Seq<char>>(
                    error@,
                ),
            },
    {
        match self.jobs.get(thread_id) {
            None => Ok(None),
            Some(row) => if row.attempts < 0 || row.attempts > u32::MAX as i64 {
                Err(
                    "Integer ".to_owned().concat(signed_text(row.attempts).as_str()).concat(
                        " out of range at index 4",
                    ),
                )
            } else {
                Ok(
                    Some(
                        Job {
                            thread_id: thread_id.to_owned(),
                            provider: row.provider.clone(),
                            cap: row.cap.clone(),
                            status: row.status.clone(),
                            attempts: row.attempts as u32,
                            last_error: copy_text(&row.last_error),
                        },
                    ),
                )
            },
        }
    }

    pub fn mark_job_running(&mut self, thread_id: &str, now: i64)
        requires
            old(self).wf(),
        ensures
            final(self).wf(),
            final(self)@ == after_start(old(self)@, thread_id@, now),
            final(self).path == old(self).path,
    {
        let row = match self.jobs.get(thread_id) {
            Some(row) => StoredJob {
                provider: row.provider.clone(),
                cap: row.cap.clone(),
                status: "running".to_owned(),
                attempts: if row.attempts < i64::MAX {
                    row.attempts + 1
                } else {
                    row.attempts
                },
                last_error: copy_text(&row.last_error),
                created_at: row.created_at,
                updated_at: now,
            },
            None => {
                return;
            },
        };
        let ghost expected = after_start(old(self)@, thread_id@, now);
        assert(row@ =~= expected.jobs[thread_id@]);
        self.jobs.put(thread_id, row);
        assert(self@ =~= expected);
    }

    fn end_job(&mut self, thread_id: &str, status: &str, error: Option<&str>, now: i64)
        requires
            old(self).wf(),
        ensures
            final(self).wf(),
            final(self)@ == after_end(old(self)@, thread_id@, status@, error.deep_view(), now),
            final(self).path == old(self).path,
    {
        let row = match self.jobs.get(thread_id) {
            Some(row) => StoredJob {
                provider: row.provider.clone(),
                cap: row.cap.clone(),
                status: status.to_owned(),
                attempts: row.attempts,
                last_error: match error {
                    Some(error) => Some(error.to_owned()),
                    None => None,
                },
                created_at: row.created_at,
                updated_at: now,
            },
            None => {
                return;
            },
        };
        let ghost expected = after_end(old(self)@, thread_id@, status@, error.deep_view(), now);
        assert(row@ =~= expected.jobs[thread_id@]);
        self.jobs.put(thread_id, row);
        assert(self@ =~= expected);
    }

    pub fn mark_job_done(&mut self, thread_id: &str, now: i64)
        requires
            old(self).wf(),
        ensures
            final(self).wf(),
            final(self)@ == after_end(old(self)@, thread_id@, "done"@, None, now),
            final(self).path == old(self).path,
    {
        self.end_job(thread_id, "done", None, now);
    }

    pub fn mark_job_error(&mut self, thread_id: &str, error: &str, now: i64)
        requires
            old(self).wf(),
        ensures
            final(self).wf(),
            final(self)@ == after_end(old(self)@, thread_id@, "error"@, Some(error@), now),
            final(self).path == old(self).path,
    {
        self.end_job(thread_id, "error", Some(error), now);
    }
}

/// What the database said when it was told to keep a write-ahead log.
#[derive(Debug, PartialEq, Eq)]
pub enum JournalReply {
    Mode { name: String },
    Busy { error: String },
    Failed { error: String },
}

/// What is done after that.
#[derive(Debug, PartialEq, Eq)]
pub enum JournalNext {
    Done,
    Retry,
    Fail { error: String },
}

/// How often a busy database is asked again.
pub const JOURNAL_RETRIES: u32 = 100;

/// Goes on after the answer to an attempt, the first of which has the number 0: a busy database is
/// asked again, up to a number of times.
pub fn next_journal_step(attempt: u32, reply: JournalReply) -> (r: JournalNext)
    ensures
        match reply {
            JournalReply::Mode { name } => if same_word(name@, "wal"@) {
                r is Done
            } else {
                r matches JournalNext::Fail { error } && error@
                    == "SQLite refused WAL journal mode and returned "@ + text::quoted(name@)
            },
            JournalReply::Busy { error } => if attempt < JOURNAL_RETRIES {
                r is Retry
            } else {
                r == (JournalNext::Fail { error })
            },
            JournalReply::Failed { error } => r == (JournalNext::Fail { error }),
        },
{
    match reply {
        JournalReply::Mode { name } => if is_same_word(name.as_str(), "wal") {
            JournalNext::Done
        } else {
            JournalNext::Fail {
                error: "SQLite refused WAL journal mode and returned ".to_owned().concat(
                    quote(name.as_str()).as_str(),
                ),
            }
        },
        JournalReply::Busy { error } => if attempt < JOURNAL_RETRIES {
            JournalNext::Retry
        } else {
            JournalNext::Fail { error }
        },
        JournalReply::Failed { error } => JournalNext::Fail { error },
    }
}

proof fn lemma_listing_prefix(
    sessions: Map<Seq<char>, StoredView>,
    a: Seq<SessionView>,
    b: Seq<SessionView>,
    n: int,
)
    requires
        is_listing(sessions, a),
        is_listing(sessions, b),
        0 <= n <= a.len(),
        n <= b.len(),
    ensures
        forall|i: int| 0 <= i < n ==> #[trigger] a[i] == b[i],
    decreases n,
{
    if n > 0 {
        lemma_listing_prefix(sessions, a, b, n - 1);
        let i = n - 1;
        assert(sessions.contains_key(a[i].thread_id));
        assert(sessions.contains_key(b[i].thread_id));
        let j = choose|j: int| 0 <= j < b.len() && (#[trigger] b[j]).thread_id == a[i].thread_id;
        let k = choose|k: int| 0 <= k < a.len() && (#[trigger] a[k]).thread_id == b[i].thread_id;
        assert(b[j] == a[i]);
        assert(a[k] == b[i]);
        if j < i {
            assert(a[j] == b[j]);
            assert(listed_before(a[j], a[i]));
            listing_order_is_total(a[i], a[i], a[i]);
        } else if j > i {
            assert(listed_before(b[i], b[j]));
            if k < i {
                assert(a[k] == b[k]);
                assert(listed_before(b[k], b[i]));
                listing_order_is_total(b[i], b[i], b[i]);
            } else if k > i {
                assert(listed_before(a[i], a[k]));
                listing_order_is_total(a[i], b[i], b[i]);
            }
        }
    }
}

/// There is one listing of the sessions: the order leaves nothing open.
pub proof fn listings_are_unique(
    sessions: Map<Seq<char>, StoredView>,
    a: Seq<SessionView>,
    b: Seq<SessionView>,
)
    requires
        is_listing(sessions, a),
        is_listing(sessions, b),
    ensures
        a == b,
{
    lemma_listing_is_no_longer(sessions, a, b);
    lemma_listing_is_no_longer(sessions, b, a);
    lemma_listing_prefix(sessions, a, b, a.len() as int);
    assert(a =~= b);
}

proof fn lemma_listing_is_no_longer(
    sessions: Map<Seq<char>, StoredView>,
    a: Seq<SessionView>,
    b: Seq<SessionView>,
)
    requires
        is_listing(sessions, a),
        is_listing(sessions, b),
    ensures
        b.len() <= a.len(),
{
    if a.len() < b.len() {
        let n = a.len() as int;
        lemma_listing_prefix(sessions, a, b, n);
        assert(sessions.contains_key(b[n].thread_id));
        let j = choose|j: int|
            0 <= j < a.len() && (#[trigger] a[j]).thread_id == b[n].thread_id;
        assert(a[j] == b[n]);
        assert(a[j] == b[j]);
        assert(listed_before(b[j], b[n]));
        listing_order_is_total(b[n], b[n], b[n]);
    }
}

/// In a listing a pinned session comes before one that is not, however late that one is.
pub proof fn pinned_sessions_come_first(
    sessions: Map<Seq<char>, StoredView>,
    list: Seq<SessionView>,
    i: int,
    j: int,
)
    requires
        is_listing(sessions, list),
        0 <= i < list.len(),
        0 <= j < list.len(),
        list[i].pinned,
        !list[j].pinned,
    ensures
        i < j,
{
    if j < i {
        assert(listed_before(list[j], list[i]));
    }
}

/// To report the end of a session again changes nothing, and what is known of the session besides
/// its directory and its end stays as it was.
pub proof fn hooks_are_idempotent(
    data: DatabaseView,
    thread_id: Seq<char>,
    cwd: Seq<char>,
    ended_at: i64,
)
    ensures
        after_hook(after_hook(data, thread_id, cwd, ended_at), thread_id, cwd, ended_at)
            == after_hook(data, thread_id, cwd, ended_at),
        stored(data, thread_id) matches Some(row) ==> after_hook(
            data,
            thread_id,
            cwd,
            ended_at,
        ).sessions[thread_id].session == (SessionView {
            resume_command: resume_command(thread_id),
            cwd,
            ended_at: Some(ended_at),
            ..row.session
        }),
{
    let once = after_hook(data, thread_id, cwd, ended_at);
    let twice = after_hook(once, thread_id, cwd, ended_at);
    assert(twice.sessions[thread_id] =~= once.sessions[thread_id]);
    assert(twice =~= once);
}

/// To take in the same listing again changes nothing. A listing never changes what the user entered
/// or what a provider wrote, but for the title.
pub proof fn listings_keep_what_was_entered(data: DatabaseView, metadata: MetadataView, now: i64)
    ensures
        after_listing(after_listing(data, metadata, now), metadata, now) == after_listing(
            data,
            metadata,
            now,
        ),
        stored(data, metadata.thread_id) matches Some(row) ==> {
            let session = after_listing(data, metadata, now).sessions[metadata.thread_id].session;
            &&& session.manual_title == row.session.manual_title
            &&& session.manual_summary == row.session.manual_summary
            &&& session.notes == row.session.notes
            &&& session.pinned == row.session.pinned
            &&& session.tags == row.session.tags
            &&& session.generated_summary == row.session.generated_summary
            &&& session.summary_status == row.session.summary_status
            &&& session.summary_error == row.session.summary_error
            &&& session.ended_at == row.session.ended_at
        },
{
    let once = after_listing(data, metadata, now);
    let twice = after_listing(once, metadata, now);
    assert(twice.sessions[metadata.thread_id] =~= once.sessions[metadata.thread_id]);
    assert(twice =~= once);
}

/// A title that the user entered hides the generated one and does not destroy it: it is shown until
/// it is taken back, and then the generated one is shown again. The same holds of a summary.
pub proof fn overrides_can_be_taken_back(session: SessionView, value: Seq<char>)
    requires
        text::trimmed(value).len() > 0,
    ensures
        ({
            let titled = SessionView { manual_title: override_of(Some(value)), ..session };
            let restored = SessionView { manual_title: override_of(None), ..titled };
            &&& shown_title(titled) == value
            &&& titled.generated_title == session.generated_title
            &&& restored == (SessionView { manual_title: None, ..session })
        }),
        ({
            let told = SessionView { manual_summary: override_of(Some(value)), ..session };
            let restored = SessionView { manual_summary: override_of(None), ..told };
            &&& shown_summary(told) == value
            &&& told.generated_summary == session.generated_summary
            &&& restored == (SessionView { manual_summary: None, ..session })
        }),
{
}

/// Whatever was stored for it before, a session that was listed or whose end was reported has the
/// exact command that resumes it.
pub proof fn resume_commands_are_exact(
    data: DatabaseView,
    thread_id: Seq<char>,
    cwd: Seq<char>,
    metadata: MetadataView,
    now: i64,
)
    requires
        metadata.thread_id == thread_id,
    ensures
        after_hook(data, thread_id, cwd, now).sessions[thread_id].session.resume_command
            == "codex resume "@ + thread_id,
        after_listing(data, metadata, now).sessions[thread_id].session.resume_command
            == "codex resume "@ + thread_id,
{
}

/// What is done to one session leaves every other one as it is, and the jobs too.
pub proof fn other_sessions_stay(
    data: DatabaseView,
    thread_id: Seq<char>,
    other: Seq<char>,
    session: SessionView,
    metadata: MetadataView,
    cwd: Seq<char>,
    now: i64,
)
    requires
        other != thread_id,
        metadata.thread_id == thread_id,
    ensures
        stored(with_session(data, thread_id, session), other) == stored(data, other),
        stored(after_hook(data, thread_id, cwd, now), other) == stored(data, other),
        stored(after_listing(data, metadata, now), other) == stored(data, other),
        with_session(data, thread_id, session).jobs == data.jobs,
        after_hook(data, thread_id, cwd, now).jobs == data.jobs,
        after_listing(data, metadata, now).jobs == data.jobs,
{
}

/// What is reported of different sessions can be taken in in any order.
pub proof fn reports_of_different_sessions_commute(
    data: DatabaseView,
    a: MetadataView,
    b: MetadataView,
    ended: Seq<char>,
    cwd: Seq<char>,
    now: i64,
)
    requires
        a.thread_id != b.thread_id,
        a.thread_id != ended,
    ensures
        after_listing(after_listing(data, a, now), b, now) == after_listing(
            after_listing(data, b, now),
            a,
            now,
        ),
        after_listing(after_hook(data, ended, cwd, now), a, now) == after_hook(
            after_listing(data, a, now),
            ended,
            cwd,
            now,
        ),
{
    assert(after_listing(after_listing(data, a, now), b, now) =~= after_listing(
        after_listing(data, b, now),
        a,
        now,
    ));
    assert(after_listing(after_hook(data, ended, cwd, now), a, now) =~= after_hook(
        after_listing(data, a, now),
        ended,
        cwd,
        now,
    ));
}

/// A listing adds one session where the thread is new, and none where it is known.
pub proof fn listings_count_new_threads(data: DatabaseView, metadata: MetadataView, now: i64)
    requires
        data.sessions.dom().finite(),
    ensures
        after_listing(data, metadata, now).sessions.dom().len() == data.sessions.dom().len() + if data.sessions.contains_key(
            metadata.thread_id,
        ) {
            0nat
        } else {
            1nat
        },
{
    let after = after_listing(data, metadata, now).sessions.dom();
    assert(after =~= data.sessions.dom().insert(metadata.thread_id));
}

/// A job that is queued again keeps the number of its attempts, and a job is never queued for a
/// session that is not kept.
pub proof fn queueing_keeps_the_attempts(
    data: DatabaseView,
    thread_id: Seq<char>,
    provider: Seq<char>,
    cap: SummaryInput,
    now: i64,
)
    ensures
        after_queue(data, thread_id, provider, cap, now) is Ok <==> data.sessions.contains_key(
            thread_id,
        ),
        after_queue(data, thread_id, provider, cap, now) matches Ok(after) ==> {
            &&& after.sessions == data.sessions
            &&& after.jobs.contains_key(thread_id)
            &&& after.jobs[thread_id].status == "queued"@
            &&& after.jobs[thread_id].last_error is None
            &&& stored_job(data, thread_id) matches Some(row) ==> after.jobs[thread_id].attempts
                == row.attempts
        },
{
}

/// Tags that are all different, each before the next.
pub open spec fn tags_in_order(tags: Seq<Seq<char>>) -> bool {
    forall|i: int, j: int|
        0 <= i < j < tags.len() ==> tag_precedes(#[trigger] tags[i], #[trigger] tags[j])
}

/// Tags that are all different.
pub open spec fn tags_differ(tags: Seq<Seq<char>>) -> bool {
    forall|i: int, j: int|
        0 <= i < j < tags.len() ==> !same_tag(#[trigger] tags[i], #[trigger] tags[j])
}

/// Whether a text holds no NUL.
pub open spec fn without_nul(value: Seq<char>) -> bool {
    forall|i: int| 0 <= i < value.len() ==> #[trigger] value[i] != '\0'
}

/// Tags without a NUL are one just where they are one word, and are ordered as words are.
pub proof fn plain_tags_are_words(a: Seq<char>, b: Seq<char>)
    requires
        without_nul(a),
        without_nul(b),
    ensures
        same_tag(a, b) == same_word(a, b),
        tag_precedes(a, b) == text::precedes(text::ascii_folded(a), text::ascii_folded(b)),
{
    text::lemma_without_nul(a);
    text::lemma_without_nul(b);
    text::lemma_folded_bytes(a);
    text::lemma_folded_bytes(b);
}

/// Names are of one tag, or one of them comes before the other, and never both.
pub proof fn tag_order_is_total(a: Seq<char>, b: Seq<char>)
    ensures
        !(tag_precedes(a, b) && tag_precedes(b, a)),
        same_tag(a, b) || tag_precedes(a, b) || tag_precedes(b, a),
        same_tag(a, b) ==> !tag_precedes(a, b),
{
    text::precedes_is_total(tag_key(a).0, tag_key(b).0);
}

/// The order of tags is transitive.
pub proof fn tag_order_is_transitive(a: Seq<char>, b: Seq<char>, c: Seq<char>)
    requires
        tag_precedes(a, b),
        tag_precedes(b, c),
    ensures
        tag_precedes(a, c),
{
    let (x, y, z) = (tag_key(a).0, tag_key(b).0, tag_key(c).0);
    if text::precedes(x, y) && text::precedes(y, z) {
        text::precedes_is_transitive(x, y, z);
    }
}

proof fn lemma_normal_tags_differ(tags: Seq<Seq<char>>)
    ensures
        forall|i: int, j: int|
            0 <= i < j < normal_tags(tags).len() ==> !same_word(
                #[trigger] normal_tags(tags)[i],
                #[trigger] normal_tags(tags)[j],
            ),
    decreases tags.len(),
{
    if tags.len() > 0 {
        lemma_normal_tags_differ(tags.drop_last());
        let before = normal_tags(tags.drop_last());
        let tag = summary::collapsed(tags.last());
        if tag.len() > 0 && !has_word(before, tag) {
            let after = before.push(tag);
            assert forall|i: int, j: int| 0 <= i < j < after.len() implies !same_word(
                #[trigger] after[i],
                #[trigger] after[j],
            ) by {
                assert(after[i] == before[i]);
                if j < before.len() {
                    assert(after[j] == before[j]);
                } else {
                    assert(!same_word(before[i], tag));
                }
            }
        }
    }
}

proof fn lemma_kept_name_is_same(names: Seq<Seq<char>>, tag: Seq<char>)
    ensures
        same_tag(kept_name(names, tag), tag),
    decreases names.len(),
{
    if names.len() > 0 && !same_tag(names[0], tag) {
        lemma_kept_name_is_same(names.drop_first(), tag);
    }
}

proof fn lemma_placed_in_order(tags: Seq<Seq<char>>, tag: Seq<char>)
    requires
        tags_in_order(tags),
        !has_tag(tags, tag),
    ensures
        tags_in_order(placed(tags, tag)),
        placed(tags, tag).len() == tags.len() + 1,
        forall|x: Seq<char>| #[trigger]
            has_tag(placed(tags, tag), x) <==> has_tag(tags, x) || same_tag(tag, x),
    decreases tags.len(),
{
    let after = placed(tags, tag);
    if tags.len() == 0 {
        assert forall|x: Seq<char>| #[trigger] has_tag(after, x) <==> has_tag(tags, x) || same_tag(
            tag,
            x,
        ) by {
            assert(after[0] == tag);
        }
    } else if tag_precedes(tag, tags[0]) {
        assert forall|i: int, j: int| 0 <= i < j < after.len() implies tag_precedes(
            #[trigger] after[i],
            #[trigger] after[j],
        ) by {
            assert(after[j] == tags[j - 1]);
            if i == 0 {
                if j > 1 {
                    assert(tag_precedes(tags[0], tags[j - 1]));
                    tag_order_is_transitive(tag, tags[0], tags[j - 1]);
                }
            } else {
                assert(after[i] == tags[i - 1]);
                assert(tag_precedes(tags[i - 1], tags[j - 1]));
            }
        }
        assert forall|x: Seq<char>| #[trigger] has_tag(after, x) <==> has_tag(tags, x) || same_tag(
            tag,
            x,
        ) by {
            assert(after[0] == tag);
            if has_tag(tags, x) {
                let i = choose|i: int| 0 <= i < tags.len() && same_tag(#[trigger] tags[i], x);
                assert(after[i + 1] == tags[i]);
            }
            if has_tag(after, x) {
                let i = choose|i: int| 0 <= i < after.len() && same_tag(#[trigger] after[i], x);
                if i > 0 {
                    assert(after[i] == tags[i - 1]);
                }
            }
        }
    } else {
        let rest = tags.drop_first();
        assert forall|i: int| 0 <= i < rest.len() implies !same_tag(#[trigger] rest[i], tag) by {
            assert(rest[i] == tags[i + 1]);
        }
        assert(tags_in_order(rest)) by {
            assert forall|i: int, j: int| 0 <= i < j < rest.len() implies tag_precedes(
                #[trigger] rest[i],
                #[trigger] rest[j],
            ) by {
                assert(tag_precedes(tags[i + 1], tags[j + 1]));
            }
        }
        lemma_placed_in_order(rest, tag);
        let tail = placed(rest, tag);
        assert(!same_tag(tags[0], tag));
        tag_order_is_total(tags[0], tag);
        assert forall|i: int, j: int| 0 <= i < j < after.len() implies tag_precedes(
            #[trigger] after[i],
            #[trigger] after[j],
        ) by {
            assert(after[j] == tail[j - 1]);
            if i == 0 {
                assert(has_tag(tail, tail[j - 1])) by {
                    assert(same_tag(tail[j - 1], tail[j - 1]));
                }
                if has_tag(rest, tail[j - 1]) {
                    let k = choose|k: int|
                        0 <= k < rest.len() && same_tag(#[trigger] rest[k], tail[j - 1]);
                    assert(tag_precedes(tags[0], tags[k + 1]));
                    assert(rest[k] == tags[k + 1]);
                }
            } else {
                assert(after[i] == tail[i - 1]);
                assert(tag_precedes(tail[i - 1], tail[j - 1]));
            }
        }
        assert forall|x: Seq<char>| #[trigger] has_tag(after, x) <==> has_tag(tags, x) || same_tag(
            tag,
            x,
        ) by {
            if has_tag(tags, x) {
                let i = choose|i: int| 0 <= i < tags.len() && same_tag(#[trigger] tags[i], x);
                if i == 0 {
                    assert(after[0] == tags[0]);
                } else {
                    assert(rest[i - 1] == tags[i]);
                    assert(has_tag(rest, x));
                }
            }
            if has_tag(tail, x) {
                let i = choose|i: int| 0 <= i < tail.len() && same_tag(#[trigger] tail[i], x);
                assert(after[i + 1] == tail[i]);
            }
            if has_tag(after, x) {
                let i = choose|i: int| 0 <= i < after.len() && same_tag(#[trigger] after[i], x);
                if i == 0 {
                    assert(same_tag(tags[0], x));
                } else {
                    assert(after[i] == tail[i - 1]);
                    assert(has_tag(tail, x));
                    if has_tag(rest, x) {
                        let k = choose|k: int|
                            0 <= k < rest.len() && same_tag(#[trigger] rest[k], x);
                        assert(tags[k + 1] == rest[k]);
                    }
                }
            }
        }
    }
}

proof fn lemma_kept_in_order(names: Seq<Seq<char>>, tags: Seq<Seq<char>>)
    ensures
        tags_in_order(kept_in_order(names, tags)),
        kept_in_order(names, tags).len() <= tags.len(),
        tags_differ(tags) ==> kept_in_order(names, tags).len() == tags.len(),
        forall|x: Seq<char>| #[trigger]
            has_tag(kept_in_order(names, tags), x) <==> has_tag(tags, x),
    decreases tags.len(),
{
    if tags.len() > 0 {
        let rest = tags.drop_last();
        let tag = tags.last();
        lemma_kept_in_order(names, rest);
        lemma_kept_name_is_same(names, tag);
        let name = kept_name(names, tag);
        if tags_differ(tags) {
            assert forall|i: int, j: int| 0 <= i < j < rest.len() implies !same_tag(
                #[trigger] rest[i],
                #[trigger] rest[j],
            ) by {
                assert(!same_tag(tags[i], tags[j]));
            }
            assert forall|i: int| 0 <= i < rest.len() implies !same_tag(#[trigger] rest[i], name) by {
                assert(!same_tag(tags[i], tags[tags.len() - 1]));
            }
            assert(!has_tag(rest, name));
        }
        let before = kept_in_order(names, rest);
        if !has_tag(before, name) {
            lemma_placed_in_order(before, name);
        }
        assert forall|x: Seq<char>| #[trigger]
            has_tag(kept_in_order(names, tags), x) <==> has_tag(tags, x) by {
            if has_tag(rest, x) {
                let i = choose|i: int| 0 <= i < rest.len() && same_tag(#[trigger] rest[i], x);
                assert(tags[i] == rest[i]);
            }
            if same_tag(name, x) {
                assert(same_tag(tags[tags.len() - 1], x));
                if has_tag(before, name) {
                    let i = choose|i: int| 0 <= i < before.len() && same_tag(#[trigger] before[i], name);
                    assert(same_tag(before[i], x));
                }
            }
            if has_tag(tags, x) {
                let i = choose|i: int| 0 <= i < tags.len() && same_tag(#[trigger] tags[i], x);
                if i < rest.len() {
                    assert(rest[i] == tags[i]);
                    assert(has_tag(rest, x));
                }
            }
        }
    }
}

/// The tags of a session are those that were entered last, each once, in the order of their names.
/// Where none holds a NUL, there are as many as there are different words among those entered.
pub proof fn tags_are_kept_in_order(data: DatabaseView, thread_id: Seq<char>, tags: Seq<Seq<char>>)
    requires
        data.sessions.contains_key(thread_id),
    ensures
        after_tags(data, thread_id, tags) matches Ok(after) && {
            let entered = normal_tags(tags);
            let kept = after.sessions[thread_id].session.tags;
            &&& tags_in_order(kept)
            &&& kept.len() <= entered.len()
            &&& (forall|i: int| 0 <= i < entered.len() ==> without_nul(#[trigger] entered[i]))
                ==> kept.len() == entered.len()
            &&& forall|x: Seq<char>| #[trigger] has_tag(kept, x) <==> has_tag(entered, x)
        },
{
    let entered = normal_tags(tags);
    lemma_normal_tags_differ(tags);
    if forall|i: int| 0 <= i < entered.len() ==> without_nul(#[trigger] entered[i]) {
        assert forall|i: int, j: int| 0 <= i < j < entered.len() implies !same_tag(
            #[trigger] entered[i],
            #[trigger] entered[j],
        ) by {
            plain_tags_are_words(entered[i], entered[j]);
        }
    }
    lemma_kept_in_order(with_names(data.tag_names, entered), entered);
}

} // verus!
