//! What holds of the operations of the tracker, one call at a time.

use vstd::prelude::*;

use crate::app_server;
use crate::app_server::{RemoteThread, VisibleMessage};
use crate::commands;
use crate::commands::SetupOptions;
use crate::config::{Config, ConfigError, OnClose, SourceKind, SummaryInput, SummaryProvider};
use crate::db;
use crate::db::{
    Database, Job, JournalNext, JournalReply, MetadataView, Session, SessionMetadata, SessionView,
    StoredJob, StoredSession,
};
use crate::doctor;
use crate::doctor::{Check, CheckLevel, Observations};
use crate::hook;
use crate::hook::SessionEndInput;
use crate::json;
use crate::json::{Json, JsonView};
use crate::laws::runs;
use crate::laws::screens;
use crate::laws::sessions;
use crate::laws::setups;
use crate::laws::summaries;
use crate::laws::texts;
use crate::laws::threads;
use crate::paths::AppPaths;
use crate::screen;
use crate::setup;
use crate::summary;
use crate::summary::Generation;
use crate::sync;
use crate::sync::{BatchNext, BatchNextView, BatchRun, BatchStage, Reply, StepView};
use crate::text;
use crate::tui;
use crate::tui::{ActionView, EditField, KeyCode, ModeView, TrackerApp, UiAction};

verus! {

/// A pin is put on a session that has none and taken from one that has it, and what is told is how it is
/// now. Nothing else of the session is changed.
pub proof fn pins_are_toggled()
    ensures
        forall|database: &mut Database, thread_id: &str, r: Result<bool, String>|
            #[trigger] call_ensures(Database::toggle_pin, (database, thread_id), r)
                && (*database)@.sessions.contains_key(thread_id@) ==> {
                let before = (*database)@.sessions[thread_id@].session;
                let after = (*final(database))@.sessions[thread_id@].session;
                &&& after.pinned == !before.pinned
                &&& r == Ok::<bool, String>(after.pinned)
                &&& after.notes == before.notes && after.tags == before.tags && after.manual_title
                    == before.manual_title && after.manual_summary == before.manual_summary
                    && after.generated_title == before.generated_title && after.recency_at
                    == before.recency_at
                &&& (*final(database))@.jobs == (*database)@.jobs
            },
        forall|database: &mut Database, thread_id: &str, r: Result<bool, String>|
            #[trigger] call_ensures(Database::toggle_pin, (database, thread_id), r)
                && !(*database)@.sessions.contains_key(thread_id@) ==> r is Err
                && (*final(database))@ == (*database)@,
{
}

/// Notes are kept just as they are given, and nothing else of the session is changed.
pub proof fn notes_are_kept()
    ensures
        forall|database: &mut Database, thread_id: &str, notes: &str, r: ()|
            #[trigger] call_ensures(Database::set_notes, (database, thread_id, notes), r)
                && (*database)@.sessions.contains_key(thread_id@) ==> {
                let before = (*database)@.sessions[thread_id@].session;
                let after = (*final(database))@.sessions[thread_id@].session;
                &&& after.notes == notes@
                &&& after.pinned == before.pinned && after.tags == before.tags
                    && after.manual_title == before.manual_title && after.manual_summary
                    == before.manual_summary && after.generated_title == before.generated_title
                    && after.summary_status == before.summary_status
                &&& (*final(database))@.jobs == (*database)@.jobs
            },
{
}

/// A title that is entered is shown from then on, and so is a summary. A blank one, or none, brings back
/// the generated one.
pub proof fn entered_titles_and_summaries_are_shown(value: &str)
    requires
        texts::says_something(value@),
    ensures
        forall|database: &mut Database, thread_id: &str, r: ()|
            #[trigger] call_ensures(Database::set_manual_title, (database, thread_id, Some(value)), r)
                && (*database)@.sessions.contains_key(thread_id@) ==> {
                let before = (*database)@.sessions[thread_id@].session;
                let after = (*final(database))@.sessions[thread_id@].session;
                &&& db::shown_title(after) == value@
                &&& after.generated_title == before.generated_title
                &&& after.manual_summary == before.manual_summary
                &&& after.notes == before.notes
            },
        forall|database: &mut Database, thread_id: &str, r: ()|
            #[trigger] call_ensures(
                Database::set_manual_summary,
                (database, thread_id, Some(value)),
                r,
            ) && (*database)@.sessions.contains_key(thread_id@) ==> {
                let before = (*database)@.sessions[thread_id@].session;
                let after = (*final(database))@.sessions[thread_id@].session;
                &&& db::shown_summary(after) == value@
                &&& after.generated_summary == before.generated_summary
                &&& after.manual_title == before.manual_title
                &&& after.notes == before.notes
            },
        forall|database: &mut Database, thread_id: &str, r: ()|
            #[trigger] call_ensures(Database::set_manual_title, (database, thread_id, None), r)
                && (*database)@.sessions.contains_key(thread_id@)
                ==> (*final(database))@.sessions[thread_id@].session.manual_title is None,
        forall|database: &mut Database, thread_id: &str, r: ()|
            #[trigger] call_ensures(Database::set_manual_summary, (database, thread_id, None), r)
                && (*database)@.sessions.contains_key(thread_id@)
                ==> (*final(database))@.sessions[thread_id@].session.manual_summary is None,
{
    sessions::overrides_are_kept_as_entered(value@);
}

/// A session that is looked up is the one that is kept, and none is found just where none is kept. As
/// many are counted as are kept.
pub proof fn sessions_are_found_as_kept(
    database: &Database,
    thread_id: &str,
    found: Option<Session>,
    count: usize,
)
    requires
        call_ensures(Database::get_session, (database, thread_id), found),
        call_ensures(Database::count_sessions, (database,), count),
    ensures
        found is Some <==> database@.sessions.contains_key(thread_id@),
        found matches Some(session) ==> session@ == database@.sessions[thread_id@].session,
        count == database@.sessions.dom().len(),
{
}

/// A listing of the sessions has pinned ones first, then the later ones first, and every session once.
pub proof fn sessions_are_listed_in_order(
    database: &Database,
    list: Vec<Session>,
    i: int,
    j: int,
    s: i64,
    t: i64,
)
    requires
        call_ensures(Database::list_sessions, (database,), list),
        0 <= i < list@.len(),
        0 <= j < list@.len(),
        sessions::is_time_of(list@[i]@, s),
        sessions::is_time_of(list@[j]@, t),
    ensures
        list@[i].pinned && !list@[j].pinned ==> i < j,
        list@[i].pinned == list@[j].pinned && s > t ==> i < j,
        database@.sessions.contains_key(list@[i].thread_id@),
{
    let shown = list.deep_view();
    assert(shown[i] == list@[i]@ && shown[j] == list@[j]@);
    if list@[i].pinned == list@[j].pinned {
        sessions::later_sessions_come_first(database@.sessions, shown, i, j, s, t);
    } else if list@[i].pinned {
        db::pinned_sessions_come_first(database@.sessions, shown, i, j);
    }
}

/// A thread that is taken in is kept with its directory and its times, and it is told whether it is
/// new.
pub proof fn threads_are_taken_in()
    ensures
        forall|database: &mut Database, metadata: &SessionMetadata, now: i64, r: bool|
            #[trigger] call_ensures(Database::upsert_metadata, (database, metadata, now), r) ==> {
                let id = metadata@.thread_id;
                let after = (*final(database))@;
                &&& r <==> !(*database)@.sessions.contains_key(id)
                &&& after.sessions.contains_key(id)
                &&& after.sessions[id].session.cwd == metadata@.cwd
                &&& after.sessions[id].session.resume_command == "codex resume "@ + id
                &&& metadata@.recency_at is Some ==> after.sessions[id].session.recency_at
                    == metadata@.recency_at
                &&& metadata@.updated_at is Some ==> after.sessions[id].session.updated_at
                    == metadata@.updated_at
                &&& after.jobs == (*database)@.jobs
            },
{
}

/// The end of a session is noted with its directory and its time.
pub proof fn ends_are_taken_in()
    ensures
        forall|database: &mut Database, thread_id: &str, cwd: &str, ended_at: i64, r: ()|
            #[trigger] call_ensures(
                Database::ingest_hook,
                (database, thread_id, cwd, ended_at),
                r,
            ) ==> {
                let after = (*final(database))@;
                &&& after.sessions.contains_key(thread_id@)
                &&& after.sessions[thread_id@].session.cwd == cwd@
                &&& after.sessions[thread_id@].session.ended_at == Some(ended_at)
                &&& after.sessions[thread_id@].session.resume_command == "codex resume "@
                    + thread_id@
            },
{
}

/// A summary is stored with its title, its text, its provider and its amount of text.
pub proof fn summaries_are_stored()
    ensures
        forall|
            database: &mut Database,
            thread_id: &str,
            title: &str,
            told: &str,
            provider: SummaryProvider,
            cap: SummaryInput,
            now: i64,
            r: (),
        |
            #[trigger] call_ensures(
                Database::set_generated_summary,
                (database, thread_id, title, told, provider, cap, now),
                r,
            ) && (*database)@.sessions.contains_key(thread_id@) ==> {
                let session = (*final(database))@.sessions[thread_id@].session;
                &&& session.generated_title == Some(title@)
                &&& session.generated_summary == Some(told@)
                &&& session.summary_provider is Some && sessions::names_provider(
                    provider,
                    session.summary_provider->Some_0,
                )
                &&& session.summary_cap is Some && sessions::names_cap(
                    cap,
                    session.summary_cap->Some_0,
                )
                &&& session.summary_status == "ready"@
                &&& session.summary_error is None
            },
{
}

/// How a summary stands is kept: that it is pending, that it was not asked for, or that it failed and
/// why.
pub proof fn states_are_kept()
    ensures
        forall|database: &mut Database, thread_id: &str, r: ()|
            #[trigger] call_ensures(Database::mark_summary_pending, (database, thread_id), r)
                && (*database)@.sessions.contains_key(thread_id@) ==> {
                let session = (*final(database))@.sessions[thread_id@].session;
                session.summary_status == "pending"@ && session.summary_error is None
            },
        forall|database: &mut Database, thread_id: &str, r: ()|
            #[trigger] call_ensures(Database::mark_not_requested, (database, thread_id), r)
                && (*database)@.sessions.contains_key(thread_id@) ==> {
                let session = (*final(database))@.sessions[thread_id@].session;
                session.summary_status == "not_requested"@ && session.summary_error is None
            },
        forall|database: &mut Database, thread_id: &str, error: &str, r: ()|
            #[trigger] call_ensures(Database::mark_summary_error, (database, thread_id, error), r)
                && (*database)@.sessions.contains_key(thread_id@) ==> {
                let session = (*final(database))@.sessions[thread_id@].session;
                session.summary_status == "error"@ && session.summary_error == Some(error@)
            },
{
}

/// A job is queued with what it is for, begun once more with each attempt, and ends done or with its
/// error.
pub proof fn jobs_are_kept()
    ensures
        forall|
            database: &mut Database,
            thread_id: &str,
            provider: &str,
            cap: SummaryInput,
            now: i64,
            r: Result<(), String>,
        |
            #[trigger] call_ensures(
                Database::queue_job,
                (database, thread_id, provider, cap, now),
                r,
            ) ==> {
                &&& r is Ok <==> (*database)@.sessions.contains_key(thread_id@)
                &&& r is Ok ==> {
                    let job = (*final(database))@.jobs[thread_id@];
                    &&& (*final(database))@.jobs.contains_key(thread_id@)
                    &&& job.provider == provider@
                    &&& sessions::names_cap(cap, job.cap)
                    &&& job.status == "queued"@
                }
                &&& r is Err ==> (*final(database))@ == (*database)@
            },
        forall|database: &mut Database, thread_id: &str, now: i64, r: ()|
            #[trigger] call_ensures(Database::mark_job_running, (database, thread_id, now), r)
                && (*database)@.jobs.contains_key(thread_id@) ==> {
                let job = (*final(database))@.jobs[thread_id@];
                let before = (*database)@.jobs[thread_id@];
                &&& job.status == "running"@
                &&& before.attempts < i64::MAX ==> job.attempts == before.attempts + 1
                &&& job.provider == before.provider && job.cap == before.cap
            },
        forall|database: &mut Database, thread_id: &str, now: i64, r: ()|
            #[trigger] call_ensures(Database::mark_job_done, (database, thread_id, now), r)
                && (*database)@.jobs.contains_key(thread_id@) ==> {
                let job = (*final(database))@.jobs[thread_id@];
                job.status == "done"@ && job.last_error is None
            },
        forall|database: &mut Database, thread_id: &str, error: &str, now: i64, r: ()|
            #[trigger] call_ensures(Database::mark_job_error, (database, thread_id, error, now), r)
                && (*database)@.jobs.contains_key(thread_id@) ==> {
                let job = (*final(database))@.jobs[thread_id@];
                job.status == "error"@ && job.last_error == Some(error@)
            },
{
}

/// A tracker that filters anew shows a session just where its text in lower case holds the query in lower
/// case, and all sessions for a blank query.
pub proof fn filters_find_in_any_letter_case(k: usize)
    ensures
        forall|app: &mut TrackerApp, r: ()|
            #[trigger] call_ensures(TrackerApp::refresh_filter, (app,), r)
                && (*app)@.sessions.len() <= usize::MAX && k < (*app)@.sessions.len() ==> {
                let query = (*app)@.query;
                let after = (*final(app))@;
                &&& after.sessions == (*app)@.sessions
                &&& after.query == query
                &&& texts::says_something(query) ==> (after.filtered.contains(k) <==> text::holds(
                    db::search_text((*app)@.sessions[k as int]),
                    text::unicode_lower(text::trimmed(query)),
                ))
                &&& !texts::says_something(query) ==> after.filtered.contains(k)
            },
{
    assert forall|app: &mut TrackerApp, r: ()|
        #[trigger] call_ensures(TrackerApp::refresh_filter, (app,), r) && (*app)@.sessions.len()
            <= usize::MAX && k < (*app)@.sessions.len() implies {
        let query = (*app)@.query;
        let after = (*final(app))@;
        &&& after.sessions == (*app)@.sessions
        &&& after.query == query
        &&& texts::says_something(query) ==> (after.filtered.contains(k) <==> text::holds(
            db::search_text((*app)@.sessions[k as int]),
            text::unicode_lower(text::trimmed(query)),
        ))
        &&& !texts::says_something(query) ==> after.filtered.contains(k)
    } by {
        let query = (*app)@.query;
        screens::sessions_are_shown_where_they_hold_the_query((*app)@.sessions, query, k);
        texts::holding_is_standing_in_it(
            db::search_text((*app)@.sessions[k as int]),
            text::unicode_lower(text::trimmed(query)),
        );
    }
}

/// What is formatted of messages for a provider is bounded by what was asked for, and all of them where
/// that was asked for.
pub proof fn messages_are_formatted_as_asked_for(
    messages: &[VisibleMessage],
    cap: SummaryInput,
    given: String,
    i: int,
)
    requires
        call_ensures(summary::format_messages, (messages, cap), given),
        0 <= i < messages@.len() <= usize::MAX,
    ensures
        cap == SummaryInput::SixteenK ==> given@.len() <= 16384,
        cap == SummaryInput::SixtyFourK ==> given@.len() <= 65536,
        cap matches SummaryInput::Custom(n) ==> given@.len() <= n,
        cap == SummaryInput::Entire ==> exists|before: Seq<char>, after: Seq<char>|
            given@ == #[trigger] (before + (summaries::speaker(messages@[i].role) + ": "@
                + text::trimmed(messages@[i].text@)) + after),
{
    let all = messages.deep_view();
    assert(all[i] == messages@[i]@);
    summaries::no_message_is_left_out(all, i);
    match cap {
        SummaryInput::Custom(n) => summaries::limits_are_kept_and_not_wasted(all, n),
        _ => summaries::limits_are_kept_and_not_wasted(all, 0),
    }
}

/// The messages that are read from an answer are those of its earlier turns, then those of its later
/// ones: none is lost.
pub proof fn messages_of_all_turns_are_read(
    whole: &Json,
    earlier: &Json,
    later: &Json,
    a: Seq<JsonView>,
    b: Seq<JsonView>,
    read: Result<Vec<VisibleMessage>, String>,
    before: Result<Vec<VisibleMessage>, String>,
    after: Result<Vec<VisibleMessage>, String>,
)
    requires
        threads::has_turns(whole@, a + b),
        threads::has_turns(earlier@, a),
        threads::has_turns(later@, b),
        call_ensures(app_server::extract_visible_messages, (whole,), read),
        call_ensures(app_server::extract_visible_messages, (earlier,), before),
        call_ensures(app_server::extract_visible_messages, (later,), after),
    ensures
        read is Ok && before is Ok && after is Ok,
        read->Ok_0.deep_view() == before->Ok_0.deep_view() + after->Ok_0.deep_view(),
{
    let none = Seq::<JsonView>::empty();
    assert(a + none =~= a);
    assert(b + none =~= b);
    threads::messages_come_from_all_turns(whole@, a, b);
    threads::messages_come_from_all_turns(earlier@, a, none);
    threads::messages_come_from_all_turns(later@, b, none);
    assert(none + none =~= none);
    assert(threads::has_turns(threads::of_turns(none), none)) by {
        let thread = JsonView::Object(Map::empty().insert("turns"@, JsonView::Array(none)));
        assert(threads::holds_field(threads::of_turns(none), "thread"@, thread));
        assert(threads::holds_field(thread, "turns"@, JsonView::Array(none)));
    }
    threads::messages_come_from_all_turns(threads::of_turns(none), none, none);
    let nothing = app_server::messages_of(threads::of_turns(none))->Ok_0;
    assert(nothing.len() == (nothing + nothing).len());
    assert(nothing =~= Seq::empty());
}

/// What a provider is asked to summarize is cut to the amount that was asked for, whatever is
/// configured. The provider is the one that was asked for.
pub proof fn providers_are_asked_as_asked_for(
    provider: SummaryProvider,
    cap: SummaryInput,
    messages: &[VisibleMessage],
    cwd: &str,
    config: &Config,
    paths: &AppPaths,
    given: String,
    made: Generation,
)
    requires
        call_ensures(summary::format_messages, (messages, cap), given),
        call_ensures(summary::generate, (provider, cap, messages, cwd, config, paths), made),
    ensures
        provider == SummaryProvider::Codex <==> made is Codex,
        provider == SummaryProvider::Local <==> made is Ready,
        provider != SummaryProvider::Local ==> summaries::asks_with(made@, given@),
{
    summaries::providers_read_what_was_asked_for(
        provider,
        cap,
        config@.summary_input,
        messages.deep_view(),
        cwd@,
        config@,
        paths@,
    );
}

/// A title that the user wrote goes before the generated one, and so does a summary.
pub proof fn titles_are_those_of_the_user(session: &Session, title: &str, told: &str)
    requires
        call_ensures(Session::title, (session,), title),
        call_ensures(Session::summary, (session,), told),
    ensures
        session.manual_title matches Some(own) ==> texts::says_something(own@) ==> title@ == own@,
        session.manual_summary matches Some(own) ==> texts::says_something(own@) ==> told@ == own@,
{
    sessions::what_the_user_wrote_is_shown_first(session@);
}

/// A tracker starts with the sessions it is given, and with the provider and the amount of text that are
/// configured. It shows all of them.
pub proof fn trackers_start_as_configured(
    list: Vec<Session>,
    config: &Config,
    app: TrackerApp,
    k: usize,
)
    requires
        call_ensures(TrackerApp::new, (list, config), app),
        k < list@.len() <= usize::MAX,
    ensures
        app@.sessions == list.deep_view(),
        app@.provider == config.summary_provider,
        app@.cap == config.summary_input,
        app@.mode == ModeView::Normal,
        app@.query.len() == 0,
        app@.filtered.contains(k),
{
    screens::the_tracker_starts_as_configured(list.deep_view(), config@, k);
}

/// A tracker that is given other sessions shows those of them that its query finds, and leaves what was
/// chosen as it is.
pub proof fn trackers_take_other_sessions(k: usize)
    ensures
        forall|app: &mut TrackerApp, list: Vec<Session>, preferred: Option<&str>, r: ()|
            #[trigger] call_ensures(TrackerApp::replace_sessions, (app, list, preferred), r)
                && k < list@.len() <= usize::MAX ==> {
                let after = (*final(app))@;
                &&& after.sessions == list.deep_view()
                &&& after.query == (*app)@.query
                &&& after.mode == (*app)@.mode
                &&& after.provider == (*app)@.provider && after.cap == (*app)@.cap
                &&& !texts::says_something((*app)@.query) ==> after.filtered.contains(k)
                &&& texts::says_something((*app)@.query) ==> (after.filtered.contains(k)
                    <==> text::holds(
                    db::search_text(list@[k as int]@),
                    text::unicode_lower(text::trimmed((*app)@.query)),
                ))
            },
{
    assert forall|app: &mut TrackerApp, list: Vec<Session>, preferred: Option<&str>, r: ()|
        #[trigger] call_ensures(TrackerApp::replace_sessions, (app, list, preferred), r) && k
            < list@.len() <= usize::MAX implies {
        let after = (*final(app))@;
        &&& after.sessions == list.deep_view()
        &&& after.query == (*app)@.query
        &&& after.mode == (*app)@.mode
        &&& after.provider == (*app)@.provider && after.cap == (*app)@.cap
        &&& !texts::says_something((*app)@.query) ==> after.filtered.contains(k)
        &&& texts::says_something((*app)@.query) ==> (after.filtered.contains(k) <==> text::holds(
            db::search_text(list@[k as int]@),
            text::unicode_lower(text::trimmed((*app)@.query)),
        ))
    } by {
        let query = (*app)@.query;
        let views = list.deep_view();
        assert(views[k as int] == list@[k as int]@);
        screens::reloading_shows_the_new_sessions((*app)@, views, preferred.deep_view());
        screens::sessions_are_shown_where_they_hold_the_query(views, query, k);
        texts::holding_is_standing_in_it(
            db::search_text(views[k as int]),
            text::unicode_lower(text::trimmed(query)),
        );
    }
}

/// A key that is pressed while searching or editing becomes part of what was typed, and what was typed is
/// handed on where Enter is pressed.
pub proof fn keys_are_typed(c: char)
    ensures
        forall|app: &mut TrackerApp, r: UiAction|
            #[trigger] call_ensures(
                TrackerApp::handle_key,
                (app, screens::plain(KeyCode::Char(c))),
                r,
            ) && (*app)@.mode == ModeView::Search ==> {
                &&& (*final(app))@.query == (*app)@.query + seq![c]
                &&& (*final(app))@.mode == ModeView::Search
                &&& (*final(app))@.sessions == (*app)@.sessions
                &&& r@ is Nothing
            },
        forall|app: &mut TrackerApp, r: UiAction|
            #[trigger] call_ensures(
                TrackerApp::handle_key,
                (app, screens::plain(KeyCode::Char(c))),
                r,
            ) ==> ((*app)@.mode matches ModeView::Edit { field, buffer } ==> {
                &&& (*final(app))@.mode == (ModeView::Edit { field, buffer: buffer + seq![c] })
                &&& (*final(app))@.sessions == (*app)@.sessions
                &&& r@ is Nothing
            }),
        forall|app: &mut TrackerApp, r: UiAction|
            #[trigger] call_ensures(
                TrackerApp::handle_key,
                (app, screens::plain(KeyCode::Enter)),
                r,
            ) ==> ((*app)@.mode matches ModeView::Edit { field, buffer } ==> (tui::selection((*app)@)
                matches Some(session) ==> (*final(app))@.mode == ModeView::Normal && r@
                == (ActionView::SaveEdit { thread_id: session.thread_id, field, value: buffer }))),
{
    assert forall|app: &mut TrackerApp, r: UiAction|
        #[trigger] call_ensures(TrackerApp::handle_key, (app, screens::plain(KeyCode::Char(c))), r)
        implies ((*app)@.mode matches ModeView::Edit { field, buffer } ==> {
        &&& (*final(app))@.mode == (ModeView::Edit { field, buffer: buffer + seq![c] })
        &&& (*final(app))@.sessions == (*app)@.sessions
        &&& r@ is Nothing
    }) by {
        if let ModeView::Edit { field, buffer } = (*app)@.mode {
            assert(buffer.push(c) =~= buffer + seq![c]);
        }
    }
    assert forall|app: &mut TrackerApp, r: UiAction|
        #[trigger] call_ensures(TrackerApp::handle_key, (app, screens::plain(KeyCode::Enter)), r)
        implies ((*app)@.mode matches ModeView::Edit { field, buffer } ==> (tui::selection((*app)@)
        matches Some(session) ==> (*final(app))@.mode == ModeView::Normal && r@
        == (ActionView::SaveEdit { thread_id: session.thread_id, field, value: buffer }))) by {
        if let ModeView::Edit { field, buffer } = (*app)@.mode {
            if let Some(session) = tui::selection((*app)@) {
                screens::edits_hand_on_what_was_typed((*app)@, field, buffer, c, session);
            }
        }
    }
}

/// An edit that is saved is what is shown from then on, without white space around it.
pub proof fn edits_are_saved(value: &str, from: int, to: int, core: Seq<char>)
    requires
        texts::is_core(value@, core, from, to),
    ensures
        forall|database: &mut Database, thread_id: &str, field: EditField, r: Result<(), String>|
            #[trigger] call_ensures(tui::save_edit, (database, thread_id, field, value), r)
                && (*database)@.sessions.contains_key(thread_id@) && field != EditField::Tags ==> {
                let session = (*final(database))@.sessions[thread_id@].session;
                &&& r is Ok
                &&& field == EditField::Title && core.len() > 0 ==> db::shown_title(session) == core
                &&& field == EditField::Title && core.len() == 0 ==> session.manual_title is None
                &&& field == EditField::Summary && core.len() > 0 ==> db::shown_summary(session)
                    == core
                &&& field == EditField::Summary && core.len() == 0 ==> session.manual_summary is None
                &&& field == EditField::Notes ==> session.notes == core
            },
{
    assert forall|database: &mut Database, thread_id: &str, field: EditField, r: Result<(), String>|
        #[trigger] call_ensures(tui::save_edit, (database, thread_id, field, value), r)
            && (*database)@.sessions.contains_key(thread_id@) && field != EditField::Tags implies {
        let session = (*final(database))@.sessions[thread_id@].session;
        &&& r is Ok
        &&& field == EditField::Title && core.len() > 0 ==> db::shown_title(session) == core
        &&& field == EditField::Title && core.len() == 0 ==> session.manual_title is None
        &&& field == EditField::Summary && core.len() > 0 ==> db::shown_summary(session) == core
        &&& field == EditField::Summary && core.len() == 0 ==> session.manual_summary is None
        &&& field == EditField::Notes ==> session.notes == core
    } by {
        screens::saved_edits_are_shown((*database)@, thread_id@, value@, from, to, core);
    }
}

/// Tags of a session without a row are refused, and a session without tags has none afterwards. Tags
/// change nothing else of the session.
pub proof fn tags_are_set()
    ensures
        forall|database: &mut Database, thread_id: &str, tags: &[String], r: Result<(), String>|
            #[trigger] call_ensures(Database::set_tags, (database, thread_id, tags), r)
                && (*database)@.sessions.contains_key(thread_id@) ==> {
                let before = (*database)@.sessions[thread_id@].session;
                let after = (*final(database))@.sessions[thread_id@].session;
                &&& r is Ok
                &&& tags@.len() == 0 ==> after.tags.len() == 0
                &&& after.notes == before.notes && after.pinned == before.pinned
                    && after.manual_title == before.manual_title && after.manual_summary
                    == before.manual_summary
                &&& (*final(database))@.jobs == (*database)@.jobs
            },
{
    assert forall|database: &mut Database, thread_id: &str, tags: &[String], r: Result<(), String>|
        #[trigger] call_ensures(Database::set_tags, (database, thread_id, tags), r)
            && (*database)@.sessions.contains_key(thread_id@) implies {
        let before = (*database)@.sessions[thread_id@].session;
        let after = (*final(database))@.sessions[thread_id@].session;
        &&& r is Ok
        &&& tags@.len() == 0 ==> after.tags.len() == 0
        &&& after.notes == before.notes && after.pinned == before.pinned && after.manual_title
            == before.manual_title && after.manual_summary == before.manual_summary
        &&& (*final(database))@.jobs == (*database)@.jobs
    } by {
        let views = tags.deep_view();
        sessions::tags_are_replaced((*database)@, thread_id@, views, Seq::empty());
        if tags@.len() == 0 {
            assert(views =~= Seq::empty());
        }
    }
}

proof fn lemma_listed_entries(list: Seq<SessionView>, filtered: Seq<usize>, i: int)
    requires
        forall|j: int| 0 <= j < filtered.len() ==> (#[trigger] filtered[j]) < list.len(),
        0 <= i < filtered.len(),
    ensures
        screen::listed_entries(list, filtered).len() == filtered.len(),
        screen::listed_entries(list, filtered)[i] == screen::entry_of(list[filtered[i] as int]),
    decreases filtered.len(),
{
    let before = filtered.drop_last();
    assert(forall|j: int| 0 <= j < before.len() ==> before[j] == filtered[j]);
    if before.len() == 0 {
        assert(screen::listed_entries(list, before) =~= Seq::empty());
    } else if i < before.len() {
        lemma_listed_entries(list, before, i);
    } else {
        lemma_listed_entries(list, before, 0);
    }
}

/// The list on the screen has one entry for each session that is shown, in their order, and an entry
/// names its session.
pub proof fn entries_are_those_shown(app: &TrackerApp, entries: Vec<(String, String)>, i: int)
    requires
        call_ensures(screen::list_entries, (app,), entries),
        0 <= i < app@.filtered.len(),
        forall|j: int| 0 <= j < app@.filtered.len() ==> (#[trigger] app@.filtered[j])
            < app@.sessions.len(),
    ensures
        entries@.len() == app@.filtered.len(),
        ({
            let session = app@.sessions[app@.filtered[i] as int];
            &&& session.pinned ==> entries@[i].0@ == "[P] "@ + db::shown_title(session)
            &&& !session.pinned ==> entries@[i].0@ == "    "@ + db::shown_title(session)
            &&& entries@[i].1@ == "    "@ + session.cwd + " | "@ + session.source
        }),
{
    let shown = screen::entry_views(entries@);
    lemma_listed_entries(app@.sessions, app@.filtered, i);
    assert(shown.len() == entries@.len());
    assert(shown[i] == (entries@[i].0@, entries@[i].1@));
    screens::entries_name_their_session(app@.sessions[app@.filtered[i] as int]);
}

/// The end of a session is noted, and its summary is queued with the provider and the amount of text that
/// are configured.
pub proof fn ends_are_noted_and_queued()
    ensures
        forall|
            database: &mut Database,
            event: &SessionEndInput,
            config: &Config,
            now: i64,
            r: (),
        |
            #[trigger] call_ensures(hook::note_session_end, (database, event, config, now), r)
                && config.summary_input != SummaryInput::Custom(0) ==> {
                let after = (*final(database))@;
                let id = event@.session_id;
                &&& after.sessions.contains_key(id)
                &&& after.sessions[id].session.cwd == event@.cwd
                &&& after.sessions[id].session.ended_at == Some(now)
                &&& after.jobs.contains_key(id)
                &&& after.jobs[id].status == "queued"@
                &&& sessions::names_cap(config.summary_input, after.jobs[id].cap)
                &&& config.on_close == OnClose::Automatic ==> sessions::names_provider(
                    config.summary_provider,
                    after.jobs[id].provider,
                )
                &&& config.on_close == OnClose::LocalFirst ==> after.jobs[id].provider == "local"@
                &&& config.on_close == OnClose::Manual ==> after.jobs[id].provider == "metadata"@
            },
{
    assert forall|
        database: &mut Database,
        event: &SessionEndInput,
        config: &Config,
        now: i64,
        r: (),
    |
        #[trigger] call_ensures(hook::note_session_end, (database, event, config, now), r)
            && config.summary_input != SummaryInput::Custom(0) implies {
        let after = (*final(database))@;
        let id = event@.session_id;
        &&& after.sessions.contains_key(id)
        &&& after.sessions[id].session.cwd == event@.cwd
        &&& after.sessions[id].session.ended_at == Some(now)
        &&& after.jobs.contains_key(id)
        &&& after.jobs[id].status == "queued"@
        &&& sessions::names_cap(config.summary_input, after.jobs[id].cap)
        &&& config.on_close == OnClose::Automatic ==> sessions::names_provider(
            config.summary_provider,
            after.jobs[id].provider,
        )
        &&& config.on_close == OnClose::LocalFirst ==> after.jobs[id].provider == "local"@
        &&& config.on_close == OnClose::Manual ==> after.jobs[id].provider == "metadata"@
    } by {
        runs::ends_queue_what_is_configured((*database)@, event@, config@, now);
    }
}

/// A run that read the messages of a thread summarizes all of them as the run says, with the directory of
/// the thread.
pub proof fn runs_summarize_what_was_read()
    ensures
        forall|
            run: &mut BatchRun,
            messages: Vec<VisibleMessage>,
            config: &Config,
            paths: &AppPaths,
            r: BatchNext,
        |
            #[trigger] call_ensures(
                BatchRun::step,
                (run, Reply::Messages(Ok(messages)), config, paths),
                r,
            ) && (*run)@.stage == BatchStage::Reading && (*run)@.at < (*run)@.threads.len()
                && (*run)@.provider != SummaryProvider::Local ==> r@ == BatchNextView::Ask(
                StepView::RunProvider {
                    generation: summary::generation(
                        (*run)@.provider,
                        (*run)@.cap,
                        messages.deep_view(),
                        (*run)@.threads[(*run)@.at as int].cwd,
                        config@,
                        paths@,
                    ),
                },
            ),
{
    assert forall|
        run: &mut BatchRun,
        messages: Vec<VisibleMessage>,
        config: &Config,
        paths: &AppPaths,
        r: BatchNext,
    |
        #[trigger] call_ensures(
            BatchRun::step,
            (run, Reply::Messages(Ok(messages)), config, paths),
            r,
        ) && (*run)@.stage == BatchStage::Reading && (*run)@.at < (*run)@.threads.len()
            && (*run)@.provider != SummaryProvider::Local implies r@ == BatchNextView::Ask(
        StepView::RunProvider {
            generation: summary::generation(
                (*run)@.provider,
                (*run)@.cap,
                messages.deep_view(),
                (*run)@.threads[(*run)@.at as int].cwd,
                config@,
                paths@,
            ),
        },
    ) by {
        runs::messages_are_summarized_as_the_run_says(
            (*run)@,
            messages.deep_view(),
            config@,
            paths@,
        );
    }
}

/// A write-ahead log in any letter case is one, and any other journal is refused. A busy database is
/// asked a hundred times more.
pub proof fn busy_databases_are_asked_again(attempt: u32, reply: JournalReply, next: JournalNext)
    requires
        call_ensures(db::next_journal_step, (attempt, reply), next),
    ensures
        reply matches JournalReply::Mode { name } ==> {
            &&& next is Done || next is Fail
            &&& next is Done <==> name@.len() == 3 && (name@[0] == 'w' || name@[0] == 'W') && (name@[1] == 'a' || name@[1] == 'A') && (name@[2]
                == 'l' || name@[2] == 'L')
        },
        reply matches JournalReply::Busy { error } ==> {
            &&& attempt < 100 ==> next is Retry
            &&& attempt >= 100 ==> next == (JournalNext::Fail { error })
        },
        reply matches JournalReply::Failed { error } ==> next == (JournalNext::Fail { error }),
{
    reveal_strlit("wal");
    assert("wal"@ =~= seq!['w', 'a', 'l']);
    if let JournalReply::Mode { name } = reply {
        let read = text::ascii_folded(name@);
        let expected = text::ascii_folded("wal"@);
        assert(read.len() == name@.len() && expected.len() == 3);
        if name@.len() == 3 {
            assert(read[0] == expected[0] && read[1] == expected[1] && read[2] == expected[2]
                <==> read =~= expected);
        }
    }
}

/// What is restored of a session is kept as it was stored, and takes nothing from the others. A job is
/// restored where its session is.
pub proof fn stored_rows_are_restored()
    ensures
        forall|database: &mut Database, row: StoredSession, r: ()|
            #[trigger] call_ensures(Database::restore_session, (database, row), r) ==> {
                let id = row@.session.thread_id;
                &&& (*final(database))@.sessions == (*database)@.sessions.insert(id, row@)
                &&& (*final(database))@.jobs == (*database)@.jobs
            },
        forall|database: &mut Database, thread_id: &str, row: StoredJob, r: Result<(), String>|
            #[trigger] call_ensures(Database::restore_job, (database, thread_id, row), r) ==> {
                &&& r is Ok <==> (*database)@.sessions.contains_key(thread_id@)
                &&& r is Ok ==> (*final(database))@.jobs == (*database)@.jobs.insert(
                    thread_id@,
                    row@,
                )
                &&& (*final(database))@.sessions == (*database)@.sessions
            },
{
}

/// A job is found as it was queued.
pub proof fn jobs_are_found(database: &Database, thread_id: &str, found: Result<Option<Job>, String>)
    requires
        call_ensures(Database::get_job, (database, thread_id), found),
    ensures
        !database@.jobs.contains_key(thread_id@) ==> found matches Ok(None),
        database@.jobs.contains_key(thread_id@) && 0 <= database@.jobs[thread_id@].attempts
            <= u32::MAX ==> (found matches Ok(Some(job)) && job.thread_id@ == thread_id@
            && job.provider@ == database@.jobs[thread_id@].provider && job.cap@
            == database@.jobs[thread_id@].cap && job.status@ == database@.jobs[thread_id@].status
            && job.attempts == database@.jobs[thread_id@].attempts),
{
    sessions::jobs_are_found_as_kept(database@, thread_id@);
}

/// A hook is told to be installed just where merging would write nothing.
pub proof fn hooks_are_merged_once(
    source: Option<&str>,
    path: &str,
    executable: &str,
    written: Result<Option<String>, String>,
    found: Result<bool, String>,
    root: JsonView,
)
    requires
        call_ensures(setup::merge_hook_text, (source, path, executable), written),
        call_ensures(setup::hook_is_installed, (source, path, executable), found),
        source matches Some(text) ==> json::json_parsed(text@) == Ok::<JsonView, serde_json::Error>(
            root,
        ),
        source is None ==> root == JsonView::Object(Map::empty()),
        setup::merged(root, setup::command_of(executable@)) is Ok,
    ensures
        written is Ok && found is Ok,
        written->Ok_0 is None <==> found == Ok::<bool, String>(true),
{
    setups::installed_hooks_need_no_merging(source.deep_view(), path@, executable@, root);
}

/// The doctor fails just where something that the tracker needs is missing.
pub proof fn doctors_fail_on_faults(
    paths: &AppPaths,
    seen: &Observations,
    checks: Vec<Check>,
    list: &[Check],
    failed: bool,
)
    requires
        call_ensures(doctor::run, (paths, seen), checks),
        list@ == checks@,
        call_ensures(doctor::has_failures, (list,), failed),
        doctor::codex_check(seen.codex).level != CheckLevel::Fail,
    ensures
        !failed <==> {
            &&& seen.config is Ok
            &&& seen.app_server is Ok
            &&& seen.integrity is Ok && seen.integrity->Ok_0@ == "ok"@
            &&& seen.terminal is Some
            &&& seen.setsid is Some
            &&& seen.hooks_path is Ok
            &&& seen.hook is Ok
            &&& seen.config matches Ok(settings) && match settings.summary_provider {
                SummaryProvider::Local => true,
                SummaryProvider::Openai => seen.api_key is Some && texts::says_something(
                    seen.api_key->Some_0@,
                ),
                SummaryProvider::Codex => seen.login matches Ok(output) && output.success,
            }
        },
{
    assert(list.deep_view() =~= checks.deep_view());
    setups::the_doctor_finds_every_fault(paths@, *seen);
}

/// The directories of the tracker are below those that are named, or below the home directory.
pub proof fn directories_are_found(
    home: &str,
    data: Option<&str>,
    config: Option<&str>,
    state: Option<&str>,
    found: Result<AppPaths, String>,
)
    requires
        call_ensures(AppPaths::discover, (Some(home), data, config, state), found),
        home@.len() > 0,
        home@.last() != '/',
    ensures
        found matches Ok(files) && {
            &&& setups::under_root(data.deep_view(), home@ + "/.local/share"@, files@.data_dir)
            &&& setups::under_root(config.deep_view(), home@ + "/.config"@, files@.config_dir)
            &&& setups::under_root(state.deep_view(), home@ + "/.local/state"@, files@.state_dir)
        },
{
    setups::directories_are_where_they_are_named(
        home@,
        data.deep_view(),
        config.deep_view(),
        state.deep_view(),
    );
}

/// What is given on the command line goes before the configuration, which is otherwise kept.
pub proof fn options_are_applied(config: Config, options: &SetupOptions, after: Config)
    requires
        call_ensures(commands::apply_options, (config, options), after),
    ensures
        options.provider matches Some(given) ==> after.summary_provider == given,
        options.provider is None ==> after.summary_provider == config.summary_provider,
        options.summary_input matches Some(given) ==> after.summary_input == given,
        options.summary_input is None ==> after.summary_input == config.summary_input,
        options.on_close matches Some(given) ==> after.on_close == given,
        options.on_close is None ==> after.on_close == config.on_close,
        options.sources@.len() == 0 ==> after.sources@ == config.sources@,
        options.sources@.len() > 0 ==> forall|x: SourceKind| #[trigger]
            after.sources@.contains(x) <==> options.sources@.contains(x),
{
    setups::options_go_before_the_configuration(config@, options@);
    let made = commands::overridden(config@, options@);
    assert(made.sources == after.sources@);
    assert(options@.sources == options.sources@);
    assert forall|x: SourceKind| options.sources@.len() > 0 implies (#[trigger] after.sources@.contains(
        x,
    ) <==> options.sources@.contains(x)) by {
        assert(made.sources.contains(x) <==> options@.sources.contains(x));
    }
}

/// A configuration is valid just where it names what the tracker needs.
pub proof fn configurations_are_validated(config: &Config, r: Result<(), ConfigError>)
    requires
        call_ensures(Config::validate, (config,), r),
    ensures
        r is Ok <==> {
            &&& config.version == 1
            &&& config.sources@.len() > 0
            &&& config.terminal_argv@.len() > 0
            &&& texts::says_something(config.terminal_argv@[0]@)
            &&& setups::one_holds(config.terminal_argv.deep_view(), "{thread_id}"@)
            &&& setups::one_holds(config.terminal_argv.deep_view(), "{cwd}"@)
            &&& texts::says_something(config.openai_model@)
            &&& config.summary_input != SummaryInput::Custom(0)
        },
{
    setups::valid_configurations(config@);
}

/// The thread of an identifier is the first that has it.
pub proof fn threads_are_found(
    list: Vec<RemoteThread>,
    thread_id: &str,
    found: Result<RemoteThread, String>,
)
    requires
        call_ensures(sync::find_remote_thread, (list, thread_id), found),
    ensures
        found is Ok <==> exists|i: int| 0 <= i < list@.len() && (#[trigger] list@[i])@.thread_id
            == thread_id@,
        found matches Ok(thread) ==> thread@.thread_id == thread_id@ && exists|i: int|
            0 <= i < list@.len() && (#[trigger] list@[i])@ == thread@,
{
    lemma_first_named(list.deep_view(), thread_id@);
    assert forall|i: int| 0 <= i < list@.len() implies list.deep_view()[i] == (
    #[trigger] list@[i])@ by {}
    if exists|i: int| 0 <= i < list@.len() && (#[trigger] list@[i])@.thread_id == thread_id@ {
        let i = choose|i: int|
            0 <= i < list@.len() && (#[trigger] list@[i])@.thread_id == thread_id@;
        assert(list.deep_view()[i].thread_id == thread_id@);
    }
}

proof fn lemma_first_named(list: Seq<MetadataView>, thread_id: Seq<char>)
    ensures
        sync::first_named(list, thread_id) is Some <==> exists|i: int|
            0 <= i < list.len() && (#[trigger] list[i]).thread_id == thread_id,
        sync::first_named(list, thread_id) matches Some(thread) ==> thread.thread_id == thread_id
            && list.contains(thread),
    decreases list.len(),
{
    if list.len() > 0 {
        lemma_first_named(list.drop_first(), thread_id);
        assert(list.drop_first() =~= list.skip(1));
        assert(forall|i: int| 0 <= i < list.len() - 1 ==> list.drop_first()[i] == list[i + 1]);
        if list[0].thread_id != thread_id {
            if exists|i: int| 0 <= i < list.len() && (#[trigger] list[i]).thread_id == thread_id {
                let i = choose|i: int| 0 <= i < list.len() && (#[trigger] list[i]).thread_id == thread_id;
                assert(list.drop_first()[i - 1].thread_id == thread_id);
            }
        }
    }
}

/// What a session or a message is to the laws is what it holds, field by field.
pub proof fn sessions_are_seen_as_they_are(
    session: Session,
    message: VisibleMessage,
    metadata: SessionMetadata,
    settings: Config,
)
    ensures
        session@.thread_id == session.thread_id@,
        session@.cwd == session.cwd@,
        session@.source == session.source@,
        session@.notes == session.notes@,
        session@.pinned == session.pinned,
        session@.created_at == session.created_at,
        session@.updated_at == session.updated_at,
        session@.recency_at == session.recency_at,
        session@.ended_at == session.ended_at,
        session@.manual_title == session.manual_title.deep_view(),
        session@.manual_summary == session.manual_summary.deep_view(),
        session@.generated_title == session.generated_title.deep_view(),
        session@.generated_summary == session.generated_summary.deep_view(),
        session@.summary_status == session.summary_status@,
        session@.summary_error == session.summary_error.deep_view(),
        session@.tags == session.tags.deep_view(),
        message@.role == message.role,
        message@.text == message.text@,
        metadata@.thread_id == metadata.thread_id@,
        metadata@.cwd == metadata.cwd@,
        metadata@.recency_at == metadata.recency_at,
        metadata@.updated_at == metadata.updated_at,
        metadata@.created_at == metadata.created_at,
        settings@.summary_provider == settings.summary_provider,
        settings@.summary_input == settings.summary_input,
        settings@.on_close == settings.on_close,
        settings@.sources == settings.sources@,
        settings@.openai_model == settings.openai_model@,
{
}

} // verus!
