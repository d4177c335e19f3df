//! What holds of the keys and of what is shown.

use vstd::prelude::*;

use crate::config::{SummaryInput, SummaryProvider};
use crate::db;
use crate::db::{DatabaseView, SessionView};
use crate::laws::sessions;
use crate::laws::texts;
use crate::screen;
use crate::screen::{LineStyle, LineView, TimeOffsets};
use crate::text;
use crate::tui;
use crate::tui::{
    ActionView, Confirmation, EditField, EffectView, KeyCode, KeyEvent, ModeView, TrackerView,
};

verus! {

/// A key without any other held down.
pub open spec fn plain(code: KeyCode) -> KeyEvent {
    KeyEvent { code, control: false, alt: false }
}

/// A search does not depend on the letter case of the query, nor on white space around it: two queries
/// that are the same in lower case show the same sessions.
pub proof fn searches_do_not_depend_on_letter_case(
    sessions: Seq<SessionView>,
    a: Seq<char>,
    b: Seq<char>,
)
    requires
        text::unicode_lower(text::trimmed(a)) == text::unicode_lower(text::trimmed(b)),
        texts::says_something(a) == texts::says_something(b),
    ensures
        tui::shown_positions(sessions, a) == tui::shown_positions(sessions, b),
    decreases sessions.len(),
{
    texts::trimming_keeps_the_core(a);
    texts::trimming_keeps_the_core(b);
    if sessions.len() > 0 {
        searches_do_not_depend_on_letter_case(sessions.drop_last(), a, b);
    }
}

/// A session is shown for a query that is not blank just where the query in lower case stands in what
/// is searched of the session in lower case. For a blank query every session is shown.
pub proof fn sessions_are_shown_where_they_hold_the_query(
    sessions: Seq<SessionView>,
    query: Seq<char>,
    k: usize,
)
    requires
        sessions.len() <= usize::MAX,
        k < sessions.len(),
    ensures
        texts::says_something(query) ==> (tui::shown_positions(sessions, query).contains(k)
            <==> exists|before: Seq<char>, after: Seq<char>|
            db::search_text(sessions[k as int]) == #[trigger] (before + text::unicode_lower(
                text::trimmed(query),
            ) + after)),
        !texts::says_something(query) ==> tui::shown_positions(sessions, query).contains(k),
{
    texts::trimming_keeps_the_core(query);
    tui::filters_are_exact(sessions, query);
    texts::holding_is_standing_in_it(
        db::search_text(sessions[k as int]),
        text::unicode_lower(text::trimmed(query)),
    );
}

/// A session is shown where one of its fields holds the query, in whatever letter case, as far as the
/// lower case of the field's parts is their lower case together.
pub proof fn fields_are_found_in_any_letter_case(
    sessions: Seq<SessionView>,
    query: Seq<char>,
    k: usize,
    before: Seq<char>,
    found: Seq<char>,
    after: Seq<char>,
)
    requires
        sessions.len() <= usize::MAX,
        k < sessions.len(),
        text::joined(db::search_fields(sessions[k as int]), "\n"@) == before + found + after,
        text::unicode_lower(found) == text::unicode_lower(text::trimmed(query)),
        text::unicode_lower(before + found + after) == text::unicode_lower(before)
            + text::unicode_lower(found) + text::unicode_lower(after),
    ensures
        tui::shown_positions(sessions, query).contains(k),
{
    sessions_are_shown_where_they_hold_the_query(sessions, query, k);
    assert(db::search_text(sessions[k as int]) == text::unicode_lower(before) + text::unicode_lower(
        text::trimmed(query),
    ) + text::unicode_lower(after));
}

/// Two sessions in which the same is to be searched, in whatever letter case, are shown for the same
/// queries.
pub proof fn sessions_are_searched_in_lower_case(a: SessionView, b: SessionView, query: Seq<char>)
    requires
        text::unicode_lower(text::joined(db::search_fields(a), "\n"@)) == text::unicode_lower(
            text::joined(db::search_fields(b), "\n"@),
        ),
    ensures
        tui::is_shown(a, query) == tui::is_shown(b, query),
{
}

/// What was searched for is still selected as far as it can be: the selection stays where it is, or
/// goes to the last session that is shown.
pub proof fn filtering_keeps_the_place(app: TrackerView)
    ensures
        ({
            let after = tui::refiltered(app);
            &&& after.filtered == tui::shown_positions(app.sessions, app.query)
            &&& app.selected < after.filtered.len() ==> after.selected == app.selected
            &&& after.filtered.len() > 0 && app.selected >= after.filtered.len()
                ==> after.selected == after.filtered.len() - 1
            &&& after.filtered.len() == 0 ==> after.selected == 0
            &&& after.query == app.query && after.mode == app.mode && after.provider
                == app.provider && after.cap == app.cap
        }),
{
}

/// The session that is selected is the one at the selected place of those that are shown.
pub proof fn the_selection_is_among_what_is_shown(app: TrackerView)
    requires
        app.sessions.len() <= usize::MAX,
        tui::well_formed(app),
    ensures
        app.filtered.len() > 0 ==> tui::selection(app) == Some(
            app.sessions[app.filtered[app.selected as int] as int],
        ),
        app.filtered.len() == 0 ==> tui::selection(app) is None,
        tui::selection(app) matches Some(session) ==> tui::is_shown(session, app.query),
{
    tui::filters_are_exact(app.sessions, app.query);
    if app.filtered.len() > 0 {
        let k = app.filtered[app.selected as int];
        assert(app.filtered.contains(k));
    }
}

/// One key down and one key up come back to the same session, and neither leaves the list. The first
/// and the last key go to its ends.
pub proof fn moving_stays_in_the_list(app: TrackerView)
    requires
        app.mode == ModeView::Normal,
        app.filtered.len() > 0,
        app.filtered.len() <= usize::MAX,
        app.selected < app.filtered.len(),
    ensures
        ({
            let down = tui::handled(app, plain(KeyCode::Down)).0;
            let up = tui::handled(app, plain(KeyCode::Up)).0;
            let home = tui::handled(app, plain(KeyCode::Home)).0;
            let end = tui::handled(app, plain(KeyCode::End)).0;
            &&& app.selected + 1 < app.filtered.len() ==> down.selected == app.selected + 1
                && tui::handled(down, plain(KeyCode::Up)).0 == app
            &&& app.selected + 1 == app.filtered.len() ==> down == app
            &&& app.selected > 0 ==> up.selected == app.selected - 1 && tui::handled(
                up,
                plain(KeyCode::Down),
            ).0 == app
            &&& app.selected == 0 ==> up == app
            &&& home.selected == 0
            &&& end.selected == app.filtered.len() - 1
            &&& tui::handled(app, plain(KeyCode::Char('j'))) == tui::handled(
                app,
                plain(KeyCode::Down),
            )
            &&& tui::handled(app, plain(KeyCode::Char('k'))) == tui::handled(
                app,
                plain(KeyCode::Up),
            )
            &&& down.filtered == app.filtered && up.filtered == app.filtered && home.filtered
                == app.filtered && end.filtered == app.filtered
        }),
{
}

/// To type while searching and to take it back again leads to the same query. The search ends with
/// Enter or Esc, and keeps what it found; Esc after that gives up the search and shows all sessions.
pub proof fn searching_can_be_taken_back(app: TrackerView, c: char)
    requires
        app.mode == ModeView::Search,
    ensures
        ({
            let typed = tui::handled(app, plain(KeyCode::Char(c))).0;
            let back = tui::handled(typed, plain(KeyCode::Backspace)).0;
            let ended = tui::handled(app, plain(KeyCode::Enter)).0;
            let given_up = tui::handled(ended, plain(KeyCode::Esc)).0;
            &&& back.query == app.query
            &&& back.mode == ModeView::Search
            &&& back.filtered == tui::shown_positions(app.sessions, app.query)
            &&& ended == (TrackerView { mode: ModeView::Normal, ..app })
            &&& tui::handled(app, plain(KeyCode::Esc)).0 == ended
            &&& given_up.query.len() == 0
            &&& app.query.len() > 0 ==> given_up.filtered == tui::shown_positions(
                app.sessions,
                Seq::empty(),
            )
            &&& app.query.len() == 0 ==> given_up == ended
            &&& tui::handled(
                TrackerView { query: Seq::empty(), ..app },
                plain(KeyCode::Backspace),
            ).0.query.len() == 0
        }),
{
    assert(app.query.push(c).drop_last() =~= app.query);
}

/// A key for an edit opens it with what is shown of the session, and without a session it does nothing.
pub proof fn edits_start_with_what_is_there(app: TrackerView, session: SessionView)
    requires
        app.mode == ModeView::Normal,
        tui::selection(app) == Some(session),
    ensures
        tui::handled(app, plain(KeyCode::Char('t'))).0.mode == (ModeView::Edit {
            field: EditField::Title,
            buffer: db::shown_title(session),
        }),
        tui::handled(app, plain(KeyCode::Char('y'))).0.mode == (ModeView::Edit {
            field: EditField::Summary,
            buffer: db::shown_summary(session),
        }),
        tui::handled(app, plain(KeyCode::Char('n'))).0.mode == (ModeView::Edit {
            field: EditField::Notes,
            buffer: session.notes,
        }),
        tui::handled(app, plain(KeyCode::Char('g'))).0.mode == (ModeView::Edit {
            field: EditField::Tags,
            buffer: text::joined(session.tags, ", "@),
        }),
{
}

/// What is typed into an edit is added at its end and can be taken back, Enter hands on all that was
/// typed for the session and the field, and Esc hands on nothing.
pub proof fn edits_hand_on_what_was_typed(
    app: TrackerView,
    field: EditField,
    buffer: Seq<char>,
    c: char,
    session: SessionView,
)
    requires
        app.mode == (ModeView::Edit { field, buffer }),
        tui::selection(app) == Some(session),
    ensures
        ({
            let typed = tui::handled(app, plain(KeyCode::Char(c)));
            let back = tui::handled(typed.0, plain(KeyCode::Backspace));
            let entered = tui::handled(app, plain(KeyCode::Enter));
            let given_up = tui::handled(app, plain(KeyCode::Esc));
            &&& typed.0.mode == (ModeView::Edit { field, buffer: buffer + seq![c] })
            &&& typed.1 is Nothing
            &&& back.0 == app
            &&& entered.0.mode == ModeView::Normal
            &&& entered.1 == (ActionView::SaveEdit {
                thread_id: session.thread_id,
                field,
                value: buffer,
            })
            &&& given_up.0.mode == ModeView::Normal
            &&& given_up.1 is Nothing
        }),
{
    assert(buffer.push(c) =~= buffer + seq![c]);
    assert(buffer.push(c).drop_last() =~= buffer);
}

/// A title or a summary that was entered is shown, without white space around it, and a blank one
/// brings back the generated one. Notes are kept as they were entered, but for such white space.
pub proof fn saved_edits_are_shown(
    data: DatabaseView,
    thread_id: Seq<char>,
    value: Seq<char>,
    from: int,
    to: int,
    core: Seq<char>,
)
    requires
        data.sessions.contains_key(thread_id),
        texts::is_core(value, core, from, to),
    ensures
        tui::after_edit(data, thread_id, EditField::Title, value) matches Ok(after) && {
            let session = after.sessions[thread_id].session;
            &&& core.len() > 0 ==> db::shown_title(session) == core
            &&& core.len() == 0 ==> session.manual_title is None
            &&& session.generated_title == data.sessions[thread_id].session.generated_title
            &&& session.manual_summary == data.sessions[thread_id].session.manual_summary
            &&& session.notes == data.sessions[thread_id].session.notes
        },
        tui::after_edit(data, thread_id, EditField::Summary, value) matches Ok(after) && {
            let session = after.sessions[thread_id].session;
            &&& core.len() > 0 ==> db::shown_summary(session) == core
            &&& core.len() == 0 ==> session.manual_summary is None
            &&& session.generated_summary == data.sessions[thread_id].session.generated_summary
            &&& session.manual_title == data.sessions[thread_id].session.manual_title
            &&& session.notes == data.sessions[thread_id].session.notes
        },
        tui::after_edit(data, thread_id, EditField::Notes, value) matches Ok(after) && {
            let session = after.sessions[thread_id].session;
            &&& session.notes == core
            &&& session.manual_title == data.sessions[thread_id].session.manual_title
            &&& session.manual_summary == data.sessions[thread_id].session.manual_summary
            &&& session.tags == data.sessions[thread_id].session.tags
        },
{
    texts::the_core_is_the_trimmed_text(value, core, from, to);
    assert(core.subrange(0, core.len() as int) =~= core);
    if core.len() > 0 {
        assert(core[0] == value[from] && core[core.len() - 1] == value[to - 1]);
    }
    assert(texts::is_core(core, core, 0, core.len() as int));
    texts::the_core_is_the_trimmed_text(core, core, 0, core.len() as int);
}

proof fn lemma_tags_add(a: Seq<Seq<char>>, b: Seq<Seq<char>>)
    ensures
        tui::entered_tags(a + b) == tui::entered_tags(a) + tui::entered_tags(b),
    decreases b.len(),
{
    if b.len() == 0 {
        assert(a + b =~= a);
        assert(tui::entered_tags(a) + Seq::<Seq<char>>::empty() =~= tui::entered_tags(a));
    } else {
        lemma_tags_add(a, b.drop_last());
        assert((a + b).drop_last() =~= a + b.drop_last());
        assert((a + b).last() == b.last());
        assert(tui::entered_tags(a + b) =~= tui::entered_tags(a) + tui::entered_tags(b));
    }
}

/// Tags are entered with commas between them: those of what stands before a comma and then those of
/// what stands after it. What has no comma is one tag, without white space around it, or none where it
/// is blank.
pub proof fn tags_are_entered_between_commas(a: Seq<char>, b: Seq<char>)
    ensures
        tui::entered_tags(text::pieces(a + seq![','] + b, ',')) == tui::entered_tags(
            text::pieces(a, ','),
        ) + tui::entered_tags(text::pieces(b, ',')),
        (forall|i: int| 0 <= i < a.len() ==> #[trigger] a[i] != ',') ==> tui::entered_tags(
            text::pieces(a, ','),
        ) == (if texts::says_something(a) {
            seq![text::trimmed(a)]
        } else {
            Seq::empty()
        }),
{
    texts::pieces_are_between_separators(a, ',', b);
    texts::trimming_keeps_the_core(a);
    lemma_tags_add(text::pieces(a, ','), text::pieces(b, ','));
    let none = Seq::<Seq<char>>::empty();
    assert(seq![a].drop_last() =~= none);
    assert(tui::entered_tags(none) =~= none);
    assert(tui::entered_tags(seq![a]) =~= (if text::trimmed(a).len() > 0 {
        seq![text::trimmed(a)]
    } else {
        none
    }));
}

/// Tags that are saved are those that were entered between commas.
pub proof fn saved_tags_are_those_entered(
    data: DatabaseView,
    thread_id: Seq<char>,
    value: Seq<char>,
)
    ensures
        tui::after_edit(data, thread_id, EditField::Tags, value) == db::after_tags(
            data,
            thread_id,
            tui::entered_tags(text::pieces(value, ',')),
        ),
{
}

/// A summary that is asked for is made with the provider and the amount of text that are chosen, of
/// the session that it is asked for.
pub proof fn summaries_are_made_as_chosen(app: TrackerView, thread_id: Seq<char>)
    ensures
        tui::effect_of(app, ActionView::Summarize { thread_id }) == (EffectView::Summarize {
            thread_id,
            provider: app.provider,
            cap: app.cap,
        }),
        tui::effect_of(app, ActionView::SummarizeAll) == (EffectView::SummarizeAll {
            provider: app.provider,
            cap: app.cap,
        }),
        tui::effect_of(app, ActionView::Launch { thread_id }) == (EffectView::Launch { thread_id }),
        tui::effect_of(app, ActionView::TogglePin { thread_id }) == (EffectView::TogglePin {
            thread_id,
        }),
{
}

/// A confirmation is given with `y`, taken back with `n` or Esc, and any other key leaves it open.
pub proof fn confirmations_are_answered(
    app: TrackerView,
    confirmation: Confirmation,
    key: KeyEvent,
    session: SessionView,
)
    requires
        app.mode == ModeView::Confirm(confirmation),
        tui::selection(app) == Some(session),
    ensures
        ({
            let after = tui::handled(app, key);
            let yes = key.code == KeyCode::Char('y') || key.code == KeyCode::Char('Y');
            let no = key.code == KeyCode::Char('n') || key.code == KeyCode::Char('N') || key.code
                == KeyCode::Esc;
            &&& yes || no ==> after.0 == (TrackerView { mode: ModeView::Normal, ..app })
            &&& !yes ==> after.1 is Nothing
            &&& !yes && !no ==> after.0 == app
            &&& yes && confirmation == Confirmation::SummarizeAll ==> after.1 is SummarizeAll
            &&& yes && confirmation == Confirmation::SummarizeSelected ==> after.1
                == (ActionView::Summarize { thread_id: session.thread_id })
        }),
{
}

/// The keys of the normal mode: to quit, to search, to sync, to pin, and to choose a provider or an
/// amount of text, which is saved at once.
pub proof fn normal_keys_do_what_they_say(app: TrackerView, session: SessionView)
    requires
        app.mode == ModeView::Normal,
        tui::selection(app) == Some(session),
    ensures
        tui::handled(app, plain(KeyCode::Char('q'))).1 is Quit,
        tui::handled(app, KeyEvent { code: KeyCode::Char('c'), control: true, alt: false }).1
            is Quit,
        tui::handled(app, plain(KeyCode::Char('/'))).0 == (TrackerView {
            mode: ModeView::Search,
            ..app
        }),
        tui::handled(app, plain(KeyCode::Char('s'))) == (app, ActionView::Sync),
        tui::handled(app, plain(KeyCode::Char('p'))) == (
            app,
            ActionView::TogglePin { thread_id: session.thread_id },
        ),
        tui::handled(app, plain(KeyCode::Enter)) == (
            app,
            ActionView::Launch { thread_id: session.thread_id },
        ),
        tui::handled(app, plain(KeyCode::Char('v'))).1 matches ActionView::SavePreferences {
            provider,
            cap,
        } && provider == tui::handled(app, plain(KeyCode::Char('v'))).0.provider && provider
            != app.provider && cap == app.cap,
        tui::handled(app, plain(KeyCode::Char('c'))).1 matches ActionView::SavePreferences {
            provider,
            cap,
        } && cap == tui::handled(app, plain(KeyCode::Char('c'))).0.cap && cap != app.cap
            && provider == app.provider,
{
}

/// Whether lines hold one with this label and this text.
pub open spec fn shows(lines: Seq<LineView>, label: Seq<char>, value: Seq<char>) -> bool {
    exists|i: int| 0 <= i < lines.len() && (#[trigger] lines[i]).label == label && lines[i].text
        == value
}

/// All that is known of the selected session is shown: its title first, the command that resumes it,
/// its directory, its tags, its summary, its notes and an error, if there is one.
pub proof fn details_show_what_is_known(session: SessionView, offsets: TimeOffsets)
    ensures
        ({
            let lines = screen::session_lines(session, offsets);
            &&& lines[0].text == db::shown_title(session)
            &&& shows(lines, "Resume: "@, session.resume_command)
            &&& shows(lines, "Directory: "@, session.cwd)
            &&& session.tags.len() > 0 ==> shows(
                lines,
                "Tags: "@,
                text::joined(session.tags, ", "@),
            )
            &&& shows(lines, ""@, db::shown_summary(session))
            &&& session.notes.len() > 0 ==> shows(lines, ""@, session.notes)
            &&& session.summary_error matches Some(error) ==> lines.last().text == "Error: "@
                + error && lines.last().style == LineStyle::Error
            &&& session.summary_error is None ==> forall|i: int|
                0 <= i < lines.len() ==> (#[trigger] lines[i]).style != LineStyle::Error
        }),
{
    let lines = screen::session_lines(session, offsets);
    assert(lines[2].text == session.resume_command);
    assert(lines[3].text == session.cwd);
    assert(lines[6].label == "Tags: "@);
    assert(lines[9].text == db::shown_summary(session));
    assert(lines[12].label == ""@);
}

/// What is known of a model and of a summary is told, and what is not known is told as such. The time
/// of an update is that of the last update, or of the last use.
pub proof fn unknown_things_are_told_as_such(
    session: SessionView,
    model: Seq<char>,
    maker: Seq<char>,
    t: i64,
)
    ensures
        session.model == Some(model) && session.model_provider == Some(maker)
            ==> screen::model_text(session) == session.source + " / "@ + model + " ("@ + maker
            + ")"@,
        session.model is None && session.model_provider is None ==> screen::model_text(session)
            == session.source + " / "@ + "unknown"@ + " ("@ + "unknown provider"@ + ")"@,
        session.updated_at == Some(t) ==> screen::update_time(session) == Some(t),
        session.updated_at is None ==> screen::update_time(session) == session.recency_at,
{
}

/// An entry of the list names the title and, below it, the directory and the source, and marks a pinned
/// session.
pub proof fn entries_name_their_session(session: SessionView)
    ensures
        session.pinned ==> screen::entry_of(session).0 == "[P] "@ + db::shown_title(session),
        !session.pinned ==> screen::entry_of(session).0 == "    "@ + db::shown_title(session),
        screen::entry_of(session).1 == "    "@ + session.cwd + " | "@ + session.source,
{
}

/// How a question for a confirmation begins.
pub open spec fn question_start(
    confirmation: Confirmation,
    provider: Seq<char>,
    cap: Seq<char>,
) -> Seq<char> {
    "Summarize "@ + (match confirmation {
        Confirmation::SummarizeSelected => "the selected thread"@,
        Confirmation::SummarizeAll => "ALL visible threads"@,
    }) + " with provider="@ + provider + " and cap="@ + cap
}

/// A question for a confirmation names what is to be summarized, with which provider and with how much
/// text, so that the user knows what is confirmed.
pub proof fn questions_name_what_is_confirmed(
    app: TrackerView,
    confirmation: Confirmation,
    provider: Seq<char>,
    cap: Seq<char>,
)
    requires
        app.mode == ModeView::Confirm(confirmation),
        sessions::names_provider(app.provider, provider),
        sessions::names_cap(app.cap, cap),
    ensures
        screen::popup_of(app) matches Some(shown) && exists|rest: Seq<char>|
            shown.body == #[trigger] (question_start(confirmation, provider, cap) + rest),
{
    let rest = "?\nThis can consume Codex or OpenAI API usage. Press y to continue."@;
    let body = screen::question_of(confirmation, app.provider, app.cap);
    assert(body == question_start(confirmation, provider, cap) + rest);
}

/// An edit is shown with all that was typed so far.
pub proof fn edits_are_shown_as_typed(app: TrackerView, field: EditField, buffer: Seq<char>)
    requires
        app.mode == (ModeView::Edit { field, buffer }),
    ensures
        screen::popup_of(app) matches Some(shown) && shown.body == buffer,
        app.query.len() > 0 ==> screen::query_text(app.query) == "Search: "@ + app.query,
{
}

/// A box stands in the middle of the screen: as much is left above it as below, and as much on its left
/// as on its right, up to one.
pub proof fn boxes_stand_in_the_middle(percent: u16, height: u16, screen_height: u16)
    requires
        percent <= 100,
        height <= screen_height,
    ensures
        ({
            let bounds = screen::bounds_of(percent, height, screen_height);
            let below = screen_height - bounds.above - bounds.lines;
            let after = 100 - bounds.before - bounds.percent;
            &&& bounds.lines == height
            &&& bounds.percent == percent
            &&& 0 <= below - bounds.above <= 1
            &&& 0 <= after - bounds.before <= 1
        }),
{
}

/// The tracker starts with the provider and the amount of text that are configured, with all sessions
/// shown and the first one selected.
pub proof fn the_tracker_starts_as_configured(
    sessions: Seq<SessionView>,
    settings: crate::config::ConfigView,
    k: usize,
)
    requires
        sessions.len() <= usize::MAX,
        k < sessions.len(),
    ensures
        ({
            let app = tui::started(sessions, settings);
            &&& app.sessions == sessions
            &&& app.provider == settings.summary_provider
            &&& app.cap == settings.summary_input
            &&& app.mode == ModeView::Normal
            &&& app.query.len() == 0
            &&& app.selected == 0
            &&& app.filtered.contains(k)
        }),
{
    sessions_are_shown_where_they_hold_the_query(sessions, Seq::empty(), k);
}

/// After sessions were loaded again, those are shown that the query finds among them.
pub proof fn reloading_shows_the_new_sessions(
    app: TrackerView,
    sessions: Seq<SessionView>,
    preferred: Option<Seq<char>>,
)
    ensures
        ({
            let after = tui::reloaded(app, sessions, preferred);
            &&& after.sessions == sessions
            &&& after.query == app.query
            &&& after.filtered == tui::shown_positions(sessions, app.query)
            &&& after.mode == app.mode && after.status == app.status
            &&& after.provider == app.provider && after.cap == app.cap
        }),
{
}

/// What came of an action is told with its numbers and names: how many sessions a sync took in, that a
/// session is pinned or no longer is, and with what a thread was summarized.
pub proof fn outcomes_are_told(
    report: crate::sync::SyncReport,
    thread_id: String,
    provider: SummaryProvider,
    name: Seq<char>,
    error: String,
)
    requires
        sessions::names_provider(provider, name),
    ensures
        tui::outcome_text(tui::Outcome::Synced { report }, provider) == "Sync: "@ + text::decimal(
            report.imported as nat,
        ) + " imported, "@ + text::decimal(report.updated as nat) + " updated, "@ + text::decimal(
            report.summarized as nat,
        ) + " local summaries, "@ + text::decimal(report@.errors.len()) + " error(s)"@,
        tui::outcome_text(tui::Outcome::Pinned { thread_id, pinned: true }, provider) == "Pinned"@
            + " "@ + thread_id@,
        tui::outcome_text(tui::Outcome::Pinned { thread_id, pinned: false }, provider)
            == "Unpinned"@ + " "@ + thread_id@,
        tui::outcome_text(tui::Outcome::Summarized { thread_id }, provider) == "Summarized "@
            + thread_id@ + " with "@ + name,
        tui::outcome_text(tui::Outcome::SummaryFailed { error }, provider) == "Summary failed: "@
            + error@,
        tui::outcome_text(tui::Outcome::LaunchFailed { error }, provider) == "Launch failed: "@
            + error@,
        tui::outcome_text(tui::Outcome::AllSummarized { report }, provider) == "Summarize all: "@
            + text::decimal(report.summarized as nat) + " complete, "@ + text::decimal(
            report@.errors.len(),
        ) + " error(s)"@,
        tui::import_text(Ok(report)) == "Initial local import: "@ + text::decimal(
            (report.imported + report.updated) as nat,
        ) + " thread(s), "@ + text::decimal(report@.errors.len()) + " error(s); no AI used"@,
{
}

/// The times of a session are each told in their place, and the state of its summary with the provider
/// and the amount of text.
pub proof fn times_and_states_are_told(
    session: SessionView,
    offsets: TimeOffsets,
    provider: Seq<char>,
    cap: Seq<char>,
)
    ensures
        screen::times_text(session, offsets) == "created "@ + screen::shown_time(
            session.created_at,
            offsets.created,
        ) + " | updated "@ + screen::shown_time(
            screen::update_time(session),
            offsets.updated,
        ) + " | ended "@ + screen::shown_time(session.ended_at, offsets.ended),
        screen::shown_time(None, offsets.created) == "-"@,
        session.summary_provider is None && session.summary_cap is None ==> screen::state_text(session)
            == "Summary status: "@ + session.summary_status + " | provider: "@ + "-"@ + " | cap: "@
            + "-"@,
        session.summary_provider == Some(provider) && session.summary_cap == Some(cap)
            ==> screen::state_text(session) == "Summary status: "@ + session.summary_status
            + " | provider: "@ + provider + " | cap: "@ + cap,
        shows_text(
            screen::session_lines(session, offsets),
            screen::times_text(session, offsets),
        ),
        shows_text(screen::session_lines(session, offsets), screen::state_text(session)),
        shows(
            screen::session_lines(session, offsets),
            "Source/model: "@,
            screen::model_text(session),
        ),
{
    let lines = screen::session_lines(session, offsets);
    assert(lines[4].label == "Source/model: "@);
    assert(lines[5].text == screen::times_text(session, offsets));
    assert(lines[14].text == screen::state_text(session));
}

/// Whether lines hold one with this text.
pub open spec fn shows_text(lines: Seq<LineView>, value: Seq<char>) -> bool {
    exists|i: int| 0 <= i < lines.len() && (#[trigger] lines[i]).text == value
}

/// The screen tells the chosen provider and amount of text, how many sessions are shown, and the
/// details of the selected one.
pub proof fn the_screen_tells_what_is_chosen(
    app: TrackerView,
    offsets: TimeOffsets,
    provider: Seq<char>,
    cap: Seq<char>,
    session: SessionView,
)
    requires
        sessions::names_provider(app.provider, provider),
        sessions::names_cap(app.cap, cap),
    ensures
        screen::status_text(app) == app.status + " | provider="@ + provider + " cap="@ + cap,
        screen::list_heading(app) == "Sessions ("@ + text::decimal(app.filtered.len()) + ")"@,
        tui::selection(app) == Some(session) ==> screen::detail_lines(app, offsets)
            == screen::session_lines(session, offsets),
        tui::selection(app) is None ==> screen::detail_lines(app, offsets).len() == 1,
        forall|n: usize| #[trigger]
            tui::next_cap(SummaryInput::Custom(n)) == SummaryInput::SixtyFourK,
{
}

} // verus!
