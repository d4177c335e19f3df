//! What the parts of the screen say.

use vstd::prelude::*;

use crate::config;
use crate::config::{SummaryInput, SummaryProvider};
use crate::db;
use crate::db::{Session, SessionView};
use crate::text;
use crate::text::{decimal_text, join};
use crate::tui;
use crate::tui::{edit_label, Confirmation, Mode, ModeView, TrackerApp, TrackerView};

verus! {

/// How a line is shown.
#[derive(Clone, Copy, Debug, PartialEq, Eq, Structural)]
pub enum LineStyle {
    Title,
    Heading,
    Plain,
    Error,
}

/// A line: a label, which may be empty, and a text.
#[derive(Debug, PartialEq, Eq)]
pub struct DetailLine {
    pub style: LineStyle,
    pub label: String,
    pub text: String,
}

/// A line as a mathematical value.
#[verifier::ext_equal]
pub struct LineView {
    pub style: LineStyle,
    pub label: Seq<char>,
    pub text: Seq<char>,
}

impl View for DetailLine {
    type V = LineView;

    open spec fn view(&self) -> LineView {
        LineView { style: self.style, label: self.label@, text: self.text@ }
    }
}

impl DeepView for DetailLine {
    type V = LineView;

    open spec fn deep_view(&self) -> LineView {
        self@
    }
}

/// The minute of a time, `offset` seconds east of Greenwich, as `chrono` writes it with
/// `%Y-%m-%d %H:%M`. There is none where `chrono` has no date for the time or no such offset.
pub uninterp spec fn minute_text(seconds: i64, offset: i32) -> Option<Seq<char>>;

/// Calls `chrono::DateTime::from_timestamp` and shows the time `offset` seconds east of Greenwich:
/// the same time and offset always give the same text.
#[verifier::external_body]
fn minute_of(seconds: i64, offset: i32) -> (r: Option<String>)
    ensures
        r.deep_view() == minute_text(seconds, offset),
{
    let zone = chrono::FixedOffset::east_opt(offset)?;
    let time = chrono::DateTime::from_timestamp(seconds, 0)?;
    Some(time.with_timezone(&zone).format("%Y-%m-%d %H:%M").to_string())
}

/// How a time is shown: a hyphen where there is none.
pub open spec fn shown_time(value: Option<i64>, offset: i32) -> Seq<char> {
    match value {
        None => "-"@,
        Some(seconds) => match minute_text(seconds, offset) {
            Some(minute) => minute,
            None => "-"@,
        },
    }
}

/// A time as it is shown, where `offset` is the offset of the time zone at that time.
pub fn format_timestamp(value: Option<i64>, offset: i32) -> (r: String)
    ensures
        r@ == shown_time(value, offset),
{
    match value {
        None => "-".to_owned(),
        Some(seconds) => match minute_of(seconds, offset) {
            Some(minute) => minute,
            None => "-".to_owned(),
        },
    }
}

/// When a session was changed last, as it is shown.
pub open spec fn update_time(session: SessionView) -> Option<i64> {
    db::either(session.updated_at, session.recency_at)
}

pub fn shown_update(session: &Session) -> (r: Option<i64>)
    ensures
        r == update_time(session@),
{
    match session.updated_at {
        Some(time) => Some(time),
        None => session.recency_at,
    }
}

/// The offsets of the time zone at the times of a session.
#[derive(Clone, Copy, Debug, PartialEq, Eq, Structural)]
pub struct TimeOffsets {
    pub created: i32,
    pub updated: i32,
    pub ended: i32,
}

pub open spec fn plain_line(text: Seq<char>) -> LineView {
    LineView { style: LineStyle::Plain, label: ""@, text }
}

pub open spec fn labelled_line(label: Seq<char>, text: Seq<char>) -> LineView {
    LineView { style: LineStyle::Plain, label, text }
}

pub open spec fn heading_line(text: Seq<char>) -> LineView {
    LineView { style: LineStyle::Heading, label: ""@, text }
}

/// A text, or another where there is none.
pub open spec fn text_or(value: Option<Seq<char>>, other: Seq<char>) -> Seq<char> {
    match value {
        Some(text) => text,
        None => other,
    }
}

/// The model of a session and where the session was started.
pub open spec fn model_text(session: SessionView) -> Seq<char> {
    session.source + " / "@ + text_or(session.model, "unknown"@) + " ("@ + text_or(
        session.model_provider,
        "unknown provider"@,
    ) + ")"@
}

/// The times of a session.
pub open spec fn times_text(session: SessionView, offsets: TimeOffsets) -> Seq<char> {
    "created "@ + shown_time(session.created_at, offsets.created) + " | updated "@ + shown_time(
        update_time(session),
        offsets.updated,
    ) + " | ended "@ + shown_time(session.ended_at, offsets.ended)
}

/// A text, or a hyphen where it is empty.
pub open spec fn or_hyphen(value: Seq<char>) -> Seq<char> {
    if value.len() == 0 {
        "-"@
    } else {
        value
    }
}

/// The state of the summary of a session.
pub open spec fn state_text(session: SessionView) -> Seq<char> {
    "Summary status: "@ + session.summary_status + " | provider: "@ + text_or(
        session.summary_provider,
        "-"@,
    ) + " | cap: "@ + text_or(session.summary_cap, "-"@)
}

/// All that is shown of a session.
pub open spec fn session_lines(session: SessionView, offsets: TimeOffsets) -> Seq<LineView> {
    let lines = seq![
        LineView { style: LineStyle::Title, label: ""@, text: db::shown_title(session) },
        plain_line(""@),
        labelled_line("Resume: "@, session.resume_command),
        labelled_line("Directory: "@, session.cwd),
        labelled_line("Source/model: "@, model_text(session)),
        plain_line(times_text(session, offsets)),
        labelled_line(
            "Tags: "@,
            if session.tags.len() == 0 {
                "-"@
            } else {
                text::joined(session.tags, ", "@)
            },
        ),
        plain_line(""@),
        heading_line("Summary"@),
        plain_line(db::shown_summary(session)),
        plain_line(""@),
        heading_line("Notes"@),
        plain_line(or_hyphen(session.notes)),
        plain_line(""@),
        plain_line(state_text(session)),
    ];
    match session.summary_error {
        Some(error) => lines.push(
            LineView { style: LineStyle::Error, label: ""@, text: "Error: "@ + error },
        ),
        None => lines,
    }
}

fn line(style: LineStyle, label: &str, content: String) -> (r: DetailLine)
    ensures
        r@ == (LineView { style, label: label@, text: content@ }),
{
    DetailLine { style, label: label.to_owned(), text: content }
}

fn optional_or(value: &Option<String>, other: &str) -> (r: String)
    ensures
        r@ == text_or(value.deep_view(), other@),
{
    match value {
        Some(content) => content.clone(),
        None => other.to_owned(),
    }
}

fn model_of(session: &Session) -> (r: String)
    ensures
        r@ == model_text(session@),
{
    session.source.clone().concat(" / ").concat(
        optional_or(&session.model, "unknown").as_str(),
    ).concat(" (").concat(
        optional_or(&session.model_provider, "unknown provider").as_str(),
    ).concat(")")
}

fn times_of(session: &Session, offsets: TimeOffsets) -> (r: String)
    ensures
        r@ == times_text(session@, offsets),
{
    "created ".to_owned().concat(
        format_timestamp(session.created_at, offsets.created).as_str(),
    ).concat(" | updated ").concat(
        format_timestamp(shown_update(session), offsets.updated).as_str(),
    ).concat(" | ended ").concat(format_timestamp(session.ended_at, offsets.ended).as_str())
}

fn state_of(session: &Session) -> (r: String)
    ensures
        r@ == state_text(session@),
{
    "Summary status: ".to_owned().concat(session.summary_status.as_str()).concat(
        " | provider: ",
    ).concat(optional_or(&session.summary_provider, "-").as_str()).concat(" | cap: ").concat(
        optional_or(&session.summary_cap, "-").as_str(),
    )
}

/// All that is shown of a session.
pub fn session_detail(session: &Session, offsets: TimeOffsets) -> (r: Vec<DetailLine>)
    ensures
        r.deep_view() == session_lines(session@, offsets),
{
    let tags = if session.tags.len() == 0 {
        "-".to_owned()
    } else {
        join(&session.tags, ", ")
    };
    assert(session.tags.deep_view().len() == session.tags@.len());
    let notes = if session.notes.as_str().is_empty() {
        "-".to_owned()
    } else {
        session.notes.clone()
    };
    let mut lines: Vec<DetailLine> = Vec::new();
    lines.push(line(LineStyle::Title, "", session.title().to_owned()));
    lines.push(line(LineStyle::Plain, "", "".to_owned()));
    lines.push(line(LineStyle::Plain, "Resume: ", session.resume_command.clone()));
    lines.push(line(LineStyle::Plain, "Directory: ", session.cwd.clone()));
    lines.push(line(LineStyle::Plain, "Source/model: ", model_of(session)));
    lines.push(line(LineStyle::Plain, "", times_of(session, offsets)));
    lines.push(line(LineStyle::Plain, "Tags: ", tags));
    lines.push(line(LineStyle::Plain, "", "".to_owned()));
    lines.push(line(LineStyle::Heading, "", "Summary".to_owned()));
    lines.push(line(LineStyle::Plain, "", session.summary().to_owned()));
    lines.push(line(LineStyle::Plain, "", "".to_owned()));
    lines.push(line(LineStyle::Heading, "", "Notes".to_owned()));
    lines.push(line(LineStyle::Plain, "", notes));
    lines.push(line(LineStyle::Plain, "", "".to_owned()));
    lines.push(line(LineStyle::Plain, "", state_of(session)));
    match &session.summary_error {
        Some(error) => {
            lines.push(
                line(LineStyle::Error, "", "Error: ".to_owned().concat(error.as_str())),
            );
        },
        None => {},
    }
    assert(lines.deep_view() =~= session_lines(session@, offsets));
    lines
}

/// What is shown where no session is selected.
pub open spec fn empty_text() -> Seq<char> {
    "No sessions match the current search. Press s to sync or Esc to clear search."@
}

/// What the details say: all of the session that is selected.
pub open spec fn detail_lines(app: TrackerView, offsets: TimeOffsets) -> Seq<LineView> {
    match tui::selection(app) {
        Some(session) => session_lines(session, offsets),
        None => seq![plain_line(empty_text())],
    }
}

pub fn details(app: &TrackerApp, offsets: TimeOffsets) -> (r: Vec<DetailLine>)
    ensures
        r.deep_view() == detail_lines(app@, offsets),
{
    match app.selected_session() {
        Some(session) => session_detail(session, offsets),
        None => {
            let mut lines: Vec<DetailLine> = Vec::new();
            lines.push(
                line(
                    LineStyle::Plain,
                    "",
                    "No sessions match the current search. Press s to sync or Esc to clear search.".to_owned(),
                ),
            );
            assert(lines.deep_view() =~= detail_lines(app@, offsets));
            lines
        },
    }
}

/// The two lines of a session in the list.
pub open spec fn entry_of(session: SessionView) -> (Seq<char>, Seq<char>) {
    (
        (if session.pinned {
            "[P] "@
        } else {
            "    "@
        }) + db::shown_title(session),
        "    "@ + session.cwd + " | "@ + session.source,
    )
}

pub fn list_entry(session: &Session) -> (r: (String, String))
    ensures
        (r.0@, r.1@) == entry_of(session@),
{
    let prefix = if session.pinned {
        "[P] "
    } else {
        "    "
    };
    (
        prefix.to_owned().concat(session.title()),
        "    ".to_owned().concat(session.cwd.as_str()).concat(" | ").concat(
            session.source.as_str(),
        ),
    )
}

/// What stands over the list.
pub open spec fn list_heading(app: TrackerView) -> Seq<char> {
    "Sessions ("@ + text::decimal(app.filtered.len()) + ")"@
}

pub fn list_title(app: &TrackerApp) -> (r: String)
    ensures
        r@ == list_heading(app@),
{
    "Sessions (".to_owned().concat(decimal_text(app.filtered.len() as u64).as_str()).concat(")")
}

/// The sessions of the list, in their order.
pub open spec fn listed_entries(
    sessions: Seq<SessionView>,
    filtered: Seq<usize>,
) -> Seq<(Seq<char>, Seq<char>)>
    decreases filtered.len(),
{
    if filtered.len() == 0 {
        Seq::empty()
    } else {
        let before = listed_entries(sessions, filtered.drop_last());
        if filtered.last() < sessions.len() {
            before.push(entry_of(sessions[filtered.last() as int]))
        } else {
            before
        }
    }
}

/// The two texts of each entry.
pub open spec fn entry_views(entries: Seq<(String, String)>) -> Seq<(Seq<char>, Seq<char>)> {
    Seq::new(entries.len(), |i: int| (entries[i].0@, entries[i].1@))
}

pub fn list_entries(app: &TrackerApp) -> (r: Vec<(String, String)>)
    ensures
        entry_views(r@) == listed_entries(app@.sessions, app@.filtered),
{
    let mut entries: Vec<(String, String)> = Vec::new();
    let ghost all = app@.filtered;
    let mut i: usize = 0;
    assert(all.take(0) =~= Seq::empty());
    assert(entry_views(entries@) =~= Seq::empty());
    while i < app.filtered.len()
        invariant
            i <= app.filtered@.len(),
            all == app@.filtered,
            entry_views(entries@) == listed_entries(app@.sessions, all.take(i as int)),
        decreases app.filtered@.len() - i,
    {
        assert(all.take(i + 1).drop_last() =~= all.take(i as int));
        let index: usize = app.filtered[i];
        if index < app.sessions.len() {
            let ghost before = entry_views(entries@);
            let entry = list_entry(&app.sessions[index]);
            entries.push(entry);
            assert(entry_views(entries@) =~= before.push((entry.0@, entry.1@)));
        }
        i += 1;
    }
    assert(all.take(i as int) =~= all);
    entries
}

/// What the first line says of the query.
pub open spec fn query_text(query: Seq<char>) -> Seq<char> {
    if query.len() == 0 {
        "Search: (press /)"@
    } else {
        "Search: "@ + query
    }
}

pub fn search_line(app: &TrackerApp) -> (r: String)
    ensures
        r@ == query_text(app@.query),
{
    if app.query.as_str().is_empty() {
        "Search: (press /)".to_owned()
    } else {
        "Search: ".to_owned().concat(app.query.as_str())
    }
}

/// What the keys do, in a line.
pub open spec fn help_of(mode: ModeView) -> Seq<char> {
    match mode {
        ModeView::Search => "Type to filter | Enter/Esc finish | Backspace"@,
        ModeView::Edit { field, buffer } => "Type value | Enter save | Esc cancel | empty title/summary clears override"@,
        ModeView::Confirm(_) => "This may consume Codex/API usage. y confirm | n/Esc cancel"@,
        ModeView::Normal => "Enter resume | / search | s sync | r retry | A summarize all | t/y/n/g edit | p pin | v/c provider/cap | q quit"@,
    }
}

pub fn help_line(mode: &Mode) -> (r: &'static str)
    ensures
        r@ == help_of(mode@),
{
    match mode {
        Mode::Search => "Type to filter | Enter/Esc finish | Backspace",
        Mode::Edit { field: _, buffer: _ } => "Type value | Enter save | Esc cancel | empty title/summary clears override",
        Mode::Confirm(_) => "This may consume Codex/API usage. y confirm | n/Esc cancel",
        Mode::Normal => "Enter resume | / search | s sync | r retry | A summarize all | t/y/n/g edit | p pin | v/c provider/cap | q quit",
    }
}

/// What the last line says.
pub open spec fn status_text(app: TrackerView) -> Seq<char> {
    app.status + " | provider="@ + config::provider_name(app.provider) + " cap="@
        + config::input_name(app.cap)
}

pub fn status_line(app: &TrackerApp) -> (r: String)
    ensures
        r@ == status_text(app@),
{
    app.status.clone().concat(" | provider=").concat(app.provider.to_string().as_str()).concat(
        " cap=",
    ).concat(app.cap.to_string().as_str())
}

/// A box over the screen, with its width in percent and its height in lines.
#[derive(Debug, PartialEq, Eq)]
pub struct Popup {
    pub title: String,
    pub body: String,
    pub percent: u16,
    pub height: u16,
}

/// A box as a mathematical value.
#[verifier::ext_equal]
pub struct PopupView {
    pub title: Seq<char>,
    pub body: Seq<char>,
    pub percent: u16,
    pub height: u16,
}

impl View for Popup {
    type V = PopupView;

    open spec fn view(&self) -> PopupView {
        PopupView {
            title: self.title@,
            body: self.body@,
            percent: self.percent,
            height: self.height,
        }
    }
}

/// What a confirmation is about.
pub open spec fn target_of(confirmation: Confirmation) -> Seq<char> {
    match confirmation {
        Confirmation::SummarizeSelected => "the selected thread"@,
        Confirmation::SummarizeAll => "ALL visible threads"@,
    }
}

/// The question that a confirmation answers.
pub open spec fn question_of(
    confirmation: Confirmation,
    provider: SummaryProvider,
    cap: SummaryInput,
) -> Seq<char> {
    "Summarize "@ + target_of(confirmation) + " with provider="@ + config::provider_name(provider)
        + " and cap="@ + config::input_name(cap)
        + "?\nThis can consume Codex or OpenAI API usage. Press y to continue."@
}

/// The box that is shown in a mode.
pub open spec fn popup_of(app: TrackerView) -> Option<PopupView> {
    match app.mode {
        ModeView::Edit { field, buffer } => Some(
            PopupView {
                title: "Edit "@ + tui::field_label(field),
                body: buffer,
                percent: 70,
                height: 7,
            },
        ),
        ModeView::Confirm(confirmation) => Some(
            PopupView {
                title: "Confirm summary usage"@,
                body: question_of(confirmation, app.provider, app.cap),
                percent: 64,
                height: 8,
            },
        ),
        _ => None,
    }
}

pub fn popup(app: &TrackerApp) -> (r: Option<Popup>)
    ensures
        match r {
            Some(shown) => popup_of(app@) == Some(shown@),
            None => popup_of(app@) is None,
        },
{
    match &app.mode {
        Mode::Edit { field, buffer } => Some(
            Popup {
                title: "Edit ".to_owned().concat(edit_label(*field)),
                body: buffer.clone(),
                percent: 70,
                height: 7,
            },
        ),
        Mode::Confirm(confirmation) => {
            let target = match confirmation {
                Confirmation::SummarizeSelected => "the selected thread",
                Confirmation::SummarizeAll => "ALL visible threads",
            };
            Some(
                Popup {
                    title: "Confirm summary usage".to_owned(),
                    body: "Summarize ".to_owned().concat(target).concat(" with provider=").concat(
                        app.provider.to_string().as_str(),
                    ).concat(" and cap=").concat(app.cap.to_string().as_str()).concat(
                        "?\nThis can consume Codex or OpenAI API usage. Press y to continue.",
                    ),
                    percent: 64,
                    height: 8,
                },
            )
        },
        _ => None,
    }
}

/// Where a box is on a screen: the lines above it and its own, and the percent of the width before
/// it and its own.
#[derive(Clone, Copy, Debug, PartialEq, Eq, Structural)]
pub struct PopupBounds {
    pub above: u16,
    pub lines: u16,
    pub before: u16,
    pub percent: u16,
}

/// A box in the middle of a screen of `screen` lines, no higher than the screen.
pub open spec fn bounds_of(percent: u16, height: u16, screen: u16) -> PopupBounds {
    PopupBounds {
        above: if screen > height {
            ((screen - height) / 2) as u16
        } else {
            0
        },
        lines: if height <= screen {
            height
        } else {
            screen
        },
        before: ((100 - percent) / 2) as u16,
        percent,
    }
}

pub fn popup_bounds(percent: u16, height: u16, screen: u16) -> (r: PopupBounds)
    requires
        percent <= 100,
    ensures
        r == bounds_of(percent, height, screen),
{
    PopupBounds {
        above: screen.saturating_sub(height) / 2,
        lines: if height <= screen {
            height
        } else {
            screen
        },
        before: (100 - percent) / 2,
        percent,
    }
}

/// Every box that is shown lies within the screen, however small the screen is.
pub proof fn popups_lie_within_the_screen(app: TrackerView, screen: u16)
    requires
        popup_of(app) is Some,
    ensures
        ({
            let shown = popup_of(app)->Some_0;
            let bounds = bounds_of(shown.percent, shown.height, screen);
            &&& shown.percent <= 100
            &&& bounds.before + bounds.percent <= 100
            &&& bounds.above + bounds.lines <= screen
        }),
{
}

/// The list shows as many entries as its heading says, where the tracker is well formed.
pub proof fn the_list_shows_what_is_filtered(app: TrackerView)
    requires
        app.sessions.len() <= usize::MAX,
        tui::well_formed(app),
    ensures
        listed_entries(app.sessions, app.filtered).len() == app.filtered.len(),
        forall|i: int|
            0 <= i < app.filtered.len() ==> #[trigger] listed_entries(
                app.sessions,
                app.filtered,
            )[i] == entry_of(app.sessions[app.filtered[i] as int]),
{
    tui::filters_are_exact(app.sessions, app.query);
    assert forall|i: int| 0 <= i < app.filtered.len() implies #[trigger] app.filtered[i]
        < app.sessions.len() by {
        assert(tui::shown_positions(app.sessions, app.query).contains(app.filtered[i]));
    }
    lemma_entries(app.sessions, app.filtered);
}

proof fn lemma_entries(sessions: Seq<SessionView>, filtered: Seq<usize>)
    requires
        forall|i: int| 0 <= i < filtered.len() ==> #[trigger] filtered[i] < sessions.len(),
    ensures
        listed_entries(sessions, filtered).len() == filtered.len(),
        forall|i: int|
            0 <= i < filtered.len() ==> #[trigger] listed_entries(sessions, filtered)[i] == entry_of(
                sessions[filtered[i] as int],
            ),
    decreases filtered.len(),
{
    if filtered.len() > 0 {
        let rest = filtered.drop_last();
        assert forall|i: int| 0 <= i < rest.len() implies #[trigger] rest[i] < sessions.len() by {
            assert(rest[i] == filtered[i]);
        }
        lemma_entries(sessions, rest);
        assert(filtered[filtered.len() - 1] < sessions.len());
        assert forall|i: int| 0 <= i < filtered.len() implies #[trigger] listed_entries(
            sessions,
            filtered,
        )[i] == entry_of(sessions[filtered[i] as int]) by {
            if i < rest.len() {
                assert(rest[i] == filtered[i]);
                assert(listed_entries(sessions, rest)[i] == entry_of(sessions[rest[i] as int]));
            }
        }
    }
}

} // verus!
