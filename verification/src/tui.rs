//! The screen of the tracker: what is shown and what the keys do.

use vstd::prelude::*;

use crate::config;
use crate::config::{Config, ConfigView, SummaryInput, SummaryProvider};
use crate::db;
use crate::db::{Database, DatabaseView, Session, SessionView};
use crate::sync::{ReportView, SyncReport};
use crate::text;
use crate::text::{
    contains, decimal_text, join, same, split, to_lowercase, trim, without_last,
};

verus! {

/// What of a session is edited.
#[derive(Clone, Copy, Debug, PartialEq, Eq, Structural)]
pub enum EditField {
    Title,
    Summary,
    Notes,
    Tags,
}

/// What is to be confirmed.
#[derive(Clone, Copy, Debug, PartialEq, Eq, Structural)]
pub enum Confirmation {
    SummarizeSelected,
    SummarizeAll,
}

/// What the keys are for at the moment.
#[derive(Debug, PartialEq, Eq)]
pub enum Mode {
    Normal,
    Search,
    Edit { field: EditField, buffer: String },
    Confirm(Confirmation),
}

/// What the keys are for, as a mathematical value.
pub enum ModeView {
    Normal,
    Search,
    Edit { field: EditField, buffer: Seq<char> },
    Confirm(Confirmation),
}

impl View for Mode {
    type V = ModeView;

    open spec fn view(&self) -> ModeView {
        match *self {
            Mode::Normal => ModeView::Normal,
            Mode::Search => ModeView::Search,
            Mode::Edit { field, buffer } => ModeView::Edit { field, buffer: buffer@ },
            Mode::Confirm(confirmation) => ModeView::Confirm(confirmation),
        }
    }
}

impl Clone for Mode {
    fn clone(&self) -> (r: Self)
        ensures
            r@ == self@,
    {
        match self {
            Mode::Normal => Mode::Normal,
            Mode::Search => Mode::Search,
            Mode::Edit { field, buffer } => Mode::Edit { field: *field, buffer: buffer.clone() },
            Mode::Confirm(confirmation) => Mode::Confirm(*confirmation),
        }
    }
}

/// What a key asks for.
#[derive(Debug, PartialEq, Eq)]
pub enum UiAction {
    Nothing,
    Quit,
    Launch { thread_id: String },
    Sync,
    Summarize { thread_id: String },
    SummarizeAll,
    TogglePin { thread_id: String },
    SaveEdit { thread_id: String, field: EditField, value: String },
    SavePreferences { provider: SummaryProvider, cap: SummaryInput },
}

/// What a key asks for, as a mathematical value.
pub enum ActionView {
    Nothing,
    Quit,
    Launch { thread_id: Seq<char> },
    Sync,
    Summarize { thread_id: Seq<char> },
    SummarizeAll,
    TogglePin { thread_id: Seq<char> },
    SaveEdit { thread_id: Seq<char>, field: EditField, value: Seq<char> },
    SavePreferences { provider: SummaryProvider, cap: SummaryInput },
}

impl View for UiAction {
    type V = ActionView;

    open spec fn view(&self) -> ActionView {
        match *self {
            UiAction::Nothing => ActionView::Nothing,
            UiAction::Quit => ActionView::Quit,
            UiAction::Launch { thread_id } => ActionView::Launch { thread_id: thread_id@ },
            UiAction::Sync => ActionView::Sync,
            UiAction::Summarize { thread_id } => ActionView::Summarize { thread_id: thread_id@ },
            UiAction::SummarizeAll => ActionView::SummarizeAll,
            UiAction::TogglePin { thread_id } => ActionView::TogglePin { thread_id: thread_id@ },
            UiAction::SaveEdit { thread_id, field, value } => ActionView::SaveEdit {
                thread_id: thread_id@,
                field,
                value: value@,
            },
            UiAction::SavePreferences { provider, cap } => ActionView::SavePreferences {
                provider,
                cap,
            },
        }
    }
}

/// A key of the keyboard.
#[derive(Clone, Copy, Debug, PartialEq, Eq, Structural)]
pub enum KeyCode {
    Char(char),
    Enter,
    Esc,
    Backspace,
    Up,
    Down,
    Home,
    End,
    Other,
}

/// A key that was pressed, with the keys that were held.
#[derive(Clone, Copy, Debug, PartialEq, Eq, Structural)]
pub struct KeyEvent {
    pub code: KeyCode,
    pub control: bool,
    pub alt: bool,
}

/// The tracker as the user sees it.
#[derive(Debug)]
pub struct TrackerApp {
    pub sessions: Vec<Session>,
    pub filtered: Vec<usize>,
    pub selected: usize,
    pub query: String,
    pub mode: Mode,
    pub status: String,
    pub provider: SummaryProvider,
    pub cap: SummaryInput,
}

/// The tracker as a mathematical value.
#[verifier::ext_equal]
pub struct TrackerView {
    pub sessions: Seq<SessionView>,
    pub filtered: Seq<usize>,
    pub selected: usize,
    pub query: Seq<char>,
    pub mode: ModeView,
    pub status: Seq<char>,
    pub provider: SummaryProvider,
    pub cap: SummaryInput,
}

impl View for TrackerApp {
    type V = TrackerView;

    open spec fn view(&self) -> TrackerView {
        TrackerView {
            sessions: self.sessions.deep_view(),
            filtered: self.filtered@,
            selected: self.selected,
            query: self.query@,
            mode: self.mode@,
            status: self.status@,
            provider: self.provider,
            cap: self.cap,
        }
    }
}

/// Whether a session is shown for a query.
pub open spec fn is_shown(session: SessionView, query: Seq<char>) -> bool {
    text::trimmed(query).len() == 0 || text::holds(
        db::search_text(session),
        text::unicode_lower(text::trimmed(query)),
    )
}

/// The positions of the sessions that are shown for a query, in their order.
pub open spec fn shown_positions(sessions: Seq<SessionView>, query: Seq<char>) -> Seq<usize>
    decreases sessions.len(),
{
    if sessions.len() == 0 {
        Seq::empty()
    } else {
        let before = shown_positions(sessions.drop_last(), query);
        if is_shown(sessions.last(), query) {
            before.push((sessions.len() - 1) as usize)
        } else {
            before
        }
    }
}

/// The tracker with the sessions filtered anew, and the selection within them.
pub open spec fn refiltered(app: TrackerView) -> TrackerView {
    let filtered = shown_positions(app.sessions, app.query);
    TrackerView {
        filtered,
        selected: if filtered.len() == 0 {
            0
        } else if app.selected < filtered.len() {
            app.selected
        } else {
            (filtered.len() - 1) as usize
        },
        ..app
    }
}

/// The tracker at its start.
pub open spec fn started(sessions: Seq<SessionView>, settings: ConfigView) -> TrackerView {
    refiltered(
        TrackerView {
            sessions,
            filtered: Seq::empty(),
            selected: 0,
            query: Seq::empty(),
            mode: ModeView::Normal,
            status: "Ready"@,
            provider: settings.summary_provider,
            cap: settings.summary_input,
        },
    )
}

/// The session that is selected.
pub open spec fn selection(app: TrackerView) -> Option<SessionView> {
    if app.selected < app.filtered.len() && app.filtered[app.selected as int] < app.sessions.len() {
        Some(app.sessions[app.filtered[app.selected as int] as int])
    } else {
        None
    }
}

/// The first position in the filtered list whose session is `thread_id`.
pub open spec fn position_of(
    sessions: Seq<SessionView>,
    filtered: Seq<usize>,
    thread_id: Seq<char>,
) -> Option<int>
    decreases filtered.len(),
{
    if filtered.len() == 0 {
        None
    } else {
        match position_of(sessions, filtered.drop_last(), thread_id) {
            Some(position) => Some(position),
            None => if filtered.last() < sessions.len() && sessions[filtered.last() as int].thread_id
                == thread_id {
                Some(filtered.len() - 1)
            } else {
                None
            },
        }
    }
}

/// The tracker with other sessions, with `preferred` selected where it is shown.
pub open spec fn reloaded(
    app: TrackerView,
    sessions: Seq<SessionView>,
    preferred: Option<Seq<char>>,
) -> TrackerView {
    let fresh = refiltered(TrackerView { sessions, ..app });
    match preferred {
        None => fresh,
        Some(thread_id) => match position_of(sessions, fresh.filtered, thread_id) {
            Some(position) => TrackerView { selected: position as usize, ..fresh },
            None => fresh,
        },
    }
}

/// The tracker with the next session selected.
pub open spec fn moved_down(app: TrackerView) -> TrackerView {
    if app.filtered.len() == 0 {
        app
    } else if app.selected < app.filtered.len() - 1 {
        TrackerView { selected: (app.selected + 1) as usize, ..app }
    } else {
        TrackerView { selected: (app.filtered.len() - 1) as usize, ..app }
    }
}

/// The tracker with the session before selected.
pub open spec fn moved_up(app: TrackerView) -> TrackerView {
    TrackerView {
        selected: if app.selected > 0 {
            (app.selected - 1) as usize
        } else {
            0
        },
        ..app
    }
}

/// The provider after another.
pub open spec fn next_provider(provider: SummaryProvider) -> SummaryProvider {
    match provider {
        SummaryProvider::Local => SummaryProvider::Codex,
        SummaryProvider::Codex => SummaryProvider::Openai,
        SummaryProvider::Openai => SummaryProvider::Local,
    }
}

/// The amount of text after another.
pub open spec fn next_cap(cap: SummaryInput) -> SummaryInput {
    match cap {
        SummaryInput::SixteenK => SummaryInput::SixtyFourK,
        SummaryInput::SixtyFourK => SummaryInput::Entire,
        SummaryInput::Entire => SummaryInput::SixteenK,
        SummaryInput::Custom(_) => SummaryInput::SixtyFourK,
    }
}

/// What an edit starts with.
pub open spec fn edit_start(session: SessionView, field: EditField) -> Seq<char> {
    match field {
        EditField::Title => db::shown_title(session),
        EditField::Summary => db::shown_summary(session),
        EditField::Notes => session.notes,
        EditField::Tags => text::joined(session.tags, ", "@),
    }
}

/// The tracker with an edit begun, where a session is selected.
pub open spec fn edit_begun(app: TrackerView, field: EditField) -> TrackerView {
    match selection(app) {
        Some(session) => TrackerView {
            mode: ModeView::Edit { field, buffer: edit_start(session, field) },
            ..app
        },
        None => app,
    }
}

/// What a letter does in normal mode.
pub open spec fn normal_letter(app: TrackerView, c: char) -> (TrackerView, ActionView) {
    if c == 'q' {
        (app, ActionView::Quit)
    } else if c == 'j' {
        (moved_down(app), ActionView::Nothing)
    } else if c == 'k' {
        (moved_up(app), ActionView::Nothing)
    } else if c == '/' {
        (TrackerView { mode: ModeView::Search, ..app }, ActionView::Nothing)
    } else if c == 's' {
        (app, ActionView::Sync)
    } else if c == 'p' {
        (
            app,
            match selection(app) {
                Some(session) => ActionView::TogglePin { thread_id: session.thread_id },
                None => ActionView::Nothing,
            },
        )
    } else if c == 'r' {
        match selection(app) {
            None => (app, ActionView::Nothing),
            Some(session) => if app.provider == SummaryProvider::Local {
                (app, ActionView::Summarize { thread_id: session.thread_id })
            } else {
                (
                    TrackerView {
                        mode: ModeView::Confirm(Confirmation::SummarizeSelected),
                        ..app
                    },
                    ActionView::Nothing,
                )
            },
        }
    } else if c == 'A' {
        (
            TrackerView { mode: ModeView::Confirm(Confirmation::SummarizeAll), ..app },
            ActionView::Nothing,
        )
    } else if c == 't' {
        (edit_begun(app, EditField::Title), ActionView::Nothing)
    } else if c == 'y' {
        (edit_begun(app, EditField::Summary), ActionView::Nothing)
    } else if c == 'n' {
        (edit_begun(app, EditField::Notes), ActionView::Nothing)
    } else if c == 'g' {
        (edit_begun(app, EditField::Tags), ActionView::Nothing)
    } else if c == 'v' {
        let provider = next_provider(app.provider);
        (TrackerView { provider, ..app }, ActionView::SavePreferences { provider, cap: app.cap })
    } else if c == 'c' {
        let cap = next_cap(app.cap);
        (TrackerView { cap, ..app }, ActionView::SavePreferences { provider: app.provider, cap })
    } else {
        (app, ActionView::Nothing)
    }
}

/// What a key does in normal mode.
pub open spec fn normal_key(app: TrackerView, key: KeyEvent) -> (TrackerView, ActionView) {
    match key.code {
        KeyCode::Char(c) => if key.control && c == 'c' {
            (app, ActionView::Quit)
        } else {
            normal_letter(app, c)
        },
        KeyCode::Down => (moved_down(app), ActionView::Nothing),
        KeyCode::Up => (moved_up(app), ActionView::Nothing),
        KeyCode::Home => (TrackerView { selected: 0, ..app }, ActionView::Nothing),
        KeyCode::End => (
            TrackerView {
                selected: if app.filtered.len() == 0 {
                    0
                } else {
                    (app.filtered.len() - 1) as usize
                },
                ..app
            },
            ActionView::Nothing,
        ),
        KeyCode::Esc => if app.query.len() > 0 {
            (refiltered(TrackerView { query: Seq::empty(), ..app }), ActionView::Nothing)
        } else {
            (app, ActionView::Nothing)
        },
        KeyCode::Enter => (
            app,
            match selection(app) {
                Some(session) => ActionView::Launch { thread_id: session.thread_id },
                None => ActionView::Nothing,
            },
        ),
        _ => (app, ActionView::Nothing),
    }
}

/// A text without its last character.
pub open spec fn shortened(value: Seq<char>) -> Seq<char> {
    if value.len() == 0 {
        value
    } else {
        value.drop_last()
    }
}

/// What a key does while a query is entered.
pub open spec fn search_key(app: TrackerView, key: KeyEvent) -> TrackerView {
    match key.code {
        KeyCode::Esc => TrackerView { mode: ModeView::Normal, ..app },
        KeyCode::Enter => TrackerView { mode: ModeView::Normal, ..app },
        KeyCode::Backspace => refiltered(TrackerView { query: shortened(app.query), ..app }),
        KeyCode::Char(c) => if key.control || key.alt {
            app
        } else {
            refiltered(TrackerView { query: app.query.push(c), ..app })
        },
        _ => app,
    }
}

/// What a key does while a field is edited.
pub open spec fn edit_key(
    app: TrackerView,
    key: KeyEvent,
    field: EditField,
    buffer: Seq<char>,
) -> (TrackerView, ActionView) {
    match key.code {
        KeyCode::Esc => (TrackerView { mode: ModeView::Normal, ..app }, ActionView::Nothing),
        KeyCode::Enter => (
            TrackerView { mode: ModeView::Normal, ..app },
            match selection(app) {
                Some(session) => ActionView::SaveEdit {
                    thread_id: session.thread_id,
                    field,
                    value: buffer,
                },
                None => ActionView::Nothing,
            },
        ),
        KeyCode::Backspace => (
            TrackerView { mode: ModeView::Edit { field, buffer: shortened(buffer) }, ..app },
            ActionView::Nothing,
        ),
        KeyCode::Char(c) => if key.control || key.alt {
            (app, ActionView::Nothing)
        } else {
            (
                TrackerView { mode: ModeView::Edit { field, buffer: buffer.push(c) }, ..app },
                ActionView::Nothing,
            )
        },
        _ => (app, ActionView::Nothing),
    }
}

/// What a key does while a confirmation is asked for.
pub open spec fn confirm_key(
    app: TrackerView,
    key: KeyEvent,
    confirmation: Confirmation,
) -> (TrackerView, ActionView) {
    let normal = TrackerView { mode: ModeView::Normal, ..app };
    if key.code == KeyCode::Char('y') || key.code == KeyCode::Char('Y') {
        (
            normal,
            match confirmation {
                Confirmation::SummarizeSelected => match selection(app) {
                    Some(session) => ActionView::Summarize { thread_id: session.thread_id },
                    None => ActionView::Nothing,
                },
                Confirmation::SummarizeAll => ActionView::SummarizeAll,
            },
        )
    } else if key.code == KeyCode::Char('n') || key.code == KeyCode::Char('N') || key.code
        == KeyCode::Esc {
        (normal, ActionView::Nothing)
    } else {
        (app, ActionView::Nothing)
    }
}

/// What a key does.
pub open spec fn handled(app: TrackerView, key: KeyEvent) -> (TrackerView, ActionView) {
    match app.mode {
        ModeView::Normal => normal_key(app, key),
        ModeView::Search => (search_key(app, key), ActionView::Nothing),
        ModeView::Edit { field, buffer } => edit_key(app, key, field, buffer),
        ModeView::Confirm(confirmation) => confirm_key(app, key, confirmation),
    }
}

impl TrackerApp {
    pub fn new(sessions: Vec<Session>, config: &Config) -> (r: TrackerApp)
        ensures
            r@ == started(sessions.deep_view(), config@),
    {
        let mut app = TrackerApp {
            sessions,
            filtered: Vec::new(),
            selected: 0,
            query: String::new(),
            mode: Mode::Normal,
            status: "Ready".to_owned(),
            provider: config.summary_provider,
            cap: config.summary_input,
        };
        assert(app@.query =~= Seq::empty());
        app.refresh_filter();
        app
    }

    pub fn selected_session(&self) -> (r: Option<&Session>)
        ensures
            match r {
                Some(session) => selection(self@) == Some(session@),
                None => selection(self@) is None,
            },
    {
        if self.selected < self.filtered.len() && self.filtered[self.selected]
            < self.sessions.len() {
            Some(&self.sessions[self.filtered[self.selected]])
        } else {
            None
        }
    }

    fn selected_id(&self) -> (r: Option<String>)
        ensures
            match r {
                Some(thread_id) => selection(self@) matches Some(session) && session.thread_id
                    == thread_id@,
                None => selection(self@) is None,
            },
    {
        match self.selected_session() {
            Some(session) => Some(session.thread_id.clone()),
            None => None,
        }
    }

    pub fn refresh_filter(&mut self)
        ensures
            final(self)@ == refiltered(old(self)@),
    {
        let wanted = trim(self.query.as_str());
        let needle = to_lowercase(wanted.as_str());
        let ghost all = self.sessions.deep_view();
        let ghost query = self.query@;
        let mut filtered: Vec<usize> = Vec::new();
        let mut i: usize = 0;
        assert(all.take(0) =~= Seq::empty());
        while i < self.sessions.len()
            invariant
                i <= self.sessions@.len(),
                all == self.sessions.deep_view(),
                wanted@ == text::trimmed(query),
                needle@ == text::unicode_lower(wanted@),
                filtered@ == shown_positions(all.take(i as int), query),
                self@ == old(self)@,
            decreases self.sessions@.len() - i,
        {
            assert(all.take(i + 1).drop_last() =~= all.take(i as int));
            assert(all.take(i + 1).last() == self.sessions@[i as int]@);
            if wanted.as_str().is_empty() || contains(
                self.sessions[i].searchable_text().as_str(),
                needle.as_str(),
            ) {
                filtered.push(i);
            }
            i += 1;
        }
        assert(all.take(i as int) =~= all);
        if filtered.len() == 0 {
            self.selected = 0;
        } else if self.selected >= filtered.len() {
            self.selected = filtered.len() - 1;
        }
        self.filtered = filtered;
        assert(self@ =~= refiltered(old(self)@));
    }

    pub fn replace_sessions(&mut self, sessions: Vec<Session>, preferred: Option<&str>)
        ensures
            final(self)@ == reloaded(old(self)@, sessions.deep_view(), preferred.deep_view()),
    {
        self.sessions = sessions;
        assert(self@ =~= (TrackerView { sessions: sessions.deep_view(), ..old(self)@ }));
        self.refresh_filter();
        match preferred {
            Some(thread_id) => {
                let ghost fresh = self@;
                let mut position: usize = 0;
                assert(fresh.filtered.take(0) =~= Seq::empty());
                while position < self.filtered.len()
                    invariant
                        position <= self.filtered@.len(),
                        self@ == fresh,
                        fresh == refiltered(
                            TrackerView { sessions: sessions.deep_view(), ..old(self)@ },
                        ),
                        fresh.sessions == sessions.deep_view(),
                        preferred == Some(thread_id),
                        position_of(
                            fresh.sessions,
                            fresh.filtered.take(position as int),
                            thread_id@,
                        ) is None,
                    decreases self.filtered@.len() - position,
                {
                    assert(fresh.filtered.take(position + 1).drop_last()
                        =~= fresh.filtered.take(position as int));
                    let index: usize = self.filtered[position];
                    if index < self.sessions.len() && same(
                        self.sessions[index].thread_id.as_str(),
                        thread_id,
                    ) {
                        proof {
                            assert(fresh.sessions[index as int] == self.sessions@[index as int]@);
                            lemma_position_stays(
                                fresh.sessions,
                                fresh.filtered,
                                thread_id@,
                                position + 1,
                            );
                        }
                        self.selected = position;
                        assert(self@ =~= reloaded(
                            old(self)@,
                            sessions.deep_view(),
                            preferred.deep_view(),
                        ));
                        return;
                    }
                    assert(index < self.sessions@.len() ==> fresh.sessions[index as int]
                        == self.sessions@[index as int]@);
                    position += 1;
                }
                assert(fresh.filtered.take(position as int) =~= fresh.filtered);
            },
            None => {},
        }
    }
}

impl TrackerApp {
    /// Does what a key asks for, as far as it is done here, and says what is left to do.
    pub fn handle_key(&mut self, key: KeyEvent) -> (r: UiAction)
        ensures
            (final(self)@, r@) == handled(old(self)@, key),
    {
        match self.mode.clone() {
            Mode::Normal => self.handle_normal_key(key),
            Mode::Search => {
                self.handle_search_key(key);
                UiAction::Nothing
            },
            Mode::Edit { field, buffer } => self.handle_edit_key(key, field, buffer),
            Mode::Confirm(confirmation) => self.handle_confirm_key(key, confirmation),
        }
    }

    fn handle_normal_key(&mut self, key: KeyEvent) -> (r: UiAction)
        ensures
            (final(self)@, r@) == normal_key(old(self)@, key),
    {
        match key.code {
            KeyCode::Char(c) => if key.control && c == 'c' {
                UiAction::Quit
            } else {
                self.handle_normal_letter(c)
            },
            KeyCode::Down => {
                self.move_down();
                UiAction::Nothing
            },
            KeyCode::Up => {
                self.move_up();
                UiAction::Nothing
            },
            KeyCode::Home => {
                self.selected = 0;
                UiAction::Nothing
            },
            KeyCode::End => {
                self.selected = self.filtered.len().saturating_sub(1);
                UiAction::Nothing
            },
            KeyCode::Esc => {
                if !self.query.as_str().is_empty() {
                    self.query = String::new();
                    assert(self@ =~= (TrackerView { query: Seq::empty(), ..old(self)@ }));
                    self.refresh_filter();
                }
                UiAction::Nothing
            },
            KeyCode::Enter => match self.selected_id() {
                Some(thread_id) => UiAction::Launch { thread_id },
                None => UiAction::Nothing,
            },
            _ => UiAction::Nothing,
        }
    }

    fn move_down(&mut self)
        ensures
            final(self)@ == moved_down(old(self)@),
    {
        if self.filtered.len() > 0 {
            if self.selected < self.filtered.len() - 1 {
                self.selected = self.selected + 1;
            } else {
                self.selected = self.filtered.len() - 1;
            }
        }
    }

    fn move_up(&mut self)
        ensures
            final(self)@ == moved_up(old(self)@),
    {
        self.selected = self.selected.saturating_sub(1);
    }

    fn handle_normal_letter(&mut self, c: char) -> (r: UiAction)
        ensures
            (final(self)@, r@) == normal_letter(old(self)@, c),
    {
        match c {
            'q' => UiAction::Quit,
            'j' => {
                self.move_down();
                UiAction::Nothing
            },
            'k' => {
                self.move_up();
                UiAction::Nothing
            },
            '/' => {
                self.mode = Mode::Search;
                UiAction::Nothing
            },
            's' => UiAction::Sync,
            'p' => match self.selected_id() {
                Some(thread_id) => UiAction::TogglePin { thread_id },
                None => UiAction::Nothing,
            },
            'r' => match self.selected_id() {
                Some(thread_id) => if self.provider.is_external() {
                    self.mode = Mode::Confirm(Confirmation::SummarizeSelected);
                    UiAction::Nothing
                } else {
                    UiAction::Summarize { thread_id }
                },
                None => UiAction::Nothing,
            },
            'A' => {
                self.mode = Mode::Confirm(Confirmation::SummarizeAll);
                UiAction::Nothing
            },
            't' => self.begin_edit(EditField::Title),
            'y' => self.begin_edit(EditField::Summary),
            'n' => self.begin_edit(EditField::Notes),
            'g' => self.begin_edit(EditField::Tags),
            'v' => {
                self.provider = provider_after(self.provider);
                UiAction::SavePreferences { provider: self.provider, cap: self.cap }
            },
            'c' => {
                self.cap = cap_after(self.cap);
                UiAction::SavePreferences { provider: self.provider, cap: self.cap }
            },
            _ => UiAction::Nothing,
        }
    }

    fn begin_edit(&mut self, field: EditField) -> (r: UiAction)
        ensures
            final(self)@ == edit_begun(old(self)@, field),
            r@ == ActionView::Nothing,
    {
        let buffer = match self.selected_session() {
            Some(session) => match field {
                EditField::Title => session.title().to_owned(),
                EditField::Summary => session.summary().to_owned(),
                EditField::Notes => session.notes.clone(),
                EditField::Tags => join(&session.tags, ", "),
            },
            None => {
                return UiAction::Nothing;
            },
        };
        self.mode = Mode::Edit { field, buffer };
        UiAction::Nothing
    }

    fn handle_search_key(&mut self, key: KeyEvent)
        ensures
            final(self)@ == search_key(old(self)@, key),
    {
        match key.code {
            KeyCode::Esc => {
                self.mode = Mode::Normal;
            },
            KeyCode::Enter => {
                self.mode = Mode::Normal;
            },
            KeyCode::Backspace => {
                self.query = without_last(self.query.as_str());
                self.refresh_filter();
            },
            KeyCode::Char(c) => if !key.control && !key.alt {
                self.query.push(c);
                self.refresh_filter();
            },
            _ => {},
        }
    }

    fn handle_edit_key(&mut self, key: KeyEvent, field: EditField, buffer: String) -> (r: UiAction)
        ensures
            (final(self)@, r@) == edit_key(old(self)@, key, field, buffer@),
    {
        match key.code {
            KeyCode::Esc => {
                self.mode = Mode::Normal;
                UiAction::Nothing
            },
            KeyCode::Enter => {
                self.mode = Mode::Normal;
                match self.selected_id() {
                    Some(thread_id) => UiAction::SaveEdit { thread_id, field, value: buffer },
                    None => UiAction::Nothing,
                }
            },
            KeyCode::Backspace => {
                self.mode = Mode::Edit { field, buffer: without_last(buffer.as_str()) };
                UiAction::Nothing
            },
            KeyCode::Char(c) => {
                if !key.control && !key.alt {
                    let mut longer = buffer;
                    longer.push(c);
                    self.mode = Mode::Edit { field, buffer: longer };
                }
                UiAction::Nothing
            },
            _ => UiAction::Nothing,
        }
    }

    fn handle_confirm_key(&mut self, key: KeyEvent, confirmation: Confirmation) -> (r: UiAction)
        ensures
            (final(self)@, r@) == confirm_key(old(self)@, key, confirmation),
    {
        match key.code {
            KeyCode::Char('y') | KeyCode::Char('Y') => {
                self.mode = Mode::Normal;
                match confirmation {
                    Confirmation::SummarizeSelected => match self.selected_id() {
                        Some(thread_id) => UiAction::Summarize { thread_id },
                        None => UiAction::Nothing,
                    },
                    Confirmation::SummarizeAll => UiAction::SummarizeAll,
                }
            },
            KeyCode::Char('n') | KeyCode::Char('N') | KeyCode::Esc => {
                self.mode = Mode::Normal;
                UiAction::Nothing
            },
            _ => UiAction::Nothing,
        }
    }
}

fn provider_after(provider: SummaryProvider) -> (r: SummaryProvider)
    ensures
        r == next_provider(provider),
{
    match provider {
        SummaryProvider::Local => SummaryProvider::Codex,
        SummaryProvider::Codex => SummaryProvider::Openai,
        SummaryProvider::Openai => SummaryProvider::Local,
    }
}

fn cap_after(cap: SummaryInput) -> (r: SummaryInput)
    ensures
        r == next_cap(cap),
{
    match cap {
        SummaryInput::SixteenK => SummaryInput::SixtyFourK,
        SummaryInput::SixtyFourK => SummaryInput::Entire,
        SummaryInput::Entire => SummaryInput::SixteenK,
        SummaryInput::Custom(_) => SummaryInput::SixtyFourK,
    }
}

proof fn lemma_position_stays(
    sessions: Seq<SessionView>,
    filtered: Seq<usize>,
    thread_id: Seq<char>,
    upto: int,
)
    requires
        0 <= upto <= filtered.len(),
        position_of(sessions, filtered.take(upto), thread_id) is Some,
    ensures
        position_of(sessions, filtered, thread_id) == position_of(
            sessions,
            filtered.take(upto),
            thread_id,
        ),
    decreases filtered.len() - upto,
{
    if upto < filtered.len() {
        assert(filtered.take(upto + 1).drop_last() =~= filtered.take(upto));
        lemma_position_stays(sessions, filtered, thread_id, upto + 1);
    } else {
        assert(filtered.take(upto) =~= filtered);
    }
}

/// The tags in a text: the pieces between commas that are not blank.
pub open spec fn entered_tags(parts: Seq<Seq<char>>) -> Seq<Seq<char>>
    decreases parts.len(),
{
    if parts.len() == 0 {
        Seq::empty()
    } else {
        let before = entered_tags(parts.drop_last());
        let tag = text::trimmed(parts.last());
        if tag.len() == 0 {
            before
        } else {
            before.push(tag)
        }
    }
}

pub fn split_tags(value: &str) -> (r: Vec<String>)
    ensures
        r.deep_view() == entered_tags(text::pieces(value@, ',')),
{
    let parts = split(value, ',');
    let ghost all = parts.deep_view();
    let mut out: Vec<String> = Vec::new();
    let mut i: usize = 0;
    assert(all.take(0) =~= Seq::empty());
    assert(out.deep_view() =~= Seq::empty());
    while i < parts.len()
        invariant
            i <= parts@.len(),
            all == parts.deep_view(),
            out.deep_view() == entered_tags(all.take(i as int)),
        decreases parts@.len() - i,
    {
        assert(all.take(i + 1).drop_last() =~= all.take(i as int));
        assert(all.take(i + 1).last() == parts@[i as int]@);
        let ghost before = out.deep_view();
        let tag = trim(parts[i].as_str());
        if !tag.as_str().is_empty() {
            out.push(tag);
            assert(out.deep_view() =~= before.push(tag@));
        }
        i += 1;
    }
    assert(all.take(i as int) =~= all);
    out
}

/// What the tracker keeps after an edit was saved.
pub open spec fn after_edit(
    data: DatabaseView,
    thread_id: Seq<char>,
    field: EditField,
    value: Seq<char>,
) -> Result<DatabaseView, Seq<char>> {
    let session = data.sessions[thread_id].session;
    let entered = text::trimmed(value);
    match field {
        EditField::Title => Ok(
            db::with_session(
                data,
                thread_id,
                SessionView { manual_title: db::override_of(Some(entered)), ..session },
            ),
        ),
        EditField::Summary => Ok(
            db::with_session(
                data,
                thread_id,
                SessionView { manual_summary: db::override_of(Some(entered)), ..session },
            ),
        ),
        EditField::Notes => Ok(
            db::with_session(data, thread_id, SessionView { notes: entered, ..session }),
        ),
        EditField::Tags => db::after_tags(
            data,
            thread_id,
            entered_tags(text::pieces(value, ',')),
        ),
    }
}

/// Saves an edit.
pub fn save_edit(database: &mut Database, thread_id: &str, field: EditField, value: &str) -> (r:
    Result<(), String>)
    requires
        old(database).wf(),
    ensures
        final(database).wf(),
        final(database).path == old(database).path,
        match r {
            Ok(()) => after_edit(old(database)@, thread_id@, field, value@) == Ok::<
                DatabaseView,
                Seq<char>,
            >(final(database)@),
            Err(error) => final(database)@ == old(database)@ && after_edit(
                old(database)@,
                thread_id@,
                field,
                value@,
            ) == Err::<DatabaseView, Seq<char>>(error@),
        },
{
    let entered = trim(value);
    match field {
        EditField::Title => {
            database.set_manual_title(thread_id, Some(entered.as_str()));
            Ok(())
        },
        EditField::Summary => {
            database.set_manual_summary(thread_id, Some(entered.as_str()));
            Ok(())
        },
        EditField::Notes => {
            database.set_notes(thread_id, entered.as_str());
            Ok(())
        },
        EditField::Tags => {
            let tags = split_tags(value);
            database.set_tags(thread_id, tags.as_slice())
        },
    }
}

/// What a field is called.
pub open spec fn field_label(field: EditField) -> Seq<char> {
    match field {
        EditField::Title => "title override"@,
        EditField::Summary => "summary override"@,
        EditField::Notes => "notes"@,
        EditField::Tags => "tags"@,
    }
}

pub fn edit_label(field: EditField) -> (r: &'static str)
    ensures
        r@ == field_label(field),
{
    match field {
        EditField::Title => "title override",
        EditField::Summary => "summary override",
        EditField::Notes => "notes",
        EditField::Tags => "tags",
    }
}

/// What is to be done for an action.
#[derive(Debug, PartialEq, Eq)]
pub enum Effect {
    Nothing,
    Quit,
    Launch { thread_id: String },
    Sync,
    Summarize { thread_id: String, provider: SummaryProvider, cap: SummaryInput },
    SummarizeAll { provider: SummaryProvider, cap: SummaryInput },
    TogglePin { thread_id: String },
    SaveEdit { thread_id: String, field: EditField, value: String },
    SavePreferences { provider: SummaryProvider, cap: SummaryInput },
}

/// What is to be done for an action, as a mathematical value.
pub enum EffectView {
    Nothing,
    Quit,
    Launch { thread_id: Seq<char> },
    Sync,
    Summarize { thread_id: Seq<char>, provider: SummaryProvider, cap: SummaryInput },
    SummarizeAll { provider: SummaryProvider, cap: SummaryInput },
    TogglePin { thread_id: Seq<char> },
    SaveEdit { thread_id: Seq<char>, field: EditField, value: Seq<char> },
    SavePreferences { provider: SummaryProvider, cap: SummaryInput },
}

impl View for Effect {
    type V = EffectView;

    open spec fn view(&self) -> EffectView {
        match *self {
            Effect::Nothing => EffectView::Nothing,
            Effect::Quit => EffectView::Quit,
            Effect::Launch { thread_id } => EffectView::Launch { thread_id: thread_id@ },
            Effect::Sync => EffectView::Sync,
            Effect::Summarize { thread_id, provider, cap } => EffectView::Summarize {
                thread_id: thread_id@,
                provider,
                cap,
            },
            Effect::SummarizeAll { provider, cap } => EffectView::SummarizeAll { provider, cap },
            Effect::TogglePin { thread_id } => EffectView::TogglePin { thread_id: thread_id@ },
            Effect::SaveEdit { thread_id, field, value } => EffectView::SaveEdit {
                thread_id: thread_id@,
                field,
                value: value@,
            },
            Effect::SavePreferences { provider, cap } => EffectView::SavePreferences {
                provider,
                cap,
            },
        }
    }
}

/// What is to be done for an action: a summary is made with the provider and the amount of text
/// that are chosen at the moment.
pub open spec fn effect_of(app: TrackerView, action: ActionView) -> EffectView {
    match action {
        ActionView::Nothing => EffectView::Nothing,
        ActionView::Quit => EffectView::Quit,
        ActionView::Launch { thread_id } => EffectView::Launch { thread_id },
        ActionView::Sync => EffectView::Sync,
        ActionView::Summarize { thread_id } => EffectView::Summarize {
            thread_id,
            provider: app.provider,
            cap: app.cap,
        },
        ActionView::SummarizeAll => EffectView::SummarizeAll {
            provider: app.provider,
            cap: app.cap,
        },
        ActionView::TogglePin { thread_id } => EffectView::TogglePin { thread_id },
        ActionView::SaveEdit { thread_id, field, value } => EffectView::SaveEdit {
            thread_id,
            field,
            value,
        },
        ActionView::SavePreferences { provider, cap } => EffectView::SavePreferences {
            provider,
            cap,
        },
    }
}

/// What came of an action.
#[derive(Debug, PartialEq, Eq)]
pub enum Outcome {
    Launched { resume_command: String, pid: u32 },
    LaunchFailed { error: String },
    Synced { report: SyncReport },
    SyncFailed { error: String },
    Summarized { thread_id: String },
    SummaryFailed { error: String },
    AllSummarized { report: SyncReport },
    AllFailed { error: String },
    Pinned { thread_id: String, pinned: bool },
    Saved { field: EditField },
    Preferred { provider: SummaryProvider, cap: SummaryInput },
}

/// The number of errors in a report.
pub open spec fn error_count(report: ReportView) -> Seq<char> {
    text::decimal(report.errors.len())
}

/// What is said of what came of an action.
pub open spec fn outcome_text(outcome: Outcome, provider: SummaryProvider) -> Seq<char> {
    match outcome {
        Outcome::Launched { resume_command, pid } => "Launched "@ + resume_command@
            + " in terminal process "@ + text::decimal(pid as nat),
        Outcome::LaunchFailed { error } => "Launch failed: "@ + error@,
        Outcome::Synced { report } => "Sync: "@ + text::decimal(report.imported as nat)
            + " imported, "@ + text::decimal(report.updated as nat) + " updated, "@ + text::decimal(
            report.summarized as nat,
        ) + " local summaries, "@ + error_count(report@) + " error(s)"@,
        Outcome::SyncFailed { error } => "Sync failed: "@ + error@,
        Outcome::Summarized { thread_id } => "Summarized "@ + thread_id@ + " with "@
            + config::provider_name(provider),
        Outcome::SummaryFailed { error } => "Summary failed: "@ + error@,
        Outcome::AllSummarized { report } => "Summarize all: "@ + text::decimal(
            report.summarized as nat,
        ) + " complete, "@ + error_count(report@) + " error(s)"@,
        Outcome::AllFailed { error } => "Summarize all failed: "@ + error@,
        Outcome::Pinned { thread_id, pinned } => (if pinned {
            "Pinned"@
        } else {
            "Unpinned"@
        }) + " "@ + thread_id@,
        Outcome::Saved { field } => "Saved "@ + field_label(field),
        Outcome::Preferred { provider, cap } => "Summary selection: "@ + config::provider_name(
            provider,
        ) + ", "@ + config::input_name(cap),
    }
}

fn count_text(n: usize) -> (r: String)
    ensures
        r@ == text::decimal(n as nat),
{
    decimal_text(n as u64)
}

pub fn status_of(outcome: &Outcome, provider: SummaryProvider) -> (r: String)
    ensures
        r@ == outcome_text(*outcome, provider),
{
    match outcome {
        Outcome::Launched { resume_command, pid } => "Launched ".to_owned().concat(
            resume_command.as_str(),
        ).concat(" in terminal process ").concat(decimal_text(*pid as u64).as_str()),
        Outcome::LaunchFailed { error } => "Launch failed: ".to_owned().concat(error.as_str()),
        Outcome::Synced { report } => "Sync: ".to_owned().concat(
            count_text(report.imported).as_str(),
        ).concat(" imported, ").concat(count_text(report.updated).as_str()).concat(
            " updated, ",
        ).concat(count_text(report.summarized).as_str()).concat(" local summaries, ").concat(
            count_text(report.errors.len()).as_str(),
        ).concat(" error(s)"),
        Outcome::SyncFailed { error } => "Sync failed: ".to_owned().concat(error.as_str()),
        Outcome::Summarized { thread_id } => "Summarized ".to_owned().concat(
            thread_id.as_str(),
        ).concat(" with ").concat(provider.to_string().as_str()),
        Outcome::SummaryFailed { error } => "Summary failed: ".to_owned().concat(error.as_str()),
        Outcome::AllSummarized { report } => "Summarize all: ".to_owned().concat(
            count_text(report.summarized).as_str(),
        ).concat(" complete, ").concat(count_text(report.errors.len()).as_str()).concat(
            " error(s)",
        ),
        Outcome::AllFailed { error } => "Summarize all failed: ".to_owned().concat(
            error.as_str(),
        ),
        Outcome::Pinned { thread_id, pinned } => if *pinned {
            "Pinned".to_owned().concat(" ").concat(thread_id.as_str())
        } else {
            "Unpinned".to_owned().concat(" ").concat(thread_id.as_str())
        },
        Outcome::Saved { field } => "Saved ".to_owned().concat(edit_label(*field)),
        Outcome::Preferred { provider, cap } => "Summary selection: ".to_owned().concat(
            provider.to_string().as_str(),
        ).concat(", ").concat(cap.to_string().as_str()),
    }
}

/// What is said when a session that is to be resumed is gone.
pub open spec fn gone_text(thread_id: Seq<char>) -> Seq<char> {
    "session "@ + thread_id + " disappeared"@
}

pub fn gone_message(thread_id: &str) -> (r: String)
    ensures
        r@ == gone_text(thread_id@),
{
    "session ".to_owned().concat(thread_id).concat(" disappeared")
}

/// What is said of the import at the first start.
pub open spec fn import_text(outcome: Result<SyncReport, String>) -> Seq<char> {
    match outcome {
        Ok(report) => "Initial local import: "@ + text::decimal(
            (report.imported + report.updated) as nat,
        ) + " thread(s), "@ + error_count(report@) + " error(s); no AI used"@,
        Err(error) => "Initial import failed: "@ + error@,
    }
}

pub fn import_status(outcome: &Result<SyncReport, String>) -> (r: String)
    requires
        outcome matches Ok(report) ==> report.imported + report.updated <= usize::MAX,
    ensures
        r@ == import_text(*outcome),
{
    match outcome {
        Ok(report) => "Initial local import: ".to_owned().concat(
            count_text(report.total()).as_str(),
        ).concat(" thread(s), ").concat(count_text(report.errors.len()).as_str()).concat(
            " error(s); no AI used",
        ),
        Err(error) => "Initial import failed: ".to_owned().concat(error.as_str()),
    }
}

impl TrackerApp {
    /// What is to be done for an action.
    pub fn plan(&self, action: UiAction) -> (r: Effect)
        ensures
            r@ == effect_of(self@, action@),
    {
        match action {
            UiAction::Nothing => Effect::Nothing,
            UiAction::Quit => Effect::Quit,
            UiAction::Launch { thread_id } => Effect::Launch { thread_id },
            UiAction::Sync => Effect::Sync,
            UiAction::Summarize { thread_id } => Effect::Summarize {
                thread_id,
                provider: self.provider,
                cap: self.cap,
            },
            UiAction::SummarizeAll => Effect::SummarizeAll {
                provider: self.provider,
                cap: self.cap,
            },
            UiAction::TogglePin { thread_id } => Effect::TogglePin { thread_id },
            UiAction::SaveEdit { thread_id, field, value } => Effect::SaveEdit {
                thread_id,
                field,
                value,
            },
            UiAction::SavePreferences { provider, cap } => Effect::SavePreferences {
                provider,
                cap,
            },
        }
    }

    /// Says what came of an action and shows the sessions as they are now. The session that was
    /// selected stays selected.
    pub fn finish(&mut self, outcome: &Outcome, sessions: Vec<Session>)
        ensures
            final(self)@ == reloaded(
                TrackerView {
                    status: outcome_text(*outcome, old(self)@.provider),
                    ..old(self)@
                },
                sessions.deep_view(),
                match selection(old(self)@) {
                    Some(session) => Some(session.thread_id),
                    None => None,
                },
            ),
    {
        let selected = self.selected_id();
        self.status = status_of(outcome, self.provider);
        match &selected {
            Some(thread_id) => self.replace_sessions(sessions, Some(thread_id.as_str())),
            None => self.replace_sessions(sessions, None),
        }
    }
}

/// Whether the filtered list is that of the query and the selection is within it.
pub open spec fn well_formed(app: TrackerView) -> bool {
    &&& app.filtered == shown_positions(app.sessions, app.query)
    &&& if app.filtered.len() == 0 {
        app.selected == 0
    } else {
        app.selected < app.filtered.len()
    }
}

proof fn lemma_shown(sessions: Seq<SessionView>, query: Seq<char>)
    requires
        sessions.len() <= usize::MAX,
    ensures
        shown_positions(sessions, query).len() <= sessions.len(),
        forall|i: int, j: int|
            0 <= i < j < shown_positions(sessions, query).len() ==> #[trigger] shown_positions(
                sessions,
                query,
            )[i] < #[trigger] shown_positions(sessions, query)[j],
        forall|i: int|
            0 <= i < shown_positions(sessions, query).len() ==> #[trigger] shown_positions(
                sessions,
                query,
            )[i] < sessions.len(),
        forall|k: usize| #[trigger]
            shown_positions(sessions, query).contains(k) <==> k < sessions.len() && is_shown(
                sessions[k as int],
                query,
            ),
    decreases sessions.len(),
{
    if sessions.len() > 0 {
        let rest = sessions.drop_last();
        lemma_shown(rest, query);
        let before = shown_positions(rest, query);
        let after = shown_positions(sessions, query);
        let last = (sessions.len() - 1) as usize;
        assert forall|k: usize| #[trigger] after.contains(k) <==> k < sessions.len() && is_shown(
            sessions[k as int],
            query,
        ) by {
            assert(before.contains(k) <==> k < rest.len() && is_shown(rest[k as int], query));
            if after.contains(k) {
                let at = after.index_of(k);
                if at < before.len() {
                    assert(before[at] == k);
                }
            }
            if before.contains(k) {
                let at = before.index_of(k);
                assert(after[at] == k);
            }
            if k == last && is_shown(sessions.last(), query) {
                assert(after[after.len() - 1] == k);
            }
        }
    } else {
        assert forall|k: usize| !#[trigger] shown_positions(sessions, query).contains(k) by {}
    }
}

/// A session is in the filtered list where it is shown for the query, each once and in the order of
/// the sessions. For a blank query all are in it.
pub proof fn filters_are_exact(sessions: Seq<SessionView>, query: Seq<char>)
    requires
        sessions.len() <= usize::MAX,
    ensures
        forall|k: usize| #[trigger]
            shown_positions(sessions, query).contains(k) <==> k < sessions.len() && is_shown(
                sessions[k as int],
                query,
            ),
        forall|i: int, j: int|
            0 <= i < j < shown_positions(sessions, query).len() ==> #[trigger] shown_positions(
                sessions,
                query,
            )[i] < #[trigger] shown_positions(sessions, query)[j],
        text::trimmed(query).len() == 0 ==> forall|k: usize|
            k < sessions.len() ==> #[trigger] shown_positions(sessions, query).contains(k),
{
    lemma_shown(sessions, query);
}

/// The tracker is well formed at its start.
pub proof fn trackers_start_well_formed(sessions: Seq<SessionView>, settings: ConfigView)
    requires
        sessions.len() <= usize::MAX,
    ensures
        well_formed(started(sessions, settings)),
{
    lemma_shown(sessions, Seq::empty());
}

proof fn lemma_position_bound(
    sessions: Seq<SessionView>,
    filtered: Seq<usize>,
    thread_id: Seq<char>,
)
    ensures
        position_of(sessions, filtered, thread_id) matches Some(position) ==> 0 <= position
            < filtered.len() && filtered[position] < sessions.len()
            && sessions[filtered[position] as int].thread_id == thread_id,
        position_of(sessions, filtered, thread_id) is None ==> forall|i: int|
            0 <= i < filtered.len() && #[trigger] filtered[i] < sessions.len()
                ==> sessions[filtered[i] as int].thread_id != thread_id,
    decreases filtered.len(),
{
    if filtered.len() > 0 {
        lemma_position_bound(sessions, filtered.drop_last(), thread_id);
        if position_of(sessions, filtered, thread_id) is None {
            assert forall|i: int|
                0 <= i < filtered.len() && #[trigger] filtered[i] < sessions.len() implies sessions[filtered[i] as int].thread_id
                != thread_id by {
                if i < filtered.len() - 1 {
                    assert(filtered.drop_last()[i] == filtered[i]);
                }
            }
        }
    }
}

/// The tracker is well formed after the sessions were loaded again, whatever it was before. The
/// session that was selected stays selected where it is still shown.
pub proof fn reloading_keeps_the_selection(
    app: TrackerView,
    sessions: Seq<SessionView>,
    preferred: Option<Seq<char>>,
)
    requires
        sessions.len() <= usize::MAX,
    ensures
        well_formed(reloaded(app, sessions, preferred)),
        preferred matches Some(thread_id) ==> (forall|k: usize|
            k < sessions.len() && is_shown(sessions[k as int], app.query) && (
            #[trigger] sessions[k as int]).thread_id == thread_id ==> (selection(
                reloaded(app, sessions, preferred),
            ) matches Some(session) && session.thread_id == thread_id)),
{
    lemma_shown(sessions, app.query);
    let filtered = shown_positions(sessions, app.query);
    if let Some(thread_id) = preferred {
        lemma_position_bound(sessions, filtered, thread_id);
        assert forall|k: usize|
            k < sessions.len() && is_shown(sessions[k as int], app.query) && (
            #[trigger] sessions[k as int]).thread_id == thread_id implies (selection(
            reloaded(app, sessions, preferred),
        ) matches Some(session) && session.thread_id == thread_id) by {
            assert(filtered.contains(k));
            let at = filtered.index_of(k);
            assert(filtered[at] == k);
        }
    }
}

/// A key keeps the tracker well formed, and it changes neither the sessions nor the status.
pub proof fn keys_keep_the_tracker_well_formed(app: TrackerView, key: KeyEvent)
    requires
        app.sessions.len() <= usize::MAX,
        well_formed(app),
    ensures
        well_formed(handled(app, key).0),
        handled(app, key).0.sessions == app.sessions,
        handled(app, key).0.status == app.status,
{
    lemma_shown(app.sessions, app.query);
    lemma_shown(app.sessions, handled(app, key).0.query);
}

/// An outside provider is asked only after the user has confirmed it: a key that asks for a summary
/// is `y` or `Y` where a confirmation is asked for, or the provider is the local one. To summarize
/// all sessions has always to be confirmed.
pub proof fn outside_providers_need_a_confirmation(app: TrackerView, key: KeyEvent)
    ensures
        handled(app, key).1 is Summarize && app.provider != SummaryProvider::Local ==> app.mode
            == ModeView::Confirm(Confirmation::SummarizeSelected) && (key.code == KeyCode::Char('y')
            || key.code == KeyCode::Char('Y')),
        handled(app, key).1 is SummarizeAll ==> app.mode == ModeView::Confirm(
            Confirmation::SummarizeAll,
        ) && (key.code == KeyCode::Char('y') || key.code == KeyCode::Char('Y')),
{
}

/// In normal mode no key asks at once for a summary of all sessions, and none but `r` for one of the
/// selected session, with the local provider alone. With an outside provider `r` asks for a
/// confirmation, and without a selected session it does nothing. `A` asks for a confirmation.
pub proof fn normal_keys_ask_before_outside_work(app: TrackerView, key: KeyEvent)
    requires
        app.mode == ModeView::Normal,
    ensures
        !(handled(app, key).1 is SummarizeAll),
        handled(app, key).1 is Summarize ==> key.code == KeyCode::Char('r') && app.provider
            == SummaryProvider::Local,
        key.code == KeyCode::Char('r') && app.provider == SummaryProvider::Local ==> (selection(
            app,
        ) matches Some(session) ==> handled(app, key) == (
            app,
            ActionView::Summarize { thread_id: session.thread_id },
        )),
        key.code == KeyCode::Char('r') && app.provider != SummaryProvider::Local && selection(
            app,
        ) is Some ==> handled(app, key) == (
            (TrackerView { mode: ModeView::Confirm(Confirmation::SummarizeSelected), ..app }),
            ActionView::Nothing,
        ),
        key.code == KeyCode::Char('r') && selection(app) is None ==> handled(app, key) == (
            app,
            ActionView::Nothing,
        ),
        key.code == KeyCode::Char('A') ==> handled(app, key) == (
            (TrackerView { mode: ModeView::Confirm(Confirmation::SummarizeAll), ..app }),
            ActionView::Nothing,
        ),
{
}

/// To resume a session leaves the tracker open and as it was: Enter in normal mode asks for a
/// terminal where a session is selected, and never to quit.
pub proof fn resuming_keeps_the_tracker_open(app: TrackerView, key: KeyEvent)
    requires
        app.mode == ModeView::Normal,
        key.code == KeyCode::Enter,
    ensures
        handled(app, key).0 == app,
        handled(app, key).1 is Launch <==> selection(app) is Some,
        !(handled(app, key).1 is Quit),
{
}

/// What is typed while searching is added to the query at the end, and the list is that of the
/// longer query at once.
pub proof fn searches_follow_what_is_typed(app: TrackerView, c: char)
    requires
        app.mode == ModeView::Search,
    ensures
        ({
            let typed = KeyEvent { code: KeyCode::Char(c), control: false, alt: false };
            let after = handled(app, typed).0;
            &&& after.query == app.query.push(c)
            &&& after.filtered == shown_positions(app.sessions, after.query)
            &&& after.mode == ModeView::Search
        }),
{
}

/// What a key asks for is about the session that is selected, and nothing is asked of a session
/// where none is.
pub proof fn actions_are_about_the_selection(app: TrackerView, key: KeyEvent)
    ensures
        match handled(app, key).1 {
            ActionView::Launch { thread_id } => selection(app) matches Some(session)
                && session.thread_id == thread_id,
            ActionView::Summarize { thread_id } => selection(app) matches Some(session)
                && session.thread_id == thread_id,
            ActionView::TogglePin { thread_id } => selection(app) matches Some(session)
                && session.thread_id == thread_id,
            ActionView::SaveEdit { thread_id, field, value } => app.mode == (ModeView::Edit {
                field,
                buffer: value,
            }) && (selection(app) matches Some(session) && session.thread_id == thread_id),
            _ => true,
        },
{
}

/// The providers and the amounts of text come in turn, each after the one before it in its list.
pub proof fn choices_come_in_turn(i: int)
    requires
        0 <= i < 3,
    ensures
        next_provider(SummaryProvider::ALL@[i]) == SummaryProvider::ALL@[(i + 1) % 3],
        next_cap(SummaryInput::CYCLE@[i]) == SummaryInput::CYCLE@[(i + 1) % 3],
{
}

} // verus!
