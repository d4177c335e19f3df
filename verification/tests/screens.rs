use codex_resume_tracker::commands::{
    apply_options, is_yes, plan_summarize, report_line, saved_message, summarized_message,
    usage_warning, SetupNext, SetupOptions, SetupReply, SetupRun,
};
use codex_resume_tracker::config::{Config, OnClose, SourceKind, SummaryInput, SummaryProvider};
use codex_resume_tracker::db::{Database, Session, SessionMetadata};
use codex_resume_tracker::screen::{
    details, format_timestamp, help_line, list_entries, list_entry, list_title, popup, popup_bounds,
    search_line, session_detail, shown_update, status_line, LineStyle, TimeOffsets,
};
use codex_resume_tracker::setup::{render_hook_snippet, HookChoice, HookMergeOutcome};
use codex_resume_tracker::sync::SyncReport;
use codex_resume_tracker::tui::{
    edit_label, gone_message, import_status, save_edit, split_tags, status_of, Confirmation,
    EditField, Effect, KeyCode, KeyEvent, Mode, Outcome, TrackerApp, UiAction,
};

fn session(id: &str, title: &str, tags: &[&str]) -> Session {
    Session {
        thread_id: id.into(),
        resume_command: format!("codex resume {id}"),
        cwd: format!("/work/{id}"),
        source: "cli".into(),
        model: Some("gpt-5".into()),
        model_provider: Some("openai".into()),
        created_at: Some(1),
        updated_at: Some(2),
        recency_at: Some(2),
        ended_at: None,
        generated_title: Some(title.into()),
        generated_summary: Some("summary".into()),
        manual_title: None,
        manual_summary: None,
        notes: String::new(),
        pinned: false,
        summary_provider: Some("local".into()),
        summary_cap: Some("64k".into()),
        summary_status: "ready".into(),
        summary_error: None,
        tags: tags.iter().map(|tag| (*tag).to_owned()).collect(),
    }
}

fn key(code: KeyCode) -> KeyEvent {
    KeyEvent { code, control: false, alt: false }
}

fn held(code: KeyCode) -> KeyEvent {
    KeyEvent { code, control: true, alt: false }
}

#[test]
fn incremental_search_filters_all_metadata() {
    let sessions = vec![
        session("one", "Rust tracker", &["tui"]),
        session("two", "Python", &["sqlite-special"]),
    ];
    let mut app = TrackerApp::new(sessions, &Config::default());
    app.handle_key(key(KeyCode::Char('/')));
    for character in "sqlite-special".chars() {
        app.handle_key(key(KeyCode::Char(character)));
    }
    assert_eq!(app.filtered.len(), 1);
    assert_eq!(app.selected_session().unwrap().thread_id, "two");
}

#[test]
fn enter_emits_launch_without_closing_tracker() {
    let mut app = TrackerApp::new(vec![session("thr_1", "Title", &[])], &Config::default());
    assert_eq!(
        app.handle_key(key(KeyCode::Enter)),
        UiAction::Launch { thread_id: "thr_1".into() }
    );
    assert_eq!(app.mode, Mode::Normal);
}

#[test]
fn editing_title_emits_persistent_override_action() {
    let mut app = TrackerApp::new(vec![session("thr_1", "Old", &[])], &Config::default());
    app.handle_key(key(KeyCode::Char('t')));
    assert!(matches!(app.mode, Mode::Edit { field: EditField::Title, .. }));
    if let Mode::Edit { field, .. } = &mut app.mode {
        *field = EditField::Title;
    }
    // Clear the prefilled value, then type a replacement.
    for _ in 0..3 {
        app.handle_key(key(KeyCode::Backspace));
    }
    for character in "New".chars() {
        app.handle_key(key(KeyCode::Char(character)));
    }
    assert_eq!(
        app.handle_key(key(KeyCode::Enter)),
        UiAction::SaveEdit {
            thread_id: "thr_1".into(),
            field: EditField::Title,
            value: "New".into()
        }
    );
}

#[test]
fn a_retry_is_done_at_once_only_by_the_local_provider() {
    let local = Config { summary_provider: SummaryProvider::Local, ..Config::default() };
    let mut app = TrackerApp::new(vec![session("thr_1", "Title", &[])], &local);
    assert_eq!(
        app.handle_key(key(KeyCode::Char('r'))),
        UiAction::Summarize { thread_id: "thr_1".into() }
    );
    assert_eq!(app.mode, Mode::Normal);
    let mut empty = TrackerApp::new(vec![], &Config::default());
    assert_eq!(empty.handle_key(key(KeyCode::Char('r'))), UiAction::Nothing);
    assert_eq!(empty.mode, Mode::Normal);
}

#[test]
fn ai_retry_requires_explicit_confirmation() {
    let mut app = TrackerApp::new(vec![session("thr_1", "Title", &[])], &Config::default());
    assert_eq!(app.handle_key(key(KeyCode::Char('r'))), UiAction::Nothing);
    assert_eq!(app.mode, Mode::Confirm(Confirmation::SummarizeSelected));
    assert_eq!(
        app.handle_key(key(KeyCode::Char('y'))),
        UiAction::Summarize { thread_id: "thr_1".into() }
    );
}

#[test]
fn provider_and_cap_actions_update_selection() {
    let mut app = TrackerApp::new(Vec::new(), &Config::default());
    assert_eq!(
        app.handle_key(key(KeyCode::Char('v'))),
        UiAction::SavePreferences {
            provider: SummaryProvider::Openai,
            cap: SummaryInput::SixtyFourK
        }
    );
    assert_eq!(
        app.handle_key(key(KeyCode::Char('c'))),
        UiAction::SavePreferences { provider: SummaryProvider::Openai, cap: SummaryInput::Entire }
    );
}

#[test]
fn choices_come_round_again() {
    let config = Config { summary_input: SummaryInput::Custom(5), ..Config::default() };
    let mut app = TrackerApp::new(Vec::new(), &config);
    let mut seen = Vec::new();
    for _ in 0..4 {
        app.handle_key(key(KeyCode::Char('c')));
        app.handle_key(key(KeyCode::Char('v')));
        seen.push((app.provider, app.cap));
    }
    assert_eq!(
        seen,
        vec![
            (SummaryProvider::Openai, SummaryInput::SixtyFourK),
            (SummaryProvider::Local, SummaryInput::Entire),
            (SummaryProvider::Codex, SummaryInput::SixteenK),
            (SummaryProvider::Openai, SummaryInput::SixtyFourK),
        ]
    );
}

fn three() -> TrackerApp {
    TrackerApp::new(
        vec![session("a", "Alpha", &[]), session("b", "Beta", &[]), session("c", "Gamma", &["x"])],
        &Config::default(),
    )
}

#[test]
fn the_selection_stays_within_the_list() {
    let mut app = three();
    for (code, selected) in [
        (KeyCode::Up, 0),
        (KeyCode::Down, 1),
        (KeyCode::Char('j'), 2),
        (KeyCode::Down, 2),
        (KeyCode::Char('k'), 1),
        (KeyCode::End, 2),
        (KeyCode::Home, 0),
    ] {
        assert_eq!(app.handle_key(key(code)), UiAction::Nothing);
        assert_eq!(app.selected, selected);
    }
    app.handle_key(key(KeyCode::End));
    app.query = "alpha".into();
    app.refresh_filter();
    assert_eq!((app.selected, app.filtered.clone()), (0, vec![0]));
    app.handle_key(key(KeyCode::Esc));
    assert_eq!((app.query.as_str(), app.filtered.len()), ("", 3));
    let mut empty = TrackerApp::new(vec![], &Config::default());
    assert_eq!(empty.handle_key(key(KeyCode::End)), UiAction::Nothing);
    assert_eq!(empty.handle_key(key(KeyCode::Enter)), UiAction::Nothing);
    assert_eq!(empty.handle_key(key(KeyCode::Char('r'))), UiAction::Nothing);
    assert_eq!(empty.handle_key(key(KeyCode::Char('t'))), UiAction::Nothing);
    assert_eq!(empty.mode, Mode::Normal);
}

#[test]
fn the_remaining_keys_do_what_they_are_for() {
    let mut app = three();
    assert_eq!(app.handle_key(key(KeyCode::Char('q'))), UiAction::Quit);
    assert_eq!(app.handle_key(held(KeyCode::Char('c'))), UiAction::Quit);
    assert_eq!(app.handle_key(key(KeyCode::Char('s'))), UiAction::Sync);
    assert_eq!(
        app.handle_key(key(KeyCode::Char('p'))),
        UiAction::TogglePin { thread_id: "a".into() }
    );
    assert_eq!(app.handle_key(key(KeyCode::Char('A'))), UiAction::Nothing);
    assert_eq!(app.handle_key(key(KeyCode::Char('x'))), UiAction::Nothing);
    assert_eq!(app.mode, Mode::Confirm(Confirmation::SummarizeAll));
    assert_eq!(app.handle_key(key(KeyCode::Char('Y'))), UiAction::SummarizeAll);
    app.handle_key(key(KeyCode::Char('A')));
    assert_eq!(app.handle_key(key(KeyCode::Esc)), UiAction::Nothing);
    assert_eq!(app.mode, Mode::Normal);
    app.provider = SummaryProvider::Local;
    assert_eq!(
        app.handle_key(key(KeyCode::Char('r'))),
        UiAction::Summarize { thread_id: "a".into() }
    );
    app.handle_key(key(KeyCode::End));
    app.handle_key(key(KeyCode::Char('g')));
    assert_eq!(app.mode, Mode::Edit { field: EditField::Tags, buffer: "x".into() });
    app.handle_key(held(KeyCode::Char('z')));
    app.handle_key(key(KeyCode::Char('y')));
    assert_eq!(app.mode, Mode::Edit { field: EditField::Tags, buffer: "xy".into() });
    app.handle_key(key(KeyCode::Esc));
    app.handle_key(key(KeyCode::Char('/')));
    app.handle_key(key(KeyCode::Char('q')));
    app.handle_key(held(KeyCode::Char('c')));
    assert_eq!((app.query.as_str(), app.filtered.len()), ("q", 0));
    app.handle_key(key(KeyCode::Backspace));
    app.handle_key(key(KeyCode::Backspace));
    assert_eq!((app.query.as_str(), app.filtered.len()), ("", 3));
    app.handle_key(key(KeyCode::Enter));
    assert_eq!(app.mode, Mode::Normal);
}

#[test]
fn the_selected_session_stays_selected() {
    let mut app = three();
    app.handle_key(key(KeyCode::Down));
    let outcome = Outcome::Pinned { thread_id: "b".into(), pinned: true };
    app.finish(&outcome, vec![session("c", "C", &[]), session("a", "A", &[]), session("b", "B", &[])]);
    assert_eq!(app.selected, 2);
    assert_eq!(app.status, "Pinned b");
    app.replace_sessions(vec![session("z", "Z", &[])], Some("b"));
    assert_eq!(app.selected, 0);
    app.replace_sessions(vec![], None);
    assert!(app.selected_session().is_none());
}

#[test]
fn actions_are_planned_and_told() {
    let mut app = three();
    app.provider = SummaryProvider::Openai;
    app.cap = SummaryInput::Entire;
    assert_eq!(
        app.plan(UiAction::Summarize { thread_id: "a".into() }),
        Effect::Summarize {
            thread_id: "a".into(),
            provider: SummaryProvider::Openai,
            cap: SummaryInput::Entire
        }
    );
    assert_eq!(app.plan(UiAction::Quit), Effect::Quit);
    let report = || SyncReport { imported: 1, updated: 2, summarized: 3, errors: vec!["e".into()] };
    let told = |outcome: Outcome| status_of(&outcome, SummaryProvider::Openai);
    assert_eq!(
        told(Outcome::Launched { resume_command: "codex resume a".into(), pid: 42 }),
        "Launched codex resume a in terminal process 42"
    );
    assert_eq!(told(Outcome::LaunchFailed { error: "x".into() }), "Launch failed: x");
    assert_eq!(
        told(Outcome::Synced { report: report() }),
        "Sync: 1 imported, 2 updated, 3 local summaries, 1 error(s)"
    );
    assert_eq!(told(Outcome::SyncFailed { error: "x".into() }), "Sync failed: x");
    assert_eq!(told(Outcome::Summarized { thread_id: "a".into() }), "Summarized a with openai");
    assert_eq!(told(Outcome::SummaryFailed { error: "x".into() }), "Summary failed: x");
    assert_eq!(
        told(Outcome::AllSummarized { report: report() }),
        "Summarize all: 3 complete, 1 error(s)"
    );
    assert_eq!(told(Outcome::AllFailed { error: "x".into() }), "Summarize all failed: x");
    assert_eq!(told(Outcome::Pinned { thread_id: "a".into(), pinned: false }), "Unpinned a");
    assert_eq!(told(Outcome::Saved { field: EditField::Notes }), "Saved notes");
    assert_eq!(
        told(Outcome::Preferred { provider: SummaryProvider::Local, cap: SummaryInput::SixteenK }),
        "Summary selection: local, 16k"
    );
    assert_eq!(
        import_status(&Ok(report())),
        "Initial local import: 3 thread(s), 1 error(s); no AI used"
    );
    assert_eq!(import_status(&Err("x".into())), "Initial import failed: x");
    assert_eq!(gone_message("a"), "session a disappeared");
}

#[test]
fn edits_are_saved() {
    let mut database = Database::open("edits");
    database.upsert_metadata(
        &SessionMetadata {
            thread_id: "t".into(),
            cwd: "/".into(),
            source: "cli".into(),
            model: None,
            model_provider: None,
            created_at: None,
            updated_at: None,
            recency_at: None,
            generated_title: None,
        },
        1,
    );
    save_edit(&mut database, "t", EditField::Title, "  New title ").unwrap();
    save_edit(&mut database, "t", EditField::Summary, "Sum").unwrap();
    save_edit(&mut database, "t", EditField::Notes, " note ").unwrap();
    save_edit(&mut database, "t", EditField::Tags, "b, a ,,b").unwrap();
    let kept = database.get_session("t").unwrap();
    assert_eq!((kept.title(), kept.summary(), kept.notes.as_str()), ("New title", "Sum", "note"));
    assert_eq!(kept.tags, vec!["a", "b"]);
    save_edit(&mut database, "t", EditField::Title, " ").unwrap();
    assert_eq!(database.get_session("t").unwrap().title(), "Untitled Codex session");
    assert!(save_edit(&mut database, "gone", EditField::Tags, "a").is_err());
    assert_eq!(split_tags(" one , two three,"), vec!["one", "two three"]);
    assert_eq!(edit_label(EditField::Title), "title override");
}

#[test]
fn times_are_shown_in_the_zone_of_the_user() {
    assert_eq!(format_timestamp(Some(0), 0), "1970-01-01 00:00");
    assert_eq!(format_timestamp(Some(1_431_648_059), 7_200), "2015-05-15 02:00");
    assert_eq!(format_timestamp(Some(0), -3_600), "1969-12-31 23:00");
    assert_eq!(format_timestamp(None, 0), "-");
    assert_eq!(format_timestamp(Some(i64::MAX), 0), "-");
}

#[test]
fn details_show_all_of_a_session() {
    let offsets = TimeOffsets { created: 0, updated: 0, ended: 0 };
    let mut shown = session("a", "Alpha", &["t1", "t2"]);
    shown.updated_at = None;
    shown.model = None;
    shown.model_provider = None;
    shown.summary_error = Some("bad".into());
    assert_eq!(shown_update(&shown), Some(2));
    let lines: Vec<String> = session_detail(&shown, offsets)
        .iter()
        .map(|line| format!("{}{}", line.label, line.text))
        .collect();
    assert_eq!(
        lines,
        vec![
            "Alpha",
            "",
            "Resume: codex resume a",
            "Directory: /work/a",
            "Source/model: cli / unknown (unknown provider)",
            "created 1970-01-01 00:00 | updated 1970-01-01 00:00 | ended -",
            "Tags: t1, t2",
            "",
            "Summary",
            "summary",
            "",
            "Notes",
            "-",
            "",
            "Summary status: ready | provider: local | cap: 64k",
            "Error: bad",
        ]
    );
    let empty = TrackerApp::new(vec![], &Config::default());
    let lines = details(&empty, offsets);
    assert_eq!(lines.len(), 1);
    assert_eq!(
        lines[0].text,
        "No sessions match the current search. Press s to sync or Esc to clear search."
    );
    assert_eq!(details(&three(), offsets)[0].style, LineStyle::Title);
}

#[test]
fn the_frame_of_the_screen() {
    let mut app = three();
    assert_eq!(search_line(&app), "Search: (press /)");
    assert_eq!(list_title(&app), "Sessions (3)");
    assert_eq!(status_line(&app), "Ready | provider=codex cap=64k");
    assert_eq!(
        list_entry(&Session { pinned: true, ..session("a", "Alpha", &[]) }),
        ("[P] Alpha".to_owned(), "    /work/a | cli".to_owned())
    );
    assert_eq!(list_entries(&app)[1].0, "    Beta");
    assert!(help_line(&app.mode).starts_with("Enter resume | / search"));
    assert!(popup(&app).is_none());
    app.query = "beta".into();
    app.refresh_filter();
    assert_eq!(search_line(&app), "Search: beta");
    assert_eq!(list_entries(&app).len(), 1);
    app.handle_key(key(KeyCode::Char('n')));
    app.handle_key(key(KeyCode::Char('!')));
    let shown = popup(&app).unwrap();
    assert_eq!(
        (shown.title.as_str(), shown.body.as_str(), shown.percent, shown.height),
        ("Edit notes", "!", 70, 7)
    );
    assert!(help_line(&app.mode).starts_with("Type value"));
    app.mode = Mode::Confirm(Confirmation::SummarizeAll);
    let shown = popup(&app).unwrap();
    assert_eq!(shown.title, "Confirm summary usage");
    assert_eq!(
        shown.body,
        "Summarize ALL visible threads with provider=codex and cap=64k?\nThis can consume Codex or OpenAI API usage. Press y to continue."
    );
    assert_eq!((shown.percent, shown.height), (64, 8));
    app.mode = Mode::Search;
    assert_eq!(help_line(&app.mode), "Type to filter | Enter/Esc finish | Backspace");
}

#[test]
fn boxes_are_in_the_middle() {
    let bounds = popup_bounds(70, 7, 24);
    assert_eq!((bounds.above, bounds.lines, bounds.before, bounds.percent), (8, 7, 15, 70));
    let bounds = popup_bounds(64, 8, 5);
    assert_eq!((bounds.above, bounds.lines, bounds.before), (0, 5, 18));
}

fn options() -> SetupOptions {
    SetupOptions {
        defaults: false,
        provider: None,
        summary_input: None,
        on_close: None,
        sources: vec![],
        hook: None,
        no_import: false,
        summarize_all: false,
        yes: false,
    }
}

#[test]
fn the_command_line_overrides_the_answers() {
    let changed = apply_options(
        Config::default(),
        &SetupOptions {
            provider: Some(SummaryProvider::Local),
            summary_input: Some(SummaryInput::SixteenK),
            on_close: Some(OnClose::LocalFirst),
            sources: vec![SourceKind::Exec, SourceKind::Cli, SourceKind::Exec],
            ..options()
        },
    );
    assert_eq!(
        saved_message(&changed, "/c.toml"),
        "\nSaved /c.toml\nProvider=local input=16k on-close=local_first sources=exec,cli\n"
    );
    assert_eq!(apply_options(Config::default(), &options()), Config::default());
}

fn shown(next: &SetupNext) -> &str {
    match next {
        SetupNext::InstallHook { shown }
        | SetupNext::Import { shown }
        | SetupNext::Confirm { shown, .. }
        | SetupNext::SummarizeAll { shown, .. }
        | SetupNext::Done { shown } => shown,
        other => panic!("{other:?}"),
    }
}

#[test]
fn the_setup_goes_on_step_by_step() {
    let start = |options: SetupOptions| {
        SetupRun::start(Config::default(), HookChoice::Automatic, options, "/c.toml", "/bin/t")
    };
    let report = SyncReport { imported: 2, updated: 0, summarized: 2, errors: vec![] };
    let (run, first) = start(options());
    assert!(matches!(first, SetupNext::Save { .. }));
    let next = run.step(&SetupReply::Saved);
    assert!(matches!(next, SetupNext::InstallHook { .. }));
    assert_eq!(
        shown(&next),
        format!(
            "\nSaved /c.toml\nProvider=codex input=64k on-close=automatic sources=cli,vscode\n\nSessionEnd hook JSON (always shown for review):\n{}\n",
            render_hook_snippet("/bin/t")
        )
    );
    let merged = |changed| SetupReply::HookMerged {
        outcome: HookMergeOutcome { path: "/h.json".into(), changed },
    };
    let next = run.step(&merged(true));
    assert!(matches!(next, SetupNext::Import { .. }));
    assert_eq!(
        shown(&next),
        "Merged hook into /h.json\nOpen Codex and run /hooks to review and trust the exact command before it can run.\n"
    );
    assert!(shown(&run.step(&merged(false))).starts_with("Hook already present in /h.json\n"));
    let next = run.step(&SetupReply::Imported { report });
    assert!(matches!(next, SetupNext::Confirm { .. }));
    assert!(shown(&next).starts_with(
        "Initial local-only import: 2 imported, 0 updated, 2 summarized, 0 error(s)\nNo Codex or OpenAI"
    ));
    assert!(matches!(
        run.step(&SetupReply::Confirmed { yes: true }),
        SetupNext::SummarizeAll { provider: SummaryProvider::Codex, .. }
    ));
    assert!(matches!(run.step(&SetupReply::Confirmed { yes: false }), SetupNext::Done { .. }));
    let report = SyncReport { imported: 0, updated: 1, summarized: 1, errors: vec!["e".into()] };
    assert_eq!(
        shown(&run.step(&SetupReply::Summarized { report })),
        "Summarize all: 0 imported, 1 updated, 1 summarized, 1 error(s)\n"
    );
}

#[test]
fn the_setup_does_no_more_than_it_is_told() {
    let start = |options: SetupOptions| {
        SetupRun::start(Config::default(), HookChoice::Automatic, options, "/c.toml", "/bin/t").0
    };
    let imported = |count| SetupReply::Imported {
        report: SyncReport { imported: count, updated: 0, summarized: 0, errors: vec![] },
    };
    let skip = start(SetupOptions { hook: Some(HookChoice::Skip), no_import: true, ..options() });
    let next = skip.step(&SetupReply::Saved);
    assert!(matches!(next, SetupNext::Done { .. }));
    assert!(shown(&next).contains(
        "Hook installation skipped. See https://developers.openai.com/codex/hooks\nOpen Codex"
    ));
    assert!(shown(&next)
        .ends_with("Initial import skipped; run `codex-resume-tracker sync` later.\n"));
    let manual = start(SetupOptions { hook: Some(HookChoice::Manual), ..options() });
    let next = manual.step(&SetupReply::Saved);
    assert!(matches!(next, SetupNext::Import { .. }));
    assert!(shown(&next).contains("No hook file changed; merge the JSON above manually.\n"));
    let defaults = start(SetupOptions { defaults: true, ..options() });
    assert!(matches!(defaults.step(&imported(5)), SetupNext::Done { .. }));
    assert!(matches!(start(options()).step(&imported(0)), SetupNext::Done { .. }));
    let local = start(SetupOptions { provider: Some(SummaryProvider::Local), ..options() });
    assert!(matches!(local.step(&imported(5)), SetupNext::Done { .. }));
    let all = start(SetupOptions { defaults: true, summarize_all: true, ..options() });
    assert!(matches!(all.step(&imported(0)), SetupNext::Confirm { .. }));
    let yes = start(SetupOptions { summarize_all: true, yes: true, ..options() });
    assert!(matches!(yes.step(&imported(0)), SetupNext::SummarizeAll { .. }));
}

#[test]
fn all_is_summarized_only_after_a_yes() {
    assert!(is_yes(" Y\n"));
    assert!(is_yes("yes"));
    assert!(!is_yes(""));
    assert!(!is_yes("yep"));
    assert_eq!(
        usage_warning(SummaryProvider::Openai),
        "\nWARNING: summarize --all selected provider=openai.\nEach thread calls the OpenAI Responses API and may incur API charges.\nContinue for all matching threads? [y/N]: "
    );
    assert!(usage_warning(SummaryProvider::Local).contains("makes no Codex/API call"));
    let plan = plan_summarize(&Config::default(), Some(SummaryProvider::Local), None, true, false);
    assert!(plan.confirm);
    assert_eq!((plan.provider, plan.cap), (SummaryProvider::Local, SummaryInput::SixtyFourK));
    assert!(!plan_summarize(&Config::default(), None, None, true, true).confirm);
    assert!(!plan_summarize(&Config::default(), None, None, false, false).confirm);
    assert_eq!(
        summarized_message("t", SummaryProvider::Local, SummaryInput::Custom(7)),
        "Summarized t with provider=local input=custom:7"
    );
    assert_eq!(
        report_line("Sync", &SyncReport::default()),
        "Sync: 0 imported, 0 updated, 0 summarized, 0 error(s)\n"
    );
}
