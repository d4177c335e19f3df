use std::collections::HashMap;

use codex_resume_tracker::app_server::{MessageRole, RemoteThread, VisibleMessage};
use codex_resume_tracker::config::{Config, OnClose, SourceKind, SummaryInput, SummaryProvider};
use codex_resume_tracker::db::{Database, SessionMetadata};
use codex_resume_tracker::hook::{
    after_spawn, ingest, process_job, worker_command_args, SessionEndInput, WorkerSpawner,
};
use codex_resume_tracker::paths::AppPaths;
use codex_resume_tracker::summary::{Generation, SummaryResult};
use codex_resume_tracker::sync::{
    find_remote_thread, summarize_all, summarize_one, sync_all, BatchNext, BatchRun, Reply, Step,
    SyncReport, TaskNext, TaskRun,
};
use codex_resume_tracker::terminal::render_argv;
use codex_resume_tracker::tui::TrackerApp;

struct Fixture {
    database: Database,
    threads: Vec<RemoteThread>,
    messages: HashMap<String, Vec<VisibleMessage>>,
    generated: Result<SummaryResult, String>,
    seen_sources: Vec<Vec<SourceKind>>,
    steps: Vec<String>,
}

impl Fixture {
    fn new(threads: Vec<RemoteThread>, messages: &[(&str, &[(MessageRole, &str)])]) -> Self {
        let messages = messages
            .iter()
            .map(|(id, said)| {
                let said = said
                    .iter()
                    .map(|(role, text)| VisibleMessage { role: *role, text: (*text).to_owned() })
                    .collect();
                ((*id).to_owned(), said)
            })
            .collect();
        Fixture {
            database: Database::open("tracker"),
            threads,
            messages,
            generated: Err("provider is down".into()),
            seen_sources: Vec::new(),
            steps: Vec::new(),
        }
    }

    fn perform(&mut self, step: Step) -> Reply {
        let now = 1_000;
        let name = format!("{step:?}");
        self.steps.push(name.split([' ', '{']).next().unwrap().to_owned());
        match step {
            Step::ListThreads { sources } => {
                self.seen_sources.push(sources);
                Reply::Threads(Ok(self.threads.clone()))
            }
            Step::ReadMessages { thread_id } => Reply::Messages(
                self.messages
                    .get(&thread_id)
                    .cloned()
                    .ok_or_else(|| format!("missing fixture {thread_id}")),
            ),
            Step::RunProvider { generation } => {
                assert!(!matches!(generation, Generation::Ready(_)));
                Reply::Generated(match &self.generated {
                    Ok(result) => Ok(result.clone()),
                    Err(error) => Err(error.clone()),
                })
            }
            stored => {
                assert!(stored.stored_thread().is_some());
                stored.perform(&mut self.database, now)
            }
        }
    }

    fn batch(&mut self, start: (BatchRun, Step), config: &Config) -> Result<SyncReport, String> {
        let (mut run, mut step) = start;
        loop {
            let reply = self.perform(step);
            match run.step(reply, config, &paths()) {
                BatchNext::Ask(next) => step = next,
                BatchNext::Report(report) => return Ok(report),
                BatchNext::Fail(error) => return Err(error),
            }
        }
    }

    fn task(&mut self, start: (TaskRun, Step), config: &Config) -> Result<(), String> {
        let (mut run, mut step) = start;
        loop {
            let reply = self.perform(step);
            match run.step(reply, config, &paths()) {
                TaskNext::Ask(next) => step = next,
                TaskNext::Done => return Ok(()),
                TaskNext::Fail(error) => return Err(error),
            }
        }
    }
}

fn paths() -> AppPaths {
    AppPaths::from_roots("/data", "/config", "/state")
}

fn remote(id: &str, cwd: &str, title: &str, recency: i64) -> RemoteThread {
    RemoteThread {
        metadata: SessionMetadata {
            thread_id: id.into(),
            cwd: cwd.into(),
            source: "cli".into(),
            model: Some("gpt-5".into()),
            model_provider: Some("openai".into()),
            created_at: Some(recency - 10),
            updated_at: Some(recency),
            recency_at: Some(recency),
            generated_title: Some(title.into()),
        },
    }
}

const REQUEST: (MessageRole, &str) = (MessageRole::User, "First request");
const RESPONSE: (MessageRole, &str) = (MessageRole::Assistant, "Final response");

fn repository() -> Fixture {
    Fixture::new(
        vec![remote("thr_sync", "/repo", "Preview title", 2)],
        &[("thr_sync", &[REQUEST, RESPONSE])],
    )
}

#[test]
fn initial_sync_uses_local_extraction_without_external_provider() {
    let mut fixture = repository();
    let config = Config { summary_provider: SummaryProvider::Openai, ..Config::default() };
    let report = fixture.batch(sync_all(&config), &config).unwrap();
    assert_eq!(report.imported, 1);
    assert_eq!(report.summarized, 1);
    assert!(report.errors.is_empty());
    let session = fixture.database.get_session("thr_sync").unwrap();
    assert_eq!(session.title(), "First request");
    assert_eq!(session.summary(), "Final response");
    assert_eq!(session.summary_provider.as_deref(), Some("local"));
    assert_eq!(fixture.seen_sources, vec![vec![SourceKind::Cli, SourceKind::Vscode]]);
    assert_eq!(fixture.steps, vec!["ListThreads", "Upsert", "ReadMessages", "StoreSummary"]);
}

#[test]
fn sync_surfaces_per_thread_read_errors_without_losing_metadata() {
    let mut fixture = repository();
    fixture.messages.clear();
    let config = Config::default();
    let report = fixture.batch(sync_all(&config), &config).unwrap();
    assert_eq!(report.total(), 1);
    assert_eq!(report.errors.len(), 1);
    let session = fixture.database.get_session("thr_sync").unwrap();
    assert_eq!(session.title(), "Preview title");
    assert_eq!(session.summary_status, "error");
    assert_eq!(report.errors[0], "thr_sync: missing fixture thr_sync");
    assert_eq!(session.summary_error.as_deref(), Some("thr_sync: missing fixture thr_sync"));
}

#[test]
fn a_run_over_no_threads() {
    let mut fixture = Fixture::new(vec![], &[]);
    let config = Config::default();
    assert_eq!(fixture.batch(sync_all(&config), &config).unwrap(), SyncReport::default());
    assert_eq!(
        fixture
            .batch(summarize_all(&config, SummaryProvider::Local, SummaryInput::Entire), &config)
            .unwrap_err(),
        "no matching non-archived threads were returned by Codex"
    );
    let (mut run, _) = sync_all(&config);
    match run.step(Reply::Threads(Err("no server".into())), &config, &paths()) {
        BatchNext::Fail(error) => assert_eq!(error, "no server"),
        other => panic!("{other:?}"),
    }
}

#[test]
fn all_threads_are_summarized_by_the_provider() {
    let mut fixture = Fixture::new(
        vec![remote("a", "/a", "A", 1), remote("b", "/b", "B", 2), remote("c", "/c", "C", 3)],
        &[("a", &[REQUEST]), ("c", &[REQUEST])],
    );
    fixture.database.upsert_metadata(&remote("a", "/", "old", 0).metadata, 1);
    fixture.generated = Ok(SummaryResult { title: "T".into(), summary: "S".into() });
    let config = Config::default();
    let report = fixture
        .batch(summarize_all(&config, SummaryProvider::Codex, SummaryInput::SixteenK), &config)
        .unwrap();
    assert_eq!((report.imported, report.updated, report.summarized), (2, 1, 2));
    assert_eq!(report.errors, vec!["b: missing fixture b"]);
    let session = fixture.database.get_session("c").unwrap();
    assert_eq!(session.title(), "T");
    assert_eq!(session.summary_provider.as_deref(), Some("codex"));
    assert_eq!(session.summary_cap.as_deref(), Some("16k"));
}

#[test]
fn metadata_that_cannot_be_kept_is_an_error_of_its_thread() {
    let config = Config::default();
    let (mut run, _) = sync_all(&config);
    let threads = vec![remote("a", "/a", "A", 1), remote("b", "/b", "B", 2)];
    assert!(matches!(
        run.step(Reply::Threads(Ok(threads)), &config, &paths()),
        BatchNext::Ask(Step::Upsert { .. })
    ));
    match run.step(Reply::Upserted(Err("disk full".into())), &config, &paths()) {
        BatchNext::Ask(Step::Upsert { metadata }) => assert_eq!(metadata.thread_id, "b"),
        other => panic!("{other:?}"),
    }
    assert_eq!(run.report.errors, vec!["a: persist metadata: disk full"]);
    match run.step(Reply::Written(Ok(())), &config, &paths()) {
        BatchNext::Fail(error) => assert_eq!(error, "the run got an unexpected reply"),
        other => panic!("{other:?}"),
    }
}

#[test]
fn one_thread_is_summarized_or_its_error_kept() {
    let config = Config::default();
    let mut fixture = repository();
    fixture.database.upsert_metadata(&fixture.threads[0].metadata.clone(), 1);
    let start = summarize_one(&config, "thr_sync", SummaryProvider::Openai, SummaryInput::Entire);
    assert_eq!(fixture.task(start, &config).unwrap_err(), "provider is down");
    let session = fixture.database.get_session("thr_sync").unwrap();
    assert_eq!(session.summary_status, "error");
    assert_eq!(session.summary_error.as_deref(), Some("provider is down"));
    fixture.generated = Ok(SummaryResult { title: "T".into(), summary: "S".into() });
    fixture.steps.clear();
    let start = summarize_one(&config, "thr_sync", SummaryProvider::Openai, SummaryInput::Entire);
    fixture.task(start, &config).unwrap();
    assert_eq!(
        fixture.steps,
        vec!["MarkPending", "ListThreads", "Upsert", "ReadMessages", "RunProvider", "StoreSummary"]
    );
    let session = fixture.database.get_session("thr_sync").unwrap();
    assert_eq!((session.title(), session.summary_status.as_str()), ("T", "ready"));
    let start = summarize_one(&config, "gone", SummaryProvider::Local, SummaryInput::Entire);
    assert_eq!(
        fixture.task(start, &config).unwrap_err(),
        "thread gone was not returned by the configured source filters"
    );
    assert_eq!(
        find_remote_thread(fixture.threads.clone(), "thr_sync").unwrap(),
        fixture.threads[0]
    );
}

struct CapturingSpawner(std::cell::RefCell<Vec<String>>);

impl WorkerSpawner for CapturingSpawner {
    fn spawn(&self, thread_id: &str) -> Result<(), String> {
        self.0.borrow_mut().push(thread_id.to_owned());
        Ok(())
    }
}

struct BrokenSpawner;

impl WorkerSpawner for BrokenSpawner {
    fn spawn(&self, _thread_id: &str) -> Result<(), String> {
        Err("no setsid".into())
    }
}

fn ended(id: &str, cwd: &str) -> SessionEndInput {
    SessionEndInput {
        session_id: id.into(),
        cwd: cwd.into(),
        hook_event_name: "SessionEnd".into(),
        reason: "other".into(),
        transcript_path: None,
    }
}

fn hook_fixture() -> Fixture {
    Fixture::new(
        vec![remote("thr_hook", "/workspace", "Preview", 2)],
        &[(
            "thr_hook",
            &[(MessageRole::User, "Hook request"), (MessageRole::Assistant, "Hook result")],
        )],
    )
}

#[test]
fn hook_upserts_fast_record_and_queues_saved_provider() {
    let mut database = Database::open("ingest");
    let spawner = CapturingSpawner(std::cell::RefCell::new(Vec::new()));
    let event = SessionEndInput {
        transcript_path: Some("/private/transcript.jsonl".into()),
        ..ended("thr_hook", "/workspace")
    };
    let id = ingest(&mut database, &event, &Config::default(), 50, &spawner).unwrap();
    assert_eq!(id, "thr_hook");
    assert_eq!(spawner.0.borrow().as_slice(), ["thr_hook"]);
    let session = database.get_session("thr_hook").unwrap();
    assert_eq!(session.resume_command, "codex resume thr_hook");
    assert_eq!(session.cwd, "/workspace");
    assert!(!session.searchable_text().contains("transcript.jsonl"));
    let job = database.get_job("thr_hook").unwrap().unwrap();
    assert_eq!(job.provider, "codex");
    assert_eq!(job.cap, "64k");
    assert_eq!(job.status, "queued");
    assert_eq!(worker_command_args("thr_hook"), vec!["worker", "--thread-id", "thr_hook"]);
}

#[test]
fn reports_of_an_end_that_are_out_of_order_change_nothing() {
    let mut database = Database::open("refused");
    let config = Config::default();
    let mut refused = |event: SessionEndInput| {
        ingest(&mut database, &event, &config, 1, &BrokenSpawner).unwrap_err()
    };
    assert_eq!(
        refused(SessionEndInput { hook_event_name: "Stop".into(), ..ended("a", "/") }),
        "expected SessionEnd hook input, received \"Stop\""
    );
    assert_eq!(refused(ended(" ", "/")), "SessionEnd session_id cannot be empty");
    assert_eq!(refused(ended("a", "\t")), "SessionEnd cwd cannot be empty");
    assert_eq!(database.count_sessions(), 0);
    let manual = Config { on_close: OnClose::Manual, ..Config::default() };
    let error = ingest(&mut database, &ended("a", "/"), &manual, 1, &BrokenSpawner).unwrap_err();
    assert_eq!(error, "no setsid");
    assert_eq!(after_spawn(&ended("a", "/"), Ok(())), Ok("a".to_owned()));
    assert_eq!(database.get_job("a").unwrap().unwrap().provider, "metadata");
}

#[test]
fn local_first_worker_enriches_and_generates_local_summary() {
    let mut fixture = hook_fixture();
    let config = Config { on_close: OnClose::LocalFirst, ..Config::default() };
    fixture.database.ingest_hook("thr_hook", "/workspace", 1);
    fixture.database.queue_job("thr_hook", "local", SummaryInput::SixtyFourK, 1).unwrap();
    fixture.task(process_job(&config, "thr_hook"), &config).unwrap();
    let session = fixture.database.get_session("thr_hook").unwrap();
    assert_eq!(session.title(), "Hook request");
    assert_eq!(session.summary(), "Hook result");
    assert_eq!(fixture.database.get_job("thr_hook").unwrap().unwrap().status, "done");
}

#[test]
fn manual_worker_only_enriches_metadata() {
    let mut fixture = hook_fixture();
    let config = Config { on_close: OnClose::Manual, ..Config::default() };
    fixture.database.ingest_hook("thr_hook", "/workspace", 1);
    fixture.database.queue_job("thr_hook", "metadata", SummaryInput::SixtyFourK, 1).unwrap();
    fixture.task(process_job(&config, "thr_hook"), &config).unwrap();
    let session = fixture.database.get_session("thr_hook").unwrap();
    assert_eq!(session.title(), "Preview");
    assert_eq!(session.summary_status, "not_requested");
    assert!(session.generated_summary.is_none());
    assert_eq!(
        fixture.steps,
        vec!["LoadJob", "StartJob", "ListThreads", "Upsert", "MarkNotRequested", "FinishJob"]
    );
}

#[test]
fn jobs_are_summarized_with_the_provider_that_they_name() {
    let mut fixture = hook_fixture();
    let config = Config { summary_provider: SummaryProvider::Openai, ..Config::default() };
    fixture.database.ingest_hook("thr_hook", "/workspace", 1);
    fixture.database.queue_job("thr_hook", "local", SummaryInput::Entire, 1).unwrap();
    fixture.task(process_job(&config, "thr_hook"), &config).unwrap();
    let session = fixture.database.get_session("thr_hook").unwrap();
    assert_eq!(session.summary_provider.as_deref(), Some("local"));
    assert_eq!(session.summary_cap.as_deref(), Some("entire"));
}

#[test]
fn errors_that_no_reply_gives_are_kept_too() {
    let mut fixture = hook_fixture();
    let config = Config::default();
    fixture.database.ingest_hook("thr_hook", "/workspace", 1);
    fixture.database.queue_job("thr_hook", "local", SummaryInput::Entire, 1).unwrap();
    fixture.threads.clear();
    let error = fixture.task(process_job(&config, "thr_hook"), &config).unwrap_err();
    let job = fixture.database.get_job("thr_hook").unwrap().unwrap();
    assert_eq!((job.status.as_str(), job.last_error), ("error", Some(error.clone())));
    let session = fixture.database.get_session("thr_hook").unwrap();
    assert_eq!(session.summary_status, "error");
    assert_eq!(session.summary_error, Some(error));
}

#[test]
fn errors_of_a_job_are_kept_with_the_job_and_the_session() {
    let mut fixture = hook_fixture();
    let config = Config::default();
    assert_eq!(
        fixture.task(process_job(&config, "thr_hook"), &config).unwrap_err(),
        "no queued enrichment job for thr_hook"
    );
    fixture.database.ingest_hook("thr_hook", "/workspace", 1);
    fixture.database.queue_job("thr_hook", "oracle", SummaryInput::Entire, 1).unwrap();
    let expected = "unknown summary provider \"oracle\"; use local, codex, or openai";
    assert_eq!(fixture.task(process_job(&config, "thr_hook"), &config).unwrap_err(), expected);
    let job = fixture.database.get_job("thr_hook").unwrap().unwrap();
    assert_eq!((job.status.as_str(), job.last_error.as_deref()), ("error", Some(expected)));
    let session = fixture.database.get_session("thr_hook").unwrap();
    assert_eq!(session.summary_error.as_deref(), Some(expected));
}

#[test]
fn complete_local_fixture_lifecycle_import_hook_enrich_search_edit_and_launch() {
    let config = Config {
        summary_provider: SummaryProvider::Codex,
        on_close: OnClose::LocalFirst,
        ..Config::default()
    };
    let imported = remote("thr_imported", "/work/imported", "Import preview", 20);
    let hooked = remote("thr_hooked", "/work/hooked", "Hook preview", 40);
    let mut fixture = Fixture::new(
        vec![imported],
        &[
            (
                "thr_imported",
                &[
                    (MessageRole::User, "Import request"),
                    (MessageRole::Assistant, "TRANSIENT_MIDDLE_SECRET"),
                    (MessageRole::Assistant, "Import complete"),
                ],
            ),
            (
                "thr_hooked",
                &[(MessageRole::User, "Hook request"), (MessageRole::Assistant, "Hook complete")],
            ),
        ],
    );

    // The initial import is local even though the saved provider is Codex.
    let report = fixture.batch(sync_all(&config), &config).unwrap();
    assert_eq!(report.imported, 1);
    assert_eq!(report.summarized, 1);
    assert_eq!(
        fixture.database.get_session("thr_imported").unwrap().summary_provider.as_deref(),
        Some("local")
    );

    // The end of a session is noted and a worker is asked for.
    let spawner = CapturingSpawner(std::cell::RefCell::new(Vec::new()));
    let event = SessionEndInput {
        transcript_path: Some("/never/store/raw.jsonl".into()),
        ..ended("thr_hooked", "/work/hooked")
    };
    ingest(&mut fixture.database, &event, &config, 9, &spawner).unwrap();
    assert_eq!(spawner.0.borrow().as_slice(), ["thr_hooked"]);

    // The worker enriches the thread and honors local-first.
    fixture.threads = vec![hooked];
    fixture.task(process_job(&config, "thr_hooked"), &config).unwrap();
    let hooked_session = fixture.database.get_session("thr_hooked").unwrap();
    assert_eq!(hooked_session.title(), "Hook request");
    assert_eq!(hooked_session.summary(), "Hook complete");
    assert_eq!(hooked_session.resume_command, "codex resume thr_hooked");
    let asked = vec![SourceKind::Cli, SourceKind::Vscode];
    assert_eq!(fixture.seen_sources, vec![asked.clone(), asked]);

    // Edits, and the search of the screen.
    let database = &mut fixture.database;
    database.set_manual_title("thr_hooked", Some("Pinned Rust follow-up"));
    database.set_manual_summary("thr_hooked", Some("Resume the implementation work"));
    database.set_notes("thr_hooked", "Review before resuming");
    database.set_tags("thr_hooked", &["rust".into(), "release".into()]).unwrap();
    database.toggle_pin("thr_hooked").unwrap();
    let sessions = database.list_sessions();
    assert_eq!(sessions[0].thread_id, "thr_hooked");
    let stored = format!("{database:?}");
    let mut app = TrackerApp::new(sessions, &config);
    app.query = "release".into();
    app.refresh_filter();
    assert_eq!(app.filtered.len(), 1);
    assert_eq!(app.selected_session().unwrap().thread_id, "thr_hooked");

    // The values reach the terminal as single arguments.
    let template: Vec<String> =
        ["fake-terminal", "-e", "codex", "-C", "{cwd}", "resume", "{thread_id}"]
            .iter()
            .map(|part| (*part).to_owned())
            .collect();
    assert_eq!(
        render_argv(&template, &hooked_session.cwd, &hooked_session.thread_id).unwrap()[1..],
        ["-e", "codex", "-C", "/work/hooked", "resume", "thr_hooked"]
    );

    // What was only said in between is kept nowhere.
    assert!(!stored.contains("TRANSIENT_MIDDLE_SECRET"));
    assert!(!stored.contains("/never/store/raw.jsonl"));
}
