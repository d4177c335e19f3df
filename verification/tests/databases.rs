use codex_resume_tracker::config::{SummaryInput, SummaryProvider};
use codex_resume_tracker::db::{
    next_journal_step, Database, JournalNext, JournalReply, Session, SessionMetadata,
    StoredSession,
};

fn metadata(id: &str, recency: i64) -> SessionMetadata {
    SessionMetadata {
        thread_id: id.into(),
        cwd: "/workspace/project".into(),
        source: "cli".into(),
        model: Some("gpt-5".into()),
        model_provider: Some("openai".into()),
        created_at: Some(recency - 10),
        updated_at: Some(recency),
        recency_at: Some(recency),
        generated_title: Some(format!("Thread {id}")),
    }
}

fn ids(database: &Database) -> Vec<String> {
    database.list_sessions().into_iter().map(|session| session.thread_id).collect()
}

#[test]
fn migration_and_metadata_round_trip() {
    let mut database = Database::open("tracker.sqlite3");
    assert_eq!(database.path(), "tracker.sqlite3");
    assert!(database.upsert_metadata(&metadata("thr_1", 20), 100));
    assert!(!database.upsert_metadata(&metadata("thr_1", 30), 101));
    database.set_generated_summary(
        "thr_1",
        "Generated title",
        "Generated summary",
        SummaryProvider::Local,
        SummaryInput::SixtyFourK,
        102,
    );
    database.set_tags("thr_1", &["rust".into(), " Codex  tools ".into()]).unwrap();
    let session = database.get_session("thr_1").unwrap();
    assert_eq!(session.resume_command, "codex resume thr_1");
    assert_eq!(session.summary(), "Generated summary");
    assert_eq!(session.tags, vec!["Codex tools", "rust"]);
    assert_eq!(session.recency_at, Some(30));
    assert_eq!(session.summary_provider.as_deref(), Some("local"));
    assert_eq!(session.summary_cap.as_deref(), Some("64k"));
    assert_eq!(session.summary_status, "ready");
    assert_eq!(database.sessions.get("thr_1").unwrap().last_synced_at, 102);
}

#[test]
fn manual_overrides_do_not_destroy_generated_text() {
    let mut database = Database::open("overrides");
    database.upsert_metadata(&metadata("thr_2", 20), 1);
    database.set_generated_summary(
        "thr_2",
        "Generated",
        "Generated summary",
        SummaryProvider::Local,
        SummaryInput::SixteenK,
        1,
    );
    database.set_manual_title("thr_2", Some("My title"));
    assert_eq!(database.get_session("thr_2").unwrap().title(), "My title");
    database.set_manual_title("thr_2", None);
    assert_eq!(database.get_session("thr_2").unwrap().title(), "Generated");
    database.set_manual_summary("thr_2", Some("Mine"));
    assert_eq!(database.get_session("thr_2").unwrap().summary(), "Mine");
    database.set_manual_summary("thr_2", Some(" \n"));
    assert_eq!(database.get_session("thr_2").unwrap().summary(), "Generated summary");
}

#[test]
fn pinned_sessions_sort_before_newer_sessions() {
    let mut database = Database::open("sorting");
    database.upsert_metadata(&metadata("old", 10), 1);
    database.upsert_metadata(&metadata("new", 100), 1);
    database.toggle_pin("old").unwrap();
    let sessions = database.list_sessions();
    assert_eq!(sessions[0].thread_id, "old");
    assert_eq!(sessions[1].thread_id, "new");
}

#[test]
fn sessions_are_listed_by_their_latest_time_and_name() {
    let mut database = Database::open("order");
    let bare = |id: &str| SessionMetadata {
        model: None,
        model_provider: None,
        created_at: None,
        updated_at: None,
        recency_at: None,
        generated_title: None,
        ..metadata(id, 0)
    };
    database.upsert_metadata(&bare("b-none"), 1);
    database.upsert_metadata(&bare("a-none"), 1);
    database.upsert_metadata(&SessionMetadata { created_at: Some(5), ..bare("created") }, 1);
    database.upsert_metadata(&SessionMetadata { updated_at: Some(7), created_at: Some(99), ..bare("updated") }, 1);
    database.ingest_hook("ended", "/", 6);
    database.upsert_metadata(&SessionMetadata { recency_at: Some(-1), updated_at: Some(9), ..bare("recent") }, 1);
    assert_eq!(ids(&database), vec!["updated", "ended", "created", "a-none", "b-none", "recent"]);
    assert_eq!(database.toggle_pin("recent"), Ok(true));
    assert_eq!(ids(&database)[0], "recent");
    assert_eq!(database.toggle_pin("recent"), Ok(false));
    assert_eq!(database.toggle_pin("nobody"), Err("Query returned no rows".into()));
    assert_eq!(database.count_sessions(), 6);
}

#[test]
fn reports_of_many_workers_are_all_kept() {
    let mut database = Database::open("workers");
    let mut backwards = Database::open("backwards");
    for item in 0..12 {
        for worker in 0..6 {
            let id = format!("thread-{worker}-{item}");
            assert!(database.upsert_metadata(&metadata(&id, worker * 100 + item), 1));
        }
    }
    for worker in (0..6).rev() {
        for item in (0..12).rev() {
            let id = format!("thread-{worker}-{item}");
            backwards.upsert_metadata(&metadata(&id, worker * 100 + item), 1);
            backwards.upsert_metadata(&metadata(&id, worker * 100 + item), 1);
        }
    }
    assert_eq!(database.count_sessions(), 72);
    assert_eq!(database.list_sessions(), backwards.list_sessions());
}

#[test]
fn hook_ingestion_is_idempotent_and_queues_jobs() {
    let mut database = Database::open("hook");
    database.ingest_hook("thr_hook", "/one", 10);
    database.ingest_hook("thr_hook", "/two", 20);
    database.queue_job("thr_hook", "codex", SummaryInput::SixtyFourK, 1).unwrap();
    database.queue_job("thr_hook", "local", SummaryInput::SixteenK, 2).unwrap();
    assert_eq!(database.count_sessions(), 1);
    let session = database.get_session("thr_hook").unwrap();
    assert_eq!(session.cwd, "/two");
    assert_eq!(session.source, "unknown");
    assert_eq!(session.ended_at, Some(20));
    assert_eq!(session.summary_status, "pending_metadata");
    let job = database.get_job("thr_hook").unwrap().unwrap();
    assert_eq!(job.provider, "local");
    assert_eq!(job.status, "queued");
}

#[test]
fn listings_keep_what_they_do_not_say() {
    let mut database = Database::open("merge");
    database.upsert_metadata(&metadata("t", 20), 1);
    database.set_notes("t", "mine");
    database.mark_summary_error("t", "broken");
    database.upsert_metadata(
        &SessionMetadata {
            cwd: "/moved".into(),
            source: "vscode".into(),
            model: None,
            model_provider: Some("other".into()),
            created_at: None,
            updated_at: Some(50),
            recency_at: None,
            generated_title: Some(String::new()),
            ..metadata("t", 0)
        },
        2,
    );
    let session = database.get_session("t").unwrap();
    assert_eq!(session.cwd, "/moved");
    assert_eq!(session.source, "vscode");
    assert_eq!(session.model.as_deref(), Some("gpt-5"));
    assert_eq!(session.model_provider.as_deref(), Some("other"));
    assert_eq!(session.created_at, Some(10));
    assert_eq!(session.updated_at, Some(50));
    assert_eq!(session.recency_at, Some(20));
    assert_eq!(session.generated_title.as_deref(), Some("Thread t"));
    assert_eq!(session.notes, "mine");
    assert_eq!(session.summary_status, "error");
    assert_eq!(session.summary_error.as_deref(), Some("broken"));
    database.mark_summary_pending("t");
    assert_eq!(database.get_session("t").unwrap().summary_error, None);
    database.mark_not_requested("t");
    assert_eq!(database.get_session("t").unwrap().summary_status, "not_requested");
}

#[test]
fn tags_are_one_in_every_letter_case() {
    let mut database = Database::open("tags");
    database.upsert_metadata(&metadata("a", 1), 1);
    database.upsert_metadata(&metadata("b", 2), 1);
    database.set_tags("a", &["Rust".into(), "zed".into(), "RUST".into(), "  ".into()]).unwrap();
    assert_eq!(database.get_session("a").unwrap().tags, vec!["Rust", "zed"]);
    database.set_tags("b", &["rust".into(), "Alpha".into(), "beta".into()]).unwrap();
    assert_eq!(database.get_session("b").unwrap().tags, vec!["Alpha", "beta", "Rust"]);
    database.set_tags("a", &[]).unwrap();
    assert!(database.get_session("a").unwrap().tags.is_empty());
    assert_eq!(database.tag_names, vec!["Rust", "zed", "Alpha", "beta"]);
    assert_eq!(
        database.set_tags("nobody", &["new".into()]),
        Err("FOREIGN KEY constraint failed".into())
    );
    assert_eq!(database.set_tags("nobody", &[" ".into()]), Ok(()));
    assert_eq!(database.tag_names.len(), 4);
}

#[test]
fn tags_are_kept_as_sqlite_keeps_them() {
    let entered = ["b\0x", "B\0yz", "b", "a\0", "A", "b\0q", "ab", "\u{e9}\0a", "\u{e9}\0b", "\0", "Z"];
    let connection = rusqlite::Connection::open_in_memory().unwrap();
    connection.execute_batch("CREATE TABLE tags(name TEXT UNIQUE COLLATE NOCASE)").unwrap();
    for name in entered {
        connection
            .execute("INSERT INTO tags(name) VALUES (?1) ON CONFLICT(name) DO NOTHING", [name])
            .unwrap();
    }
    let mut statement =
        connection.prepare("SELECT name FROM tags ORDER BY name COLLATE NOCASE").unwrap();
    let kept: Vec<String> =
        statement.query_map([], |row| row.get(0)).unwrap().map(|name| name.unwrap()).collect();
    let mut database = Database::open("sqlite");
    database.ingest_hook("a", "/w", 1);
    database.set_tags("a", &entered.map(str::to_owned)).unwrap();
    assert_eq!(database.get_session("a").unwrap().tags, kept);
    assert_eq!(kept.len(), 9);
}

#[test]
fn tags_are_told_apart_up_to_a_nul_and_by_their_length() {
    let mut database = Database::open("nul");
    database.ingest_hook("a", "/w", 1);
    database.set_tags("a", &["x\0one".into(), "X\0two".into(), "x".into()]).unwrap();
    assert_eq!(database.get_session("a").unwrap().tags, vec!["x", "x\0one"]);
    database.set_tags("a", &["x\0three".into(), "xa".into(), "X\0TWO".into()]).unwrap();
    assert_eq!(database.get_session("a").unwrap().tags, vec!["x\0one", "x\0three", "xa"]);
    database.set_tags("a", &["x\0\u{e9}y".into()]).unwrap();
    assert_eq!(database.get_session("a").unwrap().tags, vec!["x\0one"]);
}

#[test]
fn jobs_go_from_queued_to_done() {
    let mut database = Database::open("jobs");
    assert_eq!(
        database.queue_job("t", "codex", SummaryInput::Entire, 1),
        Err("FOREIGN KEY constraint failed".into())
    );
    assert_eq!(database.get_job("t"), Ok(None));
    database.ingest_hook("t", "/", 1);
    database.queue_job("t", "codex", SummaryInput::Entire, 5).unwrap();
    database.mark_job_running("t", 6);
    let job = database.get_job("t").unwrap().unwrap();
    assert_eq!((job.status.as_str(), job.attempts), ("running", 1));
    database.mark_job_error("t", "boom", 7);
    let job = database.get_job("t").unwrap().unwrap();
    assert_eq!((job.status.as_str(), job.last_error.as_deref()), ("error", Some("boom")));
    database.queue_job("t", "local", SummaryInput::Custom(9), 8).unwrap();
    let job = database.get_job("t").unwrap().unwrap();
    assert_eq!((job.status.as_str(), job.attempts, job.last_error.as_deref()), ("queued", 1, None));
    assert_eq!(job.cap, "custom:9");
    database.mark_job_running("t", 9);
    database.mark_job_done("t", 10);
    let job = database.get_job("t").unwrap().unwrap();
    assert_eq!((job.status.as_str(), job.attempts), ("done", 2));
    let row = database.jobs.get("t").unwrap();
    assert_eq!((row.created_at, row.updated_at), (5, 10));
}

#[test]
fn what_was_stored_can_be_taken_in_again() {
    let mut database = Database::open("first");
    database.upsert_metadata(&metadata("t", 5), 3);
    let session: Session = database.get_session("t").unwrap();
    let mut again = Database::open("second");
    again.restore_session(StoredSession { session, last_synced_at: 3 });
    again.restore_tag("One".into());
    again.restore_tag("ONE".into());
    assert_eq!(again.tag_names, vec!["One"]);
    assert_eq!(again.get_session("t"), database.get_session("t"));
    database.queue_job("t", "local", SummaryInput::Entire, 4).unwrap();
    database.mark_job_running("t", 5);
    let row = database.jobs.get("t").unwrap();
    let copy = codex_resume_tracker::db::StoredJob {
        provider: row.provider.clone(),
        cap: row.cap.clone(),
        status: row.status.clone(),
        attempts: 5_000_000_000,
        last_error: None,
        created_at: row.created_at,
        updated_at: row.updated_at,
    };
    assert_eq!(again.restore_job("t", copy), Ok(()));
    assert_eq!(again.get_job("t"), Err("Integer 5000000000 out of range at index 4".into()));
}

#[test]
fn what_is_searched_is_in_lower_case() {
    let mut database = Database::open("search");
    database.upsert_metadata(&metadata("T", 5), 3);
    database.set_notes("T", "NOTE Ä");
    database.set_tags("T", &["B".into(), "a".into()]).unwrap();
    assert_eq!(
        database.get_session("T").unwrap().searchable_text(),
        "thread t\n\n/workspace/project\ncli\ngpt-5\nopenai\nnote ä\na b"
    );
}

#[test]
fn a_busy_database_is_asked_again() {
    let busy = || JournalReply::Busy { error: "locked".into() };
    assert_eq!(next_journal_step(99, busy()), JournalNext::Retry);
    assert_eq!(next_journal_step(100, busy()), JournalNext::Fail { error: "locked".into() });
    assert_eq!(
        next_journal_step(0, JournalReply::Failed { error: "disk".into() }),
        JournalNext::Fail { error: "disk".into() }
    );
    assert_eq!(
        next_journal_step(0, JournalReply::Mode { name: "WAL".into() }),
        JournalNext::Done
    );
    assert_eq!(
        next_journal_step(0, JournalReply::Mode { name: "delete".into() }),
        JournalNext::Fail {
            error: "SQLite refused WAL journal mode and returned \"delete\"".into()
        }
    );
}
