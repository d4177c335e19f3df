//! What happens when a session ends: it is noted, and a job to enrich it is queued.

use vstd::prelude::*;

use crate::config;
use crate::config::{Config, ConfigView, OnClose, SummaryInput, SummaryProvider};
use crate::db;
use crate::db::{Database, DatabaseView};
use crate::sync::{copy_sources, Step, StepView, TaskRun, TaskStage, TaskView};
use crate::text;
use crate::text::{quote, same, trim};

verus! {

/// What Codex says of a session that ended. Where its transcript lies is taken in, and not used.
#[derive(Debug, PartialEq, Eq)]
pub struct SessionEndInput {
    pub session_id: String,
    pub cwd: String,
    pub hook_event_name: String,
    pub reason: String,
    pub transcript_path: Option<String>,
}

/// What Codex says of a session that ended, as a mathematical value.
#[verifier::ext_equal]
pub struct EndView {
    pub session_id: Seq<char>,
    pub cwd: Seq<char>,
    pub hook_event_name: Seq<char>,
    pub reason: Seq<char>,
    pub transcript_path: Option<Seq<char>>,
}

impl View for SessionEndInput {
    type V = EndView;

    open spec fn view(&self) -> EndView {
        EndView {
            session_id: self.session_id@,
            cwd: self.cwd@,
            hook_event_name: self.hook_event_name@,
            reason: self.reason@,
            transcript_path: self.transcript_path.deep_view(),
        }
    }
}

/// What is wrong with a report of an end: the first of the faults.
pub open spec fn end_fault(event: EndView) -> Option<Seq<char>> {
    if event.hook_event_name != "SessionEnd"@ {
        Some(
            "expected SessionEnd hook input, received "@ + text::quoted(event.hook_event_name),
        )
    } else if text::trimmed(event.session_id).len() == 0 {
        Some("SessionEnd session_id cannot be empty"@)
    } else if text::trimmed(event.cwd).len() == 0 {
        Some("SessionEnd cwd cannot be empty"@)
    } else {
        None
    }
}

impl SessionEndInput {
    pub fn validate(&self) -> (r: Result<(), String>)
        ensures
            match end_fault(self@) {
                None => r is Ok,
                Some(fault) => match r {
                    Ok(()) => false,
                    Err(error) => error@ == fault,
                },
            },
    {
        if !same(self.hook_event_name.as_str(), "SessionEnd") {
            return Err(
                "expected SessionEnd hook input, received ".to_owned().concat(
                    quote(self.hook_event_name.as_str()).as_str(),
                ),
            );
        }
        if trim(self.session_id.as_str()).as_str().is_empty() {
            return Err("SessionEnd session_id cannot be empty".to_owned());
        }
        if trim(self.cwd.as_str()).as_str().is_empty() {
            return Err("SessionEnd cwd cannot be empty".to_owned());
        }
        Ok(())
    }
}

/// What starts the worker that a queued job waits for.
pub trait WorkerSpawner {
    fn spawn(&self, thread_id: &str) -> Result<(), String>;
}

/// The arguments that start the worker for a thread.
pub open spec fn worker_args(thread_id: Seq<char>) -> Seq<Seq<char>> {
    seq!["worker"@, "--thread-id"@, thread_id]
}

pub fn worker_command_args(thread_id: &str) -> (r: Vec<String>)
    ensures
        r.deep_view() == worker_args(thread_id@),
{
    let mut args: Vec<String> = Vec::new();
    args.push("worker".to_owned());
    args.push("--thread-id".to_owned());
    args.push(thread_id.to_owned());
    assert(args.deep_view() =~= worker_args(thread_id@));
    args
}

/// The provider that a job is queued with when a session ends.
pub open spec fn closing_provider(settings: ConfigView) -> Seq<char> {
    match settings.on_close {
        OnClose::Automatic => config::provider_name(settings.summary_provider),
        OnClose::LocalFirst => config::provider_name(SummaryProvider::Local),
        OnClose::Manual => "metadata"@,
    }
}

pub fn provider_on_close(config: &Config) -> (r: String)
    ensures
        r@ == closing_provider(config@),
{
    match config.on_close {
        OnClose::Automatic => config.summary_provider.to_string(),
        OnClose::LocalFirst => SummaryProvider::Local.to_string(),
        OnClose::Manual => "metadata".to_owned(),
    }
}

/// What the tracker keeps after a session has ended.
pub open spec fn after_session_end(
    data: DatabaseView,
    event: EndView,
    settings: ConfigView,
    now: i64,
) -> DatabaseView {
    let noted = db::after_hook(data, event.session_id, event.cwd, now);
    db::after_queue(
        noted,
        event.session_id,
        closing_provider(settings),
        settings.summary_input,
        now,
    )->Ok_0
}

/// Notes the end of a session and queues its job.
pub fn note_session_end(database: &mut Database, event: &SessionEndInput, config: &Config, now: i64)
    requires
        old(database).wf(),
    ensures
        final(database).wf(),
        final(database)@ == after_session_end(old(database)@, event@, config@, now),
        final(database).path == old(database).path,
{
    let thread_id = event.session_id.as_str();
    database.ingest_hook(thread_id, event.cwd.as_str(), now);
    let provider = provider_on_close(config);
    let _ = database.queue_job(thread_id, provider.as_str(), config.summary_input, now);
}

/// What is told of the report of an end once its worker was to be started: the session, or why the
/// worker did not start.
pub fn after_spawn(event: &SessionEndInput, spawned: Result<(), String>) -> (r: Result<
    String,
    String,
>)
    ensures
        match spawned {
            Ok(()) => r matches Ok(thread_id) && thread_id@ == event@.session_id,
            Err(error) => r == Err::<String, String>(error),
        },
{
    match spawned {
        Ok(()) => Ok(event.session_id.clone()),
        Err(error) => Err(error),
    }
}

/// Takes in the report of an end: where it is in order, the end is noted, its job is queued and the
/// worker for that session is started. A worker that does not start is the error that is given, but
/// the job stays queued.
pub fn ingest<S: WorkerSpawner>(
    database: &mut Database,
    event: &SessionEndInput,
    config: &Config,
    now: i64,
    spawner: &S,
) -> (r: Result<String, String>)
    requires
        old(database).wf(),
    ensures
        final(database).wf(),
        final(database).path == old(database).path,
        match end_fault(event@) {
            Some(fault) => final(database)@ == old(database)@ && match r {
                Ok(_) => false,
                Err(error) => error@ == fault,
            },
            None => final(database)@ == after_session_end(old(database)@, event@, config@, now)
                && exists|id: &str, out: Result<(), String>|
                id@ == event@.session_id && #[trigger] call_ensures(S::spawn, (spawner, id), out)
                    && match out {
                    Ok(()) => r matches Ok(thread_id) && thread_id@ == event@.session_id,
                    Err(error) => r == Err::<String, String>(error),
                },
        },
{
    match event.validate() {
        Ok(()) => {},
        Err(error) => {
            return Err(error);
        },
    }
    note_session_end(database, event, config, now);
    let spawned = spawner.spawn(event.session_id.as_str());
    after_spawn(event, spawned)
}

/// A run for a job, at its start.
pub open spec fn job_start(settings: ConfigView, thread_id: Seq<char>) -> TaskView {
    TaskView {
        thread_id,
        is_job: true,
        provider_name: ""@,
        cap_name: ""@,
        provider: SummaryProvider::Local,
        cap: SummaryInput::Entire,
        sources: settings.sources,
        thread: None,
        stage: TaskStage::Loading,
        error: ""@,
    }
}

/// Starts a run for the job of a thread.
pub fn process_job(config: &Config, thread_id: &str) -> (r: (TaskRun, Step))
    ensures
        r.0@ == job_start(config@, thread_id@),
        r.1@ == (StepView::LoadJob { thread_id: thread_id@ }),
{
    let run = TaskRun {
        thread_id: thread_id.to_owned(),
        is_job: true,
        provider_name: "".to_owned(),
        cap_name: "".to_owned(),
        provider: SummaryProvider::Local,
        cap: SummaryInput::Entire,
        sources: copy_sources(&config.sources),
        thread: None,
        stage: TaskStage::Loading,
        error: "".to_owned(),
    };
    assert(run@ =~= job_start(config@, thread_id@));
    (run, Step::LoadJob { thread_id: thread_id.to_owned() })
}

/// A session that ends is kept with its directory, and a job waits for it with the provider of the
/// configuration: the one that was saved, the local one, or none.
pub proof fn ended_sessions_have_a_job(
    data: DatabaseView,
    event: EndView,
    settings: ConfigView,
    now: i64,
)
    ensures
        ({
            let after = after_session_end(data, event, settings, now);
            let id = event.session_id;
            &&& after.sessions.contains_key(id)
            &&& after.sessions[id].session.cwd == event.cwd
            &&& after.sessions[id].session.ended_at == Some(now)
            &&& after.sessions[id].session.resume_command == db::resume_command(id)
            &&& after.jobs.contains_key(id)
            &&& after.jobs[id].status == "queued"@
            &&& after.jobs[id].provider == closing_provider(settings)
            &&& after.jobs[id].cap == config::input_name(settings.summary_input)
        }),
{
}

/// Where a transcript lies is kept nowhere: whatever path a report of an end gives, the same is
/// refused and the same is kept.
pub proof fn transcript_paths_are_not_kept(
    data: DatabaseView,
    event: EndView,
    path: Option<Seq<char>>,
    settings: ConfigView,
    now: i64,
)
    ensures
        end_fault(EndView { transcript_path: path, ..event }) == end_fault(event),
        after_session_end(data, EndView { transcript_path: path, ..event }, settings, now)
            == after_session_end(data, event, settings, now),
{
}

/// A job that was queued when a session ended can be read by the worker: it asks for no summary, or
/// it names a provider and an amount of text that there are.
pub proof fn queued_jobs_can_be_read(settings: ConfigView)
    requires
        config::config_fault(settings) is None,
    ensures
        closing_provider(settings) == "metadata"@ || config::provider_named(
            closing_provider(settings),
        ) is Some,
        config::input_named(config::input_name(settings.summary_input)) == Some(
            settings.summary_input,
        ),
{
    config::names_read_back(
        settings.summary_provider,
        settings.on_close,
        crate::config::SourceKind::Cli,
    );
    config::names_read_back(
        SummaryProvider::Local,
        settings.on_close,
        crate::config::SourceKind::Cli,
    );
    config::input_names_read_back(settings.summary_input);
}

} // verus!
