//! Bringing the tracked sessions up to date, one step at a time. A run says what is to be done next
//! and takes in what came of it.

use vstd::prelude::*;

use crate::app_server::{MessageView, RemoteThread, VisibleMessage};
use crate::config;
use crate::config::{Config, ConfigView, SourceKind, SummaryInput, SummaryProvider};
use crate::db;
use crate::db::{Database, DatabaseView, Job, JobView, MetadataView, SessionMetadata};
use crate::paths::{AppPaths, PathsView};
use crate::summary;
use crate::summary::{generate, Generation, GenerationView, SummaryResult, SummaryView};
use crate::text;
use crate::text::{copy_texts, same};

verus! {

/// What came of bringing sessions up to date.
#[derive(Debug, PartialEq, Eq)]
pub struct SyncReport {
    pub imported: usize,
    pub updated: usize,
    pub summarized: usize,
    pub errors: Vec<String>,
}

/// A report as a mathematical value.
#[verifier::ext_equal]
pub struct ReportView {
    pub imported: usize,
    pub updated: usize,
    pub summarized: usize,
    pub errors: Seq<Seq<char>>,
}

impl View for SyncReport {
    type V = ReportView;

    open spec fn view(&self) -> ReportView {
        ReportView {
            imported: self.imported,
            updated: self.updated,
            summarized: self.summarized,
            errors: self.errors.deep_view(),
        }
    }
}

impl Clone for SyncReport {
    fn clone(&self) -> (r: Self)
        ensures
            r@ == self@,
    {
        SyncReport {
            imported: self.imported,
            updated: self.updated,
            summarized: self.summarized,
            errors: copy_texts(&self.errors),
        }
    }
}

/// A report of nothing.
pub open spec fn empty_report() -> ReportView {
    ReportView { imported: 0, updated: 0, summarized: 0, errors: Seq::empty() }
}

impl Default for SyncReport {
    fn default() -> (r: Self)
        ensures
            r@ == empty_report(),
    {
        let r = SyncReport { imported: 0, updated: 0, summarized: 0, errors: Vec::new() };
        assert(r@ =~= empty_report());
        r
    }
}

impl SyncReport {
    /// The number of threads that were taken in.
    pub fn total(&self) -> (r: usize)
        requires
            self.imported + self.updated <= usize::MAX,
        ensures
            r == self.imported + self.updated,
    {
        self.imported + self.updated
    }
}

/// What a run asks for.
#[derive(Debug)]
pub enum Step {
    ListThreads { sources: Vec<SourceKind> },
    Upsert { metadata: SessionMetadata },
    MarkPending { thread_id: String },
    MarkNotRequested { thread_id: String },
    ReadMessages { thread_id: String },
    RunProvider { generation: Generation },
    StoreSummary {
        thread_id: String,
        result: SummaryResult,
        provider: SummaryProvider,
        cap: SummaryInput,
    },
    MarkSummaryError { thread_id: String, error: String },
    LoadJob { thread_id: String },
    StartJob { thread_id: String },
    FinishJob { thread_id: String },
    FailJob { thread_id: String, error: String },
}

/// What a run asks for, as a mathematical value.
pub enum StepView {
    ListThreads { sources: Seq<SourceKind> },
    Upsert { metadata: MetadataView },
    MarkPending { thread_id: Seq<char> },
    MarkNotRequested { thread_id: Seq<char> },
    ReadMessages { thread_id: Seq<char> },
    RunProvider { generation: GenerationView },
    StoreSummary {
        thread_id: Seq<char>,
        result: SummaryView,
        provider: SummaryProvider,
        cap: SummaryInput,
    },
    MarkSummaryError { thread_id: Seq<char>, error: Seq<char> },
    LoadJob { thread_id: Seq<char> },
    StartJob { thread_id: Seq<char> },
    FinishJob { thread_id: Seq<char> },
    FailJob { thread_id: Seq<char>, error: Seq<char> },
}

impl View for Step {
    type V = StepView;

    open spec fn view(&self) -> StepView {
        match *self {
            Step::ListThreads { sources } => StepView::ListThreads { sources: sources@ },
            Step::Upsert { metadata } => StepView::Upsert { metadata: metadata@ },
            Step::MarkPending { thread_id } => StepView::MarkPending { thread_id: thread_id@ },
            Step::MarkNotRequested { thread_id } => StepView::MarkNotRequested {
                thread_id: thread_id@,
            },
            Step::ReadMessages { thread_id } => StepView::ReadMessages { thread_id: thread_id@ },
            Step::RunProvider { generation } => StepView::RunProvider { generation: generation@ },
            Step::StoreSummary { thread_id, result, provider, cap } => StepView::StoreSummary {
                thread_id: thread_id@,
                result: result@,
                provider,
                cap,
            },
            Step::MarkSummaryError { thread_id, error } => StepView::MarkSummaryError {
                thread_id: thread_id@,
                error: error@,
            },
            Step::LoadJob { thread_id } => StepView::LoadJob { thread_id: thread_id@ },
            Step::StartJob { thread_id } => StepView::StartJob { thread_id: thread_id@ },
            Step::FinishJob { thread_id } => StepView::FinishJob { thread_id: thread_id@ },
            Step::FailJob { thread_id, error } => StepView::FailJob {
                thread_id: thread_id@,
                error: error@,
            },
        }
    }
}

/// What came of a step.
#[derive(Debug)]
pub enum Reply {
    Threads(Result<Vec<RemoteThread>, String>),
    Upserted(Result<bool, String>),
    Messages(Result<Vec<VisibleMessage>, String>),
    Generated(Result<SummaryResult, String>),
    Loaded(Result<Option<Job>, String>),
    Written(Result<(), String>),
}

/// What came of a step, as a mathematical value.
pub enum ReplyView {
    Threads(Result<Seq<MetadataView>, Seq<char>>),
    Upserted(Result<bool, Seq<char>>),
    Messages(Result<Seq<MessageView>, Seq<char>>),
    Generated(Result<SummaryView, Seq<char>>),
    Loaded(Result<Option<JobView>, Seq<char>>),
    Written(Result<(), Seq<char>>),
}

impl View for Reply {
    type V = ReplyView;

    open spec fn view(&self) -> ReplyView {
        match *self {
            Reply::Threads(Ok(threads)) => ReplyView::Threads(Ok(threads.deep_view())),
            Reply::Threads(Err(error)) => ReplyView::Threads(Err(error@)),
            Reply::Upserted(Ok(fresh)) => ReplyView::Upserted(Ok(fresh)),
            Reply::Upserted(Err(error)) => ReplyView::Upserted(Err(error@)),
            Reply::Messages(Ok(messages)) => ReplyView::Messages(Ok(messages.deep_view())),
            Reply::Messages(Err(error)) => ReplyView::Messages(Err(error@)),
            Reply::Generated(Ok(result)) => ReplyView::Generated(Ok(result@)),
            Reply::Generated(Err(error)) => ReplyView::Generated(Err(error@)),
            Reply::Loaded(Ok(job)) => ReplyView::Loaded(Ok(job.deep_view())),
            Reply::Loaded(Err(error)) => ReplyView::Loaded(Err(error@)),
            Reply::Written(Ok(())) => ReplyView::Written(Ok(())),
            Reply::Written(Err(error)) => ReplyView::Written(Err(error@)),
        }
    }
}

/// The session that a step changes or looks up in the database, where it is such a step.
pub open spec fn stored_thread(step: StepView) -> Option<Seq<char>> {
    match step {
        StepView::Upsert { metadata } => Some(metadata.thread_id),
        StepView::MarkPending { thread_id } => Some(thread_id),
        StepView::MarkNotRequested { thread_id } => Some(thread_id),
        StepView::StoreSummary { thread_id, .. } => Some(thread_id),
        StepView::MarkSummaryError { thread_id, .. } => Some(thread_id),
        StepView::LoadJob { thread_id } => Some(thread_id),
        StepView::StartJob { thread_id } => Some(thread_id),
        StepView::FinishJob { thread_id } => Some(thread_id),
        StepView::FailJob { thread_id, .. } => Some(thread_id),
        _ => None,
    }
}

/// What the tracker keeps after a step, and what is replied to it.
pub open spec fn after_step(data: DatabaseView, step: StepView, now: i64) -> (
    DatabaseView,
    ReplyView,
) {
    let written = ReplyView::Written(Ok(()));
    match step {
        StepView::Upsert { metadata } => (
            db::after_listing(data, metadata, now),
            ReplyView::Upserted(Ok(!data.sessions.contains_key(metadata.thread_id))),
        ),
        StepView::MarkPending { thread_id } => (
            db::after_status(data, thread_id, "pending"@, None),
            written,
        ),
        StepView::MarkNotRequested { thread_id } => (
            db::after_status(data, thread_id, "not_requested"@, None),
            written,
        ),
        StepView::StoreSummary { thread_id, result, provider, cap } => (
            db::after_summary(data, thread_id, result.title, result.summary, provider, cap, now),
            written,
        ),
        StepView::MarkSummaryError { thread_id, error } => (
            db::after_status(data, thread_id, "error"@, Some(error)),
            written,
        ),
        StepView::LoadJob { thread_id } => (
            data,
            ReplyView::Loaded(db::found_job(data, thread_id)),
        ),
        StepView::StartJob { thread_id } => (db::after_start(data, thread_id, now), written),
        StepView::FinishJob { thread_id } => (
            db::after_end(data, thread_id, "done"@, None, now),
            written,
        ),
        StepView::FailJob { thread_id, error } => (
            db::after_end(data, thread_id, "error"@, Some(error), now),
            written,
        ),
        _ => (data, written),
    }
}

impl Step {
    /// The session that the step changes or looks up in the database.
    pub fn stored_thread(&self) -> (r: Option<String>)
        ensures
            r.deep_view() == stored_thread(self@),
    {
        match self {
            Step::Upsert { metadata } => Some(metadata.thread_id.clone()),
            Step::MarkPending { thread_id } => Some(thread_id.clone()),
            Step::MarkNotRequested { thread_id } => Some(thread_id.clone()),
            Step::StoreSummary { thread_id, .. } => Some(thread_id.clone()),
            Step::MarkSummaryError { thread_id, .. } => Some(thread_id.clone()),
            Step::LoadJob { thread_id } => Some(thread_id.clone()),
            Step::StartJob { thread_id } => Some(thread_id.clone()),
            Step::FinishJob { thread_id } => Some(thread_id.clone()),
            Step::FailJob { thread_id, .. } => Some(thread_id.clone()),
            _ => None,
        }
    }

    /// Does a step that is for the database, and leaves it alone for any other step.
    pub fn perform(&self, database: &mut Database, now: i64) -> (r: Reply)
        requires
            old(database).wf(),
        ensures
            final(database).wf(),
            final(database).path == old(database).path,
            (final(database)@, r@) == after_step(old(database)@, self@, now),
    {
        match self {
            Step::Upsert { metadata } => {
                let fresh = database.upsert_metadata(metadata, now);
                Reply::Upserted(Ok(fresh))
            },
            Step::MarkPending { thread_id } => {
                database.mark_summary_pending(thread_id.as_str());
                Reply::Written(Ok(()))
            },
            Step::MarkNotRequested { thread_id } => {
                database.mark_not_requested(thread_id.as_str());
                Reply::Written(Ok(()))
            },
            Step::StoreSummary { thread_id, result, provider, cap } => {
                database.set_generated_summary(
                    thread_id.as_str(),
                    result.title.as_str(),
                    result.summary.as_str(),
                    *provider,
                    *cap,
                    now,
                );
                Reply::Written(Ok(()))
            },
            Step::MarkSummaryError { thread_id, error } => {
                database.mark_summary_error(thread_id.as_str(), error.as_str());
                Reply::Written(Ok(()))
            },
            Step::LoadJob { thread_id } => Reply::Loaded(database.get_job(thread_id.as_str())),
            Step::StartJob { thread_id } => {
                database.mark_job_running(thread_id.as_str(), now);
                Reply::Written(Ok(()))
            },
            Step::FinishJob { thread_id } => {
                database.mark_job_done(thread_id.as_str(), now);
                Reply::Written(Ok(()))
            },
            Step::FailJob { thread_id, error } => {
                database.mark_job_error(thread_id.as_str(), error.as_str(), now);
                Reply::Written(Ok(()))
            },
            _ => Reply::Written(Ok(())),
        }
    }
}

/// How the summary of a thread goes on once its messages are read.
#[derive(Debug)]
pub enum Work {
    Store(SummaryResult),
    Run(Generation),
    Fail(String),
}

/// How the summary of a thread goes on, as a mathematical value.
pub enum WorkView {
    Store(SummaryView),
    Run(GenerationView),
    Fail(Seq<char>),
}

impl View for Work {
    type V = WorkView;

    open spec fn view(&self) -> WorkView {
        match *self {
            Work::Store(result) => WorkView::Store(result@),
            Work::Run(generation) => WorkView::Run(generation@),
            Work::Fail(error) => WorkView::Fail(error@),
        }
    }
}

/// How the summary of a thread goes on: a local one is stored at once, another is asked for.
pub open spec fn summarized(
    settings: ConfigView,
    files: PathsView,
    thread: MetadataView,
    messages: Seq<MessageView>,
    provider: SummaryProvider,
    cap: SummaryInput,
) -> WorkView {
    match summary::generation(provider, cap, messages, thread.cwd, settings, files) {
        GenerationView::Ready(Ok(result)) => WorkView::Store(result),
        GenerationView::Ready(Err(error)) => WorkView::Fail(error),
        other => WorkView::Run(other),
    }
}

pub fn summarize_messages(
    config: &Config,
    paths: &AppPaths,
    thread: &RemoteThread,
    messages: &[VisibleMessage],
    provider: SummaryProvider,
    cap: SummaryInput,
) -> (r: Work)
    ensures
        r@ == summarized(config@, paths@, thread@, messages.deep_view(), provider, cap),
{
    match generate(provider, cap, messages, thread.metadata.cwd.as_str(), config, paths) {
        Generation::Ready(Ok(result)) => Work::Store(result),
        Generation::Ready(Err(error)) => Work::Fail(error),
        Generation::Codex { args, prompt } => Work::Run(Generation::Codex { args, prompt }),
        Generation::Openai { request } => Work::Run(Generation::Openai { request }),
    }
}

/// The first listed thread with a name.
pub open spec fn first_named(threads: Seq<MetadataView>, thread_id: Seq<char>) -> Option<MetadataView>
    decreases threads.len(),
{
    if threads.len() == 0 {
        None
    } else if threads[0].thread_id == thread_id {
        Some(threads[0])
    } else {
        first_named(threads.drop_first(), thread_id)
    }
}

/// What is said of a thread that was not listed.
pub open spec fn not_listed(thread_id: Seq<char>) -> Seq<char> {
    "thread "@ + thread_id + " was not returned by the configured source filters"@
}

pub fn find_remote_thread(threads: Vec<RemoteThread>, thread_id: &str) -> (r: Result<
    RemoteThread,
    String,
>)
    ensures
        match first_named(threads.deep_view(), thread_id@) {
            Some(found) => match r {
                Ok(thread) => thread@ == found,
                Err(_) => false,
            },
            None => match r {
                Ok(_) => false,
                Err(error) => error@ == not_listed(thread_id@),
            },
        },
{
    let ghost all = threads.deep_view();
    let mut i: usize = 0;
    assert(all.skip(0) =~= all);
    while i < threads.len()
        invariant
            i <= threads@.len(),
            all == threads.deep_view(),
            first_named(all, thread_id@) == first_named(all.skip(i as int), thread_id@),
        decreases threads@.len() - i,
    {
        assert(all.skip(i as int)[0] == threads@[i as int]@);
        assert(all.skip(i as int).drop_first() =~= all.skip(i + 1));
        if same(threads[i].metadata.thread_id.as_str(), thread_id) {
            return Ok(threads[i].clone());
        }
        i += 1;
    }
    Err(
        "thread ".to_owned().concat(thread_id).concat(
            " was not returned by the configured source filters",
        ),
    )
}

/// What a run over all threads waits for.
#[derive(Clone, Copy, Debug, PartialEq, Eq, Structural)]
pub enum BatchStage {
    Listing,
    Upserting,
    Reading,
    Generating,
    Storing,
    Marking,
    Ended,
}

/// A run over all threads that Codex lists.
#[derive(Debug)]
pub struct BatchRun {
    pub provider: SummaryProvider,
    pub cap: SummaryInput,
    pub needs_threads: bool,
    pub stage: BatchStage,
    pub threads: Vec<RemoteThread>,
    pub at: usize,
    pub report: SyncReport,
}

/// A run over all threads as a mathematical value.
#[verifier::ext_equal]
pub struct BatchView {
    pub provider: SummaryProvider,
    pub cap: SummaryInput,
    pub needs_threads: bool,
    pub stage: BatchStage,
    pub threads: Seq<MetadataView>,
    pub at: usize,
    pub report: ReportView,
}

impl View for BatchRun {
    type V = BatchView;

    open spec fn view(&self) -> BatchView {
        BatchView {
            provider: self.provider,
            cap: self.cap,
            needs_threads: self.needs_threads,
            stage: self.stage,
            threads: self.threads.deep_view(),
            at: self.at,
            report: self.report@,
        }
    }
}

/// How a run over all threads goes on.
#[derive(Debug)]
pub enum BatchNext {
    Ask(Step),
    Report(SyncReport),
    Fail(String),
}

/// How a run over all threads goes on, as a mathematical value.
pub enum BatchNextView {
    Ask(StepView),
    Report(ReportView),
    Fail(Seq<char>),
}

impl View for BatchNext {
    type V = BatchNextView;

    open spec fn view(&self) -> BatchNextView {
        match *self {
            BatchNext::Ask(step) => BatchNextView::Ask(step@),
            BatchNext::Report(report) => BatchNextView::Report(report@),
            BatchNext::Fail(error) => BatchNextView::Fail(error@),
        }
    }
}

/// A run at its start.
pub open spec fn batch_start(
    provider: SummaryProvider,
    cap: SummaryInput,
    needs_threads: bool,
) -> BatchView {
    BatchView {
        provider,
        cap,
        needs_threads,
        stage: BatchStage::Listing,
        threads: Seq::empty(),
        at: 0,
        report: empty_report(),
    }
}

/// Whether the numbers of a run fit together: every thread that was dealt with is summarized or has
/// an error, never both, and no thread is counted twice.
pub open spec fn counted(run: BatchView) -> bool {
    let at = run.at as int;
    let taken = run.report.imported + run.report.updated;
    let ended = run.report.summarized + run.report.errors.len();
    &&& 0 <= at <= run.threads.len() <= usize::MAX
    &&& match run.stage {
        BatchStage::Listing => at == 0 && run.threads.len() == 0 && taken == 0 && ended == 0,
        BatchStage::Upserting => at < run.threads.len() && taken <= at && ended == at,
        BatchStage::Marking => at < run.threads.len() && taken <= at + 1 && ended == at + 1,
        BatchStage::Ended => taken <= at && ended == at,
        _ => at < run.threads.len() && taken <= at + 1 && ended == at,
    }
}

/// A run with its next thread begun, or ended where there is none left.
pub open spec fn next_thread(run: BatchView) -> (BatchView, BatchNextView) {
    if run.at < run.threads.len() {
        (
            BatchView { stage: BatchStage::Upserting, ..run },
            BatchNextView::Ask(StepView::Upsert { metadata: run.threads[run.at as int] }),
        )
    } else {
        (BatchView { stage: BatchStage::Ended, ..run }, BatchNextView::Report(run.report))
    }
}

/// A run with an error of its thread noted.
pub open spec fn with_error(run: BatchView, message: Seq<char>) -> BatchView {
    BatchView {
        report: ReportView { errors: run.report.errors.push(message), ..run.report },
        ..run
    }
}

/// A run whose thread could not be summarized.
pub open spec fn thread_failed(run: BatchView, error: Seq<char>) -> (BatchView, BatchNextView) {
    let thread_id = run.threads[run.at as int].thread_id;
    let message = thread_id + ": "@ + error;
    (
        BatchView { stage: BatchStage::Marking, ..with_error(run, message) },
        BatchNextView::Ask(StepView::MarkSummaryError { thread_id, error: message }),
    )
}

/// A run whose thread has a summary that is to be stored.
pub open spec fn thread_summarized(run: BatchView, result: SummaryView) -> (
    BatchView,
    BatchNextView,
) {
    (
        BatchView { stage: BatchStage::Storing, ..run },
        BatchNextView::Ask(
            StepView::StoreSummary {
                thread_id: run.threads[run.at as int].thread_id,
                result,
                provider: run.provider,
                cap: run.cap,
            },
        ),
    )
}

/// A run that is past its thread.
pub open spec fn past_thread(run: BatchView) -> BatchView {
    BatchView { at: (run.at + 1) as usize, ..run }
}

/// A run that got a reply to something else than it asked for.
pub open spec fn batch_confused(run: BatchView) -> (BatchView, BatchNextView) {
    (run, BatchNextView::Fail("the run got an unexpected reply"@))
}

/// How a run goes on after a reply.
pub open spec fn batch_step(
    run: BatchView,
    reply: ReplyView,
    settings: ConfigView,
    files: PathsView,
) -> (BatchView, BatchNextView) {
    match (run.stage, reply) {
        (BatchStage::Listing, ReplyView::Threads(Err(error))) => (
            BatchView { stage: BatchStage::Ended, ..run },
            BatchNextView::Fail(error),
        ),
        (BatchStage::Listing, ReplyView::Threads(Ok(threads))) => if threads.len() == 0
            && run.needs_threads {
            (
                BatchView { stage: BatchStage::Ended, ..run },
                BatchNextView::Fail(
                    "no matching non-archived threads were returned by Codex"@,
                ),
            )
        } else {
            next_thread(BatchView { threads, ..run })
        },
        (BatchStage::Upserting, ReplyView::Upserted(Ok(fresh))) => {
            let report = if fresh {
                ReportView { imported: (run.report.imported + 1) as usize, ..run.report }
            } else {
                ReportView { updated: (run.report.updated + 1) as usize, ..run.report }
            };
            (
                BatchView { stage: BatchStage::Reading, report, ..run },
                BatchNextView::Ask(
                    StepView::ReadMessages { thread_id: run.threads[run.at as int].thread_id },
                ),
            )
        },
        (BatchStage::Upserting, ReplyView::Upserted(Err(error))) => next_thread(
            past_thread(
                with_error(
                    run,
                    run.threads[run.at as int].thread_id + ": persist metadata: "@ + error,
                ),
            ),
        ),
        (BatchStage::Reading, ReplyView::Messages(Ok(messages))) => match summarized(
            settings,
            files,
            run.threads[run.at as int],
            messages,
            run.provider,
            run.cap,
        ) {
            WorkView::Store(result) => thread_summarized(run, result),
            WorkView::Run(generation) => (
                BatchView { stage: BatchStage::Generating, ..run },
                BatchNextView::Ask(StepView::RunProvider { generation }),
            ),
            WorkView::Fail(error) => thread_failed(run, error),
        },
        (BatchStage::Reading, ReplyView::Messages(Err(error))) => thread_failed(run, error),
        (BatchStage::Generating, ReplyView::Generated(Ok(result))) => thread_summarized(
            run,
            result,
        ),
        (BatchStage::Generating, ReplyView::Generated(Err(error))) => thread_failed(run, error),
        (BatchStage::Storing, ReplyView::Written(Ok(()))) => next_thread(
            past_thread(
                BatchView {
                    report: ReportView {
                        summarized: (run.report.summarized + 1) as usize,
                        ..run.report
                    },
                    ..run
                },
            ),
        ),
        (BatchStage::Storing, ReplyView::Written(Err(error))) => thread_failed(run, error),
        (BatchStage::Marking, ReplyView::Written(_)) => next_thread(past_thread(run)),
        _ => batch_confused(run),
    }
}

/// Starts a run that takes in all threads and summarizes them without an outside provider.
pub fn sync_all(config: &Config) -> (r: (BatchRun, Step))
    ensures
        r.0@ == batch_start(SummaryProvider::Local, config@.summary_input, false),
        counted(r.0@),
        r.1@ == (StepView::ListThreads { sources: config@.sources }),
{
    BatchRun::start(config, SummaryProvider::Local, config.summary_input, false)
}

/// Starts a run that takes in all threads and summarizes them with a provider. It fails where there
/// are no threads.
pub fn summarize_all(config: &Config, provider: SummaryProvider, cap: SummaryInput) -> (r: (
    BatchRun,
    Step,
))
    ensures
        r.0@ == batch_start(provider, cap, true),
        counted(r.0@),
        r.1@ == (StepView::ListThreads { sources: config@.sources }),
{
    BatchRun::start(config, provider, cap, true)
}

pub(crate) fn copy_sources(sources: &Vec<SourceKind>) -> (r: Vec<SourceKind>)
    ensures
        r@ == sources@,
{
    let r = sources.clone();
    assert(r@ =~= sources@);
    r
}

impl BatchRun {
    fn start(
        config: &Config,
        provider: SummaryProvider,
        cap: SummaryInput,
        needs_threads: bool,
    ) -> (r: (BatchRun, Step))
        ensures
            r.0@ == batch_start(provider, cap, needs_threads),
            counted(r.0@),
            r.1@ == (StepView::ListThreads { sources: config@.sources }),
    {
        let run = BatchRun {
            provider,
            cap,
            needs_threads,
            stage: BatchStage::Listing,
            threads: Vec::new(),
            at: 0,
            report: SyncReport::default(),
        };
        assert(run@ =~= batch_start(provider, cap, needs_threads));
        (run, Step::ListThreads { sources: copy_sources(&config.sources) })
    }

    fn current_id(&self) -> (r: String)
        requires
            self.at < self.threads@.len(),
        ensures
            r@ == self@.threads[self@.at as int].thread_id,
    {
        self.threads[self.at].metadata.thread_id.clone()
    }

    /// Begins the next thread, or ends the run.
    fn go_on(&mut self) -> (r: BatchNext)
        ensures
            (final(self)@, r@) == next_thread(old(self)@),
    {
        if self.at < self.threads.len() {
            self.stage = BatchStage::Upserting;
            BatchNext::Ask(Step::Upsert { metadata: self.threads[self.at].metadata.clone() })
        } else {
            self.stage = BatchStage::Ended;
            BatchNext::Report(self.report.clone())
        }
    }

    fn note_error(&mut self, message: String)
        ensures
            final(self)@ == with_error(old(self)@, message@),
    {
        self.report.errors.push(message);
        assert(self@.report.errors =~= old(self)@.report.errors.push(message@));
    }

    /// Notes that the thread could not be summarized.
    fn fail_thread(&mut self, error: &str) -> (r: BatchNext)
        requires
            old(self).at < old(self).threads@.len(),
        ensures
            (final(self)@, r@) == thread_failed(old(self)@, error@),
    {
        let thread_id = self.current_id();
        let message = thread_id.clone().concat(": ").concat(error);
        self.note_error(message.clone());
        self.stage = BatchStage::Marking;
        BatchNext::Ask(Step::MarkSummaryError { thread_id, error: message })
    }

    /// Has the summary of the thread stored.
    fn store(&mut self, result: SummaryResult) -> (r: BatchNext)
        requires
            old(self).at < old(self).threads@.len(),
        ensures
            (final(self)@, r@) == thread_summarized(old(self)@, result@),
    {
        let thread_id = self.current_id();
        self.stage = BatchStage::Storing;
        BatchNext::Ask(
            Step::StoreSummary { thread_id, result, provider: self.provider, cap: self.cap },
        )
    }

    /// Takes in a reply and says how the run goes on.
    pub fn step(&mut self, reply: Reply, config: &Config, paths: &AppPaths) -> (r: BatchNext)
        requires
            counted(old(self)@),
        ensures
            counted(final(self)@),
            (final(self)@, r@) == batch_step(old(self)@, reply@, config@, paths@),
    {
        match (self.stage, reply) {
            (BatchStage::Listing, Reply::Threads(Err(error))) => {
                self.stage = BatchStage::Ended;
                BatchNext::Fail(error)
            },
            (BatchStage::Listing, Reply::Threads(Ok(threads))) => {
                if threads.len() == 0 && self.needs_threads {
                    self.stage = BatchStage::Ended;
                    BatchNext::Fail(
                        "no matching non-archived threads were returned by Codex".to_owned(),
                    )
                } else {
                    self.threads = threads;
                    self.go_on()
                }
            },
            (BatchStage::Upserting, Reply::Upserted(Ok(fresh))) => {
                if fresh {
                    self.report.imported = self.report.imported + 1;
                } else {
                    self.report.updated = self.report.updated + 1;
                }
                self.stage = BatchStage::Reading;
                BatchNext::Ask(Step::ReadMessages { thread_id: self.current_id() })
            },
            (BatchStage::Upserting, Reply::Upserted(Err(error))) => {
                let message = self.current_id().concat(": persist metadata: ").concat(
                    error.as_str(),
                );
                self.note_error(message);
                self.at = self.at + 1;
                self.go_on()
            },
            (BatchStage::Reading, Reply::Messages(Ok(messages))) => {
                match summarize_messages(
                    config,
                    paths,
                    &self.threads[self.at],
                    messages.as_slice(),
                    self.provider,
                    self.cap,
                ) {
                    Work::Store(result) => self.store(result),
                    Work::Run(generation) => {
                        self.stage = BatchStage::Generating;
                        BatchNext::Ask(Step::RunProvider { generation })
                    },
                    Work::Fail(error) => self.fail_thread(error.as_str()),
                }
            },
            (BatchStage::Reading, Reply::Messages(Err(error))) => self.fail_thread(error.as_str()),
            (BatchStage::Generating, Reply::Generated(Ok(result))) => self.store(result),
            (BatchStage::Generating, Reply::Generated(Err(error))) => self.fail_thread(
                error.as_str(),
            ),
            (BatchStage::Storing, Reply::Written(Ok(()))) => {
                self.report.summarized = self.report.summarized + 1;
                self.at = self.at + 1;
                self.go_on()
            },
            (BatchStage::Storing, Reply::Written(Err(error))) => self.fail_thread(error.as_str()),
            (BatchStage::Marking, Reply::Written(_)) => {
                self.at = self.at + 1;
                self.go_on()
            },
            _ => BatchNext::Fail("the run got an unexpected reply".to_owned()),
        }
    }
}

/// The provider that a job names, or what is wrong with it.
pub open spec fn provider_of_job(name: Seq<char>) -> Result<SummaryProvider, Seq<char>> {
    match config::provider_named(name) {
        Some(provider) => Ok(provider),
        None => Err(
            "unknown summary provider "@ + text::quoted(name) + "; use local, codex, or openai"@,
        ),
    }
}

fn read_provider(name: &str) -> (r: Result<SummaryProvider, String>)
    ensures
        match r {
            Ok(provider) => provider_of_job(name@) == Ok::<SummaryProvider, Seq<char>>(provider),
            Err(error) => provider_of_job(name@) == Err::<SummaryProvider, Seq<char>>(error@),
        },
{
    match SummaryProvider::from_str(name) {
        Ok(provider) => Ok(provider),
        Err(error) => Err(error.message()),
    }
}

/// The amount of text that a job names, or what is wrong with it.
pub open spec fn cap_of_job(name: Seq<char>) -> Result<SummaryInput, Seq<char>> {
    match config::input_named(name) {
        Some(cap) => Ok(cap),
        None => {
            let digits = config::custom_digits(config::input_key(name));
            match text::usize_value(digits) {
                Some(_) => Err("summary character limit must be positive"@),
                None => Err(
                    "invalid summary character limit "@ + text::quoted(name) + ": "@
                        + config::fault_text(text::usize_fault(digits)),
                ),
            }
        },
    }
}

fn read_cap(name: &str) -> (r: Result<SummaryInput, String>)
    ensures
        match r {
            Ok(cap) => cap_of_job(name@) == Ok::<SummaryInput, Seq<char>>(cap),
            Err(error) => cap_of_job(name@) == Err::<SummaryInput, Seq<char>>(error@),
        },
{
    match SummaryInput::from_str(name) {
        Ok(cap) => Ok(cap),
        Err(error) => Err(error.message()),
    }
}

/// What a run over one thread waits for.
#[derive(Clone, Copy, Debug, PartialEq, Eq, Structural)]
pub enum TaskStage {
    Loading,
    Starting,
    Listing,
    Upserting,
    Declining,
    Announcing,
    Reading,
    Generating,
    Storing,
    Finishing,
    FailingJob,
    FailingSummary,
    Ended,
}

/// A run that enriches one thread, for a job or without one.
#[derive(Debug)]
pub struct TaskRun {
    pub thread_id: String,
    pub is_job: bool,
    pub provider_name: String,
    pub cap_name: String,
    pub provider: SummaryProvider,
    pub cap: SummaryInput,
    pub sources: Vec<SourceKind>,
    pub thread: Option<RemoteThread>,
    pub stage: TaskStage,
    pub error: String,
}

/// A run over one thread as a mathematical value.
#[verifier::ext_equal]
pub struct TaskView {
    pub thread_id: Seq<char>,
    pub is_job: bool,
    pub provider_name: Seq<char>,
    pub cap_name: Seq<char>,
    pub provider: SummaryProvider,
    pub cap: SummaryInput,
    pub sources: Seq<SourceKind>,
    pub thread: Option<MetadataView>,
    pub stage: TaskStage,
    pub error: Seq<char>,
}

impl View for TaskRun {
    type V = TaskView;

    open spec fn view(&self) -> TaskView {
        TaskView {
            thread_id: self.thread_id@,
            is_job: self.is_job,
            provider_name: self.provider_name@,
            cap_name: self.cap_name@,
            provider: self.provider,
            cap: self.cap,
            sources: self.sources@,
            thread: self.thread.deep_view(),
            stage: self.stage,
            error: self.error@,
        }
    }
}

/// How a run over one thread goes on.
#[derive(Debug)]
pub enum TaskNext {
    Ask(Step),
    Done,
    Fail(String),
}

/// How a run over one thread goes on, as a mathematical value.
pub enum TaskNextView {
    Ask(StepView),
    Done,
    Fail(Seq<char>),
}

impl View for TaskNext {
    type V = TaskNextView;

    open spec fn view(&self) -> TaskNextView {
        match *self {
            TaskNext::Ask(step) => TaskNextView::Ask(step@),
            TaskNext::Done => TaskNextView::Done,
            TaskNext::Fail(error) => TaskNextView::Fail(error@),
        }
    }
}

/// A run that summarizes one thread, at its start.
pub open spec fn summary_start(
    settings: ConfigView,
    thread_id: Seq<char>,
    provider: SummaryProvider,
    cap: SummaryInput,
) -> TaskView {
    TaskView {
        thread_id,
        is_job: false,
        provider_name: ""@,
        cap_name: ""@,
        provider,
        cap,
        sources: settings.sources,
        thread: None,
        stage: TaskStage::Starting,
        error: ""@,
    }
}

/// Starts a run that summarizes one thread with a provider.
pub fn summarize_one(
    config: &Config,
    thread_id: &str,
    provider: SummaryProvider,
    cap: SummaryInput,
) -> (r: (TaskRun, Step))
    ensures
        r.0@ == summary_start(config@, thread_id@, provider, cap),
        r.1@ == (StepView::MarkPending { thread_id: thread_id@ }),
{
    let run = TaskRun {
        thread_id: thread_id.to_owned(),
        is_job: false,
        provider_name: "".to_owned(),
        cap_name: "".to_owned(),
        provider,
        cap,
        sources: copy_sources(&config.sources),
        thread: None,
        stage: TaskStage::Starting,
        error: "".to_owned(),
    };
    assert(run@ =~= summary_start(config@, thread_id@, provider, cap));
    (run, Step::MarkPending { thread_id: thread_id.to_owned() })
}

/// A run that ends with an error that is noted nowhere else.
pub open spec fn task_ended(run: TaskView, error: Seq<char>) -> (TaskView, TaskNextView) {
    (TaskView { stage: TaskStage::Ended, ..run }, TaskNextView::Fail(error))
}

/// A run that is to note its error: with the job, where there is one, and with the session.
pub open spec fn task_failed(run: TaskView, error: Seq<char>) -> (TaskView, TaskNextView) {
    if run.is_job {
        (
            TaskView { stage: TaskStage::FailingJob, error, ..run },
            TaskNextView::Ask(StepView::FailJob { thread_id: run.thread_id, error }),
        )
    } else {
        (
            TaskView { stage: TaskStage::FailingSummary, error, ..run },
            TaskNextView::Ask(StepView::MarkSummaryError { thread_id: run.thread_id, error }),
        )
    }
}

/// A run that is to list the threads.
pub open spec fn task_listing(run: TaskView) -> (TaskView, TaskNextView) {
    (
        TaskView { stage: TaskStage::Listing, ..run },
        TaskNextView::Ask(StepView::ListThreads { sources: run.sources }),
    )
}

/// A run that is to read the messages.
pub open spec fn task_reading(run: TaskView) -> (TaskView, TaskNextView) {
    (
        TaskView { stage: TaskStage::Reading, ..run },
        TaskNextView::Ask(StepView::ReadMessages { thread_id: run.thread_id }),
    )
}

/// A run that has a summary that is to be stored.
pub open spec fn task_storing(run: TaskView, result: SummaryView) -> (TaskView, TaskNextView) {
    (
        TaskView { stage: TaskStage::Storing, ..run },
        TaskNextView::Ask(
            StepView::StoreSummary {
                thread_id: run.thread_id,
                result,
                provider: run.provider,
                cap: run.cap,
            },
        ),
    )
}

/// A run whose work is done.
pub open spec fn task_finishing(run: TaskView) -> (TaskView, TaskNextView) {
    if run.is_job {
        (
            TaskView { stage: TaskStage::Finishing, ..run },
            TaskNextView::Ask(StepView::FinishJob { thread_id: run.thread_id }),
        )
    } else {
        (TaskView { stage: TaskStage::Ended, ..run }, TaskNextView::Done)
    }
}

/// A run whose thread is taken in: a job says what is to be done with it.
pub open spec fn task_enriched(run: TaskView) -> (TaskView, TaskNextView) {
    if !run.is_job {
        task_reading(run)
    } else if run.provider_name == "metadata"@ {
        (
            TaskView { stage: TaskStage::Declining, ..run },
            TaskNextView::Ask(StepView::MarkNotRequested { thread_id: run.thread_id }),
        )
    } else {
        match provider_of_job(run.provider_name) {
            Err(error) => task_failed(run, error),
            Ok(provider) => match cap_of_job(run.cap_name) {
                Err(error) => task_failed(run, error),
                Ok(cap) => (
                    TaskView { stage: TaskStage::Announcing, provider, cap, ..run },
                    TaskNextView::Ask(StepView::MarkPending { thread_id: run.thread_id }),
                ),
            },
        }
    }
}

/// How a run over one thread goes on after a reply.
pub open spec fn task_step(
    run: TaskView,
    reply: ReplyView,
    settings: ConfigView,
    files: PathsView,
) -> (TaskView, TaskNextView) {
    match (run.stage, reply) {
        (TaskStage::Loading, ReplyView::Loaded(Err(error))) => task_ended(run, error),
        (TaskStage::Loading, ReplyView::Loaded(Ok(None))) => task_ended(
            run,
            "no queued enrichment job for "@ + run.thread_id,
        ),
        (TaskStage::Loading, ReplyView::Loaded(Ok(Some(job)))) => (
            TaskView {
                stage: TaskStage::Starting,
                provider_name: job.provider,
                cap_name: job.cap,
                ..run
            },
            TaskNextView::Ask(StepView::StartJob { thread_id: run.thread_id }),
        ),
        (TaskStage::Starting, ReplyView::Written(Err(error))) => task_ended(run, error),
        (TaskStage::Starting, ReplyView::Written(Ok(()))) => task_listing(run),
        (TaskStage::Listing, ReplyView::Threads(Err(error))) => task_failed(run, error),
        (TaskStage::Listing, ReplyView::Threads(Ok(threads))) => match first_named(
            threads,
            run.thread_id,
        ) {
            None => task_failed(run, not_listed(run.thread_id)),
            Some(metadata) => (
                TaskView { stage: TaskStage::Upserting, thread: Some(metadata), ..run },
                TaskNextView::Ask(StepView::Upsert { metadata }),
            ),
        },
        (TaskStage::Upserting, ReplyView::Upserted(Err(error))) => task_failed(run, error),
        (TaskStage::Upserting, ReplyView::Upserted(Ok(_))) => task_enriched(run),
        (TaskStage::Declining, ReplyView::Written(Err(error))) => task_failed(run, error),
        (TaskStage::Declining, ReplyView::Written(Ok(()))) => task_finishing(run),
        (TaskStage::Announcing, ReplyView::Written(Err(error))) => task_failed(run, error),
        (TaskStage::Announcing, ReplyView::Written(Ok(()))) => task_reading(run),
        (TaskStage::Reading, ReplyView::Messages(Err(error))) => task_failed(run, error),
        (TaskStage::Reading, ReplyView::Messages(Ok(messages))) => match run.thread {
            None => task_failed(run, not_listed(run.thread_id)),
            Some(thread) => match summarized(
                settings,
                files,
                thread,
                messages,
                run.provider,
                run.cap,
            ) {
                WorkView::Store(result) => task_storing(run, result),
                WorkView::Run(generation) => (
                    TaskView { stage: TaskStage::Generating, ..run },
                    TaskNextView::Ask(StepView::RunProvider { generation }),
                ),
                WorkView::Fail(error) => task_failed(run, error),
            },
        },
        (TaskStage::Generating, ReplyView::Generated(Err(error))) => task_failed(run, error),
        (TaskStage::Generating, ReplyView::Generated(Ok(result))) => task_storing(run, result),
        (TaskStage::Storing, ReplyView::Written(Err(error))) => task_failed(run, error),
        (TaskStage::Storing, ReplyView::Written(Ok(()))) => task_finishing(run),
        (TaskStage::Finishing, ReplyView::Written(Err(error))) => task_ended(run, error),
        (TaskStage::Finishing, ReplyView::Written(Ok(()))) => (
            TaskView { stage: TaskStage::Ended, ..run },
            TaskNextView::Done,
        ),
        (TaskStage::FailingJob, ReplyView::Written(Err(error))) => task_ended(run, error),
        (TaskStage::FailingJob, ReplyView::Written(Ok(()))) => (
            TaskView { stage: TaskStage::FailingSummary, ..run },
            TaskNextView::Ask(
                StepView::MarkSummaryError { thread_id: run.thread_id, error: run.error },
            ),
        ),
        (TaskStage::FailingSummary, ReplyView::Written(Err(error))) => task_ended(run, error),
        (TaskStage::FailingSummary, ReplyView::Written(Ok(()))) => task_ended(run, run.error),
        _ => (run, TaskNextView::Fail("the run got an unexpected reply"@)),
    }
}

impl TaskRun {
    fn end_with(&mut self, error: String) -> (r: TaskNext)
        ensures
            (final(self)@, r@) == task_ended(old(self)@, error@),
    {
        self.stage = TaskStage::Ended;
        TaskNext::Fail(error)
    }

    fn fail_with(&mut self, error: String) -> (r: TaskNext)
        ensures
            (final(self)@, r@) == task_failed(old(self)@, error@),
    {
        self.error = error.clone();
        if self.is_job {
            self.stage = TaskStage::FailingJob;
            TaskNext::Ask(Step::FailJob { thread_id: self.thread_id.clone(), error })
        } else {
            self.stage = TaskStage::FailingSummary;
            TaskNext::Ask(Step::MarkSummaryError { thread_id: self.thread_id.clone(), error })
        }
    }

    fn read(&mut self) -> (r: TaskNext)
        ensures
            (final(self)@, r@) == task_reading(old(self)@),
    {
        self.stage = TaskStage::Reading;
        TaskNext::Ask(Step::ReadMessages { thread_id: self.thread_id.clone() })
    }

    fn store(&mut self, result: SummaryResult) -> (r: TaskNext)
        ensures
            (final(self)@, r@) == task_storing(old(self)@, result@),
    {
        self.stage = TaskStage::Storing;
        TaskNext::Ask(
            Step::StoreSummary {
                thread_id: self.thread_id.clone(),
                result,
                provider: self.provider,
                cap: self.cap,
            },
        )
    }

    fn finish(&mut self) -> (r: TaskNext)
        ensures
            (final(self)@, r@) == task_finishing(old(self)@),
    {
        if self.is_job {
            self.stage = TaskStage::Finishing;
            TaskNext::Ask(Step::FinishJob { thread_id: self.thread_id.clone() })
        } else {
            self.stage = TaskStage::Ended;
            TaskNext::Done
        }
    }

    fn go_on_enriched(&mut self) -> (r: TaskNext)
        ensures
            (final(self)@, r@) == task_enriched(old(self)@),
    {
        if !self.is_job {
            return self.read();
        }
        if same(self.provider_name.as_str(), "metadata") {
            self.stage = TaskStage::Declining;
            return TaskNext::Ask(Step::MarkNotRequested { thread_id: self.thread_id.clone() });
        }
        match read_provider(self.provider_name.as_str()) {
            Err(error) => self.fail_with(error),
            Ok(provider) => match read_cap(self.cap_name.as_str()) {
                Err(error) => self.fail_with(error),
                Ok(cap) => {
                    self.provider = provider;
                    self.cap = cap;
                    self.stage = TaskStage::Announcing;
                    TaskNext::Ask(Step::MarkPending { thread_id: self.thread_id.clone() })
                },
            },
        }
    }

    fn work(&mut self, messages: &[VisibleMessage], config: &Config, paths: &AppPaths) -> (r:
        TaskNext)
        requires
            old(self).stage == TaskStage::Reading,
        ensures
            (final(self)@, r@) == task_step(
                old(self)@,
                ReplyView::Messages(Ok(messages.deep_view())),
                config@,
                paths@,
            ),
    {
        let work = match &self.thread {
            None => Work::Fail(
                "thread ".to_owned().concat(self.thread_id.as_str()).concat(
                    " was not returned by the configured source filters",
                ),
            ),
            Some(thread) => summarize_messages(
                config,
                paths,
                thread,
                messages,
                self.provider,
                self.cap,
            ),
        };
        match work {
            Work::Store(result) => self.store(result),
            Work::Run(generation) => {
                self.stage = TaskStage::Generating;
                TaskNext::Ask(Step::RunProvider { generation })
            },
            Work::Fail(error) => self.fail_with(error),
        }
    }

    /// Takes in a reply and says how the run goes on.
    pub fn step(&mut self, reply: Reply, config: &Config, paths: &AppPaths) -> (r: TaskNext)
        ensures
            (final(self)@, r@) == task_step(old(self)@, reply@, config@, paths@),
    {
        match (self.stage, reply) {
            (TaskStage::Loading, Reply::Loaded(Err(error))) => self.end_with(error),
            (TaskStage::Loading, Reply::Loaded(Ok(None))) => {
                let error = "no queued enrichment job for ".to_owned().concat(
                    self.thread_id.as_str(),
                );
                self.end_with(error)
            },
            (TaskStage::Loading, Reply::Loaded(Ok(Some(job)))) => {
                self.provider_name = job.provider;
                self.cap_name = job.cap;
                self.stage = TaskStage::Starting;
                TaskNext::Ask(Step::StartJob { thread_id: self.thread_id.clone() })
            },
            (TaskStage::Starting, Reply::Written(Err(error))) => self.end_with(error),
            (TaskStage::Starting, Reply::Written(Ok(()))) => {
                self.stage = TaskStage::Listing;
                TaskNext::Ask(Step::ListThreads { sources: copy_sources(&self.sources) })
            },
            (TaskStage::Listing, Reply::Threads(Err(error))) => self.fail_with(error),
            (TaskStage::Listing, Reply::Threads(Ok(threads))) => match find_remote_thread(
                threads,
                self.thread_id.as_str(),
            ) {
                Err(error) => self.fail_with(error),
                Ok(thread) => {
                    let metadata = thread.metadata.clone();
                    self.thread = Some(thread);
                    self.stage = TaskStage::Upserting;
                    TaskNext::Ask(Step::Upsert { metadata })
                },
            },
            (TaskStage::Upserting, Reply::Upserted(Err(error))) => self.fail_with(error),
            (TaskStage::Upserting, Reply::Upserted(Ok(_))) => self.go_on_enriched(),
            (TaskStage::Declining, Reply::Written(Err(error))) => self.fail_with(error),
            (TaskStage::Declining, Reply::Written(Ok(()))) => self.finish(),
            (TaskStage::Announcing, Reply::Written(Err(error))) => self.fail_with(error),
            (TaskStage::Announcing, Reply::Written(Ok(()))) => self.read(),
            (TaskStage::Reading, Reply::Messages(Err(error))) => self.fail_with(error),
            (TaskStage::Reading, Reply::Messages(Ok(messages))) => self.work(
                messages.as_slice(),
                config,
                paths,
            ),
            (TaskStage::Generating, Reply::Generated(Err(error))) => self.fail_with(error),
            (TaskStage::Generating, Reply::Generated(Ok(result))) => self.store(result),
            (TaskStage::Storing, Reply::Written(Err(error))) => self.fail_with(error),
            (TaskStage::Storing, Reply::Written(Ok(()))) => self.finish(),
            (TaskStage::Finishing, Reply::Written(Err(error))) => self.end_with(error),
            (TaskStage::Finishing, Reply::Written(Ok(()))) => {
                self.stage = TaskStage::Ended;
                TaskNext::Done
            },
            (TaskStage::FailingJob, Reply::Written(Err(error))) => self.end_with(error),
            (TaskStage::FailingJob, Reply::Written(Ok(()))) => {
                self.stage = TaskStage::FailingSummary;
                TaskNext::Ask(
                    Step::MarkSummaryError {
                        thread_id: self.thread_id.clone(),
                        error: self.error.clone(),
                    },
                )
            },
            (TaskStage::FailingSummary, Reply::Written(Err(error))) => self.end_with(error),
            (TaskStage::FailingSummary, Reply::Written(Ok(()))) => {
                let error = self.error.clone();
                self.end_with(error)
            },
            _ => TaskNext::Fail("the run got an unexpected reply".to_owned()),
        }
    }
}

/// Whether a reply says that the metadata of a thread could not be kept.
pub open spec fn not_kept(run: BatchView, reply: ReplyView) -> bool {
    run.stage == BatchStage::Upserting && (reply matches ReplyView::Upserted(Err(_)))
}

/// How many threads a run has gone to keep the metadata of.
pub open spec fn gone_through(run: BatchView) -> int {
    match run.stage {
        BatchStage::Listing | BatchStage::Upserting | BatchStage::Ended => run.at as int,
        _ => run.at + 1,
    }
}

/// Whether the threads that a run has gone through are those that are imported, those that are
/// updated and `lost` more, whose metadata could not be kept.
pub open spec fn accounted(run: BatchView, lost: nat) -> bool {
    run.report.imported + run.report.updated + lost == gone_through(run)
}

/// A report comes when every listed thread was dealt with: each is summarized or has an error, and
/// each is imported or updated, but for those whose metadata could not be kept. None is counted
/// twice.
pub proof fn reports_count_every_thread(
    run: BatchView,
    lost: nat,
    reply: ReplyView,
    settings: ConfigView,
    files: PathsView,
)
    requires
        counted(run),
        accounted(run, lost),
        reply matches ReplyView::Threads(Ok(threads)) ==> threads.len() <= usize::MAX,
    ensures
        ({
            let next = batch_step(run, reply, settings, files);
            let lost = if not_kept(run, reply) {
                lost + 1
            } else {
                lost
            };
            &&& counted(next.0)
            &&& accounted(next.0, lost)
            &&& next.1 matches BatchNextView::Report(report) ==> {
                &&& report == next.0.report
                &&& report.summarized + report.errors.len() == next.0.threads.len()
                &&& report.imported + report.updated + lost == next.0.threads.len()
            }
        }),
{
}

/// A run after replies, one after the other.
pub open spec fn batch_after(
    run: BatchView,
    replies: Seq<ReplyView>,
    settings: ConfigView,
    files: PathsView,
) -> BatchView
    decreases replies.len(),
{
    if replies.len() == 0 {
        run
    } else {
        batch_step(
            batch_after(run, replies.drop_last(), settings, files),
            replies.last(),
            settings,
            files,
        ).0
    }
}

/// How many of the replies to a run say that the metadata of a thread could not be kept.
pub open spec fn lost_after(
    run: BatchView,
    replies: Seq<ReplyView>,
    settings: ConfigView,
    files: PathsView,
) -> nat
    decreases replies.len(),
{
    if replies.len() == 0 {
        0
    } else {
        let before = lost_after(run, replies.drop_last(), settings, files);
        if not_kept(batch_after(run, replies.drop_last(), settings, files), replies.last()) {
            before + 1
        } else {
            before
        }
    }
}

/// From its start on, whatever the replies, a run has imported or updated every thread that it has
/// gone through, but for those whose metadata could not be kept.
pub proof fn runs_account_for_every_thread(
    provider: SummaryProvider,
    cap: SummaryInput,
    needs_threads: bool,
    replies: Seq<ReplyView>,
    settings: ConfigView,
    files: PathsView,
)
    requires
        forall|i: int|
            0 <= i < replies.len() ==> ((#[trigger] replies[i]) matches ReplyView::Threads(
                Ok(threads),
            ) ==> threads.len() <= usize::MAX),
    ensures
        ({
            let start = batch_start(provider, cap, needs_threads);
            let run = batch_after(start, replies, settings, files);
            &&& counted(run)
            &&& accounted(run, lost_after(start, replies, settings, files))
        }),
    decreases replies.len(),
{
    if replies.len() > 0 {
        let start = batch_start(provider, cap, needs_threads);
        let earlier = replies.drop_last();
        assert forall|i: int| 0 <= i < earlier.len() implies ((
        #[trigger] earlier[i]) matches ReplyView::Threads(Ok(threads)) ==> threads.len()
            <= usize::MAX) by {
            assert(earlier[i] == replies[i]);
        }
        runs_account_for_every_thread(provider, cap, needs_threads, earlier, settings, files);
        assert(replies.last() == replies[replies.len() - 1]);
        reports_count_every_thread(
            batch_after(start, earlier, settings, files),
            lost_after(start, earlier, settings, files),
            replies.last(),
            settings,
            files,
        );
    }
}

/// The steps that a run has left at most, once it has its threads.
pub open spec fn steps_left(run: BatchView) -> int {
    (run.threads.len() - run.at) * 5 - match run.stage {
        BatchStage::Listing => 0int,
        BatchStage::Upserting => 0int,
        BatchStage::Reading => 1int,
        BatchStage::Generating => 2int,
        BatchStage::Storing => 3int,
        BatchStage::Marking => 4int,
        BatchStage::Ended => 0int,
    }
}

/// A run over all threads comes to an end: with every step that it asks for fewer are left.
pub proof fn batch_runs_come_to_an_end(
    run: BatchView,
    reply: ReplyView,
    settings: ConfigView,
    files: PathsView,
)
    requires
        counted(run),
        run.stage != BatchStage::Listing,
    ensures
        batch_step(run, reply, settings, files).1 is Ask ==> 0 <= steps_left(
            batch_step(run, reply, settings, files).0,
        ) < steps_left(run),
{
}

/// A run with the local provider asks no outside provider.
pub proof fn local_runs_ask_no_provider(
    run: BatchView,
    reply: ReplyView,
    settings: ConfigView,
    files: PathsView,
)
    requires
        run.provider == SummaryProvider::Local,
    ensures
        batch_step(run, reply, settings, files).0.provider == SummaryProvider::Local,
        batch_step(run, reply, settings, files).1 matches BatchNextView::Ask(step) ==> !(
        step is RunProvider),
{
}

/// A run keeps its provider and its amount of text, and a summary is stored under these: no run
/// switches to another provider.
pub proof fn runs_keep_their_provider(
    run: BatchView,
    reply: ReplyView,
    settings: ConfigView,
    files: PathsView,
)
    ensures
        batch_step(run, reply, settings, files).0.provider == run.provider,
        batch_step(run, reply, settings, files).0.cap == run.cap,
        batch_step(run, reply, settings, files).1 matches BatchNextView::Ask(
            StepView::StoreSummary { provider, cap, .. },
        ) ==> provider == run.provider && cap == run.cap,
{
}

/// Whether a run for a job has, once it is at the summary, the provider and the amount of text that
/// the job names.
pub open spec fn as_the_job_names(run: TaskView) -> bool {
    run.is_job && (run.stage == TaskStage::Announcing || run.stage == TaskStage::Reading || run.stage
        == TaskStage::Generating || run.stage == TaskStage::Storing) ==> provider_of_job(
        run.provider_name,
    ) == Ok::<SummaryProvider, Seq<char>>(run.provider) && cap_of_job(run.cap_name) == Ok::<
        SummaryInput,
        Seq<char>,
    >(run.cap)
}

/// A run for one thread switches neither provider nor amount of text. Without a job it keeps both. A
/// job is loaded once, and a run for it takes those that the job names and no others. A provider is
/// asked, and a summary is stored, with what the run has then.
pub proof fn tasks_keep_their_provider(
    run: TaskView,
    reply: ReplyView,
    settings: ConfigView,
    files: PathsView,
)
    ensures
        ({
            let next = task_step(run, reply, settings, files);
            &&& next.0.is_job == run.is_job
            &&& next.0.thread_id == run.thread_id
            &&& !run.is_job ==> next.0.provider == run.provider && next.0.cap == run.cap
            &&& run.stage != TaskStage::Loading ==> next.0.stage != TaskStage::Loading
                && next.0.provider_name == run.provider_name && next.0.cap_name == run.cap_name
            &&& run.stage != TaskStage::Upserting ==> next.0.provider == run.provider && next.0.cap
                == run.cap
            &&& as_the_job_names(run) ==> as_the_job_names(next.0)
            &&& next.1 matches TaskNextView::Ask(
                StepView::StoreSummary { thread_id, provider, cap, .. },
            ) ==> thread_id == run.thread_id && provider == run.provider && cap == run.cap
            &&& next.1 matches TaskNextView::Ask(StepView::RunProvider { generation }) ==> reply
                matches ReplyView::Messages(Ok(messages)) && run.thread matches Some(thread)
                && summarized(settings, files, thread, messages, run.provider, run.cap)
                == WorkView::Run(generation)
        }),
{
}

/// What a local run stores of the messages of a thread is a short title and a short summary, never
/// more of what was said.
pub proof fn local_runs_store_short_texts(
    run: BatchView,
    messages: Seq<MessageView>,
    settings: ConfigView,
    files: PathsView,
)
    requires
        run.provider == SummaryProvider::Local,
        run.stage == BatchStage::Reading,
    ensures
        batch_step(run, ReplyView::Messages(Ok(messages)), settings, files).1 matches BatchNextView::Ask(
            StepView::StoreSummary { result, .. },
        ) ==> result.title.len() <= summary::MAX_OUTPUT_CHARS && result.summary.len()
            <= summary::MAX_OUTPUT_CHARS,
{
    let own = SummaryView {
        title: summary::own_title(messages),
        summary: summary::own_summary(messages),
    };
    if summary::normal_result(own) is Ok {
        summary::results_are_normal(own);
    }
}

/// A thread whose messages could be read is kept, after a local run over it, with its metadata, its
/// own title and its own summary; what the user entered before stays.
pub proof fn local_runs_keep_threads_ready(
    data: DatabaseView,
    run: BatchView,
    messages: Seq<MessageView>,
    settings: ConfigView,
    files: PathsView,
    now: i64,
)
    requires
        counted(run),
        run.stage == BatchStage::Upserting,
        run.provider == SummaryProvider::Local,
        summary::local_result(messages) is Ok,
    ensures
        ({
            let thread = run.threads[run.at as int];
            let (kept, taken) = after_step(data, StepView::Upsert { metadata: thread }, now);
            let reading = batch_step(run, taken, settings, files);
            let storing = batch_step(
                reading.0,
                ReplyView::Messages(Ok(messages)),
                settings,
                files,
            );
            let (done, stored) = after_step(kept, storing.1->Ask_0, now);
            let ended = batch_step(storing.0, stored, settings, files);
            let session = done.sessions[thread.thread_id].session;
            &&& done.sessions.contains_key(thread.thread_id)
            &&& session.cwd == thread.cwd
            &&& session.generated_title == Some(summary::local_result(messages)->Ok_0.title)
            &&& session.generated_summary == Some(summary::local_result(messages)->Ok_0.summary)
            &&& session.summary_status == "ready"@
            &&& session.summary_provider == Some("local"@)
            &&& db::stored(data, thread.thread_id) matches Some(row) ==> session.manual_title
                == row.session.manual_title && session.notes == row.session.notes
                && session.tags == row.session.tags && session.pinned == row.session.pinned
            &&& ended.0.report.summarized == run.report.summarized + 1
            &&& ended.0.report.errors == run.report.errors
        }),
{
}

/// A thread whose messages could not be read is kept with its metadata, and the error is kept with
/// it and is in the report.
pub proof fn unread_threads_keep_their_metadata(
    data: DatabaseView,
    run: BatchView,
    error: Seq<char>,
    settings: ConfigView,
    files: PathsView,
    now: i64,
)
    requires
        counted(run),
        run.stage == BatchStage::Upserting,
    ensures
        ({
            let thread = run.threads[run.at as int];
            let message = thread.thread_id + ": "@ + error;
            let (kept, taken) = after_step(data, StepView::Upsert { metadata: thread }, now);
            let reading = batch_step(run, taken, settings, files);
            let failed = batch_step(reading.0, ReplyView::Messages(Err(error)), settings, files);
            let (done, marked) = after_step(kept, failed.1->Ask_0, now);
            let ended = batch_step(failed.0, marked, settings, files);
            let session = done.sessions[thread.thread_id].session;
            &&& done.sessions.contains_key(thread.thread_id)
            &&& session == (db::SessionView {
                summary_status: "error"@,
                summary_error: Some(message),
                ..kept.sessions[thread.thread_id].session
            })
            &&& ended.0.report.errors == run.report.errors.push(message)
            &&& ended.0.report.summarized == run.report.summarized
        }),
{
}

/// An error in a thread is noted with its session and does not end the run: the run fails only
/// where the threads cannot be listed, or on a reply to something else than it asked for.
pub proof fn errors_of_a_thread_do_not_end_the_run(
    run: BatchView,
    reply: ReplyView,
    settings: ConfigView,
    files: PathsView,
)
    requires
        run.stage != BatchStage::Listing,
        run.stage != BatchStage::Ended,
    ensures
        batch_step(run, reply, settings, files).1 is Fail ==> batch_step(
            run,
            reply,
            settings,
            files,
        ) == batch_confused(run),
        run.stage == BatchStage::Reading && (reply matches ReplyView::Messages(Err(_))) ==> (
        batch_step(run, reply, settings, files).1 matches BatchNextView::Ask(step)
            && step is MarkSummaryError),
{
}

/// What goes wrong with a job once its thread is taken in: a provider or an amount of text that
/// cannot be read. Nothing goes wrong without a job, or with one that asks for no summary.
pub open spec fn job_fault(run: TaskView) -> Option<Seq<char>> {
    if !run.is_job || run.provider_name == "metadata"@ {
        None
    } else {
        match (provider_of_job(run.provider_name), cap_of_job(run.cap_name)) {
            (Err(error), _) => Some(error),
            (_, Err(error)) => Some(error),
            _ => None,
        }
    }
}

/// What goes wrong with the work on one thread at a reply: what the reply says, a thread that is not
/// listed, a job that cannot be read, or a summary that cannot be made.
pub open spec fn work_error(
    run: TaskView,
    reply: ReplyView,
    settings: ConfigView,
    files: PathsView,
) -> Option<Seq<char>> {
    match (run.stage, reply) {
        (TaskStage::Listing, ReplyView::Threads(Err(error))) => Some(error),
        (TaskStage::Listing, ReplyView::Threads(Ok(threads))) => if first_named(
            threads,
            run.thread_id,
        ) is None {
            Some(not_listed(run.thread_id))
        } else {
            None
        },
        (TaskStage::Upserting, ReplyView::Upserted(Err(error))) => Some(error),
        (TaskStage::Upserting, ReplyView::Upserted(Ok(_))) => job_fault(run),
        (TaskStage::Reading, ReplyView::Messages(Err(error))) => Some(error),
        (TaskStage::Reading, ReplyView::Messages(Ok(messages))) => match run.thread {
            None => Some(not_listed(run.thread_id)),
            Some(thread) => match summarized(
                settings,
                files,
                thread,
                messages,
                run.provider,
                run.cap,
            ) {
                WorkView::Fail(error) => Some(error),
                _ => None,
            },
        },
        (TaskStage::Generating, ReplyView::Generated(Err(error))) => Some(error),
        (TaskStage::Declining, ReplyView::Written(Err(error))) => Some(error),
        (TaskStage::Announcing, ReplyView::Written(Err(error))) => Some(error),
        (TaskStage::Storing, ReplyView::Written(Err(error))) => Some(error),
        _ => None,
    }
}

/// Whatever goes wrong with the work on one thread is noted with its job, if there is one, and with
/// the session, before the run fails with it.
pub proof fn errors_of_a_task_are_noted(
    run: TaskView,
    reply: ReplyView,
    error: Seq<char>,
    settings: ConfigView,
    files: PathsView,
)
    requires
        work_error(run, reply, settings, files) == Some(error),
    ensures
        ({
            let first = task_step(run, reply, settings, files);
            let done = ReplyView::Written(Ok(()));
            let second = task_step(first.0, done, settings, files);
            let third = task_step(second.0, done, settings, files);
            let mark = TaskNextView::Ask(
                StepView::MarkSummaryError { thread_id: run.thread_id, error },
            );
            if run.is_job {
                &&& first.1 == TaskNextView::Ask(
                    StepView::FailJob { thread_id: run.thread_id, error },
                )
                &&& second.1 == mark
                &&& third.1 == TaskNextView::Fail(error)
            } else {
                &&& first.1 == mark
                &&& second.1 == TaskNextView::Fail(error)
            }
        }),
{
}

/// Where nothing goes wrong with the work, nothing is noted as an error, but for an error that was
/// noted with the job before and is now noted with the session.
pub proof fn only_errors_of_a_task_are_noted(
    run: TaskView,
    reply: ReplyView,
    settings: ConfigView,
    files: PathsView,
)
    requires
        work_error(run, reply, settings, files) is None,
    ensures
        task_step(run, reply, settings, files).1 matches TaskNextView::Ask(step) ==> !(
        step is FailJob) && (step matches StepView::MarkSummaryError { thread_id, error }
            ==> run.stage == TaskStage::FailingJob && thread_id == run.thread_id && error
            == run.error),
{
}

/// An error that is noted is kept: the session and its job carry its text.
pub proof fn noted_errors_are_kept(
    data: DatabaseView,
    thread_id: Seq<char>,
    error: Seq<char>,
    now: i64,
)
    requires
        data.sessions.contains_key(thread_id),
    ensures
        ({
            let failed = after_step(data, StepView::FailJob { thread_id, error }, now).0;
            let marked = after_step(failed, StepView::MarkSummaryError { thread_id, error }, now).0;
            let alone = after_step(data, StepView::MarkSummaryError { thread_id, error }, now).0;
            &&& data.jobs.contains_key(thread_id) ==> marked.jobs.contains_key(thread_id)
                && marked.jobs[thread_id].status == "error"@ && marked.jobs[thread_id].last_error
                == Some(error)
            &&& marked.sessions.contains_key(thread_id)
            &&& marked.sessions[thread_id].session.summary_status == "error"@
            &&& marked.sessions[thread_id].session.summary_error == Some(error)
            &&& alone.jobs == data.jobs
            &&& alone.sessions[thread_id].session.summary_status == "error"@
            &&& alone.sessions[thread_id].session.summary_error == Some(error)
        }),
{
}

/// Whether a run is for a job that asks for no summary, and has not gone on to make one.
pub open spec fn declines(run: TaskView) -> bool {
    &&& run.is_job
    &&& run.provider_name == "metadata"@
    &&& run.stage != TaskStage::Loading
    &&& run.stage != TaskStage::Announcing
    &&& run.stage != TaskStage::Reading
    &&& run.stage != TaskStage::Generating
    &&& run.stage != TaskStage::Storing
}

/// A job that asks for no summary only takes the thread in: its messages are not read and no
/// provider is asked.
pub proof fn metadata_jobs_make_no_summary(
    run: TaskView,
    reply: ReplyView,
    settings: ConfigView,
    files: PathsView,
)
    requires
        declines(run),
    ensures
        declines(task_step(run, reply, settings, files).0),
        task_step(run, reply, settings, files).1 matches TaskNextView::Ask(step) ==> !(
        step is ReadMessages) && !(step is RunProvider) && !(step is StoreSummary),
{
}

} // verus!
