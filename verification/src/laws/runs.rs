//! What holds of runs over threads, of the steps that they ask for and of the end of a session.

use vstd::prelude::*;

use crate::app_server::MessageView;
use crate::config;
use crate::config::{Config, ConfigView, OnClose, SummaryInput, SummaryProvider};
use crate::db::{DatabaseView, MetadataView};
use crate::hook;
use crate::hook::EndView;
use crate::laws::sessions;
use crate::laws::texts;
use crate::paths::PathsView;
use crate::summary;
use crate::summary::SummaryView;
use crate::sync;
use crate::sync::{
    BatchNextView, BatchRun, BatchStage, BatchView, ReplyView, Step, StepView,
    TaskNextView, TaskRun, TaskStage, TaskView,
};

verus! {

/// A run over all threads starts with the first of them, and goes through all that were listed. Where
/// none was listed, it reports nothing, or fails where there have to be some.
pub proof fn runs_start_with_the_first_thread(
    run: BatchView,
    threads: Seq<MetadataView>,
    settings: ConfigView,
    files: PathsView,
)
    requires
        run.stage == BatchStage::Listing,
        run.at == 0,
    ensures
        ({
            let next = sync::batch_step(run, ReplyView::Threads(Ok(threads)), settings, files);
            &&& threads.len() > 0 ==> next.0.threads == threads && next.0.at == 0 && next.0.report
                == run.report && next.1 == BatchNextView::Ask(
                StepView::Upsert { metadata: threads[0] },
            )
            &&& threads.len() == 0 && !run.needs_threads ==> next.1 == BatchNextView::Report(
                run.report,
            )
            &&& threads.len() == 0 && run.needs_threads ==> next.1 is Fail
        }),
{
}

/// A thread whose metadata was kept is counted as new or as known, and then its messages are read.
pub proof fn kept_threads_are_counted_and_read(
    run: BatchView,
    fresh: bool,
    settings: ConfigView,
    files: PathsView,
)
    requires
        run.stage == BatchStage::Upserting,
        run.at < run.threads.len(),
        run.report.imported < usize::MAX,
        run.report.updated < usize::MAX,
    ensures
        ({
            let next = sync::batch_step(run, ReplyView::Upserted(Ok(fresh)), settings, files);
            &&& next.1 == BatchNextView::Ask(
                StepView::ReadMessages { thread_id: run.threads[run.at as int].thread_id },
            )
            &&& next.0.report.imported == run.report.imported + (if fresh {
                1int
            } else {
                0int
            })
            &&& next.0.report.updated == run.report.updated + (if fresh {
                0int
            } else {
                1int
            })
            &&& next.0.report.summarized == run.report.summarized
            &&& next.0.report.errors == run.report.errors
            &&& next.0.at == run.at
            &&& next.0.threads == run.threads
        }),
{
}

/// Without an outside provider the messages of a thread are summarized at once, and else the provider
/// is asked with them, in the directory of the thread and with the amount of text of the run.
pub proof fn messages_are_summarized_as_the_run_says(
    run: BatchView,
    messages: Seq<MessageView>,
    settings: ConfigView,
    files: PathsView,
)
    requires
        run.stage == BatchStage::Reading,
        run.at < run.threads.len(),
    ensures
        ({
            let thread = run.threads[run.at as int];
            let next = sync::batch_step(run, ReplyView::Messages(Ok(messages)), settings, files);
            &&& run.provider == SummaryProvider::Local ==> (summary::local_result(messages)
                matches Ok(result) ==> next.1 == BatchNextView::Ask(
                StepView::StoreSummary {
                    thread_id: thread.thread_id,
                    result,
                    provider: SummaryProvider::Local,
                    cap: run.cap,
                },
            ))
            &&& run.provider != SummaryProvider::Local ==> next.1 == BatchNextView::Ask(
                StepView::RunProvider {
                    generation: summary::generation(
                        run.provider,
                        run.cap,
                        messages,
                        thread.cwd,
                        settings,
                        files,
                    ),
                },
            )
            &&& next.0.at == run.at
            &&& next.0.threads == run.threads
        }),
{
}

/// What a provider made of a thread is stored with that thread, under the provider and the amount of
/// text of the run.
pub proof fn answers_are_stored_with_their_thread(
    run: BatchView,
    result: SummaryView,
    settings: ConfigView,
    files: PathsView,
)
    requires
        run.stage == BatchStage::Generating,
        run.at < run.threads.len(),
    ensures
        ({
            let next = sync::batch_step(run, ReplyView::Generated(Ok(result)), settings, files);
            &&& next.1 == BatchNextView::Ask(
                StepView::StoreSummary {
                    thread_id: run.threads[run.at as int].thread_id,
                    result,
                    provider: run.provider,
                    cap: run.cap,
                },
            )
            &&& next.0.at == run.at
            &&& next.0.report == run.report
        }),
{
}

/// After a thread comes the next one, and after the last one the report.
pub proof fn threads_come_one_after_the_other(
    run: BatchView,
    settings: ConfigView,
    files: PathsView,
)
    requires
        run.stage == BatchStage::Storing,
        run.at < run.threads.len() <= usize::MAX,
        run.report.summarized < usize::MAX,
    ensures
        ({
            let next = sync::batch_step(run, ReplyView::Written(Ok(())), settings, files);
            &&& next.0.at == run.at + 1
            &&& next.0.report.summarized == run.report.summarized + 1
            &&& next.0.report.imported == run.report.imported
            &&& next.0.report.updated == run.report.updated
            &&& next.0.report.errors == run.report.errors
            &&& run.at + 1 < run.threads.len() ==> next.1 == BatchNextView::Ask(
                StepView::Upsert { metadata: run.threads[run.at + 1] },
            )
            &&& run.at + 1 == run.threads.len() ==> next.1 == BatchNextView::Report(next.0.report)
        }),
{
}

/// What goes wrong with a thread is told with its name, and the run goes on with the next thread.
pub proof fn errors_name_their_thread(
    run: BatchView,
    reply: ReplyView,
    error: Seq<char>,
    settings: ConfigView,
    files: PathsView,
)
    requires
        run.at < run.threads.len() <= usize::MAX,
        run.stage == BatchStage::Upserting && reply == ReplyView::Upserted(Err(error)) || run.stage
            == BatchStage::Reading && reply == ReplyView::Messages(Err(error)) || run.stage
            == BatchStage::Generating && reply == ReplyView::Generated(Err(error)) || run.stage
            == BatchStage::Storing && reply == ReplyView::Written(Err(error)),
    ensures
        ({
            let id = run.threads[run.at as int].thread_id;
            let next = sync::batch_step(run, reply, settings, files);
            let message = if run.stage == BatchStage::Upserting {
                id + ": persist metadata: "@ + error
            } else {
                id + ": "@ + error
            };
            &&& next.0.report.errors == run.report.errors.push(message)
            &&& next.0.report.summarized == run.report.summarized
            &&& next.0.report.imported == run.report.imported
            &&& run.stage != BatchStage::Upserting ==> next.1 == BatchNextView::Ask(
                StepView::MarkSummaryError { thread_id: id, error: message },
            ) && next.0.at == run.at
            &&& run.stage == BatchStage::Upserting ==> next.0.at == run.at + 1 && (run.at + 1
                < run.threads.len() ==> next.1 == BatchNextView::Ask(
                StepView::Upsert { metadata: run.threads[run.at + 1] },
            ))
        }),
{
}

/// A sync summarizes without an outside provider, whatever is configured, and asks for the threads of
/// the sources that are visible.
pub proof fn syncs_are_local(config: &Config, start: (BatchRun, Step))
    requires
        call_ensures(sync::sync_all, (config,), start),
    ensures
        start.0@.provider == SummaryProvider::Local,
        start.0@.stage == BatchStage::Listing,
        start.0@.at == 0,
        !start.0@.needs_threads,
        start.0@.report.imported == 0,
        start.0@.report.updated == 0,
        start.0@.report.summarized == 0,
        start.0@.report.errors.len() == 0,
        start.1@ == (StepView::ListThreads { sources: config@.sources }),
{
}

/// To summarize all threads is done with the provider and the amount of text that were asked for.
pub proof fn summaries_of_all_are_as_asked_for(
    config: &Config,
    provider: SummaryProvider,
    cap: SummaryInput,
    start: (BatchRun, Step),
)
    requires
        call_ensures(sync::summarize_all, (config, provider, cap), start),
    ensures
        start.0@.provider == provider,
        start.0@.cap == cap,
        start.0@.stage == BatchStage::Listing,
        start.0@.needs_threads,
        start.1@ == (StepView::ListThreads { sources: config@.sources }),
{
}

/// To summarize one thread is done with the provider and the amount of text that were asked for. It is
/// noted first that the summary is pending.
pub proof fn summaries_of_one_are_as_asked_for(
    config: &Config,
    thread_id: &str,
    provider: SummaryProvider,
    cap: SummaryInput,
    start: (TaskRun, Step),
)
    requires
        call_ensures(sync::summarize_one, (config, thread_id, provider, cap), start),
    ensures
        start.0@.provider == provider,
        start.0@.cap == cap,
        start.0@.thread_id == thread_id@,
        !start.0@.is_job,
        start.0@.sources == config@.sources,
        start.0@.stage == TaskStage::Starting,
        start.1@ == (StepView::MarkPending { thread_id: thread_id@ }),
{
}

/// The worker for a session looks up its job first.
pub proof fn workers_look_up_their_job(
    config: &Config,
    thread_id: &str,
    start: (TaskRun, Step),
)
    requires
        call_ensures(hook::process_job, (config, thread_id), start),
    ensures
        start.0@.thread_id == thread_id@,
        start.0@.is_job,
        start.0@.stage == TaskStage::Loading,
        start.0@.sources == config@.sources,
        start.1@ == (StepView::LoadJob { thread_id: thread_id@ }),
{
}

/// A command to summarize goes by what is given with it, and else by what is configured. It has to be
/// confirmed where it is for all threads and was not confirmed with it.
pub proof fn commands_go_before_the_configuration(
    config: &Config,
    provider: Option<SummaryProvider>,
    cap: Option<SummaryInput>,
    all: bool,
    yes: bool,
    plan: crate::commands::SummarizePlan,
)
    requires
        call_ensures(crate::commands::plan_summarize, (config, provider, cap, all, yes), plan),
    ensures
        provider matches Some(given) ==> plan.provider == given,
        provider is None ==> plan.provider == config@.summary_provider,
        cap matches Some(given) ==> plan.cap == given,
        cap is None ==> plan.cap == config@.summary_input,
        plan.confirm <==> all && !yes,
{
}

/// Of the threads that are listed the first with the name is found, and none just where none has it.
pub proof fn threads_are_found_by_their_name(
    before: Seq<MetadataView>,
    thread: MetadataView,
    after: Seq<MetadataView>,
)
    requires
        forall|i: int| 0 <= i < before.len() ==> (#[trigger] before[i]).thread_id
            != thread.thread_id,
    ensures
        sync::first_named(before + seq![thread] + after, thread.thread_id) == Some(thread),
        sync::first_named(before, thread.thread_id) is None,
    decreases before.len(),
{
    let all = before + seq![thread] + after;
    if before.len() > 0 {
        let rest = before.drop_first();
        assert forall|i: int| 0 <= i < rest.len() implies (#[trigger] rest[i]).thread_id
            != thread.thread_id by {
            assert(rest[i] == before[i + 1]);
        }
        threads_are_found_by_their_name(rest, thread, after);
        assert(all[0] == before[0]);
        assert(before[0].thread_id != thread.thread_id);
        assert(all.drop_first() =~= rest + seq![thread] + after);
    } else {
        assert(all[0] == thread);
    }
}

/// The work on one thread goes from step to step: the threads of the visible sources are listed, the
/// thread is found among them and kept, its messages are read, summarized with the provider and the
/// amount of text of the run, and the summary is stored with it.
pub proof fn tasks_go_from_step_to_step(
    run: TaskView,
    thread: MetadataView,
    threads: Seq<MetadataView>,
    fresh: bool,
    messages: Seq<MessageView>,
    result: SummaryView,
    settings: ConfigView,
    files: PathsView,
)
    ensures
        run.stage == TaskStage::Starting ==> sync::task_step(
            run,
            ReplyView::Written(Ok(())),
            settings,
            files,
        ).1 == TaskNextView::Ask(StepView::ListThreads { sources: run.sources }),
        run.stage == TaskStage::Listing && sync::first_named(threads, run.thread_id) == Some(thread)
            ==> sync::task_step(run, ReplyView::Threads(Ok(threads)), settings, files).1
            == TaskNextView::Ask(StepView::Upsert { metadata: thread }) && sync::task_step(
            run,
            ReplyView::Threads(Ok(threads)),
            settings,
            files,
        ).0.thread == Some(thread),
        run.stage == TaskStage::Upserting && !run.is_job ==> sync::task_step(
            run,
            ReplyView::Upserted(Ok(fresh)),
            settings,
            files,
        ).1 == TaskNextView::Ask(StepView::ReadMessages { thread_id: run.thread_id }),
        run.stage == TaskStage::Reading && run.thread == Some(thread) && run.provider
            != SummaryProvider::Local ==> sync::task_step(
            run,
            ReplyView::Messages(Ok(messages)),
            settings,
            files,
        ).1 == TaskNextView::Ask(
            StepView::RunProvider {
                generation: summary::generation(
                    run.provider,
                    run.cap,
                    messages,
                    thread.cwd,
                    settings,
                    files,
                ),
            },
        ),
        run.stage == TaskStage::Reading && run.thread == Some(thread) && run.provider
            == SummaryProvider::Local ==> (summary::local_result(messages) matches Ok(made)
            ==> sync::task_step(run, ReplyView::Messages(Ok(messages)), settings, files).1
            == TaskNextView::Ask(
            StepView::StoreSummary {
                thread_id: run.thread_id,
                result: made,
                provider: SummaryProvider::Local,
                cap: run.cap,
            },
        )),
        run.stage == TaskStage::Generating ==> sync::task_step(
            run,
            ReplyView::Generated(Ok(result)),
            settings,
            files,
        ).1 == TaskNextView::Ask(
            StepView::StoreSummary {
                thread_id: run.thread_id,
                result,
                provider: run.provider,
                cap: run.cap,
            },
        ),
        run.stage == TaskStage::Storing && !run.is_job ==> sync::task_step(
            run,
            ReplyView::Written(Ok(())),
            settings,
            files,
        ).1 is Done,
        run.stage == TaskStage::Storing && run.is_job ==> sync::task_step(
            run,
            ReplyView::Written(Ok(())),
            settings,
            files,
        ).1 == TaskNextView::Ask(StepView::FinishJob { thread_id: run.thread_id }),
{
}

/// The work for a job goes by what the job names: it is begun, and once its thread is kept, the summary
/// is pending with the provider and the amount of text that are named. A job that names none asks for
/// no summary.
pub proof fn jobs_are_done_as_they_say(
    run: TaskView,
    job: crate::db::JobView,
    fresh: bool,
    provider: SummaryProvider,
    cap: SummaryInput,
    settings: ConfigView,
    files: PathsView,
)
    requires
        run.is_job,
    ensures
        run.stage == TaskStage::Loading ==> {
            let next = sync::task_step(run, ReplyView::Loaded(Ok(Some(job))), settings, files);
            &&& next.0.provider_name == job.provider
            &&& next.0.cap_name == job.cap
            &&& next.1 == TaskNextView::Ask(StepView::StartJob { thread_id: run.thread_id })
        },
        run.stage == TaskStage::Loading ==> sync::task_step(
            run,
            ReplyView::Loaded(Ok(None)),
            settings,
            files,
        ).1 is Fail,
        run.stage == TaskStage::Upserting && sessions::names_provider(provider, run.provider_name)
            && sessions::names_cap(cap, run.cap_name) && cap != SummaryInput::Custom(0) ==> {
            let next = sync::task_step(run, ReplyView::Upserted(Ok(fresh)), settings, files);
            &&& next.0.provider == provider
            &&& next.0.cap == cap
            &&& next.1 == TaskNextView::Ask(StepView::MarkPending { thread_id: run.thread_id })
        },
        run.stage == TaskStage::Upserting && run.provider_name == "metadata"@ ==> sync::task_step(
            run,
            ReplyView::Upserted(Ok(fresh)),
            settings,
            files,
        ).1 == TaskNextView::Ask(StepView::MarkNotRequested { thread_id: run.thread_id }),
        run.stage == TaskStage::Announcing ==> sync::task_step(
            run,
            ReplyView::Written(Ok(())),
            settings,
            files,
        ).1 == TaskNextView::Ask(StepView::ReadMessages { thread_id: run.thread_id }),
{
    if sessions::names_provider(provider, run.provider_name) && sessions::names_cap(
        cap,
        run.cap_name,
    ) && cap != SummaryInput::Custom(0) {
        reveal_strlit("metadata");
        reveal_strlit("local");
        reveal_strlit("codex");
        reveal_strlit("openai");
        assert("metadata"@.len() == 8 && "local"@.len() == 5 && "codex"@.len() == 5
            && "openai"@.len() == 6);
        config::names_read_back(provider, OnClose::Manual, crate::config::SourceKind::Cli);
        config::input_names_read_back(cap);
        assert(run.provider_name == config::provider_name(provider));
        assert(run.cap_name == config::input_name(cap));
    }
}

/// What a step stores is in the database after it: a summary with its title and its text in their
/// places, a state with its error, and how a job stands.
pub proof fn steps_store_what_they_say(
    data: DatabaseView,
    thread_id: Seq<char>,
    result: SummaryView,
    provider: SummaryProvider,
    cap: SummaryInput,
    error: Seq<char>,
    now: i64,
)
    requires
        data.sessions.contains_key(thread_id),
        data.jobs.contains_key(thread_id),
    ensures
        ({
            let after = sync::after_step(
                data,
                StepView::StoreSummary { thread_id, result, provider, cap },
                now,
            ).0;
            let session = after.sessions[thread_id].session;
            &&& session.generated_title == Some(result.title)
            &&& session.generated_summary == Some(result.summary)
            &&& session.summary_provider is Some && sessions::names_provider(
                provider,
                session.summary_provider->Some_0,
            )
            &&& session.summary_cap is Some && sessions::names_cap(cap, session.summary_cap->Some_0)
            &&& session.summary_status == "ready"@
        }),
        sync::after_step(
            data,
            StepView::MarkPending { thread_id },
            now,
        ).0.sessions[thread_id].session.summary_status == "pending"@,
        sync::after_step(
            data,
            StepView::MarkNotRequested { thread_id },
            now,
        ).0.sessions[thread_id].session.summary_status == "not_requested"@,
        sync::after_step(
            data,
            StepView::MarkSummaryError { thread_id, error },
            now,
        ).0.sessions[thread_id].session.summary_error == Some(error),
        sync::after_step(data, StepView::StartJob { thread_id }, now).0.jobs[thread_id].status
            == "running"@,
        sync::after_step(data, StepView::FinishJob { thread_id }, now).0.jobs[thread_id].status
            == "done"@,
        sync::after_step(
            data,
            StepView::FailJob { thread_id, error },
            now,
        ).0.jobs[thread_id].last_error == Some(error),
{
}

/// A thread that a step takes in is new just where it was not kept before.
pub proof fn new_threads_are_told(data: DatabaseView, metadata: MetadataView, now: i64)
    ensures
        sync::after_step(data, StepView::Upsert { metadata }, now).1 == ReplyView::Upserted(
            Ok(!data.sessions.contains_key(metadata.thread_id)),
        ),
        sync::after_step(
            data,
            StepView::Upsert { metadata },
            now,
        ).0.sessions.contains_key(metadata.thread_id),
{
}

/// When a session ends, a job is queued with the provider that is configured and the amount of text
/// that is configured, or with the local provider, or with none, as the configuration says. A worker
/// reads from the job just what was configured.
pub proof fn ends_queue_what_is_configured(
    data: DatabaseView,
    event: EndView,
    settings: ConfigView,
    now: i64,
)
    requires
        settings.summary_input != SummaryInput::Custom(0),
    ensures
        ({
            let job = hook::after_session_end(data, event, settings, now).jobs[event.session_id];
            &&& settings.on_close == OnClose::Automatic ==> sessions::names_provider(
                settings.summary_provider,
                job.provider,
            )
            &&& settings.on_close == OnClose::LocalFirst ==> job.provider == "local"@
            &&& settings.on_close == OnClose::Manual ==> job.provider == "metadata"@
            &&& sessions::names_cap(settings.summary_input, job.cap)
            &&& settings.on_close == OnClose::Automatic ==> sync::provider_of_job(job.provider)
                == Ok::<SummaryProvider, Seq<char>>(settings.summary_provider)
            &&& sync::cap_of_job(job.cap) == Ok::<SummaryInput, Seq<char>>(settings.summary_input)
            &&& job.status == "queued"@
        }),
{
    config::names_read_back(
        settings.summary_provider,
        OnClose::Manual,
        crate::config::SourceKind::Cli,
    );
    config::input_names_read_back(settings.summary_input);
}

/// The report of an end is refused just where it is of another event, or names no session or no
/// directory.
pub proof fn reports_need_a_session_and_a_directory(event: EndView)
    ensures
        hook::end_fault(event) is None <==> event.hook_event_name == "SessionEnd"@
            && texts::says_something(event.session_id) && texts::says_something(event.cwd),
{
    texts::trimming_keeps_the_core(event.session_id);
    texts::trimming_keeps_the_core(event.cwd);
}

/// The worker is started for the session, and with nothing else.
pub proof fn workers_are_started_for_the_session(thread_id: Seq<char>)
    ensures
        hook::worker_args(thread_id).len() == 3,
        hook::worker_args(thread_id)[0] == "worker"@,
        hook::worker_args(thread_id)[1] == "--thread-id"@,
        hook::worker_args(thread_id)[2] == thread_id,
{
}

/// A job fails where its provider or its amount of text cannot be read, and the fault is noted with it.
/// One that asks for a summary goes on only where both can be read.
pub proof fn unreadable_jobs_fail(
    run: TaskView,
    fresh: bool,
    settings: ConfigView,
    files: PathsView,
)
    requires
        run.is_job,
        run.stage == TaskStage::Upserting,
        run.provider_name != "metadata"@,
    ensures
        ({
            let next = sync::task_step(run, ReplyView::Upserted(Ok(fresh)), settings, files);
            &&& config::provider_named(run.provider_name) is None || config::input_named(
                run.cap_name,
            ) is None <==> (next.1 matches TaskNextView::Ask(StepView::FailJob { thread_id, error })
                && thread_id == run.thread_id && next.0.error == error)
            &&& config::provider_named(run.provider_name) is Some && config::input_named(
                run.cap_name,
            ) is Some <==> next.1 == TaskNextView::Ask(
                StepView::MarkPending { thread_id: run.thread_id },
            )
        }),
{
}

/// An error of a task is noted with its session, and with its job where it has one. It is what the task
/// ends with.
pub proof fn task_errors_are_noted(
    run: TaskView,
    error: Seq<char>,
    settings: ConfigView,
    files: PathsView,
)
    ensures
        run.stage == TaskStage::Generating ==> {
            let next = sync::task_step(run, ReplyView::Generated(Err(error)), settings, files);
            &&& next.0.error == error
            &&& run.is_job ==> next.1 == TaskNextView::Ask(
                StepView::FailJob { thread_id: run.thread_id, error },
            )
            &&& !run.is_job ==> next.1 == TaskNextView::Ask(
                StepView::MarkSummaryError { thread_id: run.thread_id, error },
            )
        },
        run.stage == TaskStage::Reading ==> {
            let next = sync::task_step(run, ReplyView::Messages(Err(error)), settings, files);
            next.0.error == error && (next.1 matches TaskNextView::Ask(step) && (step is FailJob
                || step is MarkSummaryError))
        },
        run.stage == TaskStage::FailingJob ==> sync::task_step(
            run,
            ReplyView::Written(Ok(())),
            settings,
            files,
        ).1 == TaskNextView::Ask(
            StepView::MarkSummaryError { thread_id: run.thread_id, error: run.error },
        ),
        run.stage == TaskStage::FailingSummary ==> sync::task_step(
            run,
            ReplyView::Written(Ok(())),
            settings,
            files,
        ).1 == TaskNextView::Fail(run.error),
{
}

} // verus!
