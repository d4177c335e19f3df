//! What holds of the sessions and the jobs that are kept.

use vstd::prelude::*;

use crate::config::{SummaryInput, SummaryProvider};
use crate::db;
use crate::db::{DatabaseView, JobView, MetadataView, SessionView, StoredView};
use crate::laws::texts;
use crate::summary;
use crate::text;

verus! {

/// Whether a session is listed by the time `t`: when it was last used, as far as that is known, or
/// when it was updated, or when it ended, or when it was begun.
pub open spec fn is_time_of(session: SessionView, t: i64) -> bool {
    ||| session.recency_at == Some(t)
    ||| session.recency_at is None && session.updated_at == Some(t)
    ||| session.recency_at is None && session.updated_at is None && session.ended_at == Some(t)
    ||| session.recency_at is None && session.updated_at is None && session.ended_at is None
        && session.created_at == Some(t)
    ||| session.recency_at is None && session.updated_at is None && session.ended_at is None
        && session.created_at is None && t == 0
}

/// In a listing, among sessions that are pinned and among those that are not, a later one comes
/// first, and of two of the same time the one whose name comes first. Where it is known when sessions
/// were last used, that alone counts.
pub proof fn later_sessions_come_first(
    sessions: Map<Seq<char>, StoredView>,
    list: Seq<SessionView>,
    i: int,
    j: int,
    s: i64,
    t: i64,
)
    requires
        db::is_listing(sessions, list),
        0 <= i < list.len(),
        0 <= j < list.len(),
        list[i].pinned == list[j].pinned,
        is_time_of(list[i], s),
        is_time_of(list[j], t),
    ensures
        s > t ==> i < j,
        s == t && text::precedes(list[i].thread_id, list[j].thread_id) ==> i < j,
        list[i].recency_at matches Some(x) ==> (list[j].recency_at matches Some(y) ==> (x > y ==> i
            < j)),
{
    if i != j {
        if i < j {
            assert(db::listed_before(list[i], list[j]));
        } else {
            assert(db::listed_before(list[j], list[i]));
        }
    }
    text::precedes_is_total(list[i].thread_id, list[j].thread_id);
}

/// Pinned sessions come before all others, however late those are.
pub proof fn pins_come_first(a: SessionView, b: SessionView)
    requires
        a.pinned,
        !b.pinned,
    ensures
        db::listed_before(a, b),
        !db::listed_before(b, a),
{
}

/// A listing has every session that is kept, just as it is kept, once, and no other.
pub proof fn listings_hold_every_session_once(
    sessions: Map<Seq<char>, StoredView>,
    list: Seq<SessionView>,
    id: Seq<char>,
)
    requires
        db::is_listing(sessions, list),
        forall|key: Seq<char>|
            sessions.contains_key(key) ==> (#[trigger] sessions[key]).session.thread_id == key,
    ensures
        sessions.contains_key(id) <==> exists|i: int|
            0 <= i < list.len() && (#[trigger] list[i]).thread_id == id,
        sessions.contains_key(id) ==> list.contains(sessions[id].session),
        forall|i: int, j: int|
            0 <= i < j < list.len() ==> (#[trigger] list[i]).thread_id != (
            #[trigger] list[j]).thread_id,
{
    if sessions.contains_key(id) {
        let i = choose|i: int| 0 <= i < list.len() && (#[trigger] list[i]).thread_id == id;
        assert(list[i] == sessions[id].session);
    }
    assert forall|i: int, j: int| 0 <= i < j < list.len() implies (#[trigger] list[i]).thread_id
        != (#[trigger] list[j]).thread_id by {
        assert(db::listed_before(list[i], list[j]));
        text::precedes_is_total(list[i].thread_id, list[j].thread_id);
        if list[i].thread_id == list[j].thread_id {
            assert(list[i] == sessions[list[i].thread_id].session);
            assert(list[j] == sessions[list[j].thread_id].session);
        }
    }
}

/// Whether `kept` is what is kept where `told` is what was told and `known` what was known before:
/// what was told, or what was known where nothing was told.
pub open spec fn updated<T>(told: Option<T>, known: Option<T>, kept: Option<T>) -> bool {
    if told is Some {
        kept == told
    } else {
        kept == known
    }
}

/// A thread that is listed for the first time is kept with all that is told of it, and nothing
/// besides: no summary, no notes, no tags and no pin.
pub proof fn new_threads_are_kept_as_told(data: DatabaseView, metadata: MetadataView, now: i64)
    requires
        !data.sessions.contains_key(metadata.thread_id),
    ensures
        ({
            let after = db::after_listing(data, metadata, now);
            let session = after.sessions[metadata.thread_id].session;
            &&& after.sessions.contains_key(metadata.thread_id)
            &&& after.sessions[metadata.thread_id].last_synced_at == now
            &&& session.thread_id == metadata.thread_id
            &&& session.cwd == metadata.cwd
            &&& session.source == metadata.source
            &&& session.model == metadata.model
            &&& session.model_provider == metadata.model_provider
            &&& session.created_at == metadata.created_at
            &&& session.updated_at == metadata.updated_at
            &&& session.recency_at == metadata.recency_at
            &&& session.ended_at is None
            &&& session.generated_title == metadata.generated_title
            &&& session.generated_summary is None
            &&& session.manual_title is None
            &&& session.manual_summary is None
            &&& session.notes.len() == 0
            &&& !session.pinned
            &&& session.tags.len() == 0
            &&& session.summary_status == "not_requested"@
            &&& session.summary_error is None
        }),
{
    reveal_strlit("");
}

/// A thread that is listed again has what is told of it now, and keeps what was known where nothing
/// is told. An empty title is none.
pub proof fn known_threads_are_brought_up_to_date(
    data: DatabaseView,
    metadata: MetadataView,
    now: i64,
)
    requires
        data.sessions.contains_key(metadata.thread_id),
    ensures
        ({
            let before = data.sessions[metadata.thread_id].session;
            let after = db::after_listing(data, metadata, now);
            let session = after.sessions[metadata.thread_id].session;
            &&& after.sessions[metadata.thread_id].last_synced_at == now
            &&& session.thread_id == before.thread_id
            &&& session.cwd == metadata.cwd
            &&& session.source == metadata.source
            &&& updated(metadata.model, before.model, session.model)
            &&& updated(metadata.model_provider, before.model_provider, session.model_provider)
            &&& updated(metadata.created_at, before.created_at, session.created_at)
            &&& updated(metadata.updated_at, before.updated_at, session.updated_at)
            &&& updated(metadata.recency_at, before.recency_at, session.recency_at)
            &&& metadata.generated_title matches Some(title) ==> session.generated_title == (
            if title.len() > 0 {
                Some(title)
            } else {
                before.generated_title
            })
            &&& metadata.generated_title is None ==> session.generated_title
                == before.generated_title
            &&& session.summary_provider == before.summary_provider
            &&& session.summary_cap == before.summary_cap
        }),
{
}

/// A session whose end is reported is kept with the directory and the time of its end. One that was
/// not known has nothing else yet.
pub proof fn ends_are_noted(
    data: DatabaseView,
    thread_id: Seq<char>,
    cwd: Seq<char>,
    ended_at: i64,
)
    ensures
        ({
            let after = db::after_hook(data, thread_id, cwd, ended_at);
            let session = after.sessions[thread_id].session;
            &&& after.sessions.contains_key(thread_id)
            &&& session.cwd == cwd
            &&& session.ended_at == Some(ended_at)
            &&& !data.sessions.contains_key(thread_id) ==> {
                &&& session.thread_id == thread_id
                &&& session.source == "unknown"@
                &&& session.summary_status == "pending_metadata"@
                &&& session.recency_at is None
                &&& session.updated_at is None
                &&& session.created_at is None
                &&& session.generated_title is None
                &&& session.generated_summary is None
                &&& session.manual_title is None
                &&& session.manual_summary is None
                &&& !session.pinned
                &&& session.tags.len() == 0
                &&& session.notes.len() == 0
            }
            &&& data.sessions.contains_key(thread_id) ==> {
                let before = data.sessions[thread_id].session;
                &&& session.recency_at == before.recency_at
                &&& session.updated_at == before.updated_at
                &&& session.generated_title == before.generated_title
                &&& session.generated_summary == before.generated_summary
                &&& session.manual_title == before.manual_title
                &&& session.manual_summary == before.manual_summary
                &&& session.notes == before.notes
                &&& session.pinned == before.pinned
                &&& session.tags == before.tags
                &&& session.summary_status == before.summary_status
            }
        }),
{
    reveal_strlit("");
}

/// The names of the amounts of text that a summary was made of.
pub open spec fn names_cap(cap: SummaryInput, name: Seq<char>) -> bool {
    match cap {
        SummaryInput::SixteenK => name == "16k"@,
        SummaryInput::SixtyFourK => name == "64k"@,
        SummaryInput::Entire => name == "entire"@,
        SummaryInput::Custom(n) => name == "custom:"@ + text::decimal(n as nat),
    }
}

/// The names of the providers.
pub open spec fn names_provider(provider: SummaryProvider, name: Seq<char>) -> bool {
    match provider {
        SummaryProvider::Local => name == "local"@,
        SummaryProvider::Codex => name == "codex"@,
        SummaryProvider::Openai => name == "openai"@,
    }
}

/// A summary is stored with its title and its text, each in its place, and with the provider and the
/// amount of text that it was made with. The session is then ready and has no error. What the user
/// entered stays.
pub proof fn summaries_are_stored_with_their_provider(
    data: DatabaseView,
    thread_id: Seq<char>,
    title: Seq<char>,
    told: Seq<char>,
    provider: SummaryProvider,
    cap: SummaryInput,
    now: i64,
)
    ensures
        data.sessions.contains_key(thread_id) ==> {
            let before = data.sessions[thread_id].session;
            let after = db::after_summary(data, thread_id, title, told, provider, cap, now);
            let session = after.sessions[thread_id].session;
            &&& after.sessions.contains_key(thread_id)
            &&& session.generated_title == Some(title)
            &&& session.generated_summary == Some(told)
            &&& session.summary_provider is Some && names_provider(
                provider,
                session.summary_provider->Some_0,
            )
            &&& session.summary_cap is Some && names_cap(cap, session.summary_cap->Some_0)
            &&& session.summary_status == "ready"@
            &&& session.summary_error is None
            &&& session.manual_title == before.manual_title
            &&& session.manual_summary == before.manual_summary
            &&& session.notes == before.notes
            &&& session.tags == before.tags
            &&& session.pinned == before.pinned
            &&& session.cwd == before.cwd
            &&& session.recency_at == before.recency_at
            &&& session.ended_at == before.ended_at
        },
        !data.sessions.contains_key(thread_id) ==> db::after_summary(
            data,
            thread_id,
            title,
            told,
            provider,
            cap,
            now,
        ) == data,
{
}

/// A change of a session is kept, and nothing else is changed with it. There is nothing to change where
/// there is no session.
pub proof fn changes_are_kept(data: DatabaseView, thread_id: Seq<char>, session: SessionView)
    ensures
        data.sessions.contains_key(thread_id) ==> {
            let after = db::with_session(data, thread_id, session);
            &&& after.sessions.dom() == data.sessions.dom()
            &&& after.sessions[thread_id].session == session
            &&& after.sessions[thread_id].last_synced_at
                == data.sessions[thread_id].last_synced_at
            &&& after.tag_names == data.tag_names
            &&& after.jobs == data.jobs
        },
        !data.sessions.contains_key(thread_id) ==> db::with_session(data, thread_id, session)
            == data,
{
    if data.sessions.contains_key(thread_id) {
        assert(db::with_session(data, thread_id, session).sessions.dom()
            =~= data.sessions.dom());
    }
}

/// How a summary stands is all that is changed when it is marked.
pub proof fn marks_change_the_state_alone(
    data: DatabaseView,
    thread_id: Seq<char>,
    status: Seq<char>,
    error: Option<Seq<char>>,
)
    requires
        data.sessions.contains_key(thread_id),
    ensures
        ({
            let before = data.sessions[thread_id];
            let after = db::after_status(data, thread_id, status, error);
            &&& after.sessions.contains_key(thread_id)
            &&& after.sessions[thread_id].session.summary_status == status
            &&& after.sessions[thread_id].session.summary_error == error
            &&& after.sessions[thread_id].session.generated_summary
                == before.session.generated_summary
            &&& after.sessions[thread_id].session.generated_title == before.session.generated_title
            &&& after.sessions[thread_id].session.summary_provider
                == before.session.summary_provider
            &&& after.sessions[thread_id].last_synced_at == before.last_synced_at
            &&& after.jobs == data.jobs
        }),
{
}

/// The title that is shown is the user's, or else the generated one, or else that there is none. The
/// summary that is shown is the user's, or else the generated one, or else nothing.
pub proof fn what_the_user_wrote_is_shown_first(session: SessionView)
    ensures
        session.manual_title matches Some(title) ==> db::shown_title(session) == title,
        session.manual_title is None ==> (session.generated_title matches Some(title)
            ==> db::shown_title(session) == title),
        session.manual_title is None && session.generated_title is None ==> db::shown_title(session)
            == "Untitled Codex session"@,
        session.manual_summary matches Some(told) ==> db::shown_summary(session) == told,
        session.manual_summary is None ==> (session.generated_summary matches Some(told)
            ==> db::shown_summary(session) == told),
        session.manual_summary is None && session.generated_summary is None ==> db::shown_summary(
            session,
        ).len() == 0,
{
    reveal_strlit("");
}

/// What the user enters over a title or a summary is kept as it was entered, unless it is blank: then
/// there is nothing over it.
pub proof fn overrides_are_kept_as_entered(value: Seq<char>)
    ensures
        texts::says_something(value) ==> db::override_of(Some(value)) == Some(value),
        !texts::says_something(value) ==> db::override_of(Some(value)) is None,
        db::override_of(None) is None,
{
    texts::trimming_keeps_the_core(value);
}

/// A job that is queued names the provider and the amount of text, is new, and has no error. What was
/// queued before for the session is in its place, but for when it was first queued and how often it
/// was tried.
pub proof fn queued_jobs_name_their_provider(
    data: DatabaseView,
    thread_id: Seq<char>,
    provider: Seq<char>,
    cap: SummaryInput,
    now: i64,
)
    requires
        data.sessions.contains_key(thread_id),
    ensures
        db::after_queue(data, thread_id, provider, cap, now) matches Ok(after) && {
            let job = after.jobs[thread_id];
            &&& after.jobs.contains_key(thread_id)
            &&& job.provider == provider
            &&& names_cap(cap, job.cap)
            &&& job.status == "queued"@
            &&& job.updated_at == now
            &&& job.last_error is None
            &&& !data.jobs.contains_key(thread_id) ==> job.attempts == 0 && job.created_at == now
            &&& data.jobs.contains_key(thread_id) ==> job.attempts == data.jobs[thread_id].attempts
                && job.created_at == data.jobs[thread_id].created_at
            &&& forall|other: Seq<char>|
                other != thread_id ==> (data.jobs.contains_key(other)
                    <==> #[trigger] after.jobs.contains_key(other)) && (data.jobs.contains_key(
                    other,
                ) ==> after.jobs[other] == data.jobs[other])
        },
{
}

/// A job that is begun is running and was tried once more, and one that came to an end has its outcome
/// and its error. The provider and the amount of text stay, and so do other jobs and all sessions.
pub proof fn jobs_keep_what_they_are_for(
    data: DatabaseView,
    thread_id: Seq<char>,
    status: Seq<char>,
    error: Option<Seq<char>>,
    other: Seq<char>,
    now: i64,
)
    requires
        data.jobs.contains_key(thread_id),
        other != thread_id,
    ensures
        ({
            let job = data.jobs[thread_id];
            let begun = db::after_start(data, thread_id, now);
            let ended = db::after_end(data, thread_id, status, error, now);
            &&& begun.jobs[thread_id].status == "running"@
            &&& job.attempts < i64::MAX ==> begun.jobs[thread_id].attempts == job.attempts + 1
            &&& begun.jobs[thread_id].provider == job.provider
            &&& begun.jobs[thread_id].cap == job.cap
            &&& begun.jobs[thread_id].last_error == job.last_error
            &&& begun.jobs[thread_id].updated_at == now
            &&& ended.jobs[thread_id].status == status
            &&& ended.jobs[thread_id].last_error == error
            &&& ended.jobs[thread_id].attempts == job.attempts
            &&& ended.jobs[thread_id].provider == job.provider
            &&& ended.jobs[thread_id].cap == job.cap
            &&& begun.sessions == data.sessions && ended.sessions == data.sessions
            &&& begun.jobs.contains_key(other) == data.jobs.contains_key(other)
            &&& ended.jobs.contains_key(other) == data.jobs.contains_key(other)
            &&& data.jobs.contains_key(other) ==> begun.jobs[other] == data.jobs[other]
                && ended.jobs[other] == data.jobs[other]
        }),
{
}

/// A job that is looked up is the one that is kept, field by field.
pub proof fn jobs_are_found_as_kept(data: DatabaseView, thread_id: Seq<char>)
    ensures
        !data.jobs.contains_key(thread_id) ==> db::found_job(data, thread_id) == Ok::<
            Option<JobView>,
            Seq<char>,
        >(None),
        data.jobs.contains_key(thread_id) && 0 <= data.jobs[thread_id].attempts <= u32::MAX ==> (
        db::found_job(data, thread_id) matches Ok(Some(job)) && {
            let row = data.jobs[thread_id];
            &&& job.thread_id == thread_id
            &&& job.provider == row.provider
            &&& job.cap == row.cap
            &&& job.status == row.status
            &&& job.attempts == row.attempts
            &&& job.last_error == row.last_error
        }),
{
}

/// What a search looks through: the title and the summary that are shown, the directory, the source,
/// the model and its provider, the notes and the tags, a line each, in lower case.
pub proof fn everything_shown_is_searched(
    session: SessionView,
    model: Seq<char>,
    model_provider: Seq<char>,
)
    requires
        session.model == Some(model),
        session.model_provider == Some(model_provider),
    ensures
        db::search_text(session) == text::unicode_lower(
            db::shown_title(session) + "\n"@ + db::shown_summary(session) + "\n"@ + session.cwd
                + "\n"@ + session.source + "\n"@ + model + "\n"@ + model_provider + "\n"@
                + session.notes + "\n"@ + text::joined(session.tags, " "@),
        ),
        db::search_text(SessionView { model: None, ..session }) == db::search_text(
            SessionView { model: Some(Seq::empty()), ..session },
        ),
        db::search_text(SessionView { model_provider: None, ..session }) == db::search_text(
            SessionView { model_provider: Some(Seq::empty()), ..session },
        ),
{
    reveal_strlit("");
    assert(""@ =~= Seq::<char>::empty());
    let newline = "\n"@;
    let f = db::search_fields(session);
    let a = seq![f[0]];
    let b = seq![f[1], f[2], f[3], f[4], f[5], f[6], f[7]];
    assert(f =~= seq![f[0], f[1], f[2], f[3], f[4], f[5], f[6], f[7]]);
    reveal_with_fuel(text::joined, 9);
    assert(f.drop_last() =~= seq![f[0], f[1], f[2], f[3], f[4], f[5], f[6]]);
    assert(f.drop_last().drop_last() =~= seq![f[0], f[1], f[2], f[3], f[4], f[5]]);
    assert(f.drop_last().drop_last().drop_last() =~= seq![f[0], f[1], f[2], f[3], f[4]]);
    let g = seq![f[0], f[1], f[2], f[3], f[4]];
    assert(g.drop_last() =~= seq![f[0], f[1], f[2], f[3]]);
    assert(g.drop_last().drop_last() =~= seq![f[0], f[1], f[2]]);
    assert(g.drop_last().drop_last().drop_last() =~= seq![f[0], f[1]]);
    assert(g.drop_last().drop_last().drop_last().drop_last() =~= seq![f[0]]);
    assert(text::joined(f, newline) =~= db::shown_title(session) + newline + db::shown_summary(
        session,
    ) + newline + session.cwd + newline + session.source + newline + model + newline
        + model_provider + newline + session.notes + newline + text::joined(session.tags, " "@));
    assert(db::search_fields(SessionView { model: None, ..session }) =~= db::search_fields(
        SessionView { model: Some(Seq::empty()), ..session },
    ));
    assert(db::search_fields(SessionView { model_provider: None, ..session })
        =~= db::search_fields(SessionView { model_provider: Some(Seq::empty()), ..session }));
}

/// Every tag that is kept is one that was entered, under the name that the tag has: the one that it
/// was first entered with, in this session or another, with single blanks between its words.
pub proof fn tags_are_kept_under_their_names(
    data: DatabaseView,
    thread_id: Seq<char>,
    tags: Seq<Seq<char>>,
    k: int,
)
    requires
        data.sessions.contains_key(thread_id),
        db::after_tags(data, thread_id, tags) is Ok,
        0 <= k < db::after_tags(data, thread_id, tags)->Ok_0.sessions[thread_id].session.tags.len(),
    ensures
        ({
            let after = db::after_tags(data, thread_id, tags)->Ok_0;
            let kept = after.sessions[thread_id].session.tags[k];
            data.tag_names.contains(kept) || exists|i: int|
                0 <= i < tags.len() && kept == summary::collapsed(#[trigger] tags[i])
        }),
{
    let entered = db::normal_tags(tags);
    let names = db::with_names(data.tag_names, entered);
    lemma_kept_names(names, entered, k);
    lemma_names(data.tag_names, entered);
    lemma_entered(tags);
    let kept = db::kept_in_order(names, entered)[k];
    if names.contains(kept) {
        if !data.tag_names.contains(kept) {
            assert(entered.contains(kept));
        }
    }
}

proof fn lemma_entered(tags: Seq<Seq<char>>)
    ensures
        forall|x: Seq<char>| #[trigger]
            db::normal_tags(tags).contains(x) ==> exists|i: int|
                0 <= i < tags.len() && x == summary::collapsed(#[trigger] tags[i]),
    decreases tags.len(),
{
    if tags.len() > 0 {
        let rest = tags.drop_last();
        lemma_entered(rest);
        assert forall|x: Seq<char>| #[trigger] db::normal_tags(tags).contains(x) implies exists|
            i: int,
        |
            0 <= i < tags.len() && x == summary::collapsed(#[trigger] tags[i]) by {
            if db::normal_tags(rest).contains(x) {
                let i = choose|i: int|
                    0 <= i < rest.len() && x == summary::collapsed(#[trigger] rest[i]);
                assert(tags[i] == rest[i]);
            } else {
                let k = db::normal_tags(tags).index_of(x);
                if k < db::normal_tags(rest).len() {
                    assert(db::normal_tags(rest)[k] == x);
                }
                assert(x == summary::collapsed(tags[tags.len() - 1]));
            }
        }
    }
}

proof fn lemma_names(names: Seq<Seq<char>>, tags: Seq<Seq<char>>)
    ensures
        forall|x: Seq<char>| #[trigger]
            db::with_names(names, tags).contains(x) ==> names.contains(x) || tags.contains(x),
        forall|x: Seq<char>| names.contains(x) ==> #[trigger] db::with_names(names, tags).contains(
            x,
        ),
    decreases tags.len(),
{
    if tags.len() > 0 {
        let rest = tags.drop_last();
        lemma_names(names, rest);
        let before = db::with_names(names, rest);
        let after = db::with_names(names, tags);
        assert forall|x: Seq<char>| #[trigger] after.contains(x) implies names.contains(x)
            || tags.contains(x) by {
            let k = after.index_of(x);
            if k < before.len() {
                assert(before[k] == x);
                assert(before.contains(x));
                if rest.contains(x) {
                    let i = rest.index_of(x);
                    assert(tags[i] == x);
                }
            } else {
                assert(tags[tags.len() - 1] == x);
            }
        }
        assert forall|x: Seq<char>| names.contains(x) implies #[trigger] after.contains(x) by {
            assert(before.contains(x));
            let k = before.index_of(x);
            assert(after[k] == x);
        }
    }
}

proof fn lemma_kept_name(names: Seq<Seq<char>>, tag: Seq<char>)
    ensures
        names.contains(db::kept_name(names, tag)) || db::kept_name(names, tag) == tag,
    decreases names.len(),
{
    if names.len() > 0 {
        if db::same_tag(names[0], tag) {
            assert(names.contains(names[0]));
        } else {
            let rest = names.drop_first();
            lemma_kept_name(rest, tag);
            if rest.contains(db::kept_name(rest, tag)) {
                let k = rest.index_of(db::kept_name(rest, tag));
                assert(names[k + 1] == rest[k]);
            }
        }
    }
}

proof fn lemma_placed(tags: Seq<Seq<char>>, tag: Seq<char>)
    ensures
        forall|x: Seq<char>| #[trigger]
            db::placed(tags, tag).contains(x) ==> tags.contains(x) || x == tag,
    decreases tags.len(),
{
    let after = db::placed(tags, tag);
    if tags.len() == 0 {
    } else if db::tag_precedes(tag, tags[0]) {
        assert forall|x: Seq<char>| #[trigger] after.contains(x) implies tags.contains(x) || x
            == tag by {
            let k = after.index_of(x);
            if k > 0 {
                assert(tags[k - 1] == x);
            }
        }
    } else {
        let rest = tags.drop_first();
        lemma_placed(rest, tag);
        assert forall|x: Seq<char>| #[trigger] after.contains(x) implies tags.contains(x) || x
            == tag by {
            let k = after.index_of(x);
            if k == 0 {
                assert(tags[0] == x);
            } else {
                assert(db::placed(rest, tag)[k - 1] == x);
                assert(db::placed(rest, tag).contains(x));
                if rest.contains(x) {
                    let i = rest.index_of(x);
                    assert(tags[i + 1] == x);
                }
            }
        }
    }
}

proof fn lemma_kept_names(names: Seq<Seq<char>>, tags: Seq<Seq<char>>, k: int)
    requires
        0 <= k < db::kept_in_order(names, tags).len(),
    ensures
        names.contains(db::kept_in_order(names, tags)[k]) || tags.contains(
            db::kept_in_order(names, tags)[k],
        ),
    decreases tags.len(),
{
    if tags.len() > 0 {
        let rest = tags.drop_last();
        let before = db::kept_in_order(names, rest);
        let name = db::kept_name(names, tags.last());
        let after = db::kept_in_order(names, tags);
        let x = after[k];
        lemma_kept_name(names, tags.last());
        assert(tags.contains(tags[tags.len() - 1]));
        if db::has_tag(before, name) {
            lemma_kept_names(names, rest, k);
            if rest.contains(x) {
                let i = rest.index_of(x);
                assert(tags[i] == x);
            }
        } else {
            lemma_placed(before, name);
            assert(after.contains(x));
            if before.contains(x) {
                let i = before.index_of(x);
                lemma_kept_names(names, rest, i);
                if rest.contains(x) {
                    let j = rest.index_of(x);
                    assert(tags[j] == x);
                }
            }
        }
    }
}

/// To enter no tags takes all tags from a session, and what tags were there before does not matter for
/// what is there after.
pub proof fn tags_are_replaced(
    data: DatabaseView,
    thread_id: Seq<char>,
    tags: Seq<Seq<char>>,
    earlier: Seq<Seq<char>>,
)
    requires
        data.sessions.contains_key(thread_id),
    ensures
        db::after_tags(data, thread_id, Seq::empty()) matches Ok(after)
            && after.sessions[thread_id].session.tags.len() == 0,
        db::after_tags(data, thread_id, tags) matches Ok(after) && after.jobs == data.jobs
            && after.sessions[thread_id].session == (SessionView {
            tags: after.sessions[thread_id].session.tags,
            ..data.sessions[thread_id].session
        }),
        ({
            let other = db::with_session(
                data,
                thread_id,
                SessionView { tags: earlier, ..data.sessions[thread_id].session },
            );
            db::after_tags(other, thread_id, tags) matches Ok(after) && db::after_tags(
                data,
                thread_id,
                tags,
            ) matches Ok(expected) && after.sessions[thread_id].session
                == expected.sessions[thread_id].session
        }),
{
    assert(db::normal_tags(Seq::<Seq<char>>::empty()) =~= Seq::<Seq<char>>::empty());
}

/// Of tags that are one word whatever the letter case only the first is taken, and blank ones are not:
/// every other one is, in the order in which they were entered.
pub proof fn entered_tags_are_taken_once(tags: Seq<Seq<char>>, tag: Seq<char>)
    ensures
        !texts::says_something(tag) ==> db::normal_tags(tags.push(tag)) == db::normal_tags(tags),
        texts::says_something(tag) && (exists|i: int|
            0 <= i < db::normal_tags(tags).len() && text::ascii_folded(
                #[trigger] db::normal_tags(tags)[i],
            ) == text::ascii_folded(summary::collapsed(tag))) ==> db::normal_tags(tags.push(tag))
            == db::normal_tags(tags),
        texts::says_something(tag) && !(exists|i: int|
            0 <= i < db::normal_tags(tags).len() && text::ascii_folded(
                #[trigger] db::normal_tags(tags)[i],
            ) == text::ascii_folded(summary::collapsed(tag))) ==> db::normal_tags(tags.push(tag))
            == db::normal_tags(tags).push(summary::collapsed(tag)),
{
    assert(tags.push(tag).drop_last() =~= tags);
    let word = summary::collapsed(tag);
    let before = db::normal_tags(tags);
    if texts::says_something(tag) {
        crate::laws::summaries::answers_need_a_title_and_a_summary(
            crate::summary::SummaryView { title: tag, summary: tag },
        );
        assert(word.len() > 0) by {
            if word.len() == 0 {
                assert(summary::normal_form(tag).len() == 0);
            }
        }
    } else {
        crate::laws::summaries::answers_need_a_title_and_a_summary(
            crate::summary::SummaryView { title: tag, summary: tag },
        );
        assert(word.len() == 0) by {
            if word.len() > 0 {
                assert(summary::normal_form(tag).len() > 0);
            }
        }
    }
    if exists|i: int|
        0 <= i < before.len() && text::ascii_folded(#[trigger] before[i]) == text::ascii_folded(
            word,
        ) {
        let i = choose|i: int|
            0 <= i < before.len() && text::ascii_folded(#[trigger] before[i])
                == text::ascii_folded(word);
        assert(db::same_word(before[i], word));
        assert(db::has_word(before, word));
    } else {
        assert(!db::has_word(before, word)) by {
            if db::has_word(before, word) {
                let i = choose|i: int| 0 <= i < before.len() && db::same_word(
                    #[trigger] before[i],
                    word,
                );
                assert(text::ascii_folded(before[i]) == text::ascii_folded(word));
            }
        }
    }
}

proof fn lemma_names_extend(names: Seq<Seq<char>>, tags: Seq<Seq<char>>)
    ensures
        names.len() <= db::with_names(names, tags).len(),
        db::with_names(names, tags).take(names.len() as int) == names,
        forall|x: Seq<char>| #[trigger] tags.contains(x) ==> db::has_tag(
            db::with_names(names, tags),
            x,
        ),
    decreases tags.len(),
{
    let after = db::with_names(names, tags);
    if tags.len() == 0 {
        assert(names.take(names.len() as int) =~= names);
    } else {
        let rest = tags.drop_last();
        let before = db::with_names(names, rest);
        lemma_names_extend(names, rest);
        assert(after.take(names.len() as int) =~= before.take(names.len() as int));
        assert forall|x: Seq<char>| #[trigger] tags.contains(x) implies db::has_tag(after, x) by {
            let k = tags.index_of(x);
            if k < rest.len() {
                assert(rest[k] == x);
                assert(rest.contains(x));
                let i = choose|i: int| 0 <= i < before.len() && db::same_tag(
                    #[trigger] before[i],
                    x,
                );
                assert(after[i] == before[i]);
            } else if db::has_tag(before, x) {
                let i = choose|i: int| 0 <= i < before.len() && db::same_tag(
                    #[trigger] before[i],
                    x,
                );
                assert(after[i] == before[i]);
            } else {
                assert(after[after.len() - 1] == x);
                assert(db::same_tag(after[after.len() - 1], x));
            }
        }
    }
}

proof fn lemma_found_name(names: Seq<Seq<char>>, tag: Seq<char>)
    requires
        db::has_tag(names, tag),
    ensures
        names.contains(db::kept_name(names, tag)),
    decreases names.len(),
{
    let i = choose|i: int| 0 <= i < names.len() && db::same_tag(#[trigger] names[i], tag);
    if db::same_tag(names[0], tag) {
        assert(names[0] == db::kept_name(names, tag));
    } else {
        let rest = names.drop_first();
        assert(rest[i - 1] == names[i]);
        assert(db::has_tag(rest, tag));
        lemma_found_name(rest, tag);
        let k = rest.index_of(db::kept_name(rest, tag));
        assert(names[k + 1] == rest[k]);
    }
}

proof fn lemma_kept_are_names(names: Seq<Seq<char>>, tags: Seq<Seq<char>>)
    requires
        forall|x: Seq<char>| #[trigger] tags.contains(x) ==> db::has_tag(names, x),
    ensures
        forall|x: Seq<char>| #[trigger]
            db::kept_in_order(names, tags).contains(x) ==> names.contains(x),
    decreases tags.len(),
{
    if tags.len() > 0 {
        let rest = tags.drop_last();
        assert forall|x: Seq<char>| #[trigger] rest.contains(x) implies db::has_tag(names, x) by {
            let k = rest.index_of(x);
            assert(tags[k] == x);
            assert(tags.contains(x));
        }
        lemma_kept_are_names(names, rest);
        let last = tags.last();
        assert(tags[tags.len() - 1] == last);
        assert(tags.contains(last));
        lemma_found_name(names, last);
        lemma_placed(db::kept_in_order(names, rest), db::kept_name(names, last));
    }
}

/// A tag that is known keeps its name, in whatever letter case it is entered again: the known names stay,
/// in their order, new ones come behind them, and a session has its tags under these names.
pub proof fn known_tags_keep_their_names(
    data: DatabaseView,
    thread_id: Seq<char>,
    tags: Seq<Seq<char>>,
)
    requires
        data.sessions.contains_key(thread_id),
    ensures
        db::after_tags(data, thread_id, tags) matches Ok(after) && {
            let kept = after.sessions[thread_id].session.tags;
            &&& data.tag_names.len() <= after.tag_names.len()
            &&& after.tag_names.take(data.tag_names.len() as int) == data.tag_names
            &&& forall|k: int|
                0 <= k < kept.len() ==> after.tag_names.contains(#[trigger] kept[k])
        },
{
    let entered = db::normal_tags(tags);
    let names = db::with_names(data.tag_names, entered);
    lemma_names_extend(data.tag_names, entered);
    lemma_kept_are_names(names, entered);
    let kept = db::kept_in_order(names, entered);
    assert forall|k: int| 0 <= k < kept.len() implies names.contains(#[trigger] kept[k]) by {
        assert(kept.contains(kept[k]));
    }
}

/// The tags of a session are in the order of their names, whatever the letter case: where two names differ,
/// the first character that differs decides.
pub proof fn tags_are_in_order(
    data: DatabaseView,
    thread_id: Seq<char>,
    tags: Seq<Seq<char>>,
    i: int,
    j: int,
    start: Seq<char>,
    x: char,
    a: Seq<char>,
    y: char,
    b: Seq<char>,
)
    requires
        data.sessions.contains_key(thread_id),
        db::after_tags(data, thread_id, tags) is Ok,
        0 <= i < j < db::after_tags(
            data,
            thread_id,
            tags,
        )->Ok_0.sessions[thread_id].session.tags.len(),
        ({
            let kept = db::after_tags(data, thread_id, tags)->Ok_0.sessions[thread_id].session.tags;
            &&& forall|k: int| 0 <= k < kept[i].len() ==> #[trigger] kept[i][k] != '\0'
            &&& forall|k: int| 0 <= k < kept[j].len() ==> #[trigger] kept[j][k] != '\0'
            &&& text::ascii_folded(kept[i]) == start + seq![x] + a
            &&& text::ascii_folded(kept[j]) == start + seq![y] + b
        }),
        x != y,
    ensures
        x < y,
{
    let kept = db::after_tags(data, thread_id, tags)->Ok_0.sessions[thread_id].session.tags;
    db::tags_are_kept_in_order(data, thread_id, tags);
    assert(db::tag_precedes(kept[i], kept[j]));
    db::plain_tags_are_words(kept[i], kept[j]);
    texts::the_first_difference_decides(start, x, a, y, b);
}

} // verus!
