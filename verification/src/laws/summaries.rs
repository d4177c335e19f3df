//! What holds of what a provider reads, is asked and answers.

use vstd::prelude::*;

use crate::app_server::{MessageRole, MessageView};
use crate::config::{ConfigView, SummaryInput, SummaryProvider};
use crate::json;
use crate::json::JsonView;
use crate::laws::texts;
use crate::laws::threads;
use crate::paths::PathsView;
use crate::summary;
use crate::summary::{GenerationView, SummaryResult, SummaryView};
use crate::text;

verus! {

/// Who said a message.
pub open spec fn speaker(role: MessageRole) -> Seq<char> {
    match role {
        MessageRole::User => "User"@,
        MessageRole::Assistant => "Assistant"@,
    }
}

proof fn lemma_transcript_adds(a: Seq<MessageView>, b: Seq<MessageView>)
    requires
        a.len() > 0,
        b.len() > 0,
    ensures
        summary::transcript(a + b) == summary::transcript(a) + "\n\n"@ + summary::transcript(b),
{
    let x = Seq::new(a.len(), |i: int| summary::rendered(a[i]));
    let y = Seq::new(b.len(), |i: int| summary::rendered(b[i]));
    let z = Seq::new((a + b).len(), |i: int| summary::rendered((a + b)[i]));
    assert(z =~= x + y);
    texts::joining_puts_separators_between(x, y, "\n\n"@);
}

proof fn lemma_one_transcript(message: MessageView)
    ensures
        summary::transcript(seq![message]) == speaker(message.role) + ": "@ + text::trimmed(
            message.text,
        ),
{
    let one = seq![message];
    let x = Seq::new(one.len(), |i: int| summary::rendered(one[i]));
    assert(x =~= seq![summary::rendered(message)]);
}

/// With no limit every message is given whole: one message as who said it, a colon, a blank and
/// exactly what was said, but for white space at its two ends.
pub proof fn whole_messages_are_given(message: MessageView, from: int, to: int, said: Seq<char>)
    requires
        texts::is_core(message.text, said, from, to),
    ensures
        summary::formatted(seq![message], SummaryInput::Entire) == speaker(message.role) + ": "@
            + said,
        summary::formatted(seq![message], SummaryInput::Entire).len() == speaker(message.role).len()
            + 2 + said.len(),
{
    reveal_strlit(": ");
    texts::the_core_is_the_trimmed_text(message.text, said, from, to);
    lemma_one_transcript(message);
}

/// With no limit all messages are given, one after the other with an empty line between them.
pub proof fn all_messages_are_given(a: Seq<MessageView>, b: Seq<MessageView>)
    requires
        a.len() > 0,
        b.len() > 0,
    ensures
        summary::formatted(a + b, SummaryInput::Entire) == summary::formatted(
            a,
            SummaryInput::Entire,
        ) + "\n\n"@ + summary::formatted(b, SummaryInput::Entire),
        summary::formatted(Seq::empty(), SummaryInput::Entire) == Seq::<char>::empty(),
{
    lemma_transcript_adds(a, b);
    let none = Seq::<MessageView>::empty();
    assert(Seq::new(none.len(), |i: int| summary::rendered(none[i])) =~= Seq::empty());
}

/// With no limit every message is in what is given, whole.
pub proof fn no_message_is_left_out(messages: Seq<MessageView>, i: int)
    requires
        0 <= i < messages.len(),
    ensures
        exists|before: Seq<char>, after: Seq<char>|
            summary::formatted(messages, SummaryInput::Entire) == #[trigger] (before + (speaker(
                messages[i].role,
            ) + ": "@ + text::trimmed(messages[i].text)) + after),
{
    let whole = summary::formatted(messages, SummaryInput::Entire);
    let line = speaker(messages[i].role) + ": "@ + text::trimmed(messages[i].text);
    let a = messages.take(i);
    let b = messages.skip(i + 1);
    let one = seq![messages[i]];
    lemma_one_transcript(messages[i]);
    let none = Seq::<char>::empty();
    if a.len() == 0 {
        if b.len() == 0 {
            assert(messages =~= one);
            assert(whole =~= none + line + none);
        } else {
            assert(messages =~= one + b);
            lemma_transcript_adds(one, b);
            assert(whole =~= none + line + ("\n\n"@ + summary::transcript(b)));
        }
    } else {
        lemma_transcript_adds(a, one);
        let start = summary::transcript(a) + "\n\n"@;
        if b.len() == 0 {
            assert(messages =~= a + one);
            assert(whole =~= start + line + none);
        } else {
            assert(messages =~= a + one + b);
            lemma_transcript_adds(a + one, b);
            assert(whole =~= start + line + ("\n\n"@ + summary::transcript(b)));
        }
    }
}

/// What is given keeps to the amount that was asked for. Where all messages fit in it, all are given
/// whole, just as with no limit.
pub proof fn limits_are_kept_and_not_wasted(messages: Seq<MessageView>, n: usize)
    requires
        messages.len() <= usize::MAX,
    ensures
        ({
            let all = summary::formatted(messages, SummaryInput::Entire);
            &&& summary::formatted(messages, SummaryInput::SixteenK).len() <= 16384
            &&& summary::formatted(messages, SummaryInput::SixtyFourK).len() <= 65536
            &&& summary::formatted(messages, SummaryInput::Custom(n)).len() <= n
            &&& all.len() <= 16384 ==> summary::formatted(messages, SummaryInput::SixteenK) == all
            &&& all.len() <= 65536 ==> summary::formatted(messages, SummaryInput::SixtyFourK)
                == all
            &&& all.len() <= n ==> summary::formatted(messages, SummaryInput::Custom(n)) == all
            &&& summary::formatted(messages, SummaryInput::SixteenK) == summary::formatted(
                messages,
                SummaryInput::Custom(16384),
            )
            &&& summary::formatted(messages, SummaryInput::SixtyFourK) == summary::formatted(
                messages,
                SummaryInput::Custom(65536),
            )
        }),
{
    summary::provider_input_is_bounded(messages, SummaryInput::SixteenK);
    summary::provider_input_is_bounded(messages, SummaryInput::SixtyFourK);
    summary::provider_input_is_bounded(messages, SummaryInput::Custom(n));
}

/// Whether `excerpt` is of `whole`: all of it where it has at most `room` characters, and else its
/// beginning and an ellipsis, `room` characters together.
pub open spec fn is_excerpt(whole: Seq<char>, room: nat, excerpt: Seq<char>) -> bool {
    if whole.len() <= room {
        excerpt == whole
    } else {
        excerpt.len() == room && (room > 0 ==> excerpt == whole.take(room - 1) + seq!['\u{2026}'])
    }
}

/// How a part of a sample names its message, the `index`th of `count`.
pub open spec fn announced(index: int, count: nat, role: MessageRole) -> Seq<char> {
    "[message "@ + text::decimal((index + 1) as nat) + "/"@ + text::decimal(count) + "] "@
        + speaker(role) + ": "@
}

/// The lengths of the names of sampled messages together.
pub open spec fn announced_length(messages: Seq<MessageView>, indices: Seq<usize>) -> nat
    decreases indices.len(),
{
    if indices.len() == 0 {
        0
    } else {
        announced_length(messages, indices.drop_last()) + announced(
            indices.last() as int,
            messages.len(),
            messages[indices.last() as int].role,
        ).len()
    }
}

proof fn lemma_announced_length(messages: Seq<MessageView>, indices: Seq<usize>)
    ensures
        announced_length(messages, indices) == summary::total_len(
            summary::sample_labels(messages, indices),
        ),
    decreases indices.len(),
{
    let labels = summary::sample_labels(messages, indices);
    if indices.len() > 0 {
        lemma_announced_length(messages, indices.drop_last());
        assert(labels.drop_last() =~= summary::sample_labels(messages, indices.drop_last()));
        assert(labels.last() == summary::sample_label(messages, indices.last() as int));
    }
}

/// What is shown of a thread that does not fit: of each sampled message an excerpt under its number
/// and its speaker, with an empty line between them. All the room that is left is shared out: evenly,
/// and what is left over goes to the first ones, one character each.
pub proof fn samples_share_the_room(messages: Seq<MessageView>, limit: usize, p: int, share: int)
    requires
        0 < messages.len() <= usize::MAX,
        0 < limit < summary::formatted(messages, SummaryInput::Entire).len(),
        ({
            let indices = summary::sampled_indices(messages, limit as nat);
            let n = indices.len();
            let left = limit - (announced_length(messages, indices) + 2 * (n - 1));
            &&& n <= left
            &&& 0 <= p < n
            &&& 0 <= share && n * share <= left < n * (share + 1)
        }),
    ensures
        ({
            let indices = summary::sampled_indices(messages, limit as nat);
            let n = indices.len();
            let left = limit - (announced_length(messages, indices) + 2 * (n - 1));
            exists|parts: Seq<Seq<char>>|
                summary::formatted(messages, SummaryInput::Custom(limit))
                    == #[trigger] text::joined(parts, "\n\n"@) && parts.len() == n && is_part(
                    messages,
                    indices[p] as int,
                    (share + if p < left - n * share {
                        1int
                    } else {
                        0int
                    }) as nat,
                    parts[p],
                )
        }),
{
    let indices = summary::sampled_indices(messages, limit as nat);
    let n = indices.len();
    lemma_announced_length(messages, indices);
    let left = (limit - (announced_length(messages, indices) + 2 * (n - 1))) as nat;
    let parts = summary::sample_parts(messages, indices, left);
    assert(summary::formatted(messages, SummaryInput::Custom(limit)) == text::joined(
        parts,
        "\n\n"@,
    ));
    assert(left / n == share && left % n == left - n * share) by (nonlinear_arith)
        requires
            n > 0,
            n * share <= left < n * (share + 1),
    ;
    lemma_part(messages, indices, left, p);
}

/// Whether `part` shows a message of a thread, with so much room for what it says.
pub open spec fn is_part(
    messages: Seq<MessageView>,
    index: int,
    room: nat,
    part: Seq<char>,
) -> bool {
    exists|excerpt: Seq<char>| #[trigger]
        is_excerpt(text::trimmed(messages[index].text), room, excerpt) && part == announced(
            index,
            messages.len(),
            messages[index].role,
        ) + excerpt
}

proof fn lemma_part(messages: Seq<MessageView>, indices: Seq<usize>, left: nat, p: int)
    requires
        0 <= p < indices.len(),
    ensures
        is_part(
            messages,
            indices[p] as int,
            summary::quota(left, indices.len(), p as nat),
            summary::sample_parts(messages, indices, left)[p],
        ),
{
    let room = summary::quota(left, indices.len(), p as nat);
    let whole = text::trimmed(messages[indices[p] as int].text);
    let excerpt = summary::truncated(whole, room);
    if whole.len() > room && room > 0 {
        assert(excerpt =~= whole.take(room - 1) + seq!['\u{2026}']);
    }
    assert(is_excerpt(whole, room, excerpt));
}

/// Where there is no room for one character of each sampled message, three pieces of all that was
/// said are shown: its beginning, its middle and its end, with ellipses between them, as many
/// characters as are allowed.
pub proof fn short_limits_give_three_pieces(messages: Seq<MessageView>, limit: usize)
    requires
        0 < messages.len() <= usize::MAX,
        2 < limit < summary::formatted(messages, SummaryInput::Entire).len(),
        ({
            let indices = summary::sampled_indices(messages, limit as nat);
            announced_length(messages, indices) + 2 * (indices.len() - 1) + indices.len() > limit
        }),
    ensures
        ({
            let all = summary::formatted(messages, SummaryInput::Entire);
            let shown = summary::formatted(messages, SummaryInput::Custom(limit));
            exists|third: int, start: int|
                #![trigger all.subrange(start, start + third)]
                {
                    &&& 0 <= third && 0 <= start && start + third <= all.len()
                    &&& 3 * third <= limit - 2 < 3 * third + 3
                    &&& start == all.len() / 2 - third / 2
                    &&& shown == all.take(third) + seq!['\u{2026}'] + all.subrange(
                        start,
                        start + third,
                    ) + seq!['\u{2026}'] + all.skip(all.len() - (limit - 2 - 2 * third))
                }
        }),
{
    let indices = summary::sampled_indices(messages, limit as nat);
    lemma_announced_length(messages, indices);
    let all = summary::formatted(messages, SummaryInput::Entire);
    let shown = summary::formatted(messages, SummaryInput::Custom(limit));
    assert(shown == summary::beginning_middle_end(all, limit as nat));
    let third = (limit - 2) / 3;
    let start = all.len() as int / 2 - third / 2;
    let last = limit - 2 - third - third;
    assert(start >= 0);
    assert(shown =~= all.take(third) + seq!['\u{2026}'] + all.subrange(start, start + third)
        + seq!['\u{2026}'] + all.skip(all.len() - last));
    assert(all.subrange(start, start + third).len() == third);
}

proof fn lemma_quantiles_spread(length: nat, desired: nat, upto: nat)
    requires
        0 < length <= usize::MAX,
        1 < desired <= length,
        upto <= desired,
    ensures
        summary::quantiles_before(length, desired, upto).len() == upto,
        forall|p: int|
            0 <= p < upto ==> #[trigger] summary::quantiles_before(length, desired, upto)[p]
                == summary::quantile(length, desired, p as nat),
    decreases upto,
{
    if upto > 0 {
        let last = (upto - 1) as nat;
        lemma_quantiles_spread(length, desired, last);
        let before = summary::quantiles_before(length, desired, last);
        let d = desired - 1;
        let l = length - 1;
        let x = last as int;
        assert(0 <= (x * l) / d <= l) by (nonlinear_arith)
            requires
                0 <= x <= d,
                0 < d,
                0 <= l,
        ;
        if last > 0 {
            let y = x - 1;
            assert((y * l) / d < (x * l) / d) by (nonlinear_arith)
                requires
                    y == x - 1,
                    0 < d <= l,
            ;
            assert(before.last() == before[last - 1]);
        }
        let after = summary::quantiles_before(length, desired, upto);
        assert forall|p: int| 0 <= p < upto implies #[trigger] after[p] == summary::quantile(
            length,
            desired,
            p as nat,
        ) by {
            if p < last {
                assert(after[p] == before[p]);
            }
        }
    }
}

/// Whether `index` is where the `p`th of `count` positions lies that divide a list of `n` evenly, from
/// its first to its last.
pub open spec fn in_place(n: int, count: int, p: int, index: int) -> bool {
    if count == 1 {
        index == 0
    } else {
        index * (count - 1) <= p * (n - 1) < (index + 1) * (count - 1)
    }
}

/// Of up to 25 messages all are sampled, and of more than that 25 that are spread evenly, from the
/// first to the last, where there is room for that many.
pub proof fn samples_are_spread_evenly(messages: Seq<MessageView>, limit: nat, chosen: Seq<usize>)
    requires
        0 < messages.len() <= usize::MAX,
        chosen.len() == (if messages.len() <= 25 {
            messages.len()
        } else {
            25
        }),
        forall|p: int|
            0 <= p < chosen.len() ==> in_place(
                messages.len() as int,
                chosen.len() as int,
                p,
                #[trigger] chosen[p] as int,
            ),
        announced_length(messages, chosen) + 3 * chosen.len() <= limit,
    ensures
        summary::sampled_indices(messages, limit) == chosen,
{
    let n = messages.len();
    let desired = chosen.len();
    if n == 1 {
        assert(in_place(n as int, 1, 0, chosen[0] as int));
        assert(chosen =~= seq![0usize]);
        assert(summary::quantiles(n, desired) =~= chosen);
    } else {
        lemma_quantiles_spread(n, desired, desired);
        let found = summary::quantiles(n, desired);
        assert forall|p: int| 0 <= p < desired implies found[p] == chosen[p] by {
            let c = chosen[p] as int;
            let d = desired - 1;
            let l = n - 1;
            assert(in_place(n as int, desired as int, p, c));
            assert((p * l) / d == c) by (nonlinear_arith)
                requires
                    0 <= c * d <= p * l < (c + 1) * d,
                    d > 0,
            ;
            assert(found[p] == summary::quantile(n, desired, p as nat));
        }
        assert(found =~= chosen);
    }
    lemma_announced_length(messages, chosen);
}

/// Where there is no room for all that would be sampled, the last ones are left out first: what comes
/// before a message that is kept is kept too. The first, the middle and the last message always are.
pub proof fn samples_leave_out_the_last_first(
    messages: Seq<MessageView>,
    indices: Seq<usize>,
    anchors: Seq<usize>,
    limit: nat,
    i: int,
    j: int,
)
    requires
        summary::increasing(indices),
        0 <= i < j < indices.len(),
        !anchors.contains(indices[i]),
        !anchors.contains(indices[j]),
        summary::thinned(messages, indices, anchors, limit).contains(indices[j]),
    ensures
        summary::thinned(messages, indices, anchors, limit).contains(indices[i]),
    decreases indices.len(),
{
    let free = summary::last_free(indices, anchors);
    lemma_free(indices, anchors);
    assert(indices.contains(indices[i]));
    if summary::thinned(messages, indices, anchors, limit) == indices {
        assert(indices[i] == indices[i]);
    } else {
        let rest = indices.remove(free);
        assert(summary::thinned(messages, indices, anchors, limit) == summary::thinned(
            messages,
            rest,
            anchors,
            limit,
        ));
        assert(free >= j);
        lemma_thinned_within(messages, rest, anchors, limit);
        if free == j {
            assert(rest.contains(indices[j]));
            let k = rest.index_of(indices[j]);
            if k < j {
                assert(rest[k] == indices[k]);
            } else {
                assert(rest[k] == indices[k + 1]);
            }
        } else {
            assert(rest[i] == indices[i] && rest[j] == indices[j]);
            assert forall|a: int, b: int| 0 <= a < b < rest.len() implies #[trigger] rest[a]
                < #[trigger] rest[b] by {
                let x = if a < free {
                    a
                } else {
                    a + 1
                };
                let y = if b < free {
                    b
                } else {
                    b + 1
                };
                assert(rest[a] == indices[x] && rest[b] == indices[y]);
            }
            samples_leave_out_the_last_first(messages, rest, anchors, limit, i, j);
        }
    }
}

proof fn lemma_free(indices: Seq<usize>, anchors: Seq<usize>)
    ensures
        -1 <= summary::last_free(indices, anchors) < indices.len(),
        forall|k: int|
            summary::last_free(indices, anchors) < k < indices.len() ==> anchors.contains(
                #[trigger] indices[k],
            ),
    decreases indices.len(),
{
    if indices.len() > 0 && anchors.contains(indices.last()) {
        let rest = indices.drop_last();
        lemma_free(rest, anchors);
        assert forall|k: int|
            summary::last_free(indices, anchors) < k < indices.len() implies anchors.contains(
            #[trigger] indices[k],
        ) by {
            if k < rest.len() {
                assert(rest[k] == indices[k]);
            }
        }
    }
}

proof fn lemma_thinned_within(
    messages: Seq<MessageView>,
    indices: Seq<usize>,
    anchors: Seq<usize>,
    limit: nat,
)
    ensures
        forall|x: usize| #[trigger]
            summary::thinned(messages, indices, anchors, limit).contains(x) ==> indices.contains(x),
    decreases indices.len(),
{
    let n = indices.len();
    let free = summary::last_free(indices, anchors);
    lemma_free(indices, anchors);
    if summary::total_len(summary::sample_labels(messages, indices)) + 3 * n <= limit || n
        <= anchors.len() || free < 0 {
    } else {
        let rest = indices.remove(free);
        lemma_thinned_within(messages, rest, anchors, limit);
        assert(summary::thinned(messages, indices, anchors, limit) == summary::thinned(
            messages,
            rest,
            anchors,
            limit,
        ));
        assert forall|x: usize| rest.contains(x) implies indices.contains(x) by {
            let k = rest.index_of(x);
            if k < free {
                assert(indices[k] == x);
            } else {
                assert(indices[k + 1] == x);
            }
        }
    }
}

/// A title and a summary that were made without a provider: the first thing that the user said, and
/// the last thing that was said.
pub proof fn local_summaries_tell_the_first_request_and_the_last_answer(
    before: Seq<MessageView>,
    request: MessageView,
    after: Seq<MessageView>,
    last: MessageView,
)
    requires
        forall|i: int| 0 <= i < before.len() ==> (#[trigger] before[i]).role
            == MessageRole::Assistant,
        request.role == MessageRole::User,
    ensures
        summary::local_result(before + seq![request] + after + seq![last])
            == summary::normal_result(SummaryView { title: request.text, summary: last.text }),
        summary::local_result(before + seq![request]) == summary::normal_result(
            SummaryView { title: request.text, summary: request.text },
        ),
        before.len() > 0 ==> summary::local_result(before) == summary::normal_result(
            SummaryView { title: before[0].text, summary: before.last().text },
        ),
        summary::local_result(Seq::empty()) == summary::normal_result(
            SummaryView {
                title: "Untitled Codex session"@,
                summary: "No visible user or assistant messages were available."@,
            },
        ),
{
    lemma_first_request(before, request, after + seq![last]);
    assert(before + seq![request] + (after + seq![last]) =~= before + seq![request] + after + seq![
        last,
    ]);
    lemma_first_request(before, request, Seq::empty());
    assert(before + seq![request] + Seq::<MessageView>::empty() =~= before + seq![request]);
    lemma_no_request(before);
}

proof fn lemma_first_request(
    before: Seq<MessageView>,
    request: MessageView,
    after: Seq<MessageView>,
)
    requires
        forall|i: int| 0 <= i < before.len() ==> (#[trigger] before[i]).role
            == MessageRole::Assistant,
        request.role == MessageRole::User,
    ensures
        summary::first_request(before + seq![request] + after) == Some(request.text),
    decreases before.len(),
{
    let all = before + seq![request] + after;
    if before.len() > 0 {
        let rest = before.drop_first();
        assert forall|i: int| 0 <= i < rest.len() implies (#[trigger] rest[i]).role
            == MessageRole::Assistant by {
            assert(rest[i] == before[i + 1]);
        }
        lemma_first_request(rest, request, after);
        assert(all[0] == before[0]);
        assert(all.drop_first() =~= rest + seq![request] + after);
    } else {
        assert(all[0] == request);
    }
}

proof fn lemma_no_request(messages: Seq<MessageView>)
    requires
        forall|i: int| 0 <= i < messages.len() ==> (#[trigger] messages[i]).role
            == MessageRole::Assistant,
    ensures
        summary::first_request(messages) is None,
    decreases messages.len(),
{
    if messages.len() > 0 {
        let rest = messages.drop_first();
        assert forall|i: int| 0 <= i < rest.len() implies (#[trigger] rest[i]).role
            == MessageRole::Assistant by {
            assert(rest[i] == messages[i + 1]);
        }
        lemma_no_request(rest);
        assert(messages[0].role == MessageRole::Assistant);
    }
}

/// Whether `value` is `words` with single blanks between them.
pub open spec fn spaced(words: Seq<Seq<char>>, value: Seq<char>) -> bool {
    &&& text::words(value) == words
    &&& summary::tidy(value)
}

proof fn lemma_words_of_joined(words: Seq<Seq<char>>)
    requires
        forall|i: int| 0 <= i < words.len() ==> texts::one_word(#[trigger] words[i]),
    ensures
        text::words(text::joined(words, " "@)) == words,
    decreases words.len(),
{
    reveal_strlit(" ");
    let blank = " "@;
    assert(blank =~= seq![' ']);
    if words.len() == 0 {
        texts::words_are_between_white_space(Seq::empty(), ' ', Seq::empty());
        assert(text::words(Seq::empty()) =~= words);
    } else if words.len() == 1 {
        assert(texts::one_word(words[0]));
        texts::words_are_between_white_space(words[0], ' ', Seq::empty());
        assert(seq![words[0]] =~= words);
    } else {
        let rest = words.drop_last();
        assert forall|i: int| 0 <= i < rest.len() implies texts::one_word(#[trigger] rest[i]) by {
            assert(rest[i] == words[i]);
        }
        lemma_words_of_joined(rest);
        let last = words.last();
        assert(texts::one_word(words[words.len() - 1]));
        texts::words_are_between_white_space(last, ' ', Seq::empty());
        texts::words_are_between_white_space(text::joined(rest, blank), ' ', last);
        assert(rest + seq![last] =~= words);
    }
}

proof fn lemma_words_are_words(value: Seq<char>)
    ensures
        forall|k: int|
            0 <= k < text::words(value).len() ==> texts::one_word(#[trigger] text::words(value)[k]),
    decreases value.len(),
{
    let rest = text::trim_start(value);
    text::lemma_trim_start_shrinks(value);
    if rest.len() > 0 {
        text::lemma_word_len_bound(rest);
        let n = text::word_len(rest) as int;
        let word = rest.take(n);
        lemma_words_are_words(rest.skip(n));
        assert forall|i: int| 0 <= i < n implies !text::is_white(#[trigger] word[i]) by {
            assert(word[i] == rest[i]);
        }
        assert(texts::one_word(word));
        let tail = text::words(rest.skip(n));
        assert forall|k: int| 0 <= k < text::words(value).len() implies texts::one_word(
            #[trigger] text::words(value)[k],
        ) by {
            if k > 0 {
                assert(text::words(value)[k] == tail[k - 1]);
            }
        }
    }
}

/// A title or a summary keeps the words that were given, with single blanks between them: all of them
/// where they fit in 240 characters, and else the first 239 of those and an ellipsis.
pub proof fn titles_keep_the_words(value: Seq<char>)
    ensures
        exists|whole: Seq<char>| #[trigger]
            spaced(text::words(value), whole) && if whole.len() <= 240 {
                summary::normal_form(value) == whole
            } else {
                summary::normal_form(value) == whole.take(239) + seq!['\u{2026}']
            },
{
    let whole = summary::collapsed(value);
    lemma_words_are_words(value);
    lemma_words_of_joined(text::words(value));
    lemma_tidy(text::words(value));
    assert(spaced(text::words(value), whole));
    if whole.len() > 240 {
        assert(summary::normal_form(value) =~= whole.take(239) + seq!['\u{2026}']);
    }
}

proof fn lemma_tidy(parts: Seq<Seq<char>>)
    requires
        forall|k: int| 0 <= k < parts.len() ==> texts::one_word(#[trigger] parts[k]),
    ensures
        summary::tidy(text::joined(parts, " "@)),
        parts.len() > 0 ==> text::joined(parts, " "@).len() > 0,
    decreases parts.len(),
{
    reveal_strlit(" ");
    if parts.len() == 1 {
        assert(texts::one_word(parts[0]));
    } else if parts.len() > 1 {
        let rest = parts.drop_last();
        assert forall|k: int| 0 <= k < rest.len() implies texts::one_word(#[trigger] rest[k]) by {
            assert(rest[k] == parts[k]);
        }
        lemma_tidy(rest);
        let start = text::joined(rest, " "@);
        let word = parts.last();
        assert(texts::one_word(parts[parts.len() - 1]));
        let all = start + " "@ + word;
        assert forall|i: int| 0 <= i < all.len() && text::is_white(#[trigger] all[i]) implies all[i]
            == ' ' by {
            if i < start.len() {
                assert(all[i] == start[i]);
            } else if i > start.len() {
                assert(all[i] == word[i - start.len() - 1]);
            }
        }
        assert forall|i: int, j: int|
            0 <= i < all.len() && j == i + 1 && j < all.len() && text::is_white(
                #[trigger] all[i],
            ) implies !text::is_white(#[trigger] all[j]) by {
            if j < start.len() {
                assert(all[i] == start[i] && all[j] == start[j]);
            } else if j == start.len() {
                assert(all[i] == start.last());
            } else {
                assert(all[j] == word[j - start.len() - 1]);
            }
        }
        assert(all[0] == start[0]);
        assert(all.last() == word[word.len() - 1]);
    }
}

/// An answer is taken just where neither its title nor its summary is blank. The title is made of the
/// title and the summary of the summary.
pub proof fn answers_need_a_title_and_a_summary(result: SummaryView)
    ensures
        summary::normal_result(result) is Ok <==> texts::says_something(result.title)
            && texts::says_something(result.summary),
        summary::normal_result(result) matches Ok(normal) ==> normal.title == summary::normal_form(
            result.title,
        ) && normal.summary == summary::normal_form(result.summary),
        !texts::says_something(result.title) ==> summary::normal_result(result) == Err::<
            SummaryView,
            Seq<char>,
        >("summary provider returned an empty title"@),
        texts::says_something(result.title) && !texts::says_something(result.summary)
            ==> summary::normal_result(result) == Err::<SummaryView, Seq<char>>(
            "summary provider returned an empty summary"@,
        ),
{
    lemma_blank_form(result.title);
    lemma_blank_form(result.summary);
}

proof fn lemma_blank_form(value: Seq<char>)
    ensures
        summary::normal_form(value).len() > 0 <==> texts::says_something(value),
{
    lemma_words_are_words(value);
    lemma_tidy(text::words(value));
    if !texts::says_something(value) {
        texts::words_are_between_white_space(value, ' ', Seq::empty());
        assert(text::words(value) =~= Seq::<Seq<char>>::empty());
    } else {
        texts::trimming_keeps_the_core(value);
        text::lemma_trim_start_shrinks(value);
        let rest = text::trim_start(value);
        if rest.len() == 0 {
            assert(text::trimmed(value).len() == 0);
        }
        assert(text::words(value).len() > 0);
    }
}

/// Whether `asked` is what a provider is asked with these messages as they are given.
pub open spec fn asks_with(asked: GenerationView, given: Seq<char>) -> bool {
    match asked {
        GenerationView::Codex { prompt, .. } => prompt == summary::prompt(given),
        GenerationView::Openai { request } => exists|input: JsonView, part: JsonView|
            #![trigger threads::holds_field(request, "input"@, JsonView::Array(seq![input])), threads::holds_field(part, "type"@, JsonView::Text("input_text"@))]
            {
                &&& threads::holds_field(request, "input"@, JsonView::Array(seq![input]))
                &&& threads::holds_field(input, "role"@, JsonView::Text("user"@))
                &&& threads::holds_field(input, "content"@, JsonView::Array(seq![part]))
                &&& threads::holds_field(part, "type"@, JsonView::Text("input_text"@))
                &&& threads::holds_field(part, "text"@, JsonView::Text(summary::prompt(given)))
            },
        GenerationView::Ready(_) => false,
    }
}

/// A prompt has what was said in it, whole and between marks, and is the same besides whatever was
/// said.
pub proof fn prompts_hold_what_was_said(a: Seq<char>, b: Seq<char>)
    ensures
        exists|before: Seq<char>, after: Seq<char>|
            #![trigger before + a + after]
            {
                &&& summary::prompt(a) == before + a + after
                &&& summary::prompt(b) == before + b + after
                &&& exists|start: Seq<char>| before == #[trigger] (start + "<transcript>\n"@)
                &&& after == "\n</transcript>"@
            },
{
    reveal_strlit(" Unicode characters. Return only the requested JSON object.\n\n<transcript>\n");
    reveal_strlit("<transcript>\n");
    let tail = " Unicode characters. Return only the requested JSON object.\n\n<transcript>\n"@;
    let cut = tail.take(tail.len() - 13);
    let start =
        "Create a concise title and summary for this Codex thread. Use only the visible user and assistant messages below. Do not infer hidden reasoning or tool output. Both fields must be at most "@
        + text::decimal(summary::MAX_OUTPUT_CHARS as nat);
    assert(tail =~= cut + "<transcript>\n"@);
    let before = start + tail;
    let after = "\n</transcript>"@;
    assert(before =~= (start + cut) + "<transcript>\n"@);
    assert(summary::prompt(a) =~= before + a + after);
    assert(summary::prompt(b) =~= before + b + after);
}

/// What a provider is asked holds the messages as the amount that was asked for gives them: in full
/// where the entire thread was asked for. What amount is configured does not matter.
pub proof fn providers_read_what_was_asked_for(
    provider: SummaryProvider,
    cap: SummaryInput,
    configured: SummaryInput,
    messages: Seq<MessageView>,
    cwd: Seq<char>,
    settings: ConfigView,
    files: PathsView,
)
    ensures
        summary::generation(
            provider,
            cap,
            messages,
            cwd,
            ConfigView { summary_input: configured, ..settings },
            files,
        ) == summary::generation(provider, cap, messages, cwd, settings, files),
        provider != SummaryProvider::Local ==> asks_with(
            summary::generation(provider, cap, messages, cwd, settings, files),
            summary::formatted(messages, cap),
        ),
        provider == SummaryProvider::Local ==> summary::generation(
            provider,
            cap,
            messages,
            cwd,
            settings,
            files,
        ) == GenerationView::Ready(summary::local_result(messages)),
        provider == SummaryProvider::Codex <==> summary::generation(
            provider,
            cap,
            messages,
            cwd,
            settings,
            files,
        ) is Codex,
{
    let given = summary::formatted(messages, cap);
    if provider == SummaryProvider::Openai {
        reveal_strlit("model");
        reveal_strlit("store");
        reveal_strlit("instructions");
        reveal_strlit("input");
        reveal_strlit("text");
        reveal_strlit("role");
        reveal_strlit("content");
        reveal_strlit("type");
        assert("input"@[0] == 'i' && "model"@[0] == 'm' && "store"@[0] == 's' && "text"@[0] == 't');
        assert("type"@[1] == 'y' && "text"@[1] == 'e' && "role"@[0] == 'r');
        assert("instructions"@.len() == 12 && "input"@.len() == 5 && "content"@.len() == 7);
        let request = summary::openai_request(settings.openai_model, given);
        let input = summary::openai_input(given);
        let part = JsonView::Object(
            Map::empty().insert("type"@, JsonView::Text("input_text"@)).insert(
                "text"@,
                JsonView::Text(summary::prompt(given)),
            ),
        );
        assert(threads::holds_field(request, "input"@, JsonView::Array(seq![input])));
        assert(threads::holds_field(input, "role"@, JsonView::Text("user"@)));
        assert(threads::holds_field(input, "content"@, JsonView::Array(seq![part])));
        assert(threads::holds_field(part, "type"@, JsonView::Text("input_text"@)));
        assert(threads::holds_field(part, "text"@, JsonView::Text(summary::prompt(given))));
    }
}

/// Where the entire thread is asked for, the prompt has every message in it, in full.
pub proof fn entire_prompts_hold_every_message(
    messages: Seq<MessageView>,
    i: int,
    cwd: Seq<char>,
    settings: ConfigView,
    files: PathsView,
)
    requires
        0 <= i < messages.len(),
    ensures
        summary::generation(
            SummaryProvider::Codex,
            SummaryInput::Entire,
            messages,
            cwd,
            settings,
            files,
        ) matches GenerationView::Codex { args, prompt } && exists|
            before: Seq<char>,
            after: Seq<char>,
        |
            prompt == #[trigger] (before + (speaker(messages[i].role) + ": "@ + text::trimmed(
                messages[i].text,
            )) + after),
{
    let given = summary::formatted(messages, SummaryInput::Entire);
    let line = speaker(messages[i].role) + ": "@ + text::trimmed(messages[i].text);
    no_message_is_left_out(messages, i);
    prompts_hold_what_was_said(given, given);
    let (x, y) = choose|x: Seq<char>, y: Seq<char>| given == #[trigger] (x + line + y);
    let (before, after) = choose|before: Seq<char>, after: Seq<char>|
        summary::prompt(given) == #[trigger] (before + given + after);
    assert(summary::prompt(given) =~= (before + x) + line + (y + after));
}

/// A summary is made where the thread was worked on: Codex runs in the directory of the thread and
/// with the schema among the state of the tracker, and the OpenAI API is asked with the model that is
/// configured.
pub proof fn providers_are_run_as_configured(
    cap: SummaryInput,
    messages: Seq<MessageView>,
    cwd: Seq<char>,
    settings: ConfigView,
    files: PathsView,
)
    requires
        files.state_dir.len() > 0,
        files.state_dir.last() != '/',
    ensures
        summary::generation(SummaryProvider::Codex, cap, messages, cwd, settings, files)
            matches GenerationView::Codex { args, prompt } && argument_of(args, "-C"@, cwd)
            && argument_of(
            args,
            "--output-schema"@,
            files.state_dir + "/summary-output.schema.json"@,
        ),
        summary::generation(SummaryProvider::Openai, cap, messages, cwd, settings, files)
            matches GenerationView::Openai { request } && threads::holds_field(
            request,
            "model"@,
            JsonView::Text(settings.openai_model),
        ),
{
    reveal_strlit("/summary-output.schema.json");
    reveal_strlit("summary-output.schema.json");
    let schema_path = files.state_dir + "/summary-output.schema.json"@;
    assert(crate::paths::schema_path(files) =~= schema_path);
    codex_summarizes_without_a_trace(cwd, schema_path);
    openai_is_asked_to_store_nothing(settings.openai_model, summary::formatted(messages, cap));
}

/// Whether `value` stands directly behind `name` among arguments.
pub open spec fn argument_of(args: Seq<Seq<char>>, name: Seq<char>, value: Seq<char>) -> bool {
    exists|i: int| 0 <= i < args.len() - 1 && #[trigger] args[i] == name && args[i + 1] == value
}

/// Codex summarizes in the directory of the thread, with the schema of the answer, without a trace,
/// without the user's configuration, rules or hooks, and without being able to write.
pub proof fn codex_summarizes_without_a_trace(cwd: Seq<char>, schema_path: Seq<char>)
    ensures
        ({
            let args = summary::exec_args(cwd, schema_path);
            &&& args[0] == "exec"@
            &&& args.contains("--ephemeral"@)
            &&& args.contains("--ignore-user-config"@)
            &&& args.contains("--ignore-rules"@)
            &&& argument_of(args, "--disable"@, "hooks"@)
            &&& argument_of(args, "--sandbox"@, "read-only"@)
            &&& argument_of(args, "--output-schema"@, schema_path)
            &&& argument_of(args, "-C"@, cwd)
            &&& argument_of(args, "--color"@, "never"@)
            &&& args.contains("--skip-git-repo-check"@)
            &&& args.last() == "-"@
        }),
{
    let args = summary::exec_args(cwd, schema_path);
    assert(args[1] == "--ephemeral"@ && args[2] == "--ignore-user-config"@ && args[3]
        == "--ignore-rules"@);
    assert(args[4] == "--disable"@ && args[5] == "hooks"@);
    assert(args[6] == "--sandbox"@ && args[7] == "read-only"@);
    assert(args[9] == "--output-schema"@ && args[10] == schema_path);
    assert(args[8] == "--skip-git-repo-check"@);
    assert(args[11] == "--color"@ && args[12] == "never"@);
    assert(args[13] == "-C"@ && args[14] == cwd);
}

/// The OpenAI API is asked with the configured model, to store nothing, and for an answer of just a
/// title and a summary.
pub proof fn openai_is_asked_to_store_nothing(model: Seq<char>, given: Seq<char>)
    ensures
        ({
            let request = summary::openai_request(model, given);
            &&& threads::holds_field(request, "model"@, JsonView::Text(model))
            &&& threads::holds_field(request, "store"@, JsonView::Bool(false))
            &&& exists|form: JsonView, format: JsonView|
                #![trigger threads::holds_field(request, "text"@, form), threads::holds_field(form, "format"@, format)]
                {
                    &&& threads::holds_field(request, "text"@, form)
                    &&& threads::holds_field(form, "format"@, format)
                    &&& threads::holds_field(format, "type"@, JsonView::Text("json_schema"@))
                    &&& threads::holds_field(format, "strict"@, JsonView::Bool(true))
                    &&& threads::holds_field(format, "schema"@, summary::answer_schema())
                }
        }),
        threads::holds_field(
            summary::answer_schema(),
            "additionalProperties"@,
            JsonView::Bool(false),
        ),
        threads::holds_field(
            summary::answer_schema(),
            "required"@,
            JsonView::Array(seq![JsonView::Text("title"@), JsonView::Text("summary"@)]),
        ),
{
    reveal_strlit("model");
    reveal_strlit("store");
    reveal_strlit("instructions");
    reveal_strlit("input");
    reveal_strlit("text");
    reveal_strlit("type");
    reveal_strlit("name");
    reveal_strlit("strict");
    reveal_strlit("schema");
    reveal_strlit("additionalProperties");
    reveal_strlit("properties");
    reveal_strlit("required");
    assert("input"@[0] == 'i' && "model"@[0] == 'm' && "store"@[0] == 's' && "text"@[0] == 't');
    assert("instructions"@.len() == 12 && "input"@.len() == 5);
    assert("type"@[0] == 't' && "name"@[0] == 'n' && "strict"@[1] == 't' && "schema"@[1] == 'c');
    assert("type"@.len() == 4 && "name"@.len() == 4 && "strict"@.len() == 6 && "schema"@.len() == 6);
    assert("additionalProperties"@.len() == 20 && "properties"@.len() == 10 && "required"@.len()
        == 8);
    let request = summary::openai_request(model, given);
    let form = summary::openai_format();
    let format = form->Object_0["format"@];
    assert(threads::holds_field(request, "text"@, form));
    assert(threads::holds_field(form, "format"@, format));
}

proof fn lemma_outputs_add(a: Seq<JsonView>, b: Seq<JsonView>)
    ensures
        summary::output_parts(a + b) == summary::output_parts(a) + summary::output_parts(b),
    decreases b.len(),
{
    if b.len() == 0 {
        assert(a + b =~= a);
        assert(summary::output_parts(a) + Seq::<JsonView>::empty() =~= summary::output_parts(a));
    } else {
        lemma_outputs_add(a, b.drop_last());
        assert((a + b).drop_last() =~= a + b.drop_last());
        assert((a + b).last() == b.last());
        assert(summary::output_parts(a + b) =~= summary::output_parts(a) + summary::output_parts(
            b,
        ));
    }
}

proof fn lemma_first_output(a: Seq<JsonView>, part: JsonView, b: Seq<JsonView>)
    requires
        forall|i: int|
            0 <= i < a.len() ==> !threads::holds_field(
                #[trigger] a[i],
                "type"@,
                JsonView::Text("output_text"@),
            ),
        threads::holds_field(part, "type"@, JsonView::Text("output_text"@)),
    ensures
        summary::first_output_text(a + seq![part] + b) == Some(part),
    decreases a.len(),
{
    let all = a + seq![part] + b;
    if a.len() > 0 {
        let rest = a.drop_first();
        assert forall|i: int| 0 <= i < rest.len() implies !threads::holds_field(
            #[trigger] rest[i],
            "type"@,
            JsonView::Text("output_text"@),
        ) by {
            assert(rest[i] == a[i + 1]);
        }
        lemma_first_output(rest, part, b);
        assert(all[0] == a[0]);
        assert(!threads::holds_field(a[0], "type"@, JsonView::Text("output_text"@)));
        if json::text_field(a[0], "type"@) == Some("output_text"@) {
            assert(threads::holds_field(a[0], "type"@, JsonView::Text("output_text"@)));
        }
        assert(all.drop_first() =~= rest + seq![part] + b);
    } else {
        assert(all[0] == part);
    }
}

/// The answer of the OpenAI API is the first text of its first message that has one: what is no
/// message, and what is no text in a message, is passed over. A response that did not complete is
/// refused.
pub proof fn responses_give_their_first_text(
    response: JsonView,
    before: Seq<JsonView>,
    message: JsonView,
    after: Seq<JsonView>,
    a: Seq<JsonView>,
    part: JsonView,
    b: Seq<JsonView>,
    said: Seq<char>,
)
    requires
        threads::holds_field(
            response,
            "output"@,
            JsonView::Array(before + seq![message] + after),
        ),
        forall|i: int|
            0 <= i < before.len() ==> !threads::holds_field(
                #[trigger] before[i],
                "type"@,
                JsonView::Text("message"@),
            ),
        threads::holds_field(message, "type"@, JsonView::Text("message"@)),
        threads::holds_field(message, "content"@, JsonView::Array(a + seq![part] + b)),
        forall|i: int|
            0 <= i < a.len() ==> !threads::holds_field(
                #[trigger] a[i],
                "type"@,
                JsonView::Text("output_text"@),
            ),
        threads::holds_field(part, "type"@, JsonView::Text("output_text"@)),
        threads::holds_field(part, "text"@, JsonView::Text(said)),
    ensures
        threads::holds_field(response, "status"@, JsonView::Text("completed"@))
            ==> summary::response_text(response) == Ok::<Seq<char>, Seq<char>>(said),
        !threads::holds_field(response, "status"@, JsonView::Text("completed"@))
            ==> summary::response_text(response) is Err,
{
    let output = before + seq![message] + after;
    let one = seq![message];
    lemma_outputs_add(before + one, after);
    lemma_outputs_add(before, one);
    lemma_no_outputs(before);
    assert(one.drop_last() =~= Seq::<JsonView>::empty());
    assert(summary::output_parts(Seq::<JsonView>::empty()) =~= Seq::<JsonView>::empty());
    assert(summary::output_parts(one) =~= a + seq![part] + b);
    let rest = b + summary::output_parts(after);
    assert(summary::output_parts(output) =~= a + seq![part] + rest);
    lemma_first_output(a, part, rest);
    if json::text_field(response, "status"@) == Some("completed"@) {
        assert(threads::holds_field(response, "status"@, JsonView::Text("completed"@)));
    }
}

proof fn lemma_no_outputs(items: Seq<JsonView>)
    requires
        forall|i: int|
            0 <= i < items.len() ==> !threads::holds_field(
                #[trigger] items[i],
                "type"@,
                JsonView::Text("message"@),
            ),
    ensures
        summary::output_parts(items) == Seq::<JsonView>::empty(),
    decreases items.len(),
{
    if items.len() > 0 {
        let rest = items.drop_last();
        assert forall|i: int| 0 <= i < rest.len() implies !threads::holds_field(
            #[trigger] rest[i],
            "type"@,
            JsonView::Text("message"@),
        ) by {
            assert(rest[i] == items[i]);
        }
        lemma_no_outputs(rest);
        let last = items[items.len() - 1];
        assert(!threads::holds_field(last, "type"@, JsonView::Text("message"@)));
        if json::text_field(last, "type"@) == Some("message"@) {
            assert(threads::holds_field(last, "type"@, JsonView::Text("message"@)));
        }
    }
}

/// What a provider wrote is tried as a whole first, and then line by line, the last line first, each
/// without white space around it.
pub proof fn answers_are_looked_for_from_the_end(value: Seq<char>, i: int)
    requires
        0 <= i < text::lines_of(value).len(),
    ensures
        summary::candidates(value).len() == text::lines_of(value).len() + 1,
        summary::candidates(value)[0] == text::trimmed(value),
        summary::candidates(value)[text::lines_of(value).len() - i] == text::trimmed(
            text::lines_of(value)[i],
        ),
{
}

/// Whether `read` makes of `source` just `found`.
pub open spec fn reads_as<F: Fn(&str) -> Option<SummaryResult>>(
    read: F,
    source: Seq<char>,
    found: Option<SummaryResult>,
) -> bool {
    forall|piece: &str, out: Option<SummaryResult>|
        piece@ == source && #[trigger] call_ensures(read, (piece,), out) ==> out == found
}

/// Whether `r` is `expected`, as far as can be seen.
pub open spec fn turned_out(
    r: Result<SummaryResult, String>,
    expected: Result<SummaryView, Seq<char>>,
) -> bool {
    match (r, expected) {
        (Ok(result), Ok(view)) => result@.title == view.title && result@.summary == view.summary,
        (Err(error), Err(told)) => error@ == told,
        _ => false,
    }
}

/// The first text that reads as an answer is the answer, in normal form, or the fault that it has. Where
/// none reads as one, that is told.
pub proof fn the_first_text_that_reads_is_the_answer<F: Fn(&str) -> Option<SummaryResult>>(
    read: F,
    sources: Seq<Seq<char>>,
    i: int,
    found: SummaryResult,
    k: int,
    r: Result<SummaryResult, String>,
)
    requires
        summary::is_structured_outcome(read, sources, k, r),
        0 <= i <= sources.len(),
        forall|j: int| 0 <= j < i ==> reads_as(read, #[trigger] sources[j], None),
        i < sources.len() ==> reads_as(read, sources[i], Some(found)),
    ensures
        i < sources.len() ==> turned_out(r, summary::normal_result(found@)),
        i == sources.len() ==> turned_out(
            r,
            Err("provider output was not a title/summary JSON object"@),
        ),
{
    if k < i {
        assert(reads_as(read, sources[k], None));
        let other = choose|other: SummaryResult| #[trigger]
            summary::may_read(read, sources[k], Some(other)) && summary::is_outcome(
                r,
                summary::normal_result(other@),
            );
        assert(summary::may_read(read, sources[k], Some(other)));
        let piece = choose|piece: &str|
            piece@ == sources[k] && #[trigger] call_ensures(read, (piece,), Some(other));
        assert(call_ensures(read, (piece,), Some(other)));
    } else if i < k {
        assert(summary::may_read(read, sources[i], None));
        let piece = choose|piece: &str|
            piece@ == sources[i] && #[trigger] call_ensures(read, (piece,), None);
        assert(call_ensures(read, (piece,), None));
    } else if i < sources.len() {
        let other = choose|other: SummaryResult| #[trigger]
            summary::may_read(read, sources[k], Some(other)) && summary::is_outcome(
                r,
                summary::normal_result(other@),
            );
        assert(summary::may_read(read, sources[k], Some(other)));
        let piece = choose|piece: &str|
            piece@ == sources[k] && #[trigger] call_ensures(read, (piece,), Some(other));
        assert(call_ensures(read, (piece,), Some(other)));
    }
}

/// What a provider wrote is read as its answer, and a fault is told with where it was found.
pub proof fn answers_are_read_from_what_was_written<F: Fn(&str) -> Option<SummaryResult>>(
    read: F,
    value: Seq<char>,
    context: Seq<char>,
    i: int,
    found: SummaryResult,
    r: Result<SummaryResult, String>,
)
    requires
        summary::is_read_outcome(read, value, context, r),
        0 <= i < summary::candidates(value).len(),
        forall|j: int| 0 <= j < i ==> reads_as(read, #[trigger] summary::candidates(value)[j], None),
        reads_as(read, summary::candidates(value)[i], Some(found)),
    ensures
        summary::normal_result(found@) matches Ok(normal) ==> turned_out(r, Ok(normal)),
        summary::normal_result(found@) matches Err(error) ==> turned_out(
            r,
            Err(context + ": "@ + error),
        ),
{
    let (k, inner) = choose|k: int, inner: Result<SummaryResult, String>| #[trigger]
        summary::is_structured_outcome(read, summary::candidates(value), k, inner) && match inner {
            Ok(result) => summary::is_outcome(r, Ok(result@)),
            Err(error) => summary::is_outcome(r, Err(context + ": "@ + error@)),
        };
    the_first_text_that_reads_is_the_answer(
        read,
        summary::candidates(value),
        i,
        found,
        k,
        inner,
    );
}

/// Where Codex fails, or the OpenAI API refuses, that is told with the status and with what was said,
/// whole where it has at most a thousand characters and else its beginning.
pub proof fn failures_are_told(
    status: Seq<char>,
    said: Seq<char>,
    excerpt: Seq<char>,
    core: Seq<char>,
    from: int,
    to: int,
)
    requires
        texts::is_core(said, core, from, to),
    ensures
        is_excerpt(core, 1000, excerpt) ==> summary::codex_failure(status, said)
            == "ephemeral Codex summarizer exited with "@ + status + ": "@ + excerpt,
        is_excerpt(said, 1000, excerpt) ==> summary::refusal(status, said)
            == "OpenAI Responses API returned "@ + status + ": "@ + excerpt,
{
    texts::the_core_is_the_trimmed_text(said, core, from, to);
    if core.len() > 1000 {
        assert(summary::truncated(core, 1000) =~= core.take(999) + seq!['\u{2026}']);
    }
    if said.len() > 1000 {
        assert(summary::truncated(said, 1000) =~= said.take(999) + seq!['\u{2026}']);
    }
}

/// What Codex wrote is read where it succeeded, and else what it wrote of its failure is told. The same
/// holds of what the OpenAI API sent.
pub proof fn replies_are_read_where_they_succeeded<F: Fn(&str) -> Option<SummaryResult>>(
    status: &str,
    stdout: &str,
    stderr: &str,
    read: &F,
    r: Result<SummaryResult, String>,
    s: Result<SummaryResult, String>,
)
    requires
        call_ensures(summary::read_codex_reply::<F>, (false, status, stdout, stderr, read), r),
        call_ensures(summary::read_openai_reply::<F>, (false, status, stdout, read), s),
    ensures
        r matches Err(error) && error@ == summary::codex_failure(status@, stderr@),
        s matches Err(error) && error@ == summary::refusal(status@, stdout@),
{
}

} // verus!
