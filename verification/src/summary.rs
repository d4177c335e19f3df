//! Titles and summaries of threads: what a provider reads, what it is asked, and what it may answer.

use vstd::prelude::*;

use crate::app_server;
use crate::app_server::{compact_json, MessageRole, MessageView, VisibleMessage};
use crate::config;
use crate::config::{Config, ConfigView, SummaryInput, SummaryProvider};
use crate::json;
use crate::json::{describe, Json, JsonObject, JsonView};
use crate::paths;
use crate::paths::{AppPaths, PathsView};
use crate::text;
use crate::text::{chars_of, decimal_text, join, lines, same, split_whitespace, string_of, trim};

verus! {

/// The greatest length of a title or a summary, in characters.
pub const MAX_OUTPUT_CHARS: usize = 240;

/// `value` where it has at most `limit` characters, else its start and an ellipsis, `limit` in all.
pub open spec fn truncated(value: Seq<char>, limit: nat) -> Seq<char> {
    if value.len() <= limit {
        value
    } else if limit == 0 {
        Seq::empty()
    } else {
        value.take(limit - 1).push('\u{2026}')
    }
}

pub fn truncate_chars(value: &str, limit: usize) -> (r: String)
    ensures
        r@ == truncated(value@, limit as nat),
{
    let chars = chars_of(value);
    if chars.len() <= limit {
        return value.to_owned();
    }
    if limit == 0 {
        return String::new();
    }
    let mut output = string_of(&chars, 0, limit - 1);
    output.push('\u{2026}');
    output
}

/// The words of `value` with one space between each two.
pub open spec fn collapsed(value: Seq<char>) -> Seq<char> {
    text::joined(text::words(value), " "@)
}

/// `value` with its white space collapsed, at most as long as a title or a summary may be.
pub open spec fn normal_form(value: Seq<char>) -> Seq<char> {
    truncated(collapsed(value), MAX_OUTPUT_CHARS as nat)
}

pub fn normalize_output(value: &str) -> (r: String)
    ensures
        r@ == normal_form(value@),
{
    truncate_chars(join(&split_whitespace(value), " ").as_str(), MAX_OUTPUT_CHARS)
}

/// `value` in three pieces: its start, its middle and its end, `limit` characters in all.
pub open spec fn beginning_middle_end(value: Seq<char>, limit: nat) -> Seq<char> {
    if value.len() <= limit {
        value
    } else if limit <= 2 {
        value.take(limit as int)
    } else {
        let third = (limit - 2) / 3;
        let last = limit - 2 - third - third;
        let center = value.len() as int / 2;
        let start = if center >= third / 2 {
            center - third / 2
        } else {
            0
        };
        value.take(third).push('\u{2026}') + value.subrange(start, start + third).push('\u{2026}')
            + value.skip(value.len() - last)
    }
}

pub fn raw_beginning_middle_end(value: &str, limit: usize) -> (r: String)
    ensures
        r@ == beginning_middle_end(value@, limit as nat),
{
    let characters = chars_of(value);
    let n: usize = characters.len();
    if n <= limit {
        return value.to_owned();
    }
    if limit <= 2 {
        let start = string_of(&characters, 0, limit);
        assert(start@ =~= value@.take(limit as int));
        return start;
    }
    let content_budget: usize = limit - 2;
    let first: usize = content_budget / 3;
    let middle: usize = content_budget / 3;
    let last: usize = content_budget - first - middle;
    let center: usize = n / 2;
    let middle_start: usize = center.saturating_sub(middle / 2);
    let mut output = string_of(&characters, 0, first);
    output.push('\u{2026}');
    output.append(string_of(&characters, middle_start, middle_start + middle).as_str());
    output.push('\u{2026}');
    output.append(string_of(&characters, n - last, n).as_str());
    assert(output@ =~= beginning_middle_end(value@, limit as nat));
    output
}

/// The position of the quantile `position` of `desired` in a list of `length`.
pub open spec fn quantile(length: nat, desired: nat, position: nat) -> int {
    (position * (length - 1)) / (desired - 1)
}

/// The quantiles before `upto`, without immediate repetitions.
pub open spec fn quantiles_before(length: nat, desired: nat, upto: nat) -> Seq<usize>
    decreases upto,
{
    if upto == 0 {
        Seq::empty()
    } else {
        let before = quantiles_before(length, desired, (upto - 1) as nat);
        let index = quantile(length, desired, (upto - 1) as nat) as usize;
        if before.len() > 0 && before.last() == index {
            before
        } else {
            before.push(index)
        }
    }
}

/// `desired` positions that are spread evenly over a list of `length`, the ends among them.
pub open spec fn quantiles(length: nat, desired: nat) -> Seq<usize> {
    if length == 0 || desired == 0 {
        Seq::empty()
    } else if desired == 1 {
        seq![0usize]
    } else {
        quantiles_before(length, desired, desired)
    }
}

proof fn lemma_quantile_bound(length: nat, desired: nat, position: nat)
    requires
        length > 0,
        desired > 1,
        position < desired,
    ensures
        0 <= quantile(length, desired, position) <= length - 1,
        0 <= position * (length - 1) <= (desired - 1) * (length - 1),
        position == 0 ==> quantile(length, desired, position) == 0,
        position == desired - 1 ==> quantile(length, desired, position) == length - 1,
{
    let p = position as int;
    let l = length - 1;
    let d = desired - 1;
    assert(0 <= p * l <= d * l) by (nonlinear_arith)
        requires
            0 <= p <= d,
            0 <= l,
    ;
    assert(0 <= (p * l) / d <= l) by (nonlinear_arith)
        requires
            0 <= p * l <= d * l,
            d > 0,
            0 <= l,
    ;
    assert((0 * l) / d == 0) by (nonlinear_arith)
        requires
            d > 0,
    ;
    assert((d * l) / d == l) by (nonlinear_arith)
        requires
            d > 0,
    ;
}

pub fn quantile_indices(length: usize, desired: usize) -> (r: Vec<usize>)
    ensures
        r@ == quantiles(length as nat, desired as nat),
{
    let mut indices: Vec<usize> = Vec::new();
    if length == 0 || desired == 0 {
        return indices;
    }
    if desired == 1 {
        indices.push(0);
        assert(indices@ =~= seq![0usize]);
        return indices;
    }
    let mut position: usize = 0;
    while position < desired
        invariant
            length > 0,
            desired > 1,
            position <= desired,
            indices@ == quantiles_before(length as nat, desired as nat, position as nat),
        decreases desired - position,
    {
        proof {
            lemma_quantile_bound(length as nat, desired as nat, position as nat);
            let p = position as int;
            let l = length - 1;
            assert(p * l <= 0xffff_ffff_ffff_ffff * 0xffff_ffff_ffff_ffff) by (nonlinear_arith)
                requires
                    0 <= p <= 0xffff_ffff_ffff_ffff,
                    0 <= l <= 0xffff_ffff_ffff_ffff,
            ;
        }
        let index: usize = (position as u128 * (length - 1) as u128 / (desired - 1) as u128) as usize;
        if indices.len() == 0 || indices[indices.len() - 1] != index {
            indices.push(index);
        }
        position += 1;
    }
    indices
}

proof fn lemma_quantiles_before(length: nat, desired: nat, upto: nat)
    requires
        0 < length <= usize::MAX,
        1 < desired,
        upto <= desired,
    ensures
        quantiles_before(length, desired, upto).len() <= upto,
        upto > 0 ==> quantiles_before(length, desired, upto).len() > 0,
        forall|i: int|
            0 <= i < quantiles_before(length, desired, upto).len() ==> #[trigger] quantiles_before(
                length,
                desired,
                upto,
            )[i] < length,
    decreases upto,
{
    if upto > 0 {
        lemma_quantiles_before(length, desired, (upto - 1) as nat);
        lemma_quantile_bound(length, desired, (upto - 1) as nat);
    }
}

proof fn lemma_quantiles(length: nat, desired: nat)
    requires
        0 < length <= usize::MAX,
        0 < desired,
    ensures
        0 < quantiles(length, desired).len() <= desired,
        forall|i: int|
            0 <= i < quantiles(length, desired).len() ==> #[trigger] quantiles(length, desired)[i]
                < length,
{
    if desired > 1 {
        lemma_quantiles_before(length, desired, desired);
    }
}

/// A message as a line of a transcript.
pub open spec fn rendered(message: MessageView) -> Seq<char> {
    app_server::role_label(message.role) + ": "@ + text::trimmed(message.text)
}

/// Every message, one after the other.
pub open spec fn transcript(messages: Seq<MessageView>) -> Seq<char> {
    text::joined(Seq::new(messages.len(), |i: int| rendered(messages[i])), "\n\n"@)
}

fn render_all(messages: &[VisibleMessage]) -> (r: String)
    ensures
        r@ == transcript(messages.deep_view()),
{
    let mut lines: Vec<String> = Vec::new();
    let mut i: usize = 0;
    let ghost all = messages.deep_view();
    while i < messages.len()
        invariant
            i <= messages@.len(),
            all == messages.deep_view(),
            lines.deep_view() == Seq::new(i as nat, |k: int| rendered(all[k])),
        decreases messages@.len() - i,
    {
        let ghost before = lines.deep_view();
        let line = messages[i].role.label().to_owned().concat(": ").concat(
            trim(messages[i].text.as_str()).as_str(),
        );
        lines.push(line);
        i += 1;
        assert(lines.deep_view() =~= before.push(line@));
        assert(lines.deep_view() =~= Seq::new(i as nat, |k: int| rendered(all[k])));
    }
    join(&lines, "\n\n")
}

/// What stands before a sampled message: its number, the number of messages, and its role.
pub open spec fn sample_label(messages: Seq<MessageView>, index: int) -> Seq<char> {
    "[message "@ + text::decimal((index + 1) as nat) + "/"@ + text::decimal(messages.len()) + "] "@
        + app_server::role_label(messages[index].role) + ": "@
}

/// The labels of the messages at `indices`.
pub open spec fn sample_labels(messages: Seq<MessageView>, indices: Seq<usize>) -> Seq<Seq<char>> {
    Seq::new(indices.len(), |p: int| sample_label(messages, indices[p] as int))
}

/// The number of characters in `parts` together.
pub open spec fn total_len(parts: Seq<Seq<char>>) -> nat
    decreases parts.len(),
{
    if parts.len() == 0 {
        0
    } else {
        total_len(parts.drop_last()) + parts.last().len()
    }
}

/// The position of the last index that is no anchor, or -1 where every index is one.
pub open spec fn last_free(indices: Seq<usize>, anchors: Seq<usize>) -> int
    decreases indices.len(),
{
    if indices.len() == 0 {
        -1
    } else if !anchors.contains(indices.last()) {
        indices.len() - 1
    } else {
        last_free(indices.drop_last(), anchors)
    }
}

/// `indices` without as many of its last indices that are no anchors as the labels of the rest
/// need in order to leave room for one character of each message.
pub open spec fn thinned(
    messages: Seq<MessageView>,
    indices: Seq<usize>,
    anchors: Seq<usize>,
    limit: nat,
) -> Seq<usize>
    decreases indices.len(),
    via thinned_decreases
{
    let n = indices.len();
    let free = last_free(indices, anchors);
    if total_len(sample_labels(messages, indices)) + 3 * n <= limit || n <= anchors.len() || free
        < 0 {
        indices
    } else {
        thinned(messages, indices.remove(free), anchors, limit)
    }
}

#[via_fn]
proof fn thinned_decreases(
    messages: Seq<MessageView>,
    indices: Seq<usize>,
    anchors: Seq<usize>,
    limit: nat,
) {
    lemma_last_free(indices, anchors);
}

proof fn lemma_last_free(indices: Seq<usize>, anchors: Seq<usize>)
    ensures
        -1 <= last_free(indices, anchors) < indices.len(),
        last_free(indices, anchors) >= 0 ==> !anchors.contains(
            indices[last_free(indices, anchors)],
        ),
    decreases indices.len(),
{
    if indices.len() > 0 && anchors.contains(indices.last()) {
        lemma_last_free(indices.drop_last(), anchors);
    }
}

/// How many characters the message at `position` gets of `available` shared by `n` messages.
pub open spec fn quota(available: nat, n: nat, position: nat) -> nat {
    available / n + if position < available % n {
        1nat
    } else {
        0nat
    }
}

/// The messages that are sampled.
pub open spec fn sampled_indices(messages: Seq<MessageView>, limit: nat) -> Seq<usize> {
    let n = messages.len();
    let desired = if n <= 25 {
        n
    } else {
        25
    };
    let ends = if n <= 3 {
        n
    } else {
        3
    };
    thinned(messages, quantiles(n, desired), quantiles(n, ends), limit)
}

/// The characters that the labels of a sample and the gaps between its messages take.
pub open spec fn sample_overhead(messages: Seq<MessageView>, indices: Seq<usize>) -> int {
    total_len(sample_labels(messages, indices)) + 2 * (indices.len() - 1)
}

/// The sampled messages with their labels, each cut to its quota.
pub open spec fn sample_parts(
    messages: Seq<MessageView>,
    indices: Seq<usize>,
    available: nat,
) -> Seq<Seq<char>> {
    Seq::new(
        indices.len(),
        |p: int|
            sample_label(messages, indices[p] as int) + truncated(
                text::trimmed(messages[indices[p] as int].text),
                quota(available, indices.len(), p as nat),
            ),
    )
}

/// A sample of a thread that is longer than `limit`: messages from its beginning to its end where
/// there is room for them, and else three pieces of the transcript.
pub open spec fn sample(messages: Seq<MessageView>, complete: Seq<char>, limit: nat) -> Seq<char> {
    if limit == 0 || messages.len() == 0 {
        Seq::empty()
    } else {
        let indices = sampled_indices(messages, limit);
        let overhead = sample_overhead(messages, indices);
        if overhead + indices.len() > limit {
            beginning_middle_end(complete, limit)
        } else {
            text::joined(sample_parts(messages, indices, (limit - overhead) as nat), "\n\n"@)
        }
    }
}

proof fn lemma_label_is_short(messages: Seq<MessageView>, index: int)
    requires
        0 <= index < messages.len() <= usize::MAX,
    ensures
        sample_label(messages, index).len() <= 63,
{
    reveal_strlit("[message ");
    reveal_strlit("/");
    reveal_strlit("] ");
    reveal_strlit(": ");
    reveal_strlit("User");
    reveal_strlit("Assistant");
    text::decimal_is_short((index + 1) as nat);
    text::decimal_is_short(messages.len());
}

fn labels_of(messages: &[VisibleMessage], indices: &Vec<usize>) -> (r: Vec<String>)
    requires
        forall|i: int| 0 <= i < indices@.len() ==> #[trigger] indices@[i] < messages@.len(),
    ensures
        r.deep_view() == sample_labels(messages.deep_view(), indices@),
        r@.len() == indices@.len(),
        forall|i: int| 0 <= i < r@.len() ==> (#[trigger] r@[i])@.len() <= 63,
{
    let mut labels: Vec<String> = Vec::new();
    let mut p: usize = 0;
    let ghost all = messages.deep_view();
    let total: usize = messages.len();
    while p < indices.len()
        invariant
            p <= indices@.len(),
            total == messages@.len(),
            all == messages.deep_view(),
            forall|i: int| 0 <= i < indices@.len() ==> #[trigger] indices@[i] < messages@.len(),
            labels@.len() == p,
            forall|i: int| 0 <= i < p ==> (#[trigger] labels@[i])@.len() <= 63,
            forall|i: int| 0 <= i < p ==> (#[trigger] labels@[i])@ == sample_label(all, indices@[i] as int),
        decreases indices@.len() - p,
    {
        let index: usize = indices[p];
        assert(index < messages@.len());
        let label = "[message ".to_owned().concat(decimal_text((index + 1) as u64).as_str()).concat(
            "/",
        ).concat(decimal_text(total as u64).as_str()).concat("] ").concat(
            messages[index].role.label(),
        ).concat(": ");
        proof {
            lemma_label_is_short(all, index as int);
        }
        assert(label@ == sample_label(all, index as int));
        labels.push(label);
        p += 1;
    }
    assert(labels.deep_view() =~= sample_labels(all, indices@));
    labels
}

fn count_all(labels: &Vec<String>) -> (r: usize)
    requires
        labels@.len() <= 25,
        forall|i: int| 0 <= i < labels@.len() ==> (#[trigger] labels@[i])@.len() <= 63,
    ensures
        r == total_len(labels.deep_view()),
        r <= 63 * labels@.len(),
{
    let mut total: usize = 0;
    let mut p: usize = 0;
    let ghost all = labels.deep_view();
    assert(all.take(0).len() == 0);
    while p < labels.len()
        invariant
            p <= labels@.len() <= 25,
            all == labels.deep_view(),
            forall|i: int| 0 <= i < labels@.len() ==> (#[trigger] labels@[i])@.len() <= 63,
            total == total_len(all.take(p as int)),
            total <= 63 * p,
        decreases labels@.len() - p,
    {
        assert(all.take(p + 1).drop_last() =~= all.take(p as int));
        assert(all.take(p + 1).last() == labels@[p as int]@);
        total += labels[p].as_str().unicode_len();
        p += 1;
    }
    assert(all.take(p as int) =~= all);
    total
}

fn is_anchor(anchors: &Vec<usize>, index: usize) -> (r: bool)
    ensures
        r == anchors@.contains(index),
{
    let mut k: usize = 0;
    while k < anchors.len()
        invariant
            k <= anchors@.len(),
            forall|j: int| 0 <= j < k ==> anchors@[j] != index,
        decreases anchors@.len() - k,
    {
        if anchors[k] == index {
            return true;
        }
        k += 1;
    }
    false
}

fn find_last_free(indices: &Vec<usize>, anchors: &Vec<usize>) -> (r: Option<usize>)
    ensures
        match r {
            Some(position) => position == last_free(indices@, anchors@) && position < indices@.len(),
            None => last_free(indices@, anchors@) == -1,
        },
{
    let mut end: usize = indices.len();
    assert(indices@.take(end as int) =~= indices@);
    while end > 0
        invariant
            end <= indices@.len(),
            last_free(indices@, anchors@) == last_free(indices@.take(end as int), anchors@),
        decreases end,
    {
        assert(indices@.take(end as int).drop_last() =~= indices@.take(end - 1));
        if !is_anchor(anchors, indices[end - 1]) {
            return Some(end - 1);
        }
        end -= 1;
    }
    None
}

proof fn lemma_remove_keeps(indices: Seq<usize>, at: int, bound: nat)
    requires
        0 <= at < indices.len(),
        forall|i: int| 0 <= i < indices.len() ==> #[trigger] indices[i] < bound,
    ensures
        forall|i: int|
            0 <= i < indices.remove(at).len() ==> #[trigger] indices.remove(at)[i] < bound,
{
}

pub fn representative_sample(
    messages: &[VisibleMessage],
    complete: &str,
    limit: usize,
) -> (r: String)
    ensures
        r@ == sample(messages.deep_view(), complete@, limit as nat),
{
    let count: usize = messages.len();
    if limit == 0 || count == 0 {
        return String::new();
    }
    let ghost all = messages.deep_view();
    let desired: usize = if count <= 25 {
        count
    } else {
        25
    };
    let ends: usize = if count <= 3 {
        count
    } else {
        3
    };
    let mut indices = quantile_indices(count, desired);
    let anchors = quantile_indices(count, ends);
    proof {
        lemma_quantiles(count as nat, desired as nat);
        lemma_quantiles(count as nat, ends as nat);
    }
    let ghost kept = sampled_indices(all, limit as nat);
    loop
        invariant_except_break
            kept == thinned(all, indices@, anchors@, limit as nat),
        invariant
            all == messages.deep_view(),
            anchors@.len() >= 1,
            1 <= indices@.len() <= 25,
            forall|i: int| 0 <= i < indices@.len() ==> #[trigger] indices@[i] < messages@.len(),
        ensures
            kept == indices@,
        decreases indices@.len(),
    {
        let overhead: usize = count_all(&labels_of(messages, &indices)) + 2 * indices.len();
        if overhead + indices.len() <= limit || indices.len() <= anchors.len() {
            break;
        }
        match find_last_free(&indices, &anchors) {
            Some(position) => {
                proof {
                    lemma_remove_keeps(indices@, position as int, messages@.len());
                }
                indices.remove(position);
            },
            None => {
                break;
            },
        }
    }
    let labels = labels_of(messages, &indices);
    let n: usize = indices.len();
    let overhead: usize = count_all(&labels) + (n - 1) * 2;
    if overhead + n > limit {
        return raw_beginning_middle_end(complete, limit);
    }
    let available: usize = limit - overhead;
    let base: usize = available / n;
    let remainder: usize = available % n;
    let mut parts: Vec<String> = Vec::new();
    let mut position: usize = 0;
    let ghost wanted = sample_parts(all, indices@, available as nat);
    while position < n
        invariant
            position <= n,
            n == indices@.len(),
            n >= 1,
            all == messages.deep_view(),
            labels@.len() == n,
            labels.deep_view() == sample_labels(all, indices@),
            forall|i: int| 0 <= i < indices@.len() ==> #[trigger] indices@[i] < messages@.len(),
            base == available / n,
            remainder == available % n,
            wanted == sample_parts(all, indices@, available as nat),
            parts@.len() == position,
            forall|i: int| 0 <= i < position ==> (#[trigger] parts@[i])@ == wanted[i],
        decreases n - position,
    {
        let extra: usize = if position < remainder {
            1
        } else {
            0
        };
        assert(base < usize::MAX || n == 1) by {
            if n > 1 {
                assert(available as int / n as int <= available as int / 2) by (nonlinear_arith)
                    requires
                        n > 1,
                        available >= 0,
                ;
            }
        }
        let index: usize = indices[position];
        assert(index < messages@.len());
        assert(labels.deep_view()[position as int] == sample_label(all, index as int));
        let part = labels[position].clone().concat(
            truncate_chars(trim(messages[index].text.as_str()).as_str(), base + extra).as_str(),
        );
        assert(labels.deep_view()[position as int] == labels@[position as int]@);
        assert(part@ == wanted[position as int]);
        parts.push(part);
        position += 1;
    }
    assert(parts.deep_view() =~= wanted);
    join(&parts, "\n\n")
}

/// What of a thread a provider reads: all of it, or a sample where it is longer than the limit.
pub open spec fn formatted(messages: Seq<MessageView>, cap: SummaryInput) -> Seq<char> {
    match config::input_limit(cap) {
        None => transcript(messages),
        Some(limit) => if transcript(messages).len() <= limit {
            transcript(messages)
        } else {
            sample(messages, transcript(messages), limit as nat)
        },
    }
}

pub fn format_messages(messages: &[VisibleMessage], cap: SummaryInput) -> (r: String)
    ensures
        r@ == formatted(messages.deep_view(), cap),
{
    let complete = render_all(messages);
    match cap.character_limit() {
        None => complete,
        Some(limit) => if complete.as_str().unicode_len() <= limit {
            complete
        } else {
            representative_sample(messages, complete.as_str(), limit)
        },
    }
}

/// A title and a summary.
#[derive(Debug, PartialEq, Eq)]
pub struct SummaryResult {
    pub title: String,
    pub summary: String,
}

/// A title and a summary as a mathematical value.
#[verifier::ext_equal]
pub struct SummaryView {
    pub title: Seq<char>,
    pub summary: Seq<char>,
}

impl View for SummaryResult {
    type V = SummaryView;

    open spec fn view(&self) -> SummaryView {
        SummaryView { title: self.title@, summary: self.summary@ }
    }
}

impl Clone for SummaryResult {
    fn clone(&self) -> (r: Self)
        ensures
            r@ == self@,
    {
        SummaryResult { title: self.title.clone(), summary: self.summary.clone() }
    }
}

/// A title and a summary in normal form. Neither may be empty.
pub open spec fn normal_result(result: SummaryView) -> Result<SummaryView, Seq<char>> {
    if normal_form(result.title).len() == 0 {
        Err("summary provider returned an empty title"@)
    } else if normal_form(result.summary).len() == 0 {
        Err("summary provider returned an empty summary"@)
    } else {
        Ok(
            SummaryView {
                title: normal_form(result.title),
                summary: normal_form(result.summary),
            },
        )
    }
}

/// Whether `r` is the outcome `expected`.
pub open spec fn is_outcome(
    r: Result<SummaryResult, String>,
    expected: Result<SummaryView, Seq<char>>,
) -> bool {
    match r {
        Ok(result) => expected == Ok::<SummaryView, Seq<char>>(result@),
        Err(error) => expected == Err::<SummaryView, Seq<char>>(error@),
    }
}

impl SummaryResult {
    pub fn normalized(self) -> (r: Result<SummaryResult, String>)
        ensures
            is_outcome(r, normal_result(self@)),
    {
        let title = normalize_output(self.title.as_str());
        let summary = normalize_output(self.summary.as_str());
        if title.as_str().is_empty() {
            return Err("summary provider returned an empty title".to_owned());
        }
        if summary.as_str().is_empty() {
            return Err("summary provider returned an empty summary".to_owned());
        }
        Ok(SummaryResult { title, summary })
    }
}

/// The first message of the user.
pub open spec fn first_request(messages: Seq<MessageView>) -> Option<Seq<char>>
    decreases messages.len(),
{
    if messages.len() == 0 {
        None
    } else if messages[0].role == MessageRole::User {
        Some(messages[0].text)
    } else {
        first_request(messages.drop_first())
    }
}

/// The title that a thread gives itself: the first request, else the first message.
pub open spec fn own_title(messages: Seq<MessageView>) -> Seq<char> {
    match first_request(messages) {
        Some(request) => request,
        None => if messages.len() > 0 {
            messages[0].text
        } else {
            "Untitled Codex session"@
        },
    }
}

/// The summary that a thread gives itself: its last message.
pub open spec fn own_summary(messages: Seq<MessageView>) -> Seq<char> {
    if messages.len() > 0 {
        messages.last().text
    } else {
        "No visible user or assistant messages were available."@
    }
}

/// The summary of a thread without a provider.
pub open spec fn local_result(messages: Seq<MessageView>) -> Result<SummaryView, Seq<char>> {
    normal_result(SummaryView { title: own_title(messages), summary: own_summary(messages) })
}

pub fn local_summary(messages: &[VisibleMessage]) -> (r: Result<SummaryResult, String>)
    ensures
        is_outcome(r, local_result(messages.deep_view())),
{
    let count: usize = messages.len();
    let ghost all = messages.deep_view();
    if count == 0 {
        return SummaryResult {
            title: "Untitled Codex session".to_owned(),
            summary: "No visible user or assistant messages were available.".to_owned(),
        }.normalized();
    }
    let mut i: usize = 0;
    assert(all.skip(0) =~= all);
    while i < count && messages[i].role != MessageRole::User
        invariant
            i <= count,
            count == messages@.len(),
            all == messages.deep_view(),
            first_request(all) == first_request(all.skip(i as int)),
        decreases count - i,
    {
        assert(all.skip(i as int).drop_first() =~= all.skip(i + 1));
        assert(all.skip(i as int)[0].role == messages@[i as int].role);
        i += 1;
    }
    let title = if i < count {
        assert(all.skip(i as int)[0].role == messages@[i as int].role);
        messages[i].text.clone()
    } else {
        messages[0].text.clone()
    };
    SummaryResult { title, summary: messages[count - 1].text.clone() }.normalized()
}

/// What a provider is asked.
pub open spec fn prompt(transcript: Seq<char>) -> Seq<char> {
    "Create a concise title and summary for this Codex thread. Use only the visible user and assistant messages below. Do not infer hidden reasoning or tool output. Both fields must be at most "@
        + text::decimal(MAX_OUTPUT_CHARS as nat)
        + " Unicode characters. Return only the requested JSON object.\n\n<transcript>\n"@
        + transcript + "\n</transcript>"@
}

pub fn provider_prompt(transcript: &str) -> (r: String)
    ensures
        r@ == prompt(transcript@),
{
    "Create a concise title and summary for this Codex thread. Use only the visible user and assistant messages below. Do not infer hidden reasoning or tool output. Both fields must be at most ".to_owned().concat(
        decimal_text(MAX_OUTPUT_CHARS as u64).as_str(),
    ).concat(" Unicode characters. Return only the requested JSON object.\n\n<transcript>\n").concat(
        transcript,
    ).concat("\n</transcript>")
}

/// A text of at most `MAX_OUTPUT_CHARS` characters, as a schema.
pub open spec fn text_schema() -> JsonView {
    JsonView::Object(
        Map::empty().insert("type"@, JsonView::Text("string"@)).insert(
            "maxLength"@,
            JsonView::Number(json::whole_number(MAX_OUTPUT_CHARS as u64)),
        ),
    )
}

/// The schema of what a provider answers.
pub open spec fn answer_schema() -> JsonView {
    JsonView::Object(
        Map::empty().insert("type"@, JsonView::Text("object"@)).insert(
            "additionalProperties"@,
            JsonView::Bool(false),
        ).insert(
            "properties"@,
            JsonView::Object(
                Map::empty().insert("title"@, text_schema()).insert("summary"@, text_schema()),
            ),
        ).insert(
            "required"@,
            JsonView::Array(seq![JsonView::Text("title"@), JsonView::Text("summary"@)]),
        ),
    )
}

fn output_text_schema() -> (r: Json)
    ensures
        r@ == text_schema(),
{
    Json::object(
        JsonObject::new().with("type", Json::text("string")).with(
            "maxLength",
            Json::number(MAX_OUTPUT_CHARS as u64),
        ),
    )
}

pub fn output_schema() -> (r: Json)
    ensures
        r@ == answer_schema(),
{
    let properties = JsonObject::new().with("title", output_text_schema()).with(
        "summary",
        output_text_schema(),
    );
    let mut required: Vec<Json> = Vec::new();
    required.push(Json::text("title"));
    required.push(Json::text("summary"));
    assert(required.deep_view() =~= seq![JsonView::Text("title"@), JsonView::Text("summary"@)]);
    Json::object(
        JsonObject::new().with("type", Json::text("object")).with(
            "additionalProperties",
            Json::Bool(false),
        ).with("properties", Json::object(properties)).with("required", Json::array(required)),
    )
}

/// The arguments with which Codex summarizes: it keeps no session, reads no user settings and no
/// rules, runs no hooks and may only read.
pub open spec fn exec_args(cwd: Seq<char>, schema_path: Seq<char>) -> Seq<Seq<char>> {
    seq![
        "exec"@,
        "--ephemeral"@,
        "--ignore-user-config"@,
        "--ignore-rules"@,
        "--disable"@,
        "hooks"@,
        "--sandbox"@,
        "read-only"@,
        "--skip-git-repo-check"@,
        "--output-schema"@,
        schema_path,
        "--color"@,
        "never"@,
        "-C"@,
        cwd,
        "-"@,
    ]
}

pub fn codex_exec_args(cwd: &str, schema_path: &str) -> (r: Vec<String>)
    ensures
        r.deep_view() == exec_args(cwd@, schema_path@),
{
    let mut args: Vec<String> = Vec::new();
    args.push("exec".to_owned());
    args.push("--ephemeral".to_owned());
    args.push("--ignore-user-config".to_owned());
    args.push("--ignore-rules".to_owned());
    args.push("--disable".to_owned());
    args.push("hooks".to_owned());
    args.push("--sandbox".to_owned());
    args.push("read-only".to_owned());
    args.push("--skip-git-repo-check".to_owned());
    args.push("--output-schema".to_owned());
    args.push(schema_path.to_owned());
    args.push("--color".to_owned());
    args.push("never".to_owned());
    args.push("-C".to_owned());
    args.push(cwd.to_owned());
    args.push("-".to_owned());
    assert(args.deep_view() =~= exec_args(cwd@, schema_path@));
    args
}

/// What the OpenAI Responses API is told to do.
pub open spec fn openai_instructions() -> Seq<char> {
    "Generate a faithful Codex thread title and summary. Each must be at most "@ + text::decimal(
        MAX_OUTPUT_CHARS as nat,
    ) + " Unicode characters."@
}

/// The one message of a request to the OpenAI Responses API.
pub open spec fn openai_input(transcript: Seq<char>) -> JsonView {
    JsonView::Object(
        Map::empty().insert("role"@, JsonView::Text("user"@)).insert(
            "content"@,
            JsonView::Array(
                seq![
                    JsonView::Object(
                        Map::empty().insert("type"@, JsonView::Text("input_text"@)).insert(
                            "text"@,
                            JsonView::Text(prompt(transcript)),
                        ),
                    ),
                ],
            ),
        ),
    )
}

/// The form of the answer of the OpenAI Responses API.
pub open spec fn openai_format() -> JsonView {
    JsonView::Object(
        Map::empty().insert(
            "format"@,
            JsonView::Object(
                Map::empty().insert("type"@, JsonView::Text("json_schema"@)).insert(
                    "name"@,
                    JsonView::Text("codex_thread_summary"@),
                ).insert("strict"@, JsonView::Bool(true)).insert("schema"@, answer_schema()),
            ),
        ),
    )
}

/// A request to the OpenAI Responses API. It is not to be stored there.
pub open spec fn openai_request(model: Seq<char>, transcript: Seq<char>) -> JsonView {
    JsonView::Object(
        Map::empty().insert("model"@, JsonView::Text(model)).insert(
            "store"@,
            JsonView::Bool(false),
        ).insert("instructions"@, JsonView::Text(openai_instructions())).insert(
            "input"@,
            JsonView::Array(seq![openai_input(transcript)]),
        ).insert("text"@, openai_format()),
    )
}

pub fn build_openai_request(model: &str, transcript: &str) -> (r: Json)
    ensures
        r@ == openai_request(model@, transcript@),
{
    let part = Json::object(
        JsonObject::new().with("type", Json::text("input_text")).with(
            "text",
            Json::Text(provider_prompt(transcript)),
        ),
    );
    let ghost part_view = part@;
    let mut content: Vec<Json> = Vec::new();
    content.push(part);
    assert(content.deep_view() =~= seq![part_view]);
    let message = Json::object(
        JsonObject::new().with("role", Json::text("user")).with("content", Json::array(content)),
    );
    let ghost message_view = message@;
    let mut input: Vec<Json> = Vec::new();
    input.push(message);
    assert(input.deep_view() =~= seq![message_view]);
    let format = JsonObject::new().with("type", Json::text("json_schema")).with(
        "name",
        Json::text("codex_thread_summary"),
    ).with("strict", Json::Bool(true)).with("schema", output_schema());
    let instructions =
        "Generate a faithful Codex thread title and summary. Each must be at most ".to_owned().concat(
        decimal_text(MAX_OUTPUT_CHARS as u64).as_str(),
    ).concat(" Unicode characters.");
    Json::object(
        JsonObject::new().with("model", Json::text(model)).with("store", Json::Bool(false)).with(
            "instructions",
            Json::Text(instructions),
        ).with("input", Json::array(input)).with(
            "text",
            Json::object(JsonObject::new().with("format", Json::object(format))),
        ),
    )
}

/// The texts of an answer that may hold the summary, in the order in which they are tried: the
/// whole of it, then its lines from the last to the first.
pub open spec fn candidates(value: Seq<char>) -> Seq<Seq<char>> {
    seq![text::trimmed(value)] + Seq::new(
        text::lines_of(value).len(),
        |i: int| text::trimmed(text::lines_of(value)[text::lines_of(value).len() - 1 - i]),
    )
}

pub fn structured_candidates(value: &str) -> (r: Vec<String>)
    ensures
        r.deep_view() == candidates(value@),
{
    let all = lines(value);
    let ghost expected = candidates(value@);
    let mut out: Vec<String> = Vec::new();
    out.push(trim(value));
    let mut left: usize = all.len();
    while left > 0
        invariant
            left <= all@.len(),
            all.deep_view() == text::lines_of(value@),
            expected == candidates(value@),
            out@.len() == 1 + all@.len() - left,
            forall|k: int| 0 <= k < out@.len() ==> (#[trigger] out@[k])@ == expected[k],
        decreases left,
    {
        left -= 1;
        assert(all.deep_view()[left as int] == all@[left as int]@);
        out.push(trim(all[left].as_str()));
    }
    assert(all.deep_view().len() == all@.len());
    assert(out.deep_view() =~= expected);
    out
}

/// Whether `read` may find `found` in `value`.
pub open spec fn may_read<F: Fn(&str) -> Option<SummaryResult>>(
    read: F,
    value: Seq<char>,
    found: Option<SummaryResult>,
) -> bool {
    exists|source: &str| source@ == value && #[trigger] call_ensures(read, (source,), found)
}

/// Whether `r` is what comes of an answer when the candidate `k` is the first in which `read` finds
/// a summary, where no candidate holds one if `k` is the number of them.
pub open spec fn is_structured_outcome<F: Fn(&str) -> Option<SummaryResult>>(
    read: F,
    texts: Seq<Seq<char>>,
    k: int,
    r: Result<SummaryResult, String>,
) -> bool {
    &&& 0 <= k <= texts.len()
    &&& forall|j: int| 0 <= j < k ==> may_read(read, #[trigger] texts[j], None)
    &&& if k < texts.len() {
        exists|found: SummaryResult| #[trigger]
            may_read(read, texts[k], Some(found)) && is_outcome(r, normal_result(found@))
    } else {
        is_outcome(r, Err("provider output was not a title/summary JSON object"@))
    }
}

/// Finds the summary in an answer. `read` reads one text as a JSON object with a title and a
/// summary; the first candidate in which it finds them counts.
pub fn parse_structured_output<F: Fn(&str) -> Option<SummaryResult>>(value: &str, read: &F) -> (r:
    Result<SummaryResult, String>)
    requires
        forall|source: &str| #[trigger] call_requires(*read, (source,)),
    ensures
        exists|k: int| is_structured_outcome(*read, candidates(value@), k, r),
{
    let texts = structured_candidates(value);
    let ghost all = candidates(value@);
    let mut k: usize = 0;
    while k < texts.len()
        invariant
            k <= texts@.len(),
            all == candidates(value@),
            texts.deep_view() == all,
            forall|source: &str| #[trigger] call_requires(*read, (source,)),
            forall|j: int| 0 <= j < k ==> may_read(*read, #[trigger] all[j], None),
        decreases texts@.len() - k,
    {
        assert(texts.deep_view()[k as int] == texts@[k as int]@);
        match read(texts[k].as_str()) {
            Some(found) => {
                assert(may_read(*read, all[k as int], Some(found)));
                let r = found.normalized();
                assert(is_structured_outcome(*read, all, k as int, r));
                return r;
            },
            None => {
                assert(may_read(*read, all[k as int], None));
            },
        }
        k += 1;
    }
    let r: Result<SummaryResult, String> = Err(
        "provider output was not a title/summary JSON object".to_owned(),
    );
    assert(texts.deep_view().len() == all.len());
    assert(is_structured_outcome(*read, all, k as int, r));
    r
}

/// Whether `r` is what comes of an answer, where an error says in which `context` it came.
pub open spec fn is_read_outcome<F: Fn(&str) -> Option<SummaryResult>>(
    read: F,
    value: Seq<char>,
    context: Seq<char>,
    r: Result<SummaryResult, String>,
) -> bool {
    exists|k: int, found: Result<SummaryResult, String>| #[trigger]
        is_structured_outcome(read, candidates(value), k, found) && match found {
            Ok(result) => is_outcome(r, Ok(result@)),
            Err(error) => is_outcome(r, Err(context + ": "@ + error@)),
        }
}

fn read_answer<F: Fn(&str) -> Option<SummaryResult>>(value: &str, context: &str, read: &F) -> (r:
    Result<SummaryResult, String>)
    requires
        forall|source: &str| #[trigger] call_requires(*read, (source,)),
    ensures
        is_read_outcome(*read, value@, context@, r),
{
    let found = parse_structured_output(value, read);
    let ghost k = choose|k: int| is_structured_outcome(*read, candidates(value@), k, found);
    assert(is_structured_outcome(*read, candidates(value@), k, found));
    match found {
        Ok(result) => Ok(result),
        Err(error) => Err(context.to_owned().concat(": ").concat(error.as_str())),
    }
}

/// The parts of the messages in the output of a response, in their order.
pub open spec fn output_parts(output: Seq<JsonView>) -> Seq<JsonView>
    decreases output.len(),
{
    if output.len() == 0 {
        Seq::empty()
    } else {
        let before = output_parts(output.drop_last());
        match json::array_field(output.last(), "content"@) {
            Some(parts) if json::text_field(output.last(), "type"@) == Some("message"@) => before
                + parts,
            _ => before,
        }
    }
}

/// The first part that is an output text.
pub open spec fn first_output_text(parts: Seq<JsonView>) -> Option<JsonView>
    decreases parts.len(),
{
    if parts.len() == 0 {
        None
    } else if json::text_field(parts[0], "type"@) == Some("output_text"@) {
        Some(parts[0])
    } else {
        first_output_text(parts.drop_first())
    }
}

/// What the assistant wrote in a response, or why there is nothing.
pub open spec fn response_text(response: JsonView) -> Result<Seq<char>, Seq<char>> {
    if json::text_field(response, "status"@) != Some("completed"@) {
        Err(
            "OpenAI response did not complete: "@ + match json::field(response, "error"@) {
                Some(error) => json::json_compact(error),
                None => "response was not completed"@,
            },
        )
    } else {
        let output = match json::array_field(response, "output"@) {
            Some(output) => output,
            None => Seq::empty(),
        };
        match first_output_text(output_parts(output)) {
            Some(part) => match json::text_field(part, "text"@) {
                Some(text) => Ok(text),
                None => Err("OpenAI response omitted assistant output_text"@),
            },
            None => Err("OpenAI response omitted assistant output_text"@),
        }
    }
}

proof fn lemma_no_output_text(parts: Seq<JsonView>)
    requires
        forall|i: int|
            0 <= i < parts.len() ==> json::text_field(#[trigger] parts[i], "type"@) != Some(
                "output_text"@,
            ),
    ensures
        first_output_text(parts) is None,
    decreases parts.len(),
{
    if parts.len() > 0 {
        assert(json::text_field(parts[0], "type"@) != Some("output_text"@));
        assert forall|i: int| 0 <= i < parts.drop_first().len() implies json::text_field(
            #[trigger] parts.drop_first()[i],
            "type"@,
        ) != Some("output_text"@) by {
            assert(parts.drop_first()[i] == parts[i + 1]);
        }
        lemma_no_output_text(parts.drop_first());
    }
}

proof fn lemma_first_output_text_at(parts: Seq<JsonView>, at: int)
    requires
        0 <= at < parts.len(),
        json::text_field(parts[at], "type"@) == Some("output_text"@),
        forall|i: int|
            0 <= i < at ==> json::text_field(#[trigger] parts[i], "type"@) != Some(
                "output_text"@,
            ),
    ensures
        first_output_text(parts) == Some(parts[at]),
    decreases at,
{
    if at > 0 {
        assert(json::text_field(parts[0], "type"@) != Some("output_text"@));
        assert forall|i: int| 0 <= i < at - 1 implies json::text_field(
            #[trigger] parts.drop_first()[i],
            "type"@,
        ) != Some("output_text"@) by {
            assert(parts.drop_first()[i] == parts[i + 1]);
        }
        lemma_first_output_text_at(parts.drop_first(), at - 1);
    }
}

proof fn lemma_output_parts_prefix(output: Seq<JsonView>, upto: int)
    requires
        0 <= upto <= output.len(),
    ensures
        output_parts(output.take(upto)).len() <= output_parts(output).len(),
        output_parts(output.take(upto)) == output_parts(output).take(
            output_parts(output.take(upto)).len() as int,
        ),
    decreases output.len(),
{
    if upto == output.len() {
        assert(output.take(upto) =~= output);
        assert(output_parts(output).take(output_parts(output).len() as int) =~= output_parts(
            output,
        ));
    } else {
        let rest = output.drop_last();
        lemma_output_parts_prefix(rest, upto);
        assert(rest.take(upto) =~= output.take(upto));
        let n = output_parts(output.take(upto)).len() as int;
        assert(output_parts(output).take(n) =~= output_parts(rest).take(n));
    }
}

/// Looks for an output text among `parts`, the first that is there.
fn find_output_text(parts: &Vec<Json>) -> (r: Option<usize>)
    ensures
        match r {
            Some(at) => at < parts@.len() && json::text_field(parts@[at as int]@, "type"@) == Some(
                "output_text"@,
            ) && forall|i: int|
                0 <= i < at ==> json::text_field((#[trigger] parts@[i])@, "type"@) != Some(
                    "output_text"@,
                ),
            None => forall|i: int|
                0 <= i < parts@.len() ==> json::text_field((#[trigger] parts@[i])@, "type"@)
                    != Some("output_text"@),
        },
{
    let mut i: usize = 0;
    while i < parts.len()
        invariant
            i <= parts@.len(),
            forall|k: int|
                0 <= k < i ==> json::text_field((#[trigger] parts@[k])@, "type"@) != Some(
                    "output_text"@,
                ),
        decreases parts@.len() - i,
    {
        match parts[i].text_field("type") {
            Some(kind) => if same(kind, "output_text") {
                return Some(i);
            },
            None => {},
        }
        i += 1;
    }
    None
}

fn is_message(item: &Json) -> (r: bool)
    ensures
        r == (json::text_field(item@, "type"@) == Some("message"@)),
{
    match item.text_field("type") {
        Some(kind) => same(kind, "message"),
        None => false,
    }
}

fn output_text(output: &Vec<Json>) -> (r: Option<&Json>)
    ensures
        match r {
            Some(part) => first_output_text(output_parts(output.deep_view())) == Some(part@),
            None => first_output_text(output_parts(output.deep_view())) is None,
        },
{
    let ghost all = output.deep_view();
    let mut i: usize = 0;
    assert(all.take(0) =~= Seq::empty());
    while i < output.len()
        invariant
            i <= output@.len(),
            all == output.deep_view(),
            forall|k: int|
                0 <= k < output_parts(all.take(i as int)).len() ==> json::text_field(
                    #[trigger] output_parts(all.take(i as int))[k],
                    "type"@,
                ) != Some("output_text"@),
        decreases output@.len() - i,
    {
        let ghost before = output_parts(all.take(i as int));
        let ghost after = output_parts(all.take(i + 1));
        assert(all.take(i + 1).drop_last() =~= all.take(i as int));
        assert(all.take(i + 1).last() == output@[i as int]@);
        if is_message(&output[i]) {
            match output[i].array_field("content") {
                Some(parts) => {
                    assert(after == before + parts.deep_view());
                    match find_output_text(parts) {
                        Some(at) => {
                            proof {
                                let whole = output_parts(all);
                                let n = before.len() as int;
                                lemma_output_parts_prefix(all, i + 1);
                                assert(whole.take(after.len() as int) == after);
                                assert(whole[n + at] == after[n + at]);
                                assert(after[n + at] == parts.deep_view()[at as int]);
                                assert forall|k: int| 0 <= k < n + at implies json::text_field(
                                    #[trigger] whole[k],
                                    "type"@,
                                ) != Some("output_text"@) by {
                                    assert(whole[k] == after[k]);
                                    if k < n {
                                        assert(after[k] == before[k]);
                                    } else {
                                        assert(after[k] == parts@[k - n]@);
                                    }
                                }
                                lemma_first_output_text_at(whole, n + at);
                            }
                            return Some(&parts[at]);
                        },
                        None => {
                            assert forall|k: int| 0 <= k < after.len() implies json::text_field(
                                #[trigger] after[k],
                                "type"@,
                            ) != Some("output_text"@) by {
                                if k < before.len() {
                                    assert(after[k] == before[k]);
                                } else {
                                    assert(after[k] == parts@[k - before.len()]@);
                                }
                            }
                        },
                    }
                },
                None => {},
            }
        }
        i += 1;
    }
    proof {
        assert(all.take(i as int) =~= all);
        lemma_no_output_text(output_parts(all));
    }
    None
}

fn text_of_response(response: &Json) -> (r: Result<&str, String>)
    ensures
        match r {
            Ok(text) => response_text(response@) == Ok::<Seq<char>, Seq<char>>(text@),
            Err(error) => response_text(response@) == Err::<Seq<char>, Seq<char>>(error@),
        },
{
    let completed = match response.text_field("status") {
        Some(status) => same(status, "completed"),
        None => false,
    };
    if !completed {
        let error = match response.get("error") {
            Some(error) => compact_json(error),
            None => "response was not completed".to_owned(),
        };
        return Err("OpenAI response did not complete: ".to_owned().concat(error.as_str()));
    }
    let found = match response.array_field("output") {
        Some(output) => output_text(output),
        None => {
            assert(output_parts(Seq::empty()) =~= Seq::empty());
            None
        },
    };
    match found {
        Some(part) => match part.text_field("text") {
            Some(text) => Ok(text),
            None => Err("OpenAI response omitted assistant output_text".to_owned()),
        },
        None => Err("OpenAI response omitted assistant output_text".to_owned()),
    }
}

/// Reads a response of the OpenAI Responses API. `read` is as in `parse_structured_output`.
pub fn parse_openai_response<F: Fn(&str) -> Option<SummaryResult>>(response: &Json, read: &F) -> (r:
    Result<SummaryResult, String>)
    requires
        forall|source: &str| #[trigger] call_requires(*read, (source,)),
    ensures
        match response_text(response@) {
            Ok(text) => is_read_outcome(*read, text, "parse OpenAI structured output"@, r),
            Err(error) => is_outcome(r, Err(error)),
        },
{
    match text_of_response(response) {
        Ok(text) => read_answer(text, "parse OpenAI structured output", read),
        Err(error) => Err(error),
    }
}

/// What is said when the OpenAI Responses API refuses a request.
pub open spec fn refusal(status: Seq<char>, body: Seq<char>) -> Seq<char> {
    "OpenAI Responses API returned "@ + status + ": "@ + truncated(body, 1000)
}

/// Reads what the OpenAI Responses API sent, whose status is `status`.
pub fn read_openai_reply<F: Fn(&str) -> Option<SummaryResult>>(
    success: bool,
    status: &str,
    body: &str,
    read: &F,
) -> (r: Result<SummaryResult, String>)
    requires
        forall|source: &str| #[trigger] call_requires(*read, (source,)),
    ensures
        if !success {
            is_outcome(r, Err(refusal(status@, body@)))
        } else {
            match json::json_parsed(body@) {
                Err(error) => is_outcome(
                    r,
                    Err("parse OpenAI Responses API JSON: "@ + json::error_text(error)),
                ),
                Ok(response) => match response_text(response) {
                    Ok(text) => is_read_outcome(*read, text, "parse OpenAI structured output"@, r),
                    Err(error) => is_outcome(r, Err(error)),
                },
            }
        },
{
    if !success {
        return Err(
            "OpenAI Responses API returned ".to_owned().concat(status).concat(": ").concat(
                truncate_chars(body, 1000).as_str(),
            ),
        );
    }
    match Json::parse(body) {
        Ok(response) => parse_openai_response(&response, read),
        Err(error) => Err(
            "parse OpenAI Responses API JSON: ".to_owned().concat(describe(&error).as_str()),
        ),
    }
}

/// What is said when Codex ends with an error.
pub open spec fn codex_failure(status: Seq<char>, stderr: Seq<char>) -> Seq<char> {
    "ephemeral Codex summarizer exited with "@ + status + ": "@ + truncated(
        text::trimmed(stderr),
        1000,
    )
}

/// Reads what Codex wrote, which ended with `status`.
pub fn read_codex_reply<F: Fn(&str) -> Option<SummaryResult>>(
    success: bool,
    status: &str,
    stdout: &str,
    stderr: &str,
    read: &F,
) -> (r: Result<SummaryResult, String>)
    requires
        forall|source: &str| #[trigger] call_requires(*read, (source,)),
    ensures
        if success {
            is_read_outcome(*read, stdout@, "parse ephemeral Codex structured output"@, r)
        } else {
            is_outcome(r, Err(codex_failure(status@, stderr@)))
        },
{
    if success {
        read_answer(stdout, "parse ephemeral Codex structured output", read)
    } else {
        Err(
            "ephemeral Codex summarizer exited with ".to_owned().concat(status).concat(": ").concat(
                truncate_chars(trim(stderr).as_str(), 1000).as_str(),
            ),
        )
    }
}

/// How a summary is made: here, or by a provider that is given a request.
#[derive(Debug)]
pub enum Generation {
    Ready(Result<SummaryResult, String>),
    Codex { args: Vec<String>, prompt: String },
    Openai { request: Json },
}

/// How a summary is made, as a mathematical value.
pub enum GenerationView {
    Ready(Result<SummaryView, Seq<char>>),
    Codex { args: Seq<Seq<char>>, prompt: Seq<char> },
    Openai { request: JsonView },
}

impl View for Generation {
    type V = GenerationView;

    open spec fn view(&self) -> GenerationView {
        match *self {
            Generation::Ready(Ok(result)) => GenerationView::Ready(Ok(result@)),
            Generation::Ready(Err(error)) => GenerationView::Ready(Err(error@)),
            Generation::Codex { args, prompt } => GenerationView::Codex {
                args: args.deep_view(),
                prompt: prompt@,
            },
            Generation::Openai { request } => GenerationView::Openai { request: request@ },
        }
    }
}

/// How the summary of a thread is made. Only the two outside providers are given what was said in
/// it, and no more of it than `cap` allows.
pub open spec fn generation(
    provider: SummaryProvider,
    cap: SummaryInput,
    messages: Seq<MessageView>,
    cwd: Seq<char>,
    settings: ConfigView,
    files: PathsView,
) -> GenerationView {
    match provider {
        SummaryProvider::Local => GenerationView::Ready(local_result(messages)),
        SummaryProvider::Codex => GenerationView::Codex {
            args: exec_args(cwd, paths::schema_path(files)),
            prompt: prompt(formatted(messages, cap)),
        },
        SummaryProvider::Openai => GenerationView::Openai {
            request: openai_request(settings.openai_model, formatted(messages, cap)),
        },
    }
}

pub fn generate(
    provider: SummaryProvider,
    cap: SummaryInput,
    messages: &[VisibleMessage],
    cwd: &str,
    config: &Config,
    paths: &AppPaths,
) -> (r: Generation)
    ensures
        r@ == generation(provider, cap, messages.deep_view(), cwd@, config@, paths@),
{
    match provider {
        SummaryProvider::Local => Generation::Ready(local_summary(messages)),
        SummaryProvider::Codex => Generation::Codex {
            args: codex_exec_args(cwd, schema_path_for(paths).as_str()),
            prompt: provider_prompt(format_messages(messages, cap).as_str()),
        },
        SummaryProvider::Openai => Generation::Openai {
            request: build_openai_request(
                config.openai_model.as_str(),
                format_messages(messages, cap).as_str(),
            ),
        },
    }
}

pub fn schema_path_for(files: &AppPaths) -> (r: String)
    ensures
        r@ == paths::schema_path(files@),
{
    files.summary_schema()
}

/// A text that was cut is as long as the limit, and one that was not cut is unchanged.
pub proof fn truncation_is_bounded(value: Seq<char>, limit: nat)
    ensures
        truncated(value, limit).len() <= limit,
        value.len() <= limit ==> truncated(value, limit) == value,
        value.len() > limit ==> truncated(value, limit).len() == limit,
        value.len() > limit && limit > 0 ==> truncated(value, limit).last() == '\u{2026}'
            && truncated(value, limit).drop_last() == value.take(limit - 1),
{
    if value.len() > limit && limit > 0 {
        assert(truncated(value, limit).drop_last() =~= value.take(limit - 1));
    }
}

/// A text whose only white space is single spaces between other characters.
pub open spec fn tidy(value: Seq<char>) -> bool {
    &&& value.len() > 0 ==> !text::is_white(value[0]) && !text::is_white(value.last())
    &&& forall|i: int|
        0 <= i < value.len() && text::is_white(#[trigger] value[i]) ==> value[i] == ' '
    &&& forall|i: int, j: int|
        0 <= i < value.len() && j == i + 1 && j < value.len() && text::is_white(#[trigger] value[i])
            ==> !text::is_white(#[trigger] value[j])
}

/// A word: characters without white space.
pub open spec fn is_word(value: Seq<char>) -> bool {
    value.len() > 0 && forall|i: int| 0 <= i < value.len() ==> !text::is_white(#[trigger] value[i])
}

proof fn lemma_words_are_words(value: Seq<char>)
    ensures
        forall|k: int|
            0 <= k < text::words(value).len() ==> is_word(#[trigger] text::words(value)[k]),
    decreases value.len(),
{
    let rest = text::trim_start(value);
    text::lemma_trim_start_shrinks(value);
    if rest.len() > 0 {
        text::lemma_word_len_bound(rest);
        let n = text::word_len(rest) as int;
        lemma_words_are_words(rest.skip(n));
        assert(is_word(rest.take(n))) by {
            assert forall|i: int| 0 <= i < n implies !text::is_white(#[trigger] rest.take(n)[i]) by {
                assert(rest.take(n)[i] == rest[i]);
            }
        }
        let tail = text::words(rest.skip(n));
        assert forall|k: int| 0 <= k < text::words(value).len() implies is_word(
            #[trigger] text::words(value)[k],
        ) by {
            if k > 0 {
                assert(text::words(value)[k] == tail[k - 1]);
            }
        }
    }
}

proof fn lemma_joined_words_are_tidy(parts: Seq<Seq<char>>)
    requires
        forall|k: int| 0 <= k < parts.len() ==> is_word(#[trigger] parts[k]),
    ensures
        tidy(text::joined(parts, " "@)),
        parts.len() > 0 ==> text::joined(parts, " "@).len() > 0,
    decreases parts.len(),
{
    reveal_strlit(" ");
    if parts.len() == 1 {
        assert(is_word(parts[0]));
    } else if parts.len() > 1 {
        lemma_joined_words_are_tidy(parts.drop_last());
        let start = text::joined(parts.drop_last(), " "@);
        let word = parts.last();
        assert(is_word(parts[parts.len() - 1]));
        let all = start + " "@ + word;
        assert(text::joined(parts, " "@) == all);
        assert forall|i: int| 0 <= i < all.len() && text::is_white(#[trigger] all[i]) implies all[i]
            == ' ' by {
            if i < start.len() {
                assert(all[i] == start[i]);
            } else if i > start.len() {
                assert(all[i] == word[i - start.len() - 1]);
            }
        }
        assert forall|i: int, j: int|
            0 <= i < all.len() && j == i + 1 && j < all.len() && text::is_white(
                #[trigger] all[i],
            ) implies !text::is_white(#[trigger] all[j]) by {
            if j < start.len() {
                assert(all[i] == start[i] && all[j] == start[j]);
            } else if j == start.len() {
                assert(all[i] == start.last());
            } else {
                assert(all[j] == word[j - start.len() - 1]);
            }
        }
        assert(all[0] == start[0]);
        assert(all.last() == word[word.len() - 1]);
    }
}

proof fn lemma_joined_from_front(first: Seq<char>, rest: Seq<Seq<char>>, separator: Seq<char>)
    requires
        rest.len() > 0,
    ensures
        text::joined(seq![first] + rest, separator) == first + separator + text::joined(
            rest,
            separator,
        ),
    decreases rest.len(),
{
    let all = seq![first] + rest;
    assert(all.drop_last() =~= seq![first] + rest.drop_last());
    assert(all.last() == rest.last());
    if rest.len() == 1 {
        assert(seq![first] + rest.drop_last() =~= seq![first]);
        assert(text::joined(seq![first], separator) == first);
    } else {
        lemma_joined_from_front(first, rest.drop_last(), separator);
        assert(text::joined(all, separator) =~= first + separator + text::joined(rest, separator));
    }
}

proof fn lemma_tidy_is_collapsed(value: Seq<char>)
    requires
        tidy(value),
    ensures
        collapsed(value) == value,
    decreases value.len(),
{
    reveal_strlit(" ");
    if value.len() == 0 {
        assert(text::words(value) =~= Seq::empty());
        assert(collapsed(value) =~= value);
    } else {
        assert(text::trim_start(value) == value);
        text::lemma_word_len_bound(value);
        let n = text::word_len(value) as int;
        let rest = value.skip(n);
        if n == value.len() {
            assert(rest =~= Seq::empty());
            assert(text::trim_start(rest) =~= Seq::empty());
            assert(text::words(rest) =~= Seq::empty());
            assert(value.take(n) =~= value);
            assert(text::words(value) =~= seq![value]);
        } else {
            assert(value[n] == ' ');
            assert(n < value.len() - 1);
            let tail = value.skip(n + 1);
            assert(rest.drop_first() =~= tail);
            assert(!text::is_white(value[n + 1]));
            assert(tail[0] == value[n + 1]);
            assert(text::trim_start(tail) == tail);
            assert(text::trim_start(rest) == tail);
            assert(text::words(rest) == text::words(tail));
            assert(tidy(tail)) by {
                assert forall|i: int| 0 <= i < tail.len() && text::is_white(#[trigger] tail[i]) implies tail[i]
                    == ' ' by {
                    assert(tail[i] == value[i + n + 1]);
                }
                assert forall|i: int, j: int|
                    0 <= i < tail.len() && j == i + 1 && j < tail.len() && text::is_white(
                        #[trigger] tail[i],
                    ) implies !text::is_white(#[trigger] tail[j]) by {
                    assert(tail[i] == value[i + n + 1] && tail[j] == value[j + n + 1]);
                }
                assert(tail.last() == value.last());
            }
            lemma_tidy_is_collapsed(tail);
            text::lemma_word_len_bound(tail);
            assert(text::words(tail).len() > 0);
            lemma_joined_from_front(value.take(n), text::words(tail), " "@);
            assert(value.take(n) + " "@ + tail =~= value);
        }
    }
}

/// A title or summary in normal form has at most `MAX_OUTPUT_CHARS` characters, and its only white
/// space is single spaces between other characters.
pub proof fn normal_form_is_tidy_and_bounded(value: Seq<char>)
    ensures
        normal_form(value).len() <= MAX_OUTPUT_CHARS,
        tidy(normal_form(value)),
{
    lemma_words_are_words(value);
    lemma_joined_words_are_tidy(text::words(value));
    let whole = collapsed(value);
    let cut = normal_form(value);
    if whole.len() > MAX_OUTPUT_CHARS {
        assert forall|i: int, j: int|
            0 <= i < cut.len() && j == i + 1 && j < cut.len() && text::is_white(
                #[trigger] cut[i],
            ) implies !text::is_white(#[trigger] cut[j]) by {
            assert(cut[i] == whole[i]);
            if j < cut.len() - 1 {
                assert(cut[j] == whole[j]);
            }
        }
        assert(cut[0] == whole[0]);
    }
}

/// Bringing a text into normal form again changes nothing.
pub proof fn normal_form_is_stable(value: Seq<char>)
    ensures
        normal_form(normal_form(value)) == normal_form(value),
{
    normal_form_is_tidy_and_bounded(value);
    lemma_tidy_is_collapsed(normal_form(value));
}

/// What a provider's answer becomes is never empty, is tidy and is no longer than allowed, and is
/// not changed by being brought into normal form again.
pub proof fn results_are_normal(result: SummaryView)
    requires
        normal_result(result) is Ok,
    ensures
        ({
            let normal = normal_result(result)->Ok_0;
            &&& 0 < normal.title.len() <= MAX_OUTPUT_CHARS
            &&& 0 < normal.summary.len() <= MAX_OUTPUT_CHARS
            &&& tidy(normal.title)
            &&& tidy(normal.summary)
            &&& normal_result(normal) == Ok::<SummaryView, Seq<char>>(normal)
        }),
{
    normal_form_is_tidy_and_bounded(result.title);
    normal_form_is_tidy_and_bounded(result.summary);
    normal_form_is_stable(result.title);
    normal_form_is_stable(result.summary);
}

/// Whatever a provider wrote, the title and the summary that are taken from it are short and tidy.
pub proof fn answers_are_normal<F: Fn(&str) -> Option<SummaryResult>>(
    read: F,
    texts: Seq<Seq<char>>,
    k: int,
    r: Result<SummaryResult, String>,
)
    requires
        is_structured_outcome(read, texts, k, r),
        r is Ok,
    ensures
        0 < r->Ok_0@.title.len() <= MAX_OUTPUT_CHARS,
        0 < r->Ok_0@.summary.len() <= MAX_OUTPUT_CHARS,
        tidy(r->Ok_0@.title),
        tidy(r->Ok_0@.summary),
{
    let found = choose|found: SummaryResult| #[trigger]
        may_read(read, texts[k], Some(found)) && is_outcome(r, normal_result(found@));
    results_are_normal(found@);
}

proof fn lemma_quantile_order(length: nat, desired: nat, p: nat, q: nat)
    requires
        length > 0,
        desired > 1,
        p <= q,
    ensures
        quantile(length, desired, p) <= quantile(length, desired, q),
{
    let a = p as int;
    let b = q as int;
    let l = length - 1;
    let d = desired - 1;
    assert(a * l <= b * l) by (nonlinear_arith)
        requires
            a <= b,
            0 <= l,
    ;
    assert((a * l) / d <= (b * l) / d) by (nonlinear_arith)
        requires
            a * l <= b * l,
            d > 0,
    ;
}

/// Numbers that grow from one to the next.
pub open spec fn increasing(indices: Seq<usize>) -> bool {
    forall|i: int, j: int| 0 <= i < j < indices.len() ==> #[trigger] indices[i] < #[trigger] indices[j]
}

proof fn lemma_quantiles_before_increase(length: nat, desired: nat, upto: nat)
    requires
        0 < length <= usize::MAX,
        1 < desired,
        upto <= desired,
    ensures
        increasing(quantiles_before(length, desired, upto)),
        upto > 0 ==> quantiles_before(length, desired, upto).len() > 0 && quantiles_before(
            length,
            desired,
            upto,
        ).last() == quantile(length, desired, (upto - 1) as nat),
        forall|p: nat|
            p < upto ==> quantiles_before(length, desired, upto).contains(
                #[trigger] quantile(length, desired, p) as usize,
            ),
    decreases upto,
{
    if upto > 0 {
        let last = (upto - 1) as nat;
        lemma_quantiles_before_increase(length, desired, last);
        lemma_quantile_bound(length, desired, last);
        let before = quantiles_before(length, desired, last);
        let after = quantiles_before(length, desired, upto);
        if last > 0 {
            lemma_quantile_order(length, desired, (last - 1) as nat, last);
        }
        assert(after[after.len() - 1] == quantile(length, desired, last));
        assert forall|p: nat| p < upto implies after.contains(
            #[trigger] quantile(length, desired, p) as usize,
        ) by {
            if p < last {
                assert(before.contains(quantile(length, desired, p) as usize));
                let k = before.index_of(quantile(length, desired, p) as usize);
                assert(after[k] == before[k]);
            }
        }
    }
}

proof fn lemma_quantiles_contain(length: nat, desired: nat, p: nat)
    requires
        0 < length <= usize::MAX,
        1 < desired,
        p < desired,
    ensures
        quantiles(length, desired).contains(quantile(length, desired, p) as usize),
{
    lemma_quantiles_before_increase(length, desired, desired);
}

/// Quantiles grow from one to the next, start at the beginning and end at the end.
pub proof fn quantiles_span_the_list(length: nat, desired: nat)
    requires
        0 < length <= usize::MAX,
        1 < desired,
    ensures
        increasing(quantiles(length, desired)),
        quantiles(length, desired).contains(0),
        quantiles(length, desired).last() == length - 1,
        0 < quantiles(length, desired).len() <= desired,
{
    lemma_quantiles(length, desired);
    lemma_quantiles_before_increase(length, desired, desired);
    lemma_quantile_bound(length, desired, 0);
    lemma_quantile_bound(length, desired, (desired - 1) as nat);
    lemma_quantiles_contain(length, desired, 0);
}

proof fn lemma_middle(length: nat)
    requires
        length > 0,
    ensures
        quantile(length, 3, 1) == (length - 1) / 2,
        quantile(length, 25, 12) == (length - 1) / 2,
{
    let l = length - 1;
    assert((1 * l) / 2 == l / 2);
    assert((12 * l) / 24 == l / 2) by (nonlinear_arith);
}

proof fn lemma_quantile_of_all(length: nat, p: nat)
    requires
        length > 1,
        p < length,
    ensures
        quantile(length, length, p) == p,
{
    let d = length - 1;
    assert((p as int * d) / d == p as int) by (nonlinear_arith)
        requires
            d > 0,
    ;
}

proof fn lemma_ends_contained(length: nat, desired: nat)
    requires
        0 < length <= usize::MAX,
        desired == length && length <= 25 || desired == 3 && length > 3 || desired == 25 && length
            > 25,
    ensures
        quantiles(length, desired).contains(0),
        quantiles(length, desired).contains(((length - 1) / 2) as usize),
        quantiles(length, desired).contains((length - 1) as usize),
{
    if length == 1 {
        assert(quantiles(length, desired)[0] == 0);
    } else {
        lemma_middle(length);
        lemma_quantile_bound(length, desired, 0);
        lemma_quantile_bound(length, desired, (desired - 1) as nat);
        lemma_quantiles_contain(length, desired, 0);
        lemma_quantiles_contain(length, desired, (desired - 1) as nat);
        if desired == length {
            let middle = ((length - 1) / 2) as nat;
            lemma_quantile_of_all(length, middle);
            lemma_quantiles_contain(length, desired, middle);
        } else if desired == 3 {
            lemma_quantiles_contain(length, desired, 1);
        } else {
            lemma_quantiles_contain(length, desired, 12);
        }
    }
}

proof fn lemma_thinned(
    messages: Seq<MessageView>,
    indices: Seq<usize>,
    anchors: Seq<usize>,
    limit: nat,
)
    requires
        increasing(indices),
        anchors.len() > 0,
        indices.len() > 0,
    ensures
        increasing(thinned(messages, indices, anchors, limit)),
        0 < thinned(messages, indices, anchors, limit).len() <= indices.len(),
        forall|x: usize|
            anchors.contains(x) && indices.contains(x) ==> #[trigger] thinned(
                messages,
                indices,
                anchors,
                limit,
            ).contains(x),
        forall|x: usize| #[trigger]
            thinned(messages, indices, anchors, limit).contains(x) ==> indices.contains(x),
    decreases indices.len(),
{
    lemma_last_free(indices, anchors);
    let n = indices.len();
    let free = last_free(indices, anchors);
    if total_len(sample_labels(messages, indices)) + 3 * n <= limit || n <= anchors.len() || free
        < 0 {
    } else {
        let rest = indices.remove(free);
        lemma_thinned(messages, rest, anchors, limit);
        assert forall|x: usize| anchors.contains(x) && indices.contains(x) implies rest.contains(
            x,
        ) by {
            let k = indices.index_of(x);
            assert(k != free);
            if k < free {
                assert(rest[k] == x);
            } else {
                assert(rest[k - 1] == x);
            }
        }
        assert forall|x: usize| rest.contains(x) implies indices.contains(x) by {
            let k = rest.index_of(x);
            if k < free {
                assert(indices[k] == x);
            } else {
                assert(indices[k + 1] == x);
            }
        }
    }
}

/// A sample keeps the messages in their order, and the first, the middle and the last message of
/// the thread are in it.
pub proof fn samples_keep_beginning_middle_and_end(messages: Seq<MessageView>, limit: nat)
    requires
        0 < messages.len() <= usize::MAX,
    ensures
        increasing(sampled_indices(messages, limit)),
        sampled_indices(messages, limit).contains(0),
        sampled_indices(messages, limit).contains(((messages.len() - 1) / 2) as usize),
        sampled_indices(messages, limit).contains((messages.len() - 1) as usize),
        forall|p: int|
            0 <= p < sampled_indices(messages, limit).len() ==> #[trigger] sampled_indices(
                messages,
                limit,
            )[p] < messages.len(),
{
    let n = messages.len();
    let desired = if n <= 25 {
        n
    } else {
        25
    };
    let ends = if n <= 3 {
        n
    } else {
        3
    };
    lemma_ends_contained(n, desired);
    lemma_ends_contained(n, ends);
    lemma_quantiles(n, desired);
    lemma_quantiles(n, ends);
    if n > 1 {
        quantiles_span_the_list(n, desired);
    }
    lemma_thinned(messages, quantiles(n, desired), quantiles(n, ends), limit);
    let kept = sampled_indices(messages, limit);
    assert forall|p: int| 0 <= p < kept.len() implies #[trigger] kept[p] < n by {
        assert(kept.contains(kept[p]));
        let k = quantiles(n, desired).index_of(kept[p]);
        assert(quantiles(n, desired)[k] < n);
    }
}

proof fn lemma_joined_len(parts: Seq<Seq<char>>, separator: Seq<char>)
    requires
        parts.len() > 0,
    ensures
        text::joined(parts, separator).len() == total_len(parts) + separator.len() * (parts.len()
            - 1),
    decreases parts.len(),
{
    if parts.len() == 1 {
        assert(total_len(parts.drop_last()) == 0);
    } else {
        lemma_joined_len(parts.drop_last(), separator);
        let s = separator.len() as int;
        let n = parts.len() as int;
        assert(s * (n - 1) == s * (n - 2) + s) by (nonlinear_arith);
    }
}

/// The characters that the first `upto` messages of a sample get.
spec fn quotas(available: nat, n: nat, upto: nat) -> nat
    decreases upto,
{
    if upto == 0 {
        0
    } else {
        quotas(available, n, (upto - 1) as nat) + quota(available, n, (upto - 1) as nat)
    }
}

proof fn lemma_quotas(available: nat, n: nat, upto: nat)
    requires
        n > 0,
        upto <= n,
    ensures
        quotas(available, n, upto) == upto * (available / n) + if upto < available % n {
            upto as int
        } else {
            (available % n) as int
        },
    decreases upto,
{
    let base = (available / n) as int;
    if upto > 0 {
        lemma_quotas(available, n, (upto - 1) as nat);
        let k = upto as int;
        assert(k * base == (k - 1) * base + base) by (nonlinear_arith);
    } else {
        assert(0 * base == 0);
    }
}

proof fn lemma_parts_total(
    messages: Seq<MessageView>,
    indices: Seq<usize>,
    available: nat,
    upto: int,
)
    requires
        0 <= upto <= indices.len(),
    ensures
        total_len(sample_parts(messages, indices, available).take(upto)) <= total_len(
            sample_labels(messages, indices).take(upto),
        ) + quotas(available, indices.len(), upto as nat),
    decreases upto,
{
    let parts = sample_parts(messages, indices, available);
    let labels = sample_labels(messages, indices);
    if upto > 0 {
        lemma_parts_total(messages, indices, available, upto - 1);
        assert(parts.take(upto).drop_last() =~= parts.take(upto - 1));
        assert(labels.take(upto).drop_last() =~= labels.take(upto - 1));
        let p = upto - 1;
        truncation_is_bounded(
            text::trimmed(messages[indices[p] as int].text),
            quota(available, indices.len(), p as nat),
        );
        assert(parts.take(upto).last() == parts[p]);
        assert(labels.take(upto).last() == labels[p]);
    }
}

/// Three pieces of a text together are no longer than the limit.
pub proof fn pieces_are_bounded(value: Seq<char>, limit: nat)
    ensures
        beginning_middle_end(value, limit).len() <= limit,
{
    if value.len() > limit && limit > 2 {
        let third = (limit - 2) / 3;
        let center = value.len() as int / 2;
        let start = if center >= third / 2 {
            center - third / 2
        } else {
            0
        };
        assert(0 <= start && start + third <= value.len());
    }
}

/// What a provider reads is never longer than the limit, and it is the whole transcript where there
/// is no limit or the transcript is within it.
pub proof fn provider_input_is_bounded(messages: Seq<MessageView>, cap: SummaryInput)
    requires
        messages.len() <= usize::MAX,
    ensures
        config::input_limit(cap) matches Some(limit) ==> formatted(messages, cap).len() <= limit,
        config::input_limit(cap) is None ==> formatted(messages, cap) == transcript(messages),
        config::input_limit(cap) matches Some(limit) ==> (transcript(messages).len() <= limit
            ==> formatted(messages, cap) == transcript(messages)),
{
    match config::input_limit(cap) {
        None => {},
        Some(limit) => {
            let complete = transcript(messages);
            if complete.len() > limit && limit > 0 && messages.len() > 0 {
                samples_keep_beginning_middle_and_end(messages, limit as nat);
                let indices = sampled_indices(messages, limit as nat);
                let overhead = sample_overhead(messages, indices);
                pieces_are_bounded(complete, limit as nat);
                if overhead + indices.len() <= limit {
                    reveal_strlit("\n\n");
                    let available = (limit - overhead) as nat;
                    let n = indices.len();
                    let parts = sample_parts(messages, indices, available);
                    let labels = sample_labels(messages, indices);
                    lemma_joined_len(parts, "\n\n"@);
                    lemma_parts_total(messages, indices, available, n as int);
                    assert(parts.take(n as int) =~= parts);
                    assert(labels.take(n as int) =~= labels);
                    lemma_quotas(available, n, n);
                    assert(n * (available / n) + available % n == available) by (nonlinear_arith)
                        requires
                            n > 0,
                    ;
                }
            }
        },
    }
}

} // verus!
