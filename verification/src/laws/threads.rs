//! What holds of the threads that Codex lists and of the messages that are read from them.

use vstd::prelude::*;

use crate::app_server;
use crate::app_server::{ListingView, MessageRole, MessageView};
use crate::config::SourceKind;
use crate::db::MetadataView;
use crate::json;
use crate::json::JsonView;
use crate::laws::texts;
use crate::text;

verus! {

/// Whether `value` is an object whose field `name` is `expected`.
pub open spec fn holds_field(value: JsonView, name: Seq<char>, expected: JsonView) -> bool {
    value matches JsonView::Object(fields) && fields.contains_key(name) && fields[name] == expected
}

/// Whether `value` has no text in the field `name`.
pub open spec fn lacks_text(value: JsonView, name: Seq<char>) -> bool {
    forall|t: Seq<char>| !#[trigger] holds_field(value, name, JsonView::Text(t))
}

/// Whether `value` has no list in the field `name`.
pub open spec fn lacks_list(value: JsonView, name: Seq<char>) -> bool {
    forall|items: Seq<JsonView>| !#[trigger] holds_field(value, name, JsonView::Array(items))
}

/// Whether `result` is the answer for a thread of these turns.
pub open spec fn has_turns(result: JsonView, turns: Seq<JsonView>) -> bool {
    exists|thread: JsonView| #[trigger]
        holds_field(result, "thread"@, thread) && holds_field(thread, "turns"@, JsonView::Array(turns))
}

/// The answer for a thread of these turns, and of nothing else.
pub open spec fn of_turns(turns: Seq<JsonView>) -> JsonView {
    JsonView::Object(
        Map::empty().insert(
            "thread"@,
            JsonView::Object(Map::empty().insert("turns"@, JsonView::Array(turns))),
        ),
    )
}

/// The answer for a thread of one turn with these items.
pub open spec fn of_items(items: Seq<JsonView>) -> JsonView {
    of_turns(seq![JsonView::Object(Map::empty().insert("items"@, JsonView::Array(items)))])
}

proof fn lemma_has_turns(result: JsonView, turns: Seq<JsonView>)
    requires
        has_turns(result, turns),
    ensures
        app_server::messages_of(result) == Ok::<Seq<MessageView>, Seq<char>>(
            app_server::turn_messages(turns),
        ),
{
}

proof fn lemma_of_turns(turns: Seq<JsonView>)
    ensures
        has_turns(of_turns(turns), turns),
{
    let thread = JsonView::Object(Map::empty().insert("turns"@, JsonView::Array(turns)));
    assert(holds_field(of_turns(turns), "thread"@, thread));
    assert(holds_field(thread, "turns"@, JsonView::Array(turns)));
}

proof fn lemma_turns_add(a: Seq<JsonView>, b: Seq<JsonView>)
    ensures
        app_server::turn_messages(a + b) == app_server::turn_messages(a)
            + app_server::turn_messages(b),
    decreases b.len(),
{
    if b.len() == 0 {
        assert(a + b =~= a);
        assert(app_server::turn_messages(a) + Seq::<MessageView>::empty()
            =~= app_server::turn_messages(a));
    } else {
        lemma_turns_add(a, b.drop_last());
        assert((a + b).drop_last() =~= a + b.drop_last());
        assert((a + b).last() == b.last());
        assert(app_server::turn_messages(a + b) =~= app_server::turn_messages(a)
            + app_server::turn_messages(b));
    }
}

proof fn lemma_items_add(a: Seq<JsonView>, b: Seq<JsonView>)
    ensures
        app_server::item_messages(a + b) == app_server::item_messages(a)
            + app_server::item_messages(b),
    decreases b.len(),
{
    if b.len() == 0 {
        assert(a + b =~= a);
        assert(app_server::item_messages(a) + Seq::<MessageView>::empty()
            =~= app_server::item_messages(a));
    } else {
        lemma_items_add(a, b.drop_last());
        assert((a + b).drop_last() =~= a + b.drop_last());
        assert((a + b).last() == b.last());
        assert(app_server::item_messages(a + b) =~= app_server::item_messages(a)
            + app_server::item_messages(b));
    }
}

proof fn lemma_one_turn(turn: JsonView, items: Seq<JsonView>)
    requires
        holds_field(turn, "items"@, JsonView::Array(items)),
    ensures
        app_server::turn_messages(seq![turn]) == app_server::item_messages(items),
{
    assert(seq![turn].drop_last() =~= Seq::<JsonView>::empty());
    assert(app_server::turn_messages(Seq::<JsonView>::empty()) =~= Seq::<MessageView>::empty());
    assert(app_server::turn_messages(seq![turn]) =~= app_server::item_messages(items));
}

proof fn lemma_of_items(items: Seq<JsonView>)
    ensures
        app_server::messages_of(of_items(items)) == Ok::<Seq<MessageView>, Seq<char>>(
            app_server::item_messages(items),
        ),
{
    let turn = JsonView::Object(Map::empty().insert("items"@, JsonView::Array(items)));
    lemma_of_turns(seq![turn]);
    lemma_has_turns(of_items(items), seq![turn]);
    lemma_one_turn(turn, items);
}

/// The messages of a thread are those of all of its turns, one turn after the other: what the first
/// turns say and then what the others say. What else is said of the thread does not matter.
pub proof fn messages_come_from_all_turns(
    result: JsonView,
    a: Seq<JsonView>,
    b: Seq<JsonView>,
)
    requires
        has_turns(result, a + b),
    ensures
        app_server::messages_of(of_turns(a)) is Ok,
        app_server::messages_of(of_turns(b)) is Ok,
        app_server::messages_of(result) == Ok::<Seq<MessageView>, Seq<char>>(
            app_server::messages_of(of_turns(a))->Ok_0 + app_server::messages_of(
                of_turns(b),
            )->Ok_0,
        ),
{
    lemma_has_turns(result, a + b);
    lemma_of_turns(a);
    lemma_of_turns(b);
    lemma_has_turns(of_turns(a), a);
    lemma_has_turns(of_turns(b), b);
    lemma_turns_add(a, b);
}

/// The messages of a turn are those of all of its items, one item after the other, and a turn without
/// items has none.
pub proof fn messages_come_from_all_items(
    result: JsonView,
    turn: JsonView,
    a: Seq<JsonView>,
    b: Seq<JsonView>,
)
    requires
        has_turns(result, seq![turn]),
    ensures
        app_server::messages_of(of_items(a)) is Ok,
        app_server::messages_of(of_items(b)) is Ok,
        holds_field(turn, "items"@, JsonView::Array(a + b)) ==> app_server::messages_of(result) == Ok::<
            Seq<MessageView>,
            Seq<char>,
        >(
            app_server::messages_of(of_items(a))->Ok_0 + app_server::messages_of(
                of_items(b),
            )->Ok_0,
        ),
        lacks_list(turn, "items"@) ==> app_server::messages_of(result) == Ok::<
            Seq<MessageView>,
            Seq<char>,
        >(Seq::empty()),
{
    lemma_has_turns(result, seq![turn]);
    lemma_of_items(a);
    lemma_of_items(b);
    lemma_items_add(a, b);
    if holds_field(turn, "items"@, JsonView::Array(a + b)) {
        lemma_one_turn(turn, a + b);
    }
    if lacks_list(turn, "items"@) {
        assert(seq![turn].drop_last() =~= Seq::<JsonView>::empty());
        if json::array_field(turn, "items"@) is Some {
            let items = json::array_field(turn, "items"@)->Some_0;
            assert(holds_field(turn, "items"@, JsonView::Array(items)));
        }
        assert(app_server::turn_messages(Seq::<JsonView>::empty())
            =~= Seq::<MessageView>::empty());
        assert(app_server::turn_messages(seq![turn]) =~= Seq::<MessageView>::empty());
    }
}

proof fn lemma_one_item(item: JsonView)
    ensures
        app_server::messages_of(of_items(seq![item])) == Ok::<Seq<MessageView>, Seq<char>>(
            match app_server::visible_message(item) {
                Some(message) => seq![message],
                None => Seq::empty(),
            },
        ),
{
    lemma_of_items(seq![item]);
    assert(seq![item].drop_last() =~= Seq::<JsonView>::empty());
    assert(app_server::item_messages(Seq::<JsonView>::empty()) =~= Seq::<MessageView>::empty());
    match app_server::visible_message(item) {
        Some(message) => {
            assert(app_server::item_messages(seq![item]) =~= seq![message]);
        },
        None => {},
    }
}

/// An agent message that is not blank is a message of the assistant with exactly its text, and one
/// that is blank is none.
pub proof fn agent_messages_are_kept_whole(item: JsonView, said: Seq<char>)
    requires
        holds_field(item, "type"@, JsonView::Text("agentMessage"@)),
        holds_field(item, "text"@, JsonView::Text(said)),
    ensures
        texts::says_something(said) ==> app_server::messages_of(of_items(seq![item])) == Ok::<
            Seq<MessageView>,
            Seq<char>,
        >(seq![MessageView { role: MessageRole::Assistant, text: said }]),
        !texts::says_something(said) ==> app_server::messages_of(of_items(seq![item])) == Ok::<
            Seq<MessageView>,
            Seq<char>,
        >(Seq::empty()),
{
    reveal_strlit("agentMessage");
    reveal_strlit("userMessage");
    lemma_one_item(item);
    texts::trimming_keeps_the_core(said);
    assert("agentMessage"@.len() != "userMessage"@.len());
}

/// A part of a user's message that is a text.
pub open spec fn text_part(part: JsonView, said: Seq<char>) -> bool {
    holds_field(part, "type"@, JsonView::Text("text"@)) && holds_field(part, "text"@, JsonView::Text(said))
}

/// A part of a user's message that is something else, such as an image.
pub open spec fn other_part(part: JsonView) -> bool {
    !holds_field(part, "type"@, JsonView::Text("text"@)) || lacks_text(part, "text"@)
}

proof fn lemma_parts_add(a: Seq<JsonView>, b: Seq<JsonView>)
    ensures
        app_server::text_parts(a + b) == app_server::text_parts(a) + app_server::text_parts(b),
    decreases b.len(),
{
    if b.len() == 0 {
        assert(a + b =~= a);
        assert(app_server::text_parts(a) + Seq::<Seq<char>>::empty() =~= app_server::text_parts(a));
    } else {
        lemma_parts_add(a, b.drop_last());
        assert((a + b).drop_last() =~= a + b.drop_last());
        assert((a + b).last() == b.last());
        assert(app_server::text_parts(a + b) =~= app_server::text_parts(a)
            + app_server::text_parts(b));
    }
}

proof fn lemma_one_part(part: JsonView)
    ensures
        forall|said: Seq<char>| #[trigger]
            text_part(part, said) ==> app_server::text_parts(seq![part]) == seq![said],
        other_part(part) ==> app_server::text_parts(seq![part]) == Seq::<Seq<char>>::empty(),
{
    assert(seq![part].drop_last() =~= Seq::<JsonView>::empty());
    assert(app_server::text_parts(Seq::<JsonView>::empty()) =~= Seq::<Seq<char>>::empty());
    assert forall|said: Seq<char>| #[trigger] text_part(part, said) implies app_server::text_parts(
        seq![part],
    ) == seq![said] by {
        assert(app_server::text_parts(seq![part]) =~= seq![said]);
    }
    if other_part(part) {
        if json::text_field(part, "text"@) is Some {
            let t = json::text_field(part, "text"@)->Some_0;
            assert(holds_field(part, "text"@, JsonView::Text(t)));
        }
    }
}

proof fn lemma_user_item(item: JsonView, parts: Seq<JsonView>)
    requires
        holds_field(item, "type"@, JsonView::Text("userMessage"@)),
        holds_field(item, "content"@, JsonView::Array(parts)),
    ensures
        ({
            let said = text::joined(app_server::text_parts(parts), "\n"@);
            app_server::messages_of(of_items(seq![item])) == Ok::<Seq<MessageView>, Seq<char>>(
                if texts::says_something(said) {
                    seq![MessageView { role: MessageRole::User, text: said }]
                } else {
                    Seq::empty()
                },
            )
        }),
{
    lemma_one_item(item);
    texts::trimming_keeps_the_core(text::joined(app_server::text_parts(parts), "\n"@));
}

/// A user message of one text is a message of the user with exactly that text, unless it is blank.
pub proof fn user_messages_are_kept_whole(item: JsonView, part: JsonView, said: Seq<char>)
    requires
        holds_field(item, "type"@, JsonView::Text("userMessage"@)),
        holds_field(item, "content"@, JsonView::Array(seq![part])),
        text_part(part, said),
    ensures
        texts::says_something(said) ==> app_server::messages_of(of_items(seq![item])) == Ok::<
            Seq<MessageView>,
            Seq<char>,
        >(seq![MessageView { role: MessageRole::User, text: said }]),
        !texts::says_something(said) ==> app_server::messages_of(of_items(seq![item])) == Ok::<
            Seq<MessageView>,
            Seq<char>,
        >(Seq::empty()),
{
    lemma_user_item(item, seq![part]);
    lemma_one_part(part);
    assert(text::joined(seq![said], "\n"@) == said);
}

/// Every text of a user message is in the message, in its place: what stands before a text and what
/// stands after it is parted from it by a line end, and what is no text is passed over.
pub proof fn user_messages_keep_every_text(
    item: JsonView,
    before: Seq<JsonView>,
    first: Seq<char>,
    part: JsonView,
    said: Seq<char>,
    after: Seq<JsonView>,
    last: Seq<char>,
)
    requires
        holds_field(item, "type"@, JsonView::Text("userMessage"@)),
        holds_field(item, "content"@, JsonView::Array(before + seq![part] + after)),
        app_server::messages_of(of_items(seq![of_parts(before)])) == Ok::<
            Seq<MessageView>,
            Seq<char>,
        >(seq![MessageView { role: MessageRole::User, text: first }]),
        app_server::messages_of(of_items(seq![of_parts(after)])) == Ok::<
            Seq<MessageView>,
            Seq<char>,
        >(seq![MessageView { role: MessageRole::User, text: last }]),
    ensures
        text_part(part, said) ==> app_server::messages_of(of_items(seq![item])) == Ok::<
            Seq<MessageView>,
            Seq<char>,
        >(
            seq![
                MessageView {
                    role: MessageRole::User,
                    text: first + seq!['\n'] + said + seq!['\n'] + last,
                },
            ],
        ),
        other_part(part) ==> app_server::messages_of(of_items(seq![item])) == Ok::<
            Seq<MessageView>,
            Seq<char>,
        >(seq![MessageView { role: MessageRole::User, text: first + seq!['\n'] + last }]),
{
    reveal_strlit("\n");
    let newline = "\n"@;
    assert(newline =~= seq!['\n']);
    let parts = before + seq![part] + after;
    lemma_user_item(item, parts);
    lemma_of_parts(before);
    lemma_of_parts(after);
    let x = app_server::text_parts(before);
    let y = app_server::text_parts(seq![part]);
    let z = app_server::text_parts(after);
    let one = seq![MessageView { role: MessageRole::User, text: first }];
    let two = seq![MessageView { role: MessageRole::User, text: last }];
    assert(one.len() == 1 && two.len() == 1);
    assert(one[0].text == first && two[0].text == last);
    assert(text::joined(x, newline) == first);
    assert(text::joined(z, newline) == last);
    lemma_parts_add(before + seq![part], after);
    lemma_parts_add(before, seq![part]);
    lemma_one_part(part);
    assert(x.len() > 0) by {
        if x.len() == 0 {
            assert(first.len() == 0);
        }
    }
    assert(z.len() > 0) by {
        if z.len() == 0 {
            assert(last.len() == 0);
        }
    }
    if text_part(part, said) {
        assert(y == seq![said]);
        texts::joining_puts_separators_between(x, y, newline);
        texts::joining_puts_separators_between(x + y, z, newline);
        assert(text::joined(y, newline) == said);
        let whole = first + seq!['\n'] + said + seq!['\n'] + last;
        let k = choose|k: int| 0 <= k < first.len() && !text::is_white(#[trigger] first[k]);
        assert(whole[k] == first[k]);
    }
    if other_part(part) {
        assert(x + y =~= x);
        texts::joining_puts_separators_between(x, z, newline);
        let whole = first + seq!['\n'] + last;
        let k = choose|k: int| 0 <= k < first.len() && !text::is_white(#[trigger] first[k]);
        assert(whole[k] == first[k]);
    }
}

/// A user message of these parts.
pub open spec fn of_parts(parts: Seq<JsonView>) -> JsonView {
    JsonView::Object(
        Map::empty().insert("type"@, JsonView::Text("userMessage"@)).insert(
            "content"@,
            JsonView::Array(parts),
        ),
    )
}

proof fn lemma_of_parts(parts: Seq<JsonView>)
    ensures
        ({
            let said = text::joined(app_server::text_parts(parts), "\n"@);
            app_server::messages_of(of_items(seq![of_parts(parts)])) == Ok::<
                Seq<MessageView>,
                Seq<char>,
            >(
                if texts::says_something(said) {
                    seq![MessageView { role: MessageRole::User, text: said }]
                } else {
                    Seq::empty()
                },
            )
        }),
{
    reveal_strlit("type");
    reveal_strlit("content");
    assert("type"@.len() != "content"@.len());
    lemma_user_item(of_parts(parts), parts);
}

/// Nothing but user and agent messages becomes a message, and an agent message without a text does
/// not either.
pub proof fn other_items_are_no_messages(item: JsonView)
    requires
        !holds_field(item, "type"@, JsonView::Text("userMessage"@)),
        !holds_field(item, "type"@, JsonView::Text("agentMessage"@)) || lacks_text(item, "text"@),
    ensures
        app_server::messages_of(of_items(seq![item])) == Ok::<Seq<MessageView>, Seq<char>>(
            Seq::empty(),
        ),
{
    lemma_one_item(item);
    if json::text_field(item, "type"@) is Some {
        let kind = json::text_field(item, "type"@)->Some_0;
        assert(holds_field(item, "type"@, JsonView::Text(kind)));
    }
    if json::text_field(item, "text"@) is Some {
        let t = json::text_field(item, "text"@)->Some_0;
        assert(holds_field(item, "text"@, JsonView::Text(t)));
    }
}

/// An answer is refused just where it names no thread, or a thread without a list of turns.
pub proof fn answers_without_turns_are_refused(result: JsonView)
    ensures
        app_server::messages_of(result) is Ok <==> exists|turns: Seq<JsonView>|
            has_turns(result, turns),
{
    if app_server::messages_of(result) is Ok {
        let thread = json::field(result, "thread"@)->Some_0;
        let turns = json::array_field(thread, "turns"@)->Some_0;
        assert(holds_field(result, "thread"@, thread));
        assert(has_turns(result, turns));
    }
    if exists|turns: Seq<JsonView>| has_turns(result, turns) {
        let turns = choose|turns: Seq<JsonView>| has_turns(result, turns);
        lemma_has_turns(result, turns);
    }
}

/// Whether a listing gives `found` in the field `name`: its text, or nothing where it has none.
pub open spec fn gives_text(item: JsonView, name: Seq<char>, found: Option<Seq<char>>) -> bool {
    match found {
        Some(t) => holds_field(item, name, JsonView::Text(t)),
        None => lacks_text(item, name),
    }
}

/// Whether a listing gives `found` in the field `name`: its number, or nothing where it has none.
pub open spec fn gives_time(item: JsonView, name: Seq<char>, found: Option<i64>) -> bool {
    match found {
        Some(t) => exists|number: serde_json::Number| #[trigger]
            holds_field(item, name, JsonView::Number(number)) && json::number_integer(number) == Some(
                t as int,
            ),
        None => forall|number: serde_json::Number, t: i64| #[trigger]
            holds_field(item, name, JsonView::Number(number)) ==> json::number_integer(number) != Some(
                #[trigger] as_int(t),
            ),
    }
}

/// A number as a mathematical integer.
pub open spec fn as_int(t: i64) -> int {
    t as int
}

proof fn lemma_gives_text(item: JsonView, name: Seq<char>)
    ensures
        gives_text(item, name, json::text_field(item, name)),
{
}

proof fn lemma_gives_time(item: JsonView, name: Seq<char>)
    ensures
        gives_time(item, name, json::i64_field(item, name)),
{
    match json::field(item, name) {
        Some(JsonView::Number(number)) => {
            assert(holds_field(item, name, JsonView::Number(number)));
        },
        _ => {},
    }
}

/// A listed thread is read field by field: each of its fields is what the listing gives under the
/// field's own name. It needs an identity and a directory. Its title is its name, or its preview
/// where the name is blank or missing.
pub proof fn listed_threads_are_read_field_by_field(item: JsonView)
    ensures
        app_server::listed_thread(item) is Ok <==> !lacks_text(item, "id"@) && !lacks_text(
            item,
            "cwd"@,
        ),
        app_server::listed_thread(item) matches Ok(thread) ==> {
            &&& holds_field(item, "id"@, JsonView::Text(thread.thread_id))
            &&& holds_field(item, "cwd"@, JsonView::Text(thread.cwd))
            &&& gives_text(item, "model"@, thread.model)
            &&& gives_text(item, "modelProvider"@, thread.model_provider)
            &&& gives_time(item, "createdAt"@, thread.created_at)
            &&& gives_time(item, "updatedAt"@, thread.updated_at)
            &&& gives_time(item, "recencyAt"@, thread.recency_at)
            &&& forall|name: Seq<char>| #[trigger]
                holds_field(item, "name"@, JsonView::Text(name)) && texts::says_something(name)
                    ==> thread.generated_title == Some(name)
            &&& (forall|name: Seq<char>| #[trigger]
                holds_field(item, "name"@, JsonView::Text(name)) ==> !texts::says_something(name))
                ==> gives_text(item, "preview"@, thread.generated_title)
            &&& forall|source: Seq<char>| #[trigger]
                holds_field(item, "source"@, JsonView::Text(source)) ==> thread.source == source
        },
        app_server::listed_thread(item) matches Err(error) ==> error
            == "thread/list item omitted string field "@ + (if lacks_text(item, "id"@) {
            "id"@
        } else {
            "cwd"@
        }),
{
    lemma_gives_text(item, "id"@);
    lemma_gives_text(item, "cwd"@);
    lemma_gives_text(item, "model"@);
    lemma_gives_text(item, "modelProvider"@);
    lemma_gives_text(item, "preview"@);
    lemma_gives_text(item, "name"@);
    lemma_gives_time(item, "createdAt"@);
    lemma_gives_time(item, "updatedAt"@);
    lemma_gives_time(item, "recencyAt"@);
    if json::text_field(item, "id"@) is Some {
        let t = json::text_field(item, "id"@)->Some_0;
        assert(holds_field(item, "id"@, JsonView::Text(t)));
    }
    if json::text_field(item, "cwd"@) is Some {
        let t = json::text_field(item, "cwd"@)->Some_0;
        assert(holds_field(item, "cwd"@, JsonView::Text(t)));
    }
    match json::text_field(item, "name"@) {
        Some(name) => {
            assert(holds_field(item, "name"@, JsonView::Text(name)));
            texts::trimming_keeps_the_core(name);
        },
        None => {},
    }
}

/// A thread from a custom source or from a sub-agent says so, and one from nowhere is unknown.
pub proof fn sources_are_told(value: JsonView, name: Seq<char>)
    ensures
        value == JsonView::Text(name) ==> app_server::label_of_source(value) == name,
        holds_field(value, "custom"@, JsonView::Text(name)) ==> app_server::label_of_source(value)
            == "custom:"@ + name,
        lacks_text(value, "custom"@) && holds_field(value, "subAgent"@, JsonView::Text(name))
            ==> app_server::label_of_source(value) == "subAgent:"@ + name,
        value is Null ==> app_server::label_of_source(value) == "unknown"@,
{
    lemma_gives_text(value, "custom"@);
}

proof fn lemma_page_items(items: Seq<JsonView>)
    ensures
        app_server::listed_threads(items) is Ok <==> forall|i: int|
            0 <= i < items.len() ==> app_server::listed_thread(#[trigger] items[i]) is Ok,
        app_server::listed_threads(items) matches Ok(threads) ==> threads.len() == items.len()
            && forall|i: int|
            0 <= i < items.len() ==> app_server::listed_thread(items[i]) == Ok::<
                MetadataView,
                Seq<char>,
            >(#[trigger] threads[i]),
        app_server::listed_threads(items) matches Err(error) ==> exists|i: int|
            0 <= i < items.len() && app_server::listed_thread(#[trigger] items[i]) == Err::<
                MetadataView,
                Seq<char>,
            >(error) && forall|j: int|
                0 <= j < i ==> app_server::listed_thread(#[trigger] items[j]) is Ok,
    decreases items.len(),
{
    if items.len() > 0 {
        let rest = items.drop_last();
        let n = rest.len() as int;
        lemma_page_items(rest);
        assert forall|i: int| 0 <= i < n implies rest[i] == #[trigger] items[i] by {}
        assert(items[n] == items.last());
        match app_server::listed_threads(rest) {
            Ok(before) => {
                match app_server::listed_thread(items.last()) {
                    Ok(thread) => {
                        let threads = before.push(thread);
                        assert forall|i: int| 0 <= i < items.len() implies app_server::listed_thread(
                            items[i],
                        ) == Ok::<MetadataView, Seq<char>>(#[trigger] threads[i]) by {
                            if i < n {
                                assert(threads[i] == before[i]);
                                assert(rest[i] == items[i]);
                            }
                        }
                        assert forall|i: int| 0 <= i < items.len() implies app_server::listed_thread(
                            #[trigger] items[i],
                        ) is Ok by {
                            assert(threads[i] == threads[i]);
                        }
                    },
                    Err(error) => {
                        assert forall|j: int| 0 <= j < n implies app_server::listed_thread(
                            #[trigger] items[j],
                        ) is Ok by {
                            assert(rest[j] == items[j]);
                        }
                        assert(app_server::listed_thread(items[n]) == Err::<
                            MetadataView,
                            Seq<char>,
                        >(error));
                    },
                }
            },
            Err(error) => {
                let i = choose|i: int|
                    0 <= i < rest.len() && app_server::listed_thread(#[trigger] rest[i]) == Err::<
                        MetadataView,
                        Seq<char>,
                    >(error) && forall|j: int|
                        0 <= j < i ==> app_server::listed_thread(#[trigger] rest[j]) is Ok;
                assert(rest[i] == items[i]);
                assert forall|j: int| 0 <= j < i implies app_server::listed_thread(
                    #[trigger] items[j],
                ) is Ok by {
                    assert(rest[j] == items[j]);
                }
            },
        }
    }
}

/// A page has a thread for each thing that is listed, in the same order, and says where the next
/// page starts. It is refused where one of them is, with the fault of the first.
pub proof fn pages_hold_every_listed_thread(result: JsonView, data: Seq<JsonView>)
    requires
        holds_field(result, "data"@, JsonView::Array(data)),
    ensures
        app_server::page_of(result) is Ok <==> forall|i: int|
            0 <= i < data.len() ==> app_server::listed_thread(#[trigger] data[i]) is Ok,
        app_server::page_of(result) matches Ok((threads, cursor)) ==> {
            &&& threads.len() == data.len()
            &&& forall|i: int|
                0 <= i < data.len() ==> app_server::listed_thread(data[i]) == Ok::<
                    MetadataView,
                    Seq<char>,
                >(#[trigger] threads[i])
            &&& gives_text(result, "nextCursor"@, cursor)
        },
        app_server::page_of(result) matches Err(error) ==> exists|i: int|
            0 <= i < data.len() && app_server::listed_thread(#[trigger] data[i]) == Err::<
                MetadataView,
                Seq<char>,
            >(error) && forall|j: int|
                0 <= j < i ==> app_server::listed_thread(#[trigger] data[j]) is Ok,
{
    lemma_page_items(data);
    lemma_gives_text(result, "nextCursor"@);
}

/// A listing goes on just where the page names a next one, from there, and stops with an error where
/// that is the page that was just read. What was listed before stays in front.
pub proof fn listings_follow_the_cursor(
    listing: ListingView,
    result: JsonView,
    page: Seq<MetadataView>,
    next: Option<Seq<char>>,
)
    requires
        app_server::page_of(result) == Ok::<(Seq<MetadataView>, Option<Seq<char>>), Seq<char>>(
            (page, next),
        ),
    ensures
        next is None ==> (app_server::listed_page(listing, result) matches Ok((after, more))
            && !more && after.threads == listing.threads + page),
        next is Some && next != listing.cursor ==> (app_server::listed_page(
            listing,
            result,
        ) matches Ok((after, more)) && more && after.cursor == next && after.threads
            == listing.threads + page),
        next is Some && next == listing.cursor ==> app_server::listed_page(listing, result) is Err,
{
}

/// A listing is asked for with the sources that are to be visible, each under its name and in order,
/// without archived threads, the latest first, and from the cursor on where there is one.
pub proof fn listings_are_asked_for_as_configured(
    sources: Seq<SourceKind>,
    cursor: Option<Seq<char>>,
)
    ensures
        holds_field(app_server::list_params(sources, cursor), "archived"@, JsonView::Bool(false)),
        holds_field(
            app_server::list_params(sources, cursor),
            "sortKey"@,
            JsonView::Text("recency_at"@),
        ),
        holds_field(app_server::list_params(sources, cursor), "sortDirection"@, JsonView::Text("desc"@)),
        gives_text(app_server::list_params(sources, cursor), "cursor"@, cursor),
        exists|names: Seq<JsonView>| #[trigger]
            holds_field(app_server::list_params(sources, cursor), "sourceKinds"@, JsonView::Array(names))
                && names.len() == sources.len() && forall|i: int|
                0 <= i < sources.len() ==> #[trigger] names[i] == JsonView::Text(
                    match sources[i] {
                        SourceKind::Cli => "cli"@,
                        SourceKind::Vscode => "vscode"@,
                        SourceKind::Exec => "exec"@,
                    },
                ),
{
    reveal_strlit("limit");
    reveal_strlit("archived");
    reveal_strlit("sortKey");
    reveal_strlit("sortDirection");
    reveal_strlit("sourceKinds");
    reveal_strlit("cursor");
    assert("sortKey"@.len() == 7 && "sortDirection"@.len() == 13 && "sourceKinds"@.len() == 11);
    assert("limit"@.len() == 5 && "archived"@.len() == 8 && "cursor"@.len() == 6);
    assert(holds_field(
        app_server::list_params(sources, cursor),
        "sourceKinds"@,
        JsonView::Array(app_server::source_texts(sources)),
    ));
}

/// A reply counts just where it has the number of the request. An error in it is told, and else its
/// result is what was asked for.
pub proof fn replies_are_matched_by_their_number(
    envelope: JsonView,
    method: Seq<char>,
    id: u64,
    number: serde_json::Number,
    result: JsonView,
)
    ensures
        json::u64_field(envelope, "id"@) != Some(id) ==> app_server::reply_in(envelope, method, id)
            == Ok::<Option<JsonView>, Seq<char>>(None),
        holds_field(envelope, "id"@, JsonView::Number(number)) && json::number_integer(number) == Some(
            id as int,
        ) ==> {
            &&& holds_field(envelope, "result"@, result) && (forall|error: JsonView|
                !holds_field(envelope, "error"@, error)) ==> app_server::reply_in(envelope, method, id)
                == Ok::<Option<JsonView>, Seq<char>>(Some(result))
            &&& (exists|error: JsonView| holds_field(envelope, "error"@, error)) ==> app_server::reply_in(
                envelope,
                method,
                id,
            ) is Err
        },
        holds_field(envelope, "id"@, JsonView::Number(number)) && json::number_integer(number) != Some(
            id as int,
        ) ==> app_server::reply_in(envelope, method, id) == Ok::<Option<JsonView>, Seq<char>>(None),
{
    if json::field(envelope, "error"@) is Some {
        let error = json::field(envelope, "error"@)->Some_0;
        assert(holds_field(envelope, "error"@, error));
    }
}

/// A request names its method, its number and its parameters, and a thread is read with its turns.
pub proof fn requests_say_what_is_asked(
    method: Seq<char>,
    id: u64,
    params: JsonView,
    thread_id: Seq<char>,
)
    ensures
        holds_field(app_server::request_envelope(method, id, params), "method"@, JsonView::Text(method)),
        holds_field(app_server::request_envelope(method, id, params), "params"@, params),
        holds_field(
            app_server::request_envelope(method, id, params),
            "id"@,
            JsonView::Number(json::whole_number(id)),
        ),
        holds_field(app_server::notice_envelope(method, params), "method"@, JsonView::Text(method)),
        holds_field(app_server::notice_envelope(method, params), "params"@, params),
        holds_field(app_server::read_params(thread_id), "threadId"@, JsonView::Text(thread_id)),
        holds_field(app_server::read_params(thread_id), "includeTurns"@, JsonView::Bool(true)),
{
    reveal_strlit("method");
    reveal_strlit("params");
    reveal_strlit("id");
    reveal_strlit("threadId");
    reveal_strlit("includeTurns");
    assert("method"@[0] == 'm' && "params"@[0] == 'p' && "id"@.len() == 2);
    assert("threadId"@.len() == 8 && "includeTurns"@.len() == 12);
}

/// A listing is asked for a hundred threads at a time, and the App Server is tried out with a single
/// one.
pub proof fn pages_have_a_hundred_threads(sources: Seq<SourceKind>, cursor: Option<Seq<char>>)
    ensures
        holds_field(
            app_server::list_params(sources, cursor),
            "limit"@,
            JsonView::Number(json::whole_number(100)),
        ),
        holds_field(
            app_server::probe_params(),
            "limit"@,
            JsonView::Number(json::whole_number(1)),
        ),
        holds_field(app_server::probe_params(), "archived"@, JsonView::Bool(false)),
{
    reveal_strlit("limit");
    reveal_strlit("archived");
    reveal_strlit("sortKey");
    reveal_strlit("sortDirection");
    reveal_strlit("sourceKinds");
    reveal_strlit("cursor");
    assert("sortKey"@.len() == 7 && "sortDirection"@.len() == 13 && "sourceKinds"@.len() == 11);
    assert("limit"@.len() == 5 && "archived"@.len() == 8 && "cursor"@.len() == 6);
}

} // verus!
