//! Setting the tracker up: the questions that it asks and the hook that it installs.

use vstd::prelude::*;

use crate::config;
use crate::config::{
    fault_message, Config, ConfigView, OnClose, SourceKind, SummaryInput, SummaryProvider,
};
use crate::json;
use crate::json::{describe, Json, JsonObject, JsonView, READABLE_LEVELS};
use crate::paths;
use crate::paths::{codex_home, join_path};
use crate::text;
use crate::text::{decimal_text, parse_usize, quote, replace, same, to_ascii_lowercase, trim};

verus! {

pub const HOOKS_DOC_URL: &'static str = "https://developers.openai.com/codex/hooks";

/// What is done about the hook.
#[derive(Clone, Copy, Debug, PartialEq, Eq, Structural)]
pub enum HookChoice {
    Automatic,
    Manual,
    Skip,
}

/// The name of a choice.
pub open spec fn choice_name(choice: HookChoice) -> Seq<char> {
    match choice {
        HookChoice::Automatic => "automatic"@,
        HookChoice::Manual => "manual"@,
        HookChoice::Skip => "skip"@,
    }
}

/// The choice that a name stands for, in whatever letter case.
pub open spec fn choice_named(value: Seq<char>) -> Option<HookChoice> {
    let name = text::ascii_folded(value);
    if name == "automatic"@ || name == "auto"@ || name == "merge"@ {
        Some(HookChoice::Automatic)
    } else if name == "manual"@ || name == "snippet"@ {
        Some(HookChoice::Manual)
    } else if name == "skip"@ || name == "none"@ {
        Some(HookChoice::Skip)
    } else {
        None
    }
}

impl Default for HookChoice {
    fn default() -> (r: Self)
        ensures
            r == HookChoice::Automatic,
    {
        HookChoice::Automatic
    }
}

impl HookChoice {
    pub fn to_string(&self) -> (r: String)
        ensures
            r@ == choice_name(*self),
    {
        match self {
            HookChoice::Automatic => "automatic".to_owned(),
            HookChoice::Manual => "manual".to_owned(),
            HookChoice::Skip => "skip".to_owned(),
        }
    }

    pub fn from_str(value: &str) -> (r: Result<HookChoice, String>)
        ensures
            match r {
                Ok(choice) => choice_named(value@) == Some(choice),
                Err(error) => choice_named(value@) is None && error@ == "unknown hook choice "@
                    + text::quoted(value@) + "; use automatic, manual, or skip"@,
            },
    {
        let folded = to_ascii_lowercase(value);
        let name = folded.as_str();
        if same(name, "automatic") || same(name, "auto") || same(name, "merge") {
            Ok(HookChoice::Automatic)
        } else if same(name, "manual") || same(name, "snippet") {
            Ok(HookChoice::Manual)
        } else if same(name, "skip") || same(name, "none") {
            Ok(HookChoice::Skip)
        } else {
            Err(
                "unknown hook choice ".to_owned().concat(quote(value).as_str()).concat(
                    "; use automatic, manual, or skip",
                ),
            )
        }
    }
}

/// The hooks file that was looked at, and whether it was changed.
#[derive(Debug, PartialEq, Eq)]
pub struct HookMergeOutcome {
    pub path: String,
    pub changed: bool,
}

/// The hooks file for the values of `CODEX_HOME` and `HOME`.
pub open spec fn hooks_file(named: Option<Seq<char>>, home: Option<Seq<char>>) -> Result<
    Seq<char>,
    Seq<char>,
> {
    match paths::codex_dir(named, home) {
        Ok(directory) => Ok(paths::path_under(directory, "hooks.json"@)),
        Err(error) => Err(error),
    }
}

pub fn hooks_path(named: Option<&str>, home: Option<&str>) -> (r: Result<String, String>)
    ensures
        match r {
            Ok(path) => hooks_file(named.deep_view(), home.deep_view()) == Ok::<
                Seq<char>,
                Seq<char>,
            >(path@),
            Err(error) => hooks_file(named.deep_view(), home.deep_view()) == Err::<
                Seq<char>,
                Seq<char>,
            >(error@),
        },
{
    match codex_home(named, home) {
        Ok(directory) => Ok(join_path(directory.as_str(), "hooks.json")),
        Err(error) => Err(error),
    }
}

/// `value` as one word of a shell: in single quotes, with each single quote in it taken out of them
/// and put in double quotes.
pub open spec fn shell_quoted(value: Seq<char>) -> Seq<char> {
    "'"@ + text::replaced(value, "'"@, "'\"'\"'"@) + "'"@
}

pub fn shell_quote(value: &str) -> (r: String)
    ensures
        r@ == shell_quoted(value@),
{
    proof {
        reveal_strlit("'");
    }
    "'".to_owned().concat(replace(value, "'", "'\"'\"'").as_str()).concat("'")
}

/// The command that the hook runs.
pub open spec fn command_of(executable: Seq<char>) -> Seq<char> {
    shell_quoted(executable) + " hook"@
}

pub fn hook_command(executable: &str) -> (r: String)
    ensures
        r@ == command_of(executable@),
{
    shell_quote(executable).concat(" hook")
}

/// What the hook does.
pub open spec fn hook_handler(command: Seq<char>) -> JsonView {
    JsonView::Object(
        Map::empty().insert("type"@, JsonView::Text("command"@)).insert(
            "command"@,
            JsonView::Text(command),
        ).insert("timeout"@, JsonView::Number(json::whole_number(3))).insert(
            "statusMessage"@,
            JsonView::Text("Saving Codex resume command"@),
        ),
    )
}

/// The hook with the sessions that it is for.
pub open spec fn hook_group(command: Seq<char>) -> JsonView {
    JsonView::Object(
        Map::empty().insert("matcher"@, JsonView::Text("^other$"@)).insert(
            "hooks"@,
            JsonView::Array(seq![hook_handler(command)]),
        ),
    )
}

fn new_group(command: &str) -> (r: Json)
    ensures
        r@ == hook_group(command@),
        json::number_integer(json::whole_number(3)) == Some(3int),
{
    let handler = Json::object(
        JsonObject::new().with("type", Json::text("command")).with(
            "command",
            Json::text(command),
        ).with("timeout", Json::number(3)).with(
            "statusMessage",
            Json::text("Saving Codex resume command"),
        ),
    );
    let ghost handler_view = handler@;
    let mut handlers: Vec<Json> = Vec::new();
    handlers.push(handler);
    assert(handlers.deep_view() =~= seq![handler_view]);
    Json::object(
        JsonObject::new().with("matcher", Json::text("^other$")).with(
            "hooks",
            Json::array(handlers),
        ),
    )
}

/// A hooks file that holds nothing but the hook.
pub open spec fn snippet(executable: Seq<char>) -> JsonView {
    JsonView::Object(
        Map::empty().insert(
            "hooks"@,
            JsonView::Object(
                Map::empty().insert(
                    "SessionEnd"@,
                    JsonView::Array(seq![hook_group(command_of(executable))]),
                ),
            ),
        ),
    )
}

pub fn hook_snippet(executable: &str) -> (r: Json)
    ensures
        r@ == snippet(executable@),
{
    let group = new_group(hook_command(executable).as_str());
    let ghost group_view = group@;
    let mut groups: Vec<Json> = Vec::new();
    groups.push(group);
    assert(groups.deep_view() =~= seq![group_view]);
    Json::object(
        JsonObject::new().with(
            "hooks",
            Json::object(JsonObject::new().with("SessionEnd", Json::array(groups))),
        ),
    )
}

pub fn render_hook_snippet(executable: &str) -> (r: String)
    ensures
        r@ == json::json_pretty(snippet(executable@)),
{
    hook_snippet(executable).pretty()
}

/// Whether a handler runs `command`.
pub open spec fn runs_command(handler: JsonView, command: Seq<char>) -> bool {
    json::text_field(handler, "type"@) == Some("command"@) && json::text_field(handler, "command"@)
        == Some(command)
}

/// The handlers of a group.
pub open spec fn handlers_of(group: JsonView) -> Seq<JsonView> {
    match json::array_field(group, "hooks"@) {
        Some(handlers) => handlers,
        None => Seq::empty(),
    }
}

/// Whether a group holds a handler that runs `command`.
pub open spec fn group_runs(group: JsonView, command: Seq<char>) -> bool {
    exists|j: int|
        0 <= j < handlers_of(group).len() && runs_command(
            #[trigger] handlers_of(group)[j],
            command,
        )
}

/// Whether one of `groups` holds a handler that runs `command`.
pub open spec fn some_group_runs(groups: Seq<JsonView>, command: Seq<char>) -> bool {
    exists|i: int| 0 <= i < groups.len() && group_runs(#[trigger] groups[i], command)
}

fn handler_runs(handler: &Json, command: &str) -> (r: bool)
    ensures
        r == runs_command(handler@, command@),
{
    match handler.text_field("type") {
        Some(kind) => if same(kind, "command") {
            match handler.text_field("command") {
                Some(found) => same(found, command),
                None => false,
            }
        } else {
            false
        },
        None => false,
    }
}

fn group_contains(group: &Json, command: &str) -> (r: bool)
    ensures
        r == group_runs(group@, command@),
{
    match group.array_field("hooks") {
        Some(handlers) => {
            let ghost all = handlers.deep_view();
            let mut j: usize = 0;
            while j < handlers.len()
                invariant
                    j <= handlers@.len(),
                    all == handlers.deep_view(),
                    handlers_of(group@) == all,
                    forall|k: int| 0 <= k < j ==> !runs_command(#[trigger] all[k], command@),
                decreases handlers@.len() - j,
            {
                assert(all[j as int] == handlers@[j as int]@);
                if handler_runs(&handlers[j], command) {
                    assert(runs_command(handlers_of(group@)[j as int], command@));
                    return true;
                }
                j += 1;
            }
            false
        },
        None => false,
    }
}

pub fn contains_command(groups: &[Json], expected: &str) -> (r: bool)
    ensures
        r == some_group_runs(groups.deep_view(), expected@),
{
    let ghost all = groups.deep_view();
    let mut i: usize = 0;
    while i < groups.len()
        invariant
            i <= groups@.len(),
            all == groups.deep_view(),
            forall|k: int| 0 <= k < i ==> !group_runs(#[trigger] all[k], expected@),
        decreases groups@.len() - i,
    {
        assert(all[i as int] == groups@[i as int]@);
        if group_contains(&groups[i], expected) {
            assert(group_runs(all[i as int], expected@));
            return true;
        }
        i += 1;
    }
    false
}

/// The events with hooks that a hooks file holds, or what is wrong with it.
pub open spec fn hook_events(root: JsonView) -> Result<Map<Seq<char>, JsonView>, Seq<char>> {
    match root {
        JsonView::Object(fields) => if !fields.contains_key("hooks"@) {
            Ok(Map::empty())
        } else {
            match fields["hooks"@] {
                JsonView::Object(events) => Ok(events),
                _ => Err("Codex hooks file field 'hooks' must be a JSON object"@),
            }
        },
        _ => Err("Codex hooks file must contain a JSON object"@),
    }
}

/// The groups of hooks for the end of a session that a hooks file holds, or what is wrong with it.
pub open spec fn end_groups(root: JsonView) -> Result<Seq<JsonView>, Seq<char>> {
    match hook_events(root) {
        Err(error) => Err(error),
        Ok(events) => if !events.contains_key("SessionEnd"@) {
            Ok(Seq::empty())
        } else {
            match events["SessionEnd"@] {
                JsonView::Array(groups) => Ok(groups),
                _ => Err("Codex hooks SessionEnd value must be a JSON array"@),
            }
        },
    }
}

/// A hooks file with `groups` as the hooks for the end of a session.
pub open spec fn with_end_groups(root: JsonView, groups: Seq<JsonView>) -> JsonView {
    JsonView::Object(
        root->Object_0.insert(
            "hooks"@,
            JsonView::Object(
                hook_events(root)->Ok_0.insert("SessionEnd"@, JsonView::Array(groups)),
            ),
        ),
    )
}

/// A hooks file with the hook in it, and whether it had to be added.
pub open spec fn merged(root: JsonView, command: Seq<char>) -> Result<(JsonView, bool), Seq<char>> {
    match end_groups(root) {
        Err(error) => Err(error),
        Ok(groups) => if some_group_runs(groups, command) {
            Ok((root, false))
        } else {
            Ok((with_end_groups(root, groups.push(hook_group(command))), true))
        },
    }
}

/// A value that is written to a file and read back as it was: see `json::plain`.
pub open spec fn plain_enough(value: JsonView) -> bool {
    json::plain(value, READABLE_LEVELS as nat)
}

proof fn lemma_group_is_plain(command: Seq<char>)
    requires
        json::number_integer(json::whole_number(3)) == Some(3int),
    ensures
        json::plain(hook_group(command), 124),
{
    let handler = hook_handler(command);
    assert(json::plain(handler, 122)) by {
        assert forall|name: Seq<char>| handler->Object_0.contains_key(name) implies json::plain(
            #[trigger] handler->Object_0[name],
            121,
        ) by {}
    }
    let handlers = JsonView::Array(seq![handler]);
    assert(json::plain(handlers, 123)) by {
        assert forall|i: int| 0 <= i < seq![handler].len() implies json::plain(
            #[trigger] seq![handler][i],
            122,
        ) by {}
    }
    let group = hook_group(command);
    assert forall|name: Seq<char>| group->Object_0.contains_key(name) implies json::plain(
        #[trigger] group->Object_0[name],
        123,
    ) by {}
}

proof fn lemma_merged_is_plain(root: JsonView, command: Seq<char>)
    requires
        json::number_integer(json::whole_number(3)) == Some(3int),
        plain_enough(root),
        end_groups(root) is Ok,
    ensures
        plain_enough(
            with_end_groups(root, end_groups(root)->Ok_0.push(hook_group(command))),
        ),
{
    let fields = root->Object_0;
    let events = hook_events(root)->Ok_0;
    let groups = end_groups(root)->Ok_0;
    lemma_group_is_plain(command);
    assert(fields.contains_key("hooks"@) ==> json::plain(fields["hooks"@], 126));
    assert forall|name: Seq<char>| events.contains_key(name) implies json::plain(
        #[trigger] events[name],
        125,
    ) by {}
    assert(events.contains_key("SessionEnd"@) ==> json::plain(events["SessionEnd"@], 125));
    let new_groups = groups.push(hook_group(command));
    assert forall|i: int| 0 <= i < new_groups.len() implies json::plain(
        #[trigger] new_groups[i],
        124,
    ) by {
        if i < groups.len() {
            assert(new_groups[i] == groups[i]);
        }
    }
    assert(json::plain(JsonView::Array(new_groups), 125));
    let new_events = events.insert("SessionEnd"@, JsonView::Array(new_groups));
    assert forall|name: Seq<char>| new_events.contains_key(name) implies json::plain(
        #[trigger] new_events[name],
        125,
    ) by {}
    assert(json::plain(JsonView::Object(new_events), 126));
    let new_fields = fields.insert("hooks"@, JsonView::Object(new_events));
    assert forall|name: Seq<char>| new_fields.contains_key(name) implies json::plain(
        #[trigger] new_fields[name],
        126,
    ) by {
        if name != "hooks"@ {
            assert(fields.contains_key(name));
        }
    }
}

pub fn merge_hook_value(root: Json, command: &str) -> (r: Result<(Json, bool), String>)
    ensures
        match r {
            Ok((value, changed)) => merged(root@, command@) == Ok::<(JsonView, bool), Seq<char>>(
                (value@, changed),
            ),
            Err(error) => merged(root@, command@) == Err::<(JsonView, bool), Seq<char>>(error@),
        },
        plain_enough(root@) ==> match r {
            Ok((value, _)) => plain_enough(value@),
            Err(_) => true,
        },
{
    let group = new_group(command);
    let ghost before = root@;
    let mut fields = match root {
        Json::Object(fields) => fields,
        _ => {
            return Err("Codex hooks file must contain a JSON object".to_owned());
        },
    };
    let ghost all = fields@;
    let mut events = match fields.take("hooks") {
        Some(Json::Object(events)) => events,
        Some(_) => {
            return Err("Codex hooks file field 'hooks' must be a JSON object".to_owned());
        },
        None => JsonObject::new(),
    };
    let ghost old_events = events@;
    let mut groups = match events.take("SessionEnd") {
        Some(value) => match value {
            Json::Array(groups) => {
                assert(value@->Array_0 =~= groups.deep_view());
                groups
            },
            _ => {
                return Err("Codex hooks SessionEnd value must be a JSON array".to_owned());
            },
        },
        None => Vec::new(),
    };
    let ghost old_groups = groups.deep_view();
    assert(end_groups(before) matches Ok(found) && found =~= old_groups);
    let present = contains_command(groups.as_slice(), command);
    if !present {
        groups.push(group);
        assert(groups.deep_view() =~= old_groups.push(hook_group(command@)));
    }
    let ghost new_groups = groups.deep_view();
    let new_events = events.with("SessionEnd", Json::array(groups));
    assert(new_events@ =~= old_events.insert("SessionEnd"@, JsonView::Array(new_groups)));
    let new_root = Json::object(fields.with("hooks", Json::object(new_events)));
    assert(new_root@->Object_0 =~= all.insert("hooks"@, JsonView::Object(new_events@)));
    if present {
        assert(old_groups.len() > 0);
        assert(new_events@ =~= old_events);
        assert(new_root@->Object_0 =~= all);
    }
    proof {
        if !present && plain_enough(before) {
            lemma_merged_is_plain(before, command@);
        }
    }
    Ok((new_root, !present))
}

/// A hooks file as it is read, where there is none as an empty one.
pub open spec fn read_hooks(source: Option<Seq<char>>, path: Seq<char>) -> Result<
    JsonView,
    Seq<char>,
> {
    match source {
        None => Ok(JsonView::Object(Map::empty())),
        Some(source) => match json::json_parsed(source) {
            Ok(root) => Ok(root),
            Err(error) => Err("parse Codex hooks file "@ + path + ": "@ + json::error_text(error)),
        },
    }
}

fn parse_hooks(source: &str, path: &str) -> (r: Result<Json, String>)
    ensures
        match r {
            Ok(root) => read_hooks(Some(source@), path@) == Ok::<JsonView, Seq<char>>(root@),
            Err(error) => read_hooks(Some(source@), path@) == Err::<JsonView, Seq<char>>(error@),
        },
{
    match Json::parse(source) {
        Ok(root) => Ok(root),
        Err(error) => Err(
            "parse Codex hooks file ".to_owned().concat(path).concat(": ").concat(
                describe(&error).as_str(),
            ),
        ),
    }
}

/// What is written to the hooks file: nothing where the hook is in it.
pub open spec fn merged_text(
    source: Option<Seq<char>>,
    path: Seq<char>,
    executable: Seq<char>,
) -> Result<Option<Seq<char>>, Seq<char>> {
    match read_hooks(source, path) {
        Err(error) => Err(error),
        Ok(root) => match merged(root, command_of(executable)) {
            Err(error) => Err(error),
            Ok((value, changed)) => if changed {
                Ok(Some(json::json_pretty(value) + "\n"@))
            } else {
                Ok(None)
            },
        },
    }
}

/// Puts the hook into a hooks file that holds `source`, and gives what to write to it, if anything.
/// Once that is written, the hook is in the file and nothing is left to write, wherever the file can
/// be read; and it can be where it held no fraction.
pub fn merge_hook_text(source: Option<&str>, path: &str, executable: &str) -> (r: Result<
    Option<String>,
    String,
>)
    ensures
        match r {
            Ok(written) => merged_text(source.deep_view(), path@, executable@) == Ok::<
                Option<Seq<char>>,
                Seq<char>,
            >(written.deep_view()),
            Err(error) => merged_text(source.deep_view(), path@, executable@) == Err::<
                Option<Seq<char>>,
                Seq<char>,
            >(error@),
        },
        match r {
            Ok(Some(written)) => {
                &&& json::json_parsed(written@) is Ok ==> {
                    &&& merged_text(Some(written@), path@, executable@) == Ok::<
                        Option<Seq<char>>,
                        Seq<char>,
                    >(None)
                    &&& installed(Some(written@), path@, executable@) == Ok::<bool, Seq<char>>(true)
                }
                &&& plain_enough(read_hooks(source.deep_view(), path@)->Ok_0) ==> json::json_parsed(
                    written@,
                ) is Ok
            },
            _ => true,
        },
{
    let root = match source {
        Some(source) => match parse_hooks(source, path) {
            Ok(root) => root,
            Err(error) => {
                return Err(error);
            },
        },
        None => Json::object(JsonObject::new()),
    };
    let ghost before = root@;
    let command = hook_command(executable);
    let (value, changed) = match merge_hook_value(root, command.as_str()) {
        Ok(outcome) => outcome,
        Err(error) => {
            return Err(error);
        },
    };
    if !changed {
        return Ok(None);
    }
    let written = value.pretty().concat("\n");
    proof {
        merging_again_changes_nothing(before, command@);
        if let Ok(found) = json::json_parsed(written@) {
            lemma_alike_runs(found, value@, command@);
        }
    }
    Ok(Some(written))
}

proof fn lemma_alike_text(a: JsonView, b: JsonView, levels: nat, name: Seq<char>)
    requires
        json::alike(a, b, levels),
        json::text_field(b, name) is Some,
    ensures
        json::text_field(a, name) == json::text_field(b, name),
{
    let x = a->Object_0;
    let y = b->Object_0;
    assert(x.contains_key(name));
    assert(json::alike(x[name], y[name], (levels - 1) as nat));
}

proof fn lemma_alike_array(a: JsonView, b: JsonView, levels: nat, name: Seq<char>)
    requires
        json::alike(a, b, levels),
        json::array_field(b, name) is Some,
    ensures
        json::array_field(a, name) is Some,
        levels > 0,
        json::alike(
            JsonView::Array(json::array_field(a, name)->Some_0),
            JsonView::Array(json::array_field(b, name)->Some_0),
            (levels - 1) as nat,
        ),
{
    let x = a->Object_0;
    let y = b->Object_0;
    assert(x.contains_key(name));
    assert(json::alike(x[name], y[name], (levels - 1) as nat));
}

/// A file that is the same but for fractions holds the same hook.
proof fn lemma_alike_runs(found: JsonView, value: JsonView, command: Seq<char>)
    requires
        json::alike(found, value, READABLE_LEVELS as nat),
        end_groups(value) is Ok,
        some_group_runs(end_groups(value)->Ok_0, command),
    ensures
        end_groups(found) is Ok,
        some_group_runs(end_groups(found)->Ok_0, command),
        json::field(found, "hooks"@) matches Some(events) && json::array_field(
            events,
            "SessionEnd"@,
        ) == Some(end_groups(found)->Ok_0),
{
    let x = found->Object_0;
    let y = value->Object_0;
    assert(y.contains_key("hooks"@));
    assert(x.contains_key("hooks"@));
    assert(json::alike(x["hooks"@], y["hooks"@], 126));
    let xe = x["hooks"@]->Object_0;
    let ye = y["hooks"@]->Object_0;
    assert(ye.contains_key("SessionEnd"@));
    assert(xe.contains_key("SessionEnd"@));
    assert(json::alike(xe["SessionEnd"@], ye["SessionEnd"@], 125));
    let xg = end_groups(found)->Ok_0;
    let yg = end_groups(value)->Ok_0;
    let i = choose|i: int| 0 <= i < yg.len() && group_runs(#[trigger] yg[i], command);
    assert(json::alike(xg[i], yg[i], 124));
    let j = choose|j: int|
        0 <= j < handlers_of(yg[i]).len() && runs_command(
            #[trigger] handlers_of(yg[i])[j],
            command,
        );
    lemma_alike_array(xg[i], yg[i], 124, "hooks"@);
    let xh = handlers_of(xg[i]);
    let yh = handlers_of(yg[i]);
    assert(json::alike(xh[j], yh[j], 122));
    lemma_alike_text(xh[j], yh[j], 122, "type"@);
    lemma_alike_text(xh[j], yh[j], 122, "command"@);
    assert(runs_command(handlers_of(xg[i])[j], command));
    assert(group_runs(xg[i], command));
}

/// Whether the hook is in a hooks file.
pub open spec fn installed(
    source: Option<Seq<char>>,
    path: Seq<char>,
    executable: Seq<char>,
) -> Result<bool, Seq<char>> {
    match read_hooks(source, path) {
        Err(error) => Err(error),
        Ok(root) => match json::field(root, "hooks"@) {
            Some(events) => match json::array_field(events, "SessionEnd"@) {
                Some(groups) => Ok(some_group_runs(groups, command_of(executable))),
                None => Ok(false),
            },
            None => Ok(false),
        },
    }
}

/// Whether the hook is in a hooks file that holds `source`, which is `None` where there is no file.
pub fn hook_is_installed(source: Option<&str>, path: &str, executable: &str) -> (r: Result<
    bool,
    String,
>)
    ensures
        match r {
            Ok(found) => installed(source.deep_view(), path@, executable@) == Ok::<
                bool,
                Seq<char>,
            >(found),
            Err(error) => installed(source.deep_view(), path@, executable@) == Err::<
                bool,
                Seq<char>,
            >(error@),
        },
{
    let root = match source {
        Some(source) => match parse_hooks(source, path) {
            Ok(root) => root,
            Err(error) => {
                return Err(error);
            },
        },
        None => {
            return Ok(false);
        },
    };
    match root.get("hooks") {
        Some(events) => match events.array_field("SessionEnd") {
            Some(groups) => Ok(
                contains_command(groups.as_slice(), hook_command(executable).as_str()),
            ),
            None => Ok(false),
        },
        None => Ok(false),
    }
}

/// Merging the hook a second time changes nothing, and after the first time the hook is there.
pub proof fn merging_again_changes_nothing(root: JsonView, command: Seq<char>)
    requires
        merged(root, command) is Ok,
    ensures
        merged(merged(root, command)->Ok_0.0, command) == Ok::<(JsonView, bool), Seq<char>>(
            (merged(root, command)->Ok_0.0, false),
        ),
        end_groups(merged(root, command)->Ok_0.0) is Ok,
        some_group_runs(end_groups(merged(root, command)->Ok_0.0)->Ok_0, command),
{
    let groups = end_groups(root)->Ok_0;
    if !some_group_runs(groups, command) {
        let group = hook_group(command);
        let after = groups.push(group);
        let handler = hook_handler(command);
        assert(runs_command(handler, command)) by {
            reveal_strlit("type");
            reveal_strlit("command");
            reveal_strlit("timeout");
            reveal_strlit("statusMessage");
            assert("type"@[0] == 't' && "command"@[0] == 'c' && "statusMessage"@[0] == 's');
            assert("type"@.len() == 4 && "timeout"@.len() == 7);
        }
        assert(handlers_of(group) =~= seq![handler]) by {
            reveal_strlit("matcher");
            reveal_strlit("hooks");
            assert("matcher"@[0] == 'm' && "hooks"@[0] == 'h');
        }
        assert(runs_command(handlers_of(group)[0], command));
        assert(group_runs(after[after.len() - 1], command));
        assert(end_groups(with_end_groups(root, after)) == Ok::<Seq<JsonView>, Seq<char>>(after));
    }
}

/// Merging keeps everything else that the hooks file holds: its other fields, the hooks for other
/// events, and the groups that were there, in front of the one that is added.
pub proof fn merging_keeps_the_rest(root: JsonView, command: Seq<char>)
    requires
        merged(root, command) is Ok,
    ensures
        merged(root, command)->Ok_0.0->Object_0.remove("hooks"@) == root->Object_0.remove("hooks"@),
        hook_events(merged(root, command)->Ok_0.0)->Ok_0.remove("SessionEnd"@) == hook_events(
            root,
        )->Ok_0.remove("SessionEnd"@),
        end_groups(root)->Ok_0.len() <= end_groups(merged(root, command)->Ok_0.0)->Ok_0.len()
            <= end_groups(root)->Ok_0.len() + 1,
        end_groups(root)->Ok_0 == end_groups(merged(root, command)->Ok_0.0)->Ok_0.take(
            end_groups(root)->Ok_0.len() as int,
        ),
{
    let groups = end_groups(root)->Ok_0;
    let value = merged(root, command)->Ok_0.0;
    if !some_group_runs(groups, command) {
        let after = groups.push(hook_group(command));
        assert(end_groups(value) == Ok::<Seq<JsonView>, Seq<char>>(after));
        assert(value->Object_0.remove("hooks"@) =~= root->Object_0.remove("hooks"@));
        assert(hook_events(value)->Ok_0.remove("SessionEnd"@) =~= hook_events(root)->Ok_0.remove(
            "SessionEnd"@,
        ));
        assert(after.take(groups.len() as int) =~= groups);
    } else {
        assert(groups.take(groups.len() as int) =~= groups);
    }
}

/// A hooks file is refused just where it has another shape than one that the hook fits in: then
/// nothing is written in its place.
pub proof fn other_shapes_are_refused(root: JsonView, command: Seq<char>)
    ensures
        merged(root, command) is Ok <==> (root matches JsonView::Object(fields) && (
        fields.contains_key("hooks"@) ==> (fields["hooks"@] matches JsonView::Object(events) && (
        events.contains_key("SessionEnd"@) ==> events["SessionEnd"@] is Array)))),
{
}

/// How a shell reads a text: within which quotes it is.
pub enum Quoting {
    Outside,
    Single,
    Double,
}

/// The word that a shell makes of a text of quoted pieces, or `None` where a quote is left open.
/// What a shell exchanges for something else within double quotes is not told apart here: the
/// texts of `shell_quoted` have nothing but a single quote there.
pub open spec fn shell_word(value: Seq<char>, quoting: Quoting) -> Option<Seq<char>>
    decreases value.len(),
{
    if value.len() == 0 {
        if quoting is Outside {
            Some(Seq::empty())
        } else {
            None
        }
    } else {
        let c = value[0];
        let rest = value.drop_first();
        if quoting is Outside && c == '\'' {
            shell_word(rest, Quoting::Single)
        } else if quoting is Outside && c == '"' {
            shell_word(rest, Quoting::Double)
        } else if quoting is Single && c == '\'' {
            shell_word(rest, Quoting::Outside)
        } else if quoting is Double && c == '"' {
            shell_word(rest, Quoting::Outside)
        } else {
            match shell_word(rest, quoting) {
                Some(word) => Some(seq![c] + word),
                None => None,
            }
        }
    }
}

proof fn lemma_quoted_body(value: Seq<char>)
    ensures
        shell_word(
            text::replaced(value, "'"@, "'\"'\"'"@) + "'"@,
            Quoting::Single,
        ) == Some(value),
    decreases value.len(),
{
    reveal_strlit("'");
    reveal_strlit("'\"'\"'");
    let q = "'"@;
    let exchange = "'\"'\"'"@;
    if value.len() == 0 {
        let end = value + q;
        assert(end =~= q);
        assert(end.drop_first() =~= Seq::empty());
        assert(shell_word(end.drop_first(), Quoting::Outside) == Some(Seq::<char>::empty()));
        assert(value =~= Seq::empty());
    } else {
        let rest = value.skip(1);
        lemma_quoted_body(rest);
        let tail = text::replaced(rest, q, exchange) + q;
        assert(value =~= seq![value[0]] + rest);
        if value[0] == '\'' {
            assert(value.take(1) =~= q);
            let t0 = text::replaced(value, q, exchange) + q;
            assert(t0 =~= exchange + tail);
            let t1 = t0.drop_first();
            let t2 = t1.drop_first();
            let t3 = t2.drop_first();
            let t4 = t3.drop_first();
            let t5 = t4.drop_first();
            assert(t1[0] == '"' && t2[0] == '\'' && t3[0] == '"' && t4[0] == '\'');
            assert(t5 =~= tail);
            assert(shell_word(t4, Quoting::Outside) == Some(rest));
            assert(shell_word(t3, Quoting::Double) == Some(rest));
            assert(shell_word(t2, Quoting::Double) == Some(seq!['\''] + rest));
            assert(shell_word(t1, Quoting::Outside) == Some(value));
        } else {
            assert(value.take(1)[0] != q[0]);
            let t0 = text::replaced(value, q, exchange) + q;
            assert(t0 =~= seq![value[0]] + tail);
            assert(t0.drop_first() =~= tail);
        }
    }
}

/// A shell makes of a quoted text the text itself, whatever characters are in it.
pub proof fn shells_read_quoted_texts_back(value: Seq<char>)
    ensures
        shell_word(shell_quoted(value), Quoting::Outside) == Some(value),
{
    reveal_strlit("'");
    lemma_quoted_body(value);
    let body = text::replaced(value, "'"@, "'\"'\"'"@) + "'"@;
    assert(shell_quoted(value) =~= "'"@ + body);
    assert(shell_quoted(value).drop_first() =~= body);
}

/// Every name of a choice stands for the choice.
pub proof fn choice_names_read_back(choice: HookChoice)
    ensures
        choice_named(choice_name(choice)) == Some(choice),
{
    reveal_strlit("automatic");
    reveal_strlit("auto");
    reveal_strlit("merge");
    reveal_strlit("manual");
    reveal_strlit("snippet");
    reveal_strlit("skip");
    reveal_strlit("none");
    let name = choice_name(choice);
    assert(text::ascii_folded(name) =~= name);
    assert("automatic"@.len() == 9 && "auto"@.len() == 4 && "merge"@.len() == 5 && "manual"@.len()
        == 6 && "snippet"@.len() == 7 && "skip"@.len() == 4 && "none"@.len() == 4);
    assert("skip"@[0] == 's' && "auto"@[0] == 'a' && "none"@[0] == 'n');
}

/// What came of a question: nothing yet where the input ended before it was answered.
#[derive(Debug)]
pub enum Answer<T> {
    Waiting,
    Given(T),
    Failed(String),
}

/// What a question shows, the line after those that it used, and what came of it.
pub struct Asked<T> {
    pub shown: Seq<char>,
    pub next: int,
    pub answer: AnswerView<T>,
}

/// What came of a question, as a mathematical value.
pub enum AnswerView<T> {
    Waiting,
    Given(T),
    Failed(Seq<char>),
}

/// What stands before the answer to a choice.
pub open spec fn choice_prompt(default: nat) -> Seq<char> {
    "Choice ["@ + text::decimal(default) + "]: "@
}

/// A question that is answered by a number up to `maximum`, or by an empty line for `default`. It is
/// put again until it is answered.
pub open spec fn asked_choice(
    lines: Seq<Seq<char>>,
    from: int,
    default: nat,
    maximum: nat,
) -> Asked<nat>
    decreases lines.len() - from,
{
    let prompt = choice_prompt(default);
    if from >= lines.len() {
        Asked { shown: prompt, next: from, answer: AnswerView::Waiting }
    } else {
        let line = text::trimmed(lines[from]);
        if line.len() == 0 {
            Asked { shown: prompt, next: from + 1, answer: AnswerView::Given(default) }
        } else {
            match text::usize_value(line) {
                Some(value) if 1 <= value <= maximum => Asked {
                    shown: prompt,
                    next: from + 1,
                    answer: AnswerView::Given(value as nat),
                },
                _ => {
                    let again = asked_choice(lines, from + 1, default, maximum);
                    Asked {
                        shown: prompt + ("Enter a number from 1 to "@ + text::decimal(maximum)
                            + ".\n"@) + again.shown,
                        next: again.next,
                        answer: again.answer,
                    }
                },
            }
        }
    }
}

/// Puts a question that is answered by a number from 1 to `maximum`.
fn prompt_choice(
    lines: &[String],
    from: &mut usize,
    output: &mut String,
    default: usize,
    maximum: usize,
) -> (r: Option<usize>)
    requires
        *old(from) <= lines@.len(),
        1 <= default <= maximum,
    ensures
        *final(from) <= lines@.len(),
        ({
            let asked = asked_choice(
                lines.deep_view(),
                *old(from) as int,
                default as nat,
                maximum as nat,
            );
            &&& final(output)@ == old(output)@ + asked.shown
            &&& *final(from) == asked.next
            &&& match r {
                Some(value) => asked.answer == AnswerView::Given(value as nat) && 1 <= value
                    <= maximum,
                None => asked.answer is Waiting,
            }
        }),
{
    let ghost all = lines.deep_view();
    let ghost start = *from as int;
    let ghost written = output@;
    let ghost asked = asked_choice(all, start, default as nat, maximum as nat);
    loop
        invariant
            *from <= lines@.len(),
            all == lines.deep_view(),
            start == *old(from),
            written == old(output)@,
            1 <= default <= maximum,
            asked == asked_choice(all, start, default as nat, maximum as nat),
            written + asked.shown == output@ + asked_choice(
                all,
                *from as int,
                default as nat,
                maximum as nat,
            ).shown,
            asked.next == asked_choice(
                all,
                *from as int,
                default as nat,
                maximum as nat,
            ).next,
            asked.answer == asked_choice(
                all,
                *from as int,
                default as nat,
                maximum as nat,
            ).answer,
        decreases lines@.len() - *from,
    {
        let ghost before = output@;
        let prompt = "Choice [".to_owned().concat(decimal_text(default as u64).as_str()).concat(
            "]: ",
        );
        output.append(prompt.as_str());
        if *from >= lines.len() {
            return None;
        }
        assert(all[*from as int] == lines@[*from as int]@);
        let line = trim(lines[*from].as_str());
        *from = *from + 1;
        if line.as_str().is_empty() {
            return Some(default);
        }
        match parse_usize(line.as_str()) {
            Ok(value) => if 1 <= value && value <= maximum {
                return Some(value);
            },
            Err(_) => {},
        }
        let refusal = "Enter a number from 1 to ".to_owned().concat(
            decimal_text(maximum as u64).as_str(),
        ).concat(".\n");
        output.append(refusal.as_str());
        proof {
            let again = asked_choice(all, *from as int, default as nat, maximum as nat).shown;
            assert(before + (prompt@ + refusal@ + again) =~= before + prompt@ + refusal@ + again);
        }
    }
}

/// What stands before the first question and the provider to choose from.
pub open spec fn provider_heading() -> Seq<char> {
    "Codex Resume Tracker setup\nPress Enter to accept the highlighted default.\n\nSummary provider:\n  1) Local extractive (no external usage)\n  2) Ephemeral Codex [default]\n  3) OpenAI Responses API\n"@
}

pub open spec fn input_heading() -> Seq<char> {
    "\nSummary input:\n  1) 16K characters\n  2) 64K characters [default]\n  3) Entire visible thread\n  4) Custom positive character limit\n"@
}

pub open spec fn on_close_heading() -> Seq<char> {
    "\nOn-close behavior:\n  1) Automatic saved provider [default]\n  2) Local-first; AI only when requested\n  3) Manual only\n"@
}

pub open spec fn sources_heading() -> Seq<char> {
    "\nVisible sources:\n  1) CLI + IDE/VS Code; exclude exec [default]\n  2) CLI only\n  3) IDE/VS Code only\n  4) CLI + IDE/VS Code + codex exec\n"@
}

pub open spec fn hook_heading() -> Seq<char> {
    "\nSessionEnd hook installation:\n  1) Merge into ~/.codex/hooks.json [default]\n  2) Print JSON for manual merging\n  3) Skip\n"@
}

/// The provider that a number stands for.
pub open spec fn numbered_provider(n: nat) -> SummaryProvider {
    if n == 1 {
        SummaryProvider::Local
    } else if n == 2 {
        SummaryProvider::Codex
    } else {
        SummaryProvider::Openai
    }
}

/// The behavior that a number stands for.
pub open spec fn numbered_on_close(n: nat) -> OnClose {
    if n == 1 {
        OnClose::Automatic
    } else if n == 2 {
        OnClose::LocalFirst
    } else {
        OnClose::Manual
    }
}

/// The sources that a number stands for.
pub open spec fn numbered_sources(n: nat) -> Seq<SourceKind> {
    if n == 1 {
        seq![SourceKind::Cli, SourceKind::Vscode]
    } else if n == 2 {
        seq![SourceKind::Cli]
    } else if n == 3 {
        seq![SourceKind::Vscode]
    } else {
        seq![SourceKind::Cli, SourceKind::Vscode, SourceKind::Exec]
    }
}

/// What is done about the hook for a number.
pub open spec fn numbered_hook(n: nat) -> HookChoice {
    if n == 1 {
        HookChoice::Automatic
    } else if n == 2 {
        HookChoice::Manual
    } else {
        HookChoice::Skip
    }
}

/// The question for the amount of text that a provider reads, with the one for a limit.
pub open spec fn asked_input(lines: Seq<Seq<char>>, from: int) -> Asked<SummaryInput> {
    let choice = asked_choice(lines, from, 2, 4);
    let shown = input_heading() + choice.shown;
    match choice.answer {
        AnswerView::Given(n) => if n == 1 {
            Asked { shown, next: choice.next, answer: AnswerView::Given(SummaryInput::SixteenK) }
        } else if n == 2 {
            Asked { shown, next: choice.next, answer: AnswerView::Given(SummaryInput::SixtyFourK) }
        } else if n == 3 {
            Asked { shown, next: choice.next, answer: AnswerView::Given(SummaryInput::Entire) }
        } else {
            let more = shown + "Custom character limit: "@;
            if choice.next >= lines.len() {
                Asked { shown: more, next: choice.next, answer: AnswerView::Waiting }
            } else {
                let line = text::trimmed(lines[choice.next]);
                match text::usize_value(line) {
                    Some(limit) => Asked {
                        shown: more,
                        next: choice.next + 1,
                        answer: AnswerView::Given(SummaryInput::Custom(limit)),
                    },
                    None => Asked {
                        shown: more,
                        next: choice.next + 1,
                        answer: AnswerView::Failed(
                            "custom limit must be a positive integer: "@ + config::fault_text(
                                text::usize_fault(line),
                            ),
                        ),
                    },
                }
            }
        },
        _ => Asked { shown, next: choice.next, answer: AnswerView::Waiting },
    }
}

fn ask_input(lines: &[String], from: &mut usize, output: &mut String) -> (r: Answer<SummaryInput>)
    requires
        *old(from) <= lines@.len(),
    ensures
        *final(from) <= lines@.len(),
        ({
            let asked = asked_input(lines.deep_view(), *old(from) as int);
            &&& final(output)@ == old(output)@ + asked.shown
            &&& *final(from) == asked.next
            &&& match r {
                Answer::Waiting => asked.answer is Waiting,
                Answer::Given(input) => asked.answer == AnswerView::Given(input),
                Answer::Failed(error) => asked.answer == AnswerView::<SummaryInput>::Failed(
                    error@,
                ),
            }
        }),
{
    let ghost written = output@;
    let ghost heading = input_heading();
    output.append(
        "\nSummary input:\n  1) 16K characters\n  2) 64K characters [default]\n  3) Entire visible thread\n  4) Custom positive character limit\n",
    );
    let ghost choice = asked_choice(lines.deep_view(), *from as int, 2, 4);
    let chosen = prompt_choice(lines, from, output, 2, 4);
    assert(output@ =~= written + (heading + choice.shown));
    match chosen {
        None => Answer::Waiting,
        Some(n) => if n == 1 {
            Answer::Given(SummaryInput::SixteenK)
        } else if n == 2 {
            Answer::Given(SummaryInput::SixtyFourK)
        } else if n == 3 {
            Answer::Given(SummaryInput::Entire)
        } else {
            output.append("Custom character limit: ");
            assert(output@ =~= written + (heading + choice.shown + "Custom character limit: "@));
            if *from >= lines.len() {
                return Answer::Waiting;
            }
            assert(lines.deep_view()[*from as int] == lines@[*from as int]@);
            let line = trim(lines[*from].as_str());
            *from = *from + 1;
            match parse_usize(line.as_str()) {
                Ok(limit) => Answer::Given(SummaryInput::Custom(limit)),
                Err(fault) => Answer::Failed(
                    "custom limit must be a positive integer: ".to_owned().concat(
                        fault_message(fault).as_str(),
                    ),
                ),
            }
        },
    }
}

/// The question for the model, which is put where the provider is OpenAI.
pub open spec fn asked_model(
    lines: Seq<Seq<char>>,
    from: int,
    provider: SummaryProvider,
) -> Asked<Seq<char>> {
    let usual = config::default_config().openai_model;
    if provider != SummaryProvider::Openai {
        Asked { shown: Seq::empty(), next: from, answer: AnswerView::Given(usual) }
    } else {
        let shown = "\nOpenAI model [gpt-5-mini]: "@;
        if from >= lines.len() {
            Asked { shown, next: from, answer: AnswerView::Waiting }
        } else {
            let line = text::trimmed(lines[from]);
            Asked {
                shown,
                next: from + 1,
                answer: AnswerView::Given(
                    if line.len() == 0 {
                        usual
                    } else {
                        line
                    },
                ),
            }
        }
    }
}

fn ask_model(
    lines: &[String],
    from: &mut usize,
    output: &mut String,
    provider: SummaryProvider,
) -> (r: Option<String>)
    requires
        *old(from) <= lines@.len(),
    ensures
        ({
            let asked = asked_model(lines.deep_view(), *old(from) as int, provider);
            &&& final(output)@ == old(output)@ + asked.shown
            &&& *final(from) == asked.next
            &&& match r {
                Some(model) => asked.answer == AnswerView::Given(model@),
                None => asked.answer is Waiting,
            }
        }),
{
    if provider != SummaryProvider::Openai {
        assert(output@ + Seq::<char>::empty() =~= output@);
        return Some(config::default_openai_model());
    }
    output.append("\nOpenAI model [gpt-5-mini]: ");
    if *from >= lines.len() {
        return None;
    }
    assert(lines.deep_view()[*from as int] == lines@[*from as int]@);
    let line = trim(lines[*from].as_str());
    *from = *from + 1;
    if line.as_str().is_empty() {
        Some(config::default_openai_model())
    } else {
        Some(line)
    }
}

/// What the setup shows and what came of it.
#[derive(Debug)]
pub struct WizardRun {
    pub output: String,
    pub outcome: Answer<(Config, HookChoice)>,
}

/// What the setup shows and what came of it, as a mathematical value.
pub struct WizardView {
    pub output: Seq<char>,
    pub outcome: AnswerView<(ConfigView, HookChoice)>,
}

impl View for WizardRun {
    type V = WizardView;

    open spec fn view(&self) -> WizardView {
        WizardView {
            output: self.output@,
            outcome: match self.outcome {
                Answer::Waiting => AnswerView::Waiting,
                Answer::Given((config, choice)) => AnswerView::Given((config@, choice)),
                Answer::Failed(error) => AnswerView::Failed(error@),
            },
        }
    }
}

/// The configuration of the answers.
pub open spec fn answered_config(
    provider: SummaryProvider,
    input: SummaryInput,
    on_close: OnClose,
    sources: Seq<SourceKind>,
    model: Seq<char>,
) -> ConfigView {
    ConfigView {
        version: 1,
        summary_provider: provider,
        summary_input: input,
        on_close,
        sources,
        terminal_argv: config::default_argv(),
        openai_model: model,
    }
}

/// The setup on the lines of the input, from the first question to the last.
pub open spec fn wizard(lines: Seq<Seq<char>>) -> WizardView {
    let q1 = asked_choice(lines, 0, 2, 3);
    let t1 = provider_heading() + q1.shown;
    match q1.answer {
        AnswerView::Given(n1) => {
            let provider = numbered_provider(n1);
            let q2 = asked_input(lines, q1.next);
            let t2 = t1 + q2.shown;
            match q2.answer {
                AnswerView::Waiting => WizardView { output: t2, outcome: AnswerView::Waiting },
                AnswerView::Failed(error) => WizardView {
                    output: t2,
                    outcome: AnswerView::Failed(error),
                },
                AnswerView::Given(input) => wizard_rest(lines, q2.next, t2, provider, input),
            }
        },
        _ => WizardView { output: t1, outcome: AnswerView::Waiting },
    }
}

/// The setup from the question for the on-close behavior to the last.
pub open spec fn wizard_rest(
    lines: Seq<Seq<char>>,
    from: int,
    shown: Seq<char>,
    provider: SummaryProvider,
    input: SummaryInput,
) -> WizardView {
    let q3 = asked_choice(lines, from, 1, 3);
    let t3 = shown + (on_close_heading() + q3.shown);
    match q3.answer {
        AnswerView::Given(n3) => {
            let q4 = asked_choice(lines, q3.next, 1, 4);
            let t4 = t3 + (sources_heading() + q4.shown);
            match q4.answer {
                AnswerView::Given(n4) => {
                    let q5 = asked_choice(lines, q4.next, 1, 3);
                    let t5 = t4 + (hook_heading() + q5.shown);
                    match q5.answer {
                        AnswerView::Given(n5) => {
                            let q6 = asked_model(lines, q5.next, provider);
                            let t6 = t5 + q6.shown;
                            match q6.answer {
                                AnswerView::Given(model) => {
                                    let settings = answered_config(
                                        provider,
                                        input,
                                        numbered_on_close(n3),
                                        numbered_sources(n4),
                                        model,
                                    );
                                    WizardView {
                                        output: t6,
                                        outcome: match config::config_fault(settings) {
                                            Some(fault) => AnswerView::Failed(
                                                config::config_error_text(fault),
                                            ),
                                            None => AnswerView::Given(
                                                (settings, numbered_hook(n5)),
                                            ),
                                        },
                                    }
                                },
                                _ => WizardView { output: t6, outcome: AnswerView::Waiting },
                            }
                        },
                        _ => WizardView { output: t5, outcome: AnswerView::Waiting },
                    }
                },
                _ => WizardView { output: t4, outcome: AnswerView::Waiting },
            }
        },
        _ => WizardView { output: t3, outcome: AnswerView::Waiting },
    }
}

fn sources_numbered(n: usize) -> (r: Vec<SourceKind>)
    ensures
        r@ == numbered_sources(n as nat),
{
    let mut sources: Vec<SourceKind> = Vec::new();
    if n != 3 {
        sources.push(SourceKind::Cli);
    }
    if n != 2 {
        sources.push(SourceKind::Vscode);
    }
    if n != 1 && n != 2 && n != 3 {
        sources.push(SourceKind::Exec);
    }
    assert(sources@ =~= numbered_sources(n as nat));
    sources
}

/// Asks what the tracker is to do. `lines` are the lines of the input so far; the run shows all
/// that is shown up to the question that waits for the next one.
pub fn interactive_wizard(lines: &[String]) -> (r: WizardRun)
    ensures
        r@ == wizard(lines.deep_view()),
{
    let mut output = String::new();
    let mut from: usize = 0;
    let ghost all = lines.deep_view();
    assert(output@ =~= Seq::empty());
    output.append(
        "Codex Resume Tracker setup\nPress Enter to accept the highlighted default.\n\nSummary provider:\n  1) Local extractive (no external usage)\n  2) Ephemeral Codex [default]\n  3) OpenAI Responses API\n",
    );
    assert(output@ =~= provider_heading());
    let provider = match prompt_choice(lines, &mut from, &mut output, 2, 3) {
        Some(1) => SummaryProvider::Local,
        Some(2) => SummaryProvider::Codex,
        Some(_) => SummaryProvider::Openai,
        None => {
            return WizardRun { output, outcome: Answer::Waiting };
        },
    };
    let input = match ask_input(lines, &mut from, &mut output) {
        Answer::Given(input) => input,
        Answer::Waiting => {
            return WizardRun { output, outcome: Answer::Waiting };
        },
        Answer::Failed(error) => {
            return WizardRun { output, outcome: Answer::Failed(error) };
        },
    };
    let ghost t2 = output@;
    output.append(
        "\nOn-close behavior:\n  1) Automatic saved provider [default]\n  2) Local-first; AI only when requested\n  3) Manual only\n",
    );
    let ghost q3 = asked_choice(all, from as int, 1, 3);
    let on_close = match prompt_choice(lines, &mut from, &mut output, 1, 3) {
        Some(1) => OnClose::Automatic,
        Some(2) => OnClose::LocalFirst,
        Some(_) => OnClose::Manual,
        None => {
            assert(output@ =~= t2 + (on_close_heading() + q3.shown));
            return WizardRun { output, outcome: Answer::Waiting };
        },
    };
    assert(output@ =~= t2 + (on_close_heading() + q3.shown));
    let ghost t3 = output@;
    output.append(
        "\nVisible sources:\n  1) CLI + IDE/VS Code; exclude exec [default]\n  2) CLI only\n  3) IDE/VS Code only\n  4) CLI + IDE/VS Code + codex exec\n",
    );
    let ghost q4 = asked_choice(all, from as int, 1, 4);
    let sources = match prompt_choice(lines, &mut from, &mut output, 1, 4) {
        Some(n) => sources_numbered(n),
        None => {
            assert(output@ =~= t3 + (sources_heading() + q4.shown));
            return WizardRun { output, outcome: Answer::Waiting };
        },
    };
    assert(output@ =~= t3 + (sources_heading() + q4.shown));
    let ghost t4 = output@;
    output.append(
        "\nSessionEnd hook installation:\n  1) Merge into ~/.codex/hooks.json [default]\n  2) Print JSON for manual merging\n  3) Skip\n",
    );
    let ghost q5 = asked_choice(all, from as int, 1, 3);
    let hook = match prompt_choice(lines, &mut from, &mut output, 1, 3) {
        Some(1) => HookChoice::Automatic,
        Some(2) => HookChoice::Manual,
        Some(_) => HookChoice::Skip,
        None => {
            assert(output@ =~= t4 + (hook_heading() + q5.shown));
            return WizardRun { output, outcome: Answer::Waiting };
        },
    };
    assert(output@ =~= t4 + (hook_heading() + q5.shown));
    let openai_model = match ask_model(lines, &mut from, &mut output, provider) {
        Some(model) => model,
        None => {
            return WizardRun { output, outcome: Answer::Waiting };
        },
    };
    let config = Config {
        version: 1,
        summary_provider: provider,
        summary_input: input,
        on_close,
        sources,
        terminal_argv: config::default_terminal(),
        openai_model,
    };
    match config.validate() {
        Ok(()) => WizardRun { output, outcome: Answer::Given((config, hook)) },
        Err(fault) => WizardRun { output, outcome: Answer::Failed(fault.message()) },
    }
}

/// What is said when the input ends before all questions are answered.
pub fn ended_message() -> (r: String)
    ensures
        r@ == "setup input ended before all choices were answered"@,
{
    "setup input ended before all choices were answered".to_owned()
}

/// Whether `long` starts with `short`.
pub open spec fn starts_with<T>(long: Seq<T>, short: Seq<T>) -> bool {
    short.len() <= long.len() && long.take(short.len() as int) == short
}

proof fn lemma_longer_starts(a: Seq<char>, b: Seq<char>, c: Seq<char>)
    requires
        starts_with(b, a),
        starts_with(c, b),
    ensures
        starts_with(c, a),
{
    assert(c.take(a.len() as int) =~= b.take(a.len() as int));
}

proof fn lemma_appended_starts(front: Seq<char>, a: Seq<char>, b: Seq<char>)
    requires
        starts_with(b, a),
    ensures
        starts_with(front + b, front + a),
        starts_with(front + b, front),
{
    assert((front + b).take((front + a).len() as int) =~= front + a) by {
        assert forall|i: int| 0 <= i < a.len() implies #[trigger] b[i] == a[i] by {
            assert(b.take(a.len() as int)[i] == b[i]);
        }
    }
    assert((front + b).take(front.len() as int) =~= front);
}

proof fn lemma_choice_with_more(
    lines: Seq<Seq<char>>,
    more: Seq<Seq<char>>,
    from: int,
    default: nat,
    maximum: nat,
)
    requires
        starts_with(more, lines),
        0 <= from <= lines.len(),
    ensures
        from <= asked_choice(lines, from, default, maximum).next <= lines.len(),
        !(asked_choice(lines, from, default, maximum).answer is Failed),
        asked_choice(lines, from, default, maximum).answer is Given ==> asked_choice(
            more,
            from,
            default,
            maximum,
        ) == asked_choice(lines, from, default, maximum),
        starts_with(
            asked_choice(more, from, default, maximum).shown,
            asked_choice(lines, from, default, maximum).shown,
        ),
    decreases lines.len() - from,
{
    let few = asked_choice(lines, from, default, maximum).shown;
    let many = asked_choice(more, from, default, maximum).shown;
    if from < lines.len() {
        assert(more.take(lines.len() as int)[from] == more[from]);
        let line = text::trimmed(lines[from]);
        let given = line.len() == 0 || match text::usize_value(line) {
            Some(value) => 1 <= value <= maximum,
            None => false,
        };
        if given {
            assert(many.take(few.len() as int) =~= few);
        } else {
            lemma_choice_with_more(lines, more, from + 1, default, maximum);
            lemma_appended_starts(
                choice_prompt(default) + ("Enter a number from 1 to "@ + text::decimal(maximum)
                    + ".\n"@),
                asked_choice(lines, from + 1, default, maximum).shown,
                asked_choice(more, from + 1, default, maximum).shown,
            );
        }
    } else {
        let prompt = choice_prompt(default);
        assert(few == prompt);
        assert(many.take(prompt.len() as int) =~= prompt);
    }
}

proof fn lemma_input_with_more(lines: Seq<Seq<char>>, more: Seq<Seq<char>>, from: int)
    requires
        starts_with(more, lines),
        0 <= from <= lines.len(),
    ensures
        from <= asked_input(lines, from).next <= lines.len(),
        !(asked_input(lines, from).answer is Waiting) ==> asked_input(more, from) == asked_input(
            lines,
            from,
        ),
        starts_with(asked_input(more, from).shown, asked_input(lines, from).shown),
{
    lemma_choice_with_more(lines, more, from, 2, 4);
    let choice = asked_choice(lines, from, 2, 4);
    let few = asked_input(lines, from).shown;
    let many = asked_input(more, from).shown;
    lemma_appended_starts(input_heading(), choice.shown, asked_choice(more, from, 2, 4).shown);
    if choice.answer is Given {
        if choice.next < lines.len() {
            assert(more.take(lines.len() as int)[choice.next] == more[choice.next]);
        }
        assert(many.take(few.len() as int) =~= few);
    } else {
        let start = input_heading() + asked_choice(more, from, 2, 4).shown;
        assert(many.take(start.len() as int) =~= start);
        lemma_longer_starts(few, start, many);
    }
}

proof fn lemma_model_with_more(
    lines: Seq<Seq<char>>,
    more: Seq<Seq<char>>,
    from: int,
    provider: SummaryProvider,
)
    requires
        starts_with(more, lines),
        0 <= from <= lines.len(),
    ensures
        !(asked_model(lines, from, provider).answer is Failed),
        asked_model(lines, from, provider).answer is Given ==> asked_model(more, from, provider)
            == asked_model(lines, from, provider),
        asked_model(more, from, provider).shown == asked_model(lines, from, provider).shown,
{
    if from < lines.len() {
        assert(more.take(lines.len() as int)[from] == more[from]);
    }
}

proof fn lemma_rest_starts(
    lines: Seq<Seq<char>>,
    from: int,
    shown: Seq<char>,
    provider: SummaryProvider,
    input: SummaryInput,
)
    ensures
        starts_with(wizard_rest(lines, from, shown, provider, input).output, shown),
{
    let output = wizard_rest(lines, from, shown, provider, input).output;
    assert(output.take(shown.len() as int) =~= shown);
}

proof fn lemma_rest_with_more(
    lines: Seq<Seq<char>>,
    more: Seq<Seq<char>>,
    from: int,
    shown: Seq<char>,
    provider: SummaryProvider,
    input: SummaryInput,
)
    requires
        starts_with(more, lines),
        0 <= from <= lines.len(),
    ensures
        !(wizard_rest(lines, from, shown, provider, input).outcome is Waiting) ==> wizard_rest(
            more,
            from,
            shown,
            provider,
            input,
        ) == wizard_rest(lines, from, shown, provider, input),
        starts_with(
            wizard_rest(more, from, shown, provider, input).output,
            wizard_rest(lines, from, shown, provider, input).output,
        ),
{
    let few = wizard_rest(lines, from, shown, provider, input).output;
    let many = wizard_rest(more, from, shown, provider, input).output;
    lemma_choice_with_more(lines, more, from, 1, 3);
    let q3 = asked_choice(lines, from, 1, 3);
    let p3 = asked_choice(more, from, 1, 3);
    let t3 = shown + (on_close_heading() + q3.shown);
    if !(q3.answer is Given) {
        lemma_appended_starts(on_close_heading(), q3.shown, p3.shown);
        lemma_appended_starts(shown, on_close_heading() + q3.shown, on_close_heading() + p3.shown);
        let start = shown + (on_close_heading() + p3.shown);
        assert(many.take(start.len() as int) =~= start);
        lemma_longer_starts(few, start, many);
    } else {
        lemma_choice_with_more(lines, more, q3.next, 1, 4);
        let q4 = asked_choice(lines, q3.next, 1, 4);
        let p4 = asked_choice(more, q3.next, 1, 4);
        let t4 = t3 + (sources_heading() + q4.shown);
        if !(q4.answer is Given) {
            lemma_appended_starts(sources_heading(), q4.shown, p4.shown);
            lemma_appended_starts(t3, sources_heading() + q4.shown, sources_heading() + p4.shown);
            let start = t3 + (sources_heading() + p4.shown);
            assert(many.take(start.len() as int) =~= start);
            lemma_longer_starts(few, start, many);
        } else {
            lemma_choice_with_more(lines, more, q4.next, 1, 3);
            let q5 = asked_choice(lines, q4.next, 1, 3);
            let p5 = asked_choice(more, q4.next, 1, 3);
            if !(q5.answer is Given) {
                lemma_appended_starts(hook_heading(), q5.shown, p5.shown);
                lemma_appended_starts(t4, hook_heading() + q5.shown, hook_heading() + p5.shown);
                let start = t4 + (hook_heading() + p5.shown);
                assert(many.take(start.len() as int) =~= start);
                lemma_longer_starts(few, start, many);
            } else {
                lemma_model_with_more(lines, more, q5.next, provider);
                assert(many.take(few.len() as int) =~= few);
            }
        }
    }
}

/// More input only adds to what the setup shows, and once the setup has come to an end, more input
/// changes nothing.
pub proof fn more_input_only_adds(lines: Seq<Seq<char>>, more: Seq<Seq<char>>)
    requires
        starts_with(more, lines),
    ensures
        starts_with(wizard(more).output, wizard(lines).output),
        !(wizard(lines).outcome is Waiting) ==> wizard(more) == wizard(lines),
{
    let few = wizard(lines).output;
    let many = wizard(more).output;
    lemma_choice_with_more(lines, more, 0, 2, 3);
    let q1 = asked_choice(lines, 0, 2, 3);
    let p1 = asked_choice(more, 0, 2, 3);
    let t1 = provider_heading() + q1.shown;
    if !(q1.answer is Given) {
        lemma_appended_starts(provider_heading(), q1.shown, p1.shown);
        let start = provider_heading() + p1.shown;
        if p1.answer is Given {
            let p2 = asked_input(more, p1.next);
            let t2 = start + p2.shown;
            assert(t2.take(start.len() as int) =~= start);
            if p2.answer is Given {
                let provider = numbered_provider(p1.answer->Given_0);
                lemma_rest_starts(more, p2.next, t2, provider, p2.answer->Given_0);
                lemma_longer_starts(start, t2, many);
            }
        } else {
            assert(many.take(start.len() as int) =~= start);
        }
        lemma_longer_starts(few, start, many);
    } else {
        lemma_input_with_more(lines, more, q1.next);
        let q2 = asked_input(lines, q1.next);
        let p2 = asked_input(more, q1.next);
        let provider = numbered_provider(q1.answer->Given_0);
        if q2.answer is Given {
            lemma_rest_with_more(
                lines,
                more,
                q2.next,
                t1 + q2.shown,
                provider,
                q2.answer->Given_0,
            );
        } else {
            lemma_appended_starts(t1, q2.shown, p2.shown);
            let start = t1 + p2.shown;
            if p2.answer is Given {
                lemma_rest_starts(more, p2.next, start, provider, p2.answer->Given_0);
            } else {
                assert(many.take(start.len() as int) =~= start);
            }
            lemma_longer_starts(few, start, many);
        }
    }
}

/// The setup gives no configuration but a valid one.
pub proof fn setup_gives_valid_configurations(lines: Seq<Seq<char>>)
    ensures
        wizard(lines).outcome matches AnswerView::Given((settings, _)) ==> config::config_fault(
            settings,
        ) is None,
{
}

} // verus!
