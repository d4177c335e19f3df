//! What holds of the configuration, the setup, the hook, the doctor and the terminal.

use vstd::prelude::*;

use crate::commands;
use crate::commands::{OptionsView, SetupNextView, SetupReply, SetupView};
use crate::config;
use crate::config::{ConfigView, OnClose, SourceKind, SummaryInput, SummaryProvider};
use crate::doctor;
use crate::doctor::{CheckLevel, Observations};
use crate::json;
use crate::json::JsonView;
use crate::laws::sessions;
use crate::laws::texts;
use crate::laws::threads;
use crate::paths;
use crate::paths::{AppPaths, PathsView};
use crate::setup;
use crate::setup::{AnswerView, HookChoice};
use crate::sync::ReportView;
use crate::terminal;
use crate::text;

verus! {

/// Whether one of `parts` holds `needle`.
pub open spec fn one_holds(parts: Seq<Seq<char>>, needle: Seq<char>) -> bool {
    exists|i: int| 0 <= i < parts.len() && text::holds(#[trigger] parts[i], needle)
}

/// A configuration is valid just where it has the known version, a visible source, a program for the
/// terminal, both placeholders, a model, and a positive amount of text.
pub proof fn valid_configurations(settings: ConfigView)
    ensures
        config::config_fault(settings) is None <==> {
            &&& settings.version == 1
            &&& settings.sources.len() > 0
            &&& settings.terminal_argv.len() > 0
            &&& texts::says_something(settings.terminal_argv[0])
            &&& one_holds(settings.terminal_argv, "{thread_id}"@)
            &&& one_holds(settings.terminal_argv, "{cwd}"@)
            &&& texts::says_something(settings.openai_model)
            &&& settings.summary_input != SummaryInput::Custom(0)
        },
{
    texts::trimming_keeps_the_core(settings.openai_model);
    if settings.terminal_argv.len() > 0 {
        texts::trimming_keeps_the_core(settings.terminal_argv[0]);
    }
}

/// The name of a choice is read in whatever letter case, and that of an amount of text with white space
/// around it too.
pub proof fn names_are_read_in_any_letter_case(a: Seq<char>, b: Seq<char>)
    ensures
        text::ascii_folded(a) == text::ascii_folded(b) ==> {
            &&& config::provider_named(a) == config::provider_named(b)
            &&& config::on_close_named(a) == config::on_close_named(b)
            &&& config::source_named(a) == config::source_named(b)
            &&& setup::choice_named(a) == setup::choice_named(b)
        },
        text::ascii_folded(text::trimmed(a)) == text::ascii_folded(text::trimmed(b))
            ==> config::input_named(a) == config::input_named(b),
{
}

/// A number is an amount of text of that many characters, with or without the word for it in front,
/// and zero is none. Two of the numbers have a name of their own.
pub proof fn numbers_are_amounts_of_text(n: usize)
    requires
        n != 16384,
        n != 65536,
    ensures
        n > 0 ==> config::input_named(text::decimal(n as nat)) == Some(SummaryInput::Custom(n)),
        n > 0 ==> config::input_named("custom:"@ + text::decimal(n as nat)) == Some(
            SummaryInput::Custom(n),
        ),
        n == 0 ==> config::input_named(text::decimal(n as nat)) is None,
{
    if n > 0 {
        config::input_names_read_back(SummaryInput::Custom(n));
    }
    let name = text::decimal(n as nat);
    text::decimal_reads_back(n as nat);
    assert forall|i: int| 0 <= i < name.len() implies !text::is_white(#[trigger] name[i])
        && text::ascii_lower(name[i]) == name[i] by {}
    assert(text::trimmed(name) == name) by {
        assert(!text::is_white(name[0]) && !text::is_white(name[name.len() - 1]));
        text::lemma_trimmed_is_same(name);
    }
    assert(text::ascii_folded(name) =~= name);
    reveal_strlit("16k");
    reveal_strlit("16384");
    reveal_strlit("64k");
    reveal_strlit("65536");
    reveal_strlit("entire");
    reveal_strlit("all");
    reveal_strlit("unlimited");
    reveal_strlit("custom:");
    assert("16k"@[2] == 'k' && "64k"@[2] == 'k' && "entire"@[0] == 'e' && "all"@[0] == 'a'
        && "unlimited"@[0] == 'u');
    assert(name != "16384"@) by {
        if name == "16384"@ {
            assert("16384"@ =~= seq!['1', '6', '3', '8', '4']);
            lemma_value("16384"@, '1', '6', '3', '8', '4');
        }
    }
    assert(name != "65536"@) by {
        if name == "65536"@ {
            assert("65536"@ =~= seq!['6', '5', '5', '3', '6']);
            lemma_value("65536"@, '6', '5', '5', '3', '6');
        }
    }
    assert(!text::holds_at(name, "custom:"@, 0)) by {
        if text::holds_at(name, "custom:"@, 0) {
            assert(name.subrange(0, 7)[0] == 'c');
        }
    }
}

proof fn lemma_value(value: Seq<char>, a: char, b: char, c: char, d: char, e: char)
    requires
        value == seq![a, b, c, d, e],
        '0' <= a <= '9',
        '0' <= b <= '9',
        '0' <= c <= '9',
        '0' <= d <= '9',
        '0' <= e <= '9',
    ensures
        text::digits_value(value) == (a as u32 - 48) * 10000 + (b as u32 - 48) * 1000 + (c as u32
            - 48) * 100 + (d as u32 - 48) * 10 + (e as u32 - 48),
{
    reveal_with_fuel(text::digits_value, 6);
    assert(value.drop_last() =~= seq![a, b, c, d]);
    assert(value.drop_last().drop_last() =~= seq![a, b, c]);
    assert(value.drop_last().drop_last().drop_last() =~= seq![a, b]);
    assert(value.drop_last().drop_last().drop_last().drop_last() =~= seq![a]);
    assert(value.drop_last().drop_last().drop_last().drop_last().drop_last() =~= Seq::empty());
}

/// Where a source is named twice, the first time counts: what comes before stays before.
pub proof fn first_names_count(a: Seq<SourceKind>, b: Seq<SourceKind>, x: SourceKind)
    ensures
        config::first_occurrences(a) == config::first_occurrences(a + b).take(
            config::first_occurrences(a).len() as int,
        ),
        config::first_occurrences(a).len() <= config::first_occurrences(a + b).len(),
        a.contains(x) ==> config::first_occurrences(a.push(x)) == config::first_occurrences(a),
        !a.contains(x) ==> config::first_occurrences(a.push(x)) == config::first_occurrences(
            a,
        ).push(x),
    decreases b.len(),
{
    config::deduplication_keeps_each_source_once(a);
    assert(a.push(x).drop_last() =~= a);
    assert(config::first_occurrences(a).contains(x) <==> a.contains(x));
    let before = config::first_occurrences(a);
    if b.len() == 0 {
        assert(a + b =~= a);
        assert(before.take(before.len() as int) =~= before);
    } else {
        let rest = b.drop_last();
        first_names_count(a, rest, x);
        assert((a + b).drop_last() =~= a + rest);
        let middle = config::first_occurrences(a + rest);
        let after = config::first_occurrences(a + b);
        assert(after.take(before.len() as int) =~= middle.take(before.len() as int));
    }
}

/// What is given with the command goes before what is configured, one by one, and the rest of the
/// configuration stays.
pub proof fn options_go_before_the_configuration(settings: ConfigView, options: OptionsView)
    ensures
        ({
            let after = commands::overridden(settings, options);
            &&& options.provider matches Some(given) ==> after.summary_provider == given
            &&& options.provider is None ==> after.summary_provider == settings.summary_provider
            &&& options.summary_input matches Some(given) ==> after.summary_input == given
            &&& options.summary_input is None ==> after.summary_input == settings.summary_input
            &&& options.on_close matches Some(given) ==> after.on_close == given
            &&& options.on_close is None ==> after.on_close == settings.on_close
            &&& options.sources.len() == 0 ==> after.sources == settings.sources
            &&& options.sources.len() > 0 ==> forall|x: SourceKind| #[trigger]
                after.sources.contains(x) <==> options.sources.contains(x)
            &&& after.version == settings.version
            &&& after.terminal_argv == settings.terminal_argv
            &&& after.openai_model == settings.openai_model
        }),
{
    config::deduplication_keeps_each_source_once(options.sources);
    let kept = config::first_occurrences(options.sources);
    assert forall|x: SourceKind| #[trigger] kept.contains(x) <==> options.sources.contains(x) by {
        assert(kept.contains(x) <==> options.sources.contains(x));
    }
}

/// Whether `line` chooses `n` of `maximum`, where `default` is chosen by a blank line.
pub open spec fn chooses(line: Seq<char>, default: nat, maximum: nat, n: nat) -> bool {
    ||| !texts::says_something(line) && n == default
    ||| texts::says_something(line) && text::usize_value(text::trimmed(line)) == Some(n as usize)
        && 1 <= n <= maximum && n <= usize::MAX
}

proof fn lemma_chosen(
    lines: Seq<Seq<char>>,
    from: int,
    default: nat,
    maximum: nat,
    n: nat,
)
    requires
        0 <= from < lines.len(),
        chooses(lines[from], default, maximum, n),
    ensures
        setup::asked_choice(lines, from, default, maximum).answer == AnswerView::Given(n),
        setup::asked_choice(lines, from, default, maximum).next == from + 1,
{
    texts::trimming_keeps_the_core(lines[from]);
}

/// A line that is neither blank nor one of the numbers that can be chosen is passed over, and the
/// question is asked again.
pub proof fn wrong_choices_are_asked_again(
    lines: Seq<Seq<char>>,
    from: int,
    default: nat,
    maximum: nat,
)
    requires
        0 <= from < lines.len(),
        texts::says_something(lines[from]),
        text::usize_value(text::trimmed(lines[from])) matches Some(n) ==> n == 0 || n > maximum,
    ensures
        setup::asked_choice(lines, from, default, maximum).answer == setup::asked_choice(
            lines,
            from + 1,
            default,
            maximum,
        ).answer,
        setup::asked_choice(lines, from, default, maximum).next == setup::asked_choice(
            lines,
            from + 1,
            default,
            maximum,
        ).next,
{
    texts::trimming_keeps_the_core(lines[from]);
}

/// What the numbers of the setup stand for.
pub open spec fn stands_for(
    n1: nat,
    n3: nat,
    n4: nat,
    settings: ConfigView,
) -> bool {
    &&& n1 == 1 ==> settings.summary_provider == SummaryProvider::Local
    &&& n1 == 2 ==> settings.summary_provider == SummaryProvider::Codex
    &&& n1 == 3 ==> settings.summary_provider == SummaryProvider::Openai
    &&& n3 == 1 ==> settings.on_close == OnClose::Automatic
    &&& n3 == 2 ==> settings.on_close == OnClose::LocalFirst
    &&& n3 == 3 ==> settings.on_close == OnClose::Manual
    &&& n4 == 1 ==> settings.sources == seq![SourceKind::Cli, SourceKind::Vscode]
    &&& n4 == 2 ==> settings.sources == seq![SourceKind::Cli]
    &&& n4 == 3 ==> settings.sources == seq![SourceKind::Vscode]
    &&& n4 == 4 ==> settings.sources == seq![SourceKind::Cli, SourceKind::Vscode, SourceKind::Exec]
}

/// What the number for the hook stands for.
pub open spec fn stands_for_hook(n5: nat, choice: HookChoice) -> bool {
    &&& n5 == 1 ==> choice == HookChoice::Automatic
    &&& n5 == 2 ==> choice == HookChoice::Manual
    &&& n5 == 3 ==> choice == HookChoice::Skip
}

proof fn lemma_answered_is_valid(
    provider: SummaryProvider,
    input: SummaryInput,
    on_close: OnClose,
    sources: Seq<SourceKind>,
    model: Seq<char>,
)
    requires
        input != SummaryInput::Custom(0),
        sources.len() > 0,
        texts::says_something(model),
    ensures
        config::config_fault(
            setup::answered_config(provider, input, on_close, sources, model),
        ) is None,
{
    config::default_config_is_valid();
    valid_configurations(config::default_config());
    valid_configurations(setup::answered_config(provider, input, on_close, sources, model));
}

/// The setup takes every answer in its turn, a blank line being the usual answer: the provider, the
/// amount of text, what happens at the end of a session, the sources, and what becomes of the hook.
pub proof fn the_setup_takes_the_answers_in_turn(
    lines: Seq<Seq<char>>,
    n1: nat,
    n2: nat,
    n3: nat,
    n4: nat,
    n5: nat,
)
    requires
        lines.len() >= 5,
        chooses(lines[0], 2, 3, n1),
        chooses(lines[1], 2, 4, n2),
        chooses(lines[2], 1, 3, n3),
        chooses(lines[3], 1, 4, n4),
        chooses(lines[4], 1, 3, n5),
        n1 != 3,
        n2 != 4,
    ensures
        setup::wizard(lines).outcome matches AnswerView::Given((settings, choice)) && stands_for(
            n1,
            n3,
            n4,
            settings,
        ) && stands_for_hook(n5, choice) && (n2 == 1 ==> settings.summary_input
            == SummaryInput::SixteenK) && (n2 == 2 ==> settings.summary_input
            == SummaryInput::SixtyFourK) && (n2 == 3 ==> settings.summary_input
            == SummaryInput::Entire) && settings.openai_model == "gpt-5-mini"@
            && settings.terminal_argv == config::default_config().terminal_argv,
{
    lemma_chosen(lines, 0, 2, 3, n1);
    lemma_chosen(lines, 1, 2, 4, n2);
    lemma_chosen(lines, 2, 1, 3, n3);
    lemma_chosen(lines, 3, 1, 4, n4);
    lemma_chosen(lines, 4, 1, 3, n5);
    reveal_strlit("gpt-5-mini");
    let model = "gpt-5-mini"@;
    assert(model[0] == 'g' && !text::is_white(model[0]));
    let input = if n2 == 1 {
        SummaryInput::SixteenK
    } else if n2 == 2 {
        SummaryInput::SixtyFourK
    } else {
        SummaryInput::Entire
    };
    lemma_answered_is_valid(
        setup::numbered_provider(n1),
        input,
        setup::numbered_on_close(n3),
        setup::numbered_sources(n4),
        model,
    );
}

/// A custom amount of text and the model for the OpenAI API are asked for where they are needed, the
/// one behind the choice of the amount and the other at the end, and are taken as they are entered.
pub proof fn the_setup_asks_for_what_it_needs(
    lines: Seq<Seq<char>>,
    limit: usize,
    n3: nat,
    n4: nat,
    n5: nat,
)
    requires
        lines.len() >= 7,
        chooses(lines[0], 2, 3, 3),
        chooses(lines[1], 2, 4, 4),
        text::usize_value(text::trimmed(lines[2])) == Some(limit),
        limit > 0,
        chooses(lines[3], 1, 3, n3),
        chooses(lines[4], 1, 4, n4),
        chooses(lines[5], 1, 3, n5),
    ensures
        setup::wizard(lines).outcome matches AnswerView::Given((settings, choice)) && stands_for(
            3,
            n3,
            n4,
            settings,
        ) && stands_for_hook(n5, choice) && settings.summary_input == SummaryInput::Custom(limit)
            && settings.openai_model == (if texts::says_something(lines[6]) {
            text::trimmed(lines[6])
        } else {
            "gpt-5-mini"@
        }),
{
    lemma_chosen(lines, 0, 2, 3, 3);
    lemma_chosen(lines, 1, 2, 4, 4);
    lemma_chosen(lines, 3, 1, 3, n3);
    lemma_chosen(lines, 4, 1, 4, n4);
    lemma_chosen(lines, 5, 1, 3, n5);
    reveal_strlit("gpt-5-mini");
    let usual = "gpt-5-mini"@;
    assert(usual[0] == 'g' && !text::is_white(usual[0]));
    texts::trimming_keeps_the_core(lines[6]);
    let model = if texts::says_something(lines[6]) {
        text::trimmed(lines[6])
    } else {
        usual
    };
    assert(texts::says_something(model)) by {
        if texts::says_something(lines[6]) {
            let (a, b) = choose|a: int, b: int| texts::is_core(lines[6], model, a, b);
            assert(model[0] == lines[6][a]);
        }
    }
    lemma_answered_is_valid(
        SummaryProvider::Openai,
        SummaryInput::Custom(limit),
        setup::numbered_on_close(n3),
        setup::numbered_sources(n4),
        model,
    );
}

/// The setup goes on in its order. Once the configuration is saved, the hook is installed where that
/// was chosen; then the sessions are imported, unless they are not to be.
pub proof fn the_setup_goes_on_in_order(run: SetupView, outcome: setup::HookMergeOutcome)
    ensures
        run.hook == HookChoice::Automatic ==> commands::setup_next(run, SetupReply::Saved)
            is InstallHook,
        run.hook != HookChoice::Automatic && !run.options.no_import ==> commands::setup_next(
            run,
            SetupReply::Saved,
        ) is Import,
        run.hook != HookChoice::Automatic && run.options.no_import ==> commands::setup_next(
            run,
            SetupReply::Saved,
        ) is Done,
        !run.options.no_import ==> commands::setup_next(run, SetupReply::HookMerged { outcome })
            is Import,
        run.options.no_import ==> commands::setup_next(run, SetupReply::HookMerged { outcome })
            is Done,
{
}

/// After the import all threads are summarized where that was asked for, with what is configured, once
/// it is confirmed. Without being asked for it, an outside provider is offered where there are threads
/// and someone is there to answer.
pub proof fn the_setup_offers_summaries(
    run: SetupView,
    report: crate::sync::SyncReport,
    yes: bool,
)
    ensures
        ({
            let next = commands::setup_next(run, SetupReply::Imported { report });
            let outside = run.config.summary_provider != SummaryProvider::Local;
            let some = report@.imported + report@.updated > 0;
            &&& next matches SetupNextView::SummarizeAll { provider, cap, .. } ==> provider
                == run.config.summary_provider && cap == run.config.summary_input
            &&& next is SummarizeAll <==> run.options.summarize_all && run.options.yes
            &&& next is Confirm <==> (run.options.summarize_all && !run.options.yes)
                || (!run.options.summarize_all && !run.options.defaults && outside && some)
            &&& next matches SetupNextView::Confirm { provider, .. } ==> provider
                == run.config.summary_provider
            &&& !(next is SummarizeAll) && !(next is Confirm) ==> next is Done
        }),
        commands::setup_next(run, SetupReply::Confirmed { yes: true })
            matches SetupNextView::SummarizeAll { provider, cap, .. } && provider
            == run.config.summary_provider && cap == run.config.summary_input,
        commands::setup_next(run, SetupReply::Confirmed { yes: false }) is Done,
        commands::setup_next(run, SetupReply::Summarized { report }) is Done,
{
}

/// A report names its numbers in their order: what was imported, updated and summarized, and how many
/// errors there were.
pub proof fn reports_name_their_numbers(label: Seq<char>, report: ReportView)
    ensures
        commands::report_text(label, report) == label + ": "@ + text::decimal(
            report.imported as nat,
        ) + " imported, "@ + text::decimal(report.updated as nat) + " updated, "@ + text::decimal(
            report.summarized as nat,
        ) + " summarized, "@ + text::decimal(report.errors.len()) + " error(s)\n"@,
{
}

/// A yes is a yes in whatever letter case and with white space around it, and nothing else is.
pub proof fn only_yes_is_yes(line: Seq<char>, core: Seq<char>, from: int, to: int)
    requires
        texts::is_core(line, core, from, to),
    ensures
        commands::says_yes(line) <==> text::ascii_folded(core) == seq!['y'] || text::ascii_folded(
            core,
        ) == seq!['y', 'e', 's'],
{
    reveal_strlit("y");
    reveal_strlit("yes");
    assert("y"@ =~= seq!['y']);
    assert("yes"@ =~= seq!['y', 'e', 's']);
    texts::the_core_is_the_trimmed_text(line, core, from, to);
}

/// The hook that is added runs the tracker on the end of a session, quoted for a shell, within a few
/// seconds.
pub proof fn the_hook_runs_the_tracker(executable: Seq<char>)
    ensures
        ({
            let command = setup::command_of(executable);
            let group = setup::hook_group(command);
            exists|handler: JsonView| #[trigger]
                threads::holds_field(group, "hooks"@, JsonView::Array(seq![handler])) && {
                    &&& threads::holds_field(group, "matcher"@, JsonView::Text("^other$"@))
                    &&& threads::holds_field(handler, "type"@, JsonView::Text("command"@))
                    &&& threads::holds_field(handler, "command"@, JsonView::Text(command))
                    &&& threads::holds_field(
                        handler,
                        "timeout"@,
                        JsonView::Number(json::whole_number(3)),
                    )
                }
        }),
        setup::command_of(executable) == setup::shell_quoted(executable) + " hook"@,
{
    reveal_strlit("matcher");
    reveal_strlit("hooks");
    reveal_strlit("type");
    reveal_strlit("command");
    reveal_strlit("timeout");
    reveal_strlit("statusMessage");
    assert("matcher"@.len() == 7 && "hooks"@.len() == 5 && "type"@.len() == 4 && "command"@[0]
        == 'c' && "timeout"@[0] == 't' && "command"@.len() == 7 && "timeout"@.len() == 7
        && "statusMessage"@.len() == 13);
    let command = setup::command_of(executable);
    let handler = setup::hook_handler(command);
    assert(threads::holds_field(
        setup::hook_group(command),
        "hooks"@,
        JsonView::Array(seq![handler]),
    ));
}

/// A hook file that is merged has the groups that were there, in their order, and behind them one for
/// the tracker, unless a handler for it is already there: then it stays as it is.
pub proof fn merging_adds_one_group(
    root: JsonView,
    command: Seq<char>,
    events: JsonView,
    groups: Seq<JsonView>,
)
    requires
        threads::holds_field(root, "hooks"@, events),
        threads::holds_field(events, "SessionEnd"@, JsonView::Array(groups)),
    ensures
        (exists|i: int, j: int, handlers: Seq<JsonView>|
            #![trigger threads::holds_field(groups[i], "hooks"@, JsonView::Array(handlers)), handlers[j]]
            0 <= i < groups.len() && threads::holds_field(
                groups[i],
                "hooks"@,
                JsonView::Array(handlers),
            ) && 0 <= j < handlers.len() && threads::holds_field(
                handlers[j],
                "type"@,
                JsonView::Text("command"@),
            ) && threads::holds_field(handlers[j], "command"@, JsonView::Text(command)))
            ==> setup::merged(root, command) == Ok::<(JsonView, bool), Seq<char>>((root, false)),
        setup::merged(root, command) matches Ok((after, changed)) && (changed
            ==> exists|later: JsonView| #[trigger]
            threads::holds_field(after, "hooks"@, later) && threads::holds_field(
                later,
                "SessionEnd"@,
                JsonView::Array(groups.push(setup::hook_group(command))),
            )) && (!changed ==> after == root),
{
    if exists|i: int, j: int, handlers: Seq<JsonView>|
        #![trigger threads::holds_field(groups[i], "hooks"@, JsonView::Array(handlers)), handlers[j]]
        0 <= i < groups.len() && threads::holds_field(
            groups[i],
            "hooks"@,
            JsonView::Array(handlers),
        ) && 0 <= j < handlers.len() && threads::holds_field(
            handlers[j],
            "type"@,
            JsonView::Text("command"@),
        ) && threads::holds_field(handlers[j], "command"@, JsonView::Text(command)) {
        let (i, j, handlers) = choose|i: int, j: int, handlers: Seq<JsonView>|
            #![trigger threads::holds_field(groups[i], "hooks"@, JsonView::Array(handlers)), handlers[j]]
            0 <= i < groups.len() && threads::holds_field(
                groups[i],
                "hooks"@,
                JsonView::Array(handlers),
            ) && 0 <= j < handlers.len() && threads::holds_field(
                handlers[j],
                "type"@,
                JsonView::Text("command"@),
            ) && threads::holds_field(handlers[j], "command"@, JsonView::Text(command));
        assert(setup::handlers_of(groups[i]) == handlers);
        assert(setup::runs_command(setup::handlers_of(groups[i])[j], command));
        assert(setup::group_runs(groups[i], command));
        assert(setup::some_group_runs(groups, command));
    }
    let after = setup::with_end_groups(root, groups.push(setup::hook_group(command)));
    let later = after->Object_0["hooks"@];
    assert(threads::holds_field(after, "hooks"@, later));
}

/// The hook is there just where merging it would change nothing.
pub proof fn installed_hooks_need_no_merging(
    source: Option<Seq<char>>,
    path: Seq<char>,
    executable: Seq<char>,
    root: JsonView,
)
    requires
        source matches Some(text) ==> json::json_parsed(text) == Ok::<JsonView, serde_json::Error>(
            root,
        ),
        source is None ==> root == JsonView::Object(Map::empty()),
        setup::merged(root, setup::command_of(executable)) is Ok,
    ensures
        setup::installed(source, path, executable) == Ok::<bool, Seq<char>>(
            !setup::merged(root, setup::command_of(executable))->Ok_0.1,
        ),
        setup::merged_text(source, path, executable) is Ok,
        setup::merged_text(source, path, executable)->Ok_0 is None <==> setup::installed(
            source,
            path,
            executable,
        ) == Ok::<bool, Seq<char>>(true),
{
}

/// The directories of the tracker are under those that are named for it, and else at their usual places
/// under the home of the user.
pub proof fn directories_are_where_they_are_named(
    home: Seq<char>,
    data: Option<Seq<char>>,
    settings: Option<Seq<char>>,
    state: Option<Seq<char>>,
)
    requires
        home.len() > 0,
        home.last() != '/',
    ensures
        paths::discovered(Some(home), data, settings, state) matches Ok(files) && {
            &&& under_root(data, home + "/.local/share"@, files.data_dir)
            &&& under_root(settings, home + "/.config"@, files.config_dir)
            &&& under_root(state, home + "/.local/state"@, files.state_dir)
        },
        paths::discovered(None, data, settings, state) is Err,
{
    reveal_strlit("/.local/share");
    reveal_strlit(".local/share");
    reveal_strlit("/.config");
    reveal_strlit(".config");
    reveal_strlit("/.local/state");
    reveal_strlit(".local/state");
    reveal_strlit("codex-resume-tracker");
    reveal_strlit("/codex-resume-tracker");
    assert(home.push('/') + ".local/share"@ =~= home + "/.local/share"@);
    assert(home.push('/') + ".config"@ =~= home + "/.config"@);
    assert(home.push('/') + ".local/state"@ =~= home + "/.local/state"@);
    lemma_under(home + "/.local/share"@);
    lemma_under(home + "/.config"@);
    lemma_under(home + "/.local/state"@);
    match data {
        Some(root) => lemma_under(root),
        None => {},
    }
    match settings {
        Some(root) => lemma_under(root),
        None => {},
    }
    match state {
        Some(root) => lemma_under(root),
        None => {},
    }
}

/// Whether `found` is the tracker's directory under the root that is named, or under the usual one.
pub open spec fn under_root(named: Option<Seq<char>>, usual: Seq<char>, found: Seq<char>) -> bool {
    let root = match named {
        Some(root) => root,
        None => usual,
    };
    root.len() > 0 && root.last() != '/' ==> found == root + "/codex-resume-tracker"@
}

proof fn lemma_under(root: Seq<char>)
    ensures
        root.len() > 0 && root.last() != '/' ==> paths::path_under(
            root,
            crate::APP_NAME@,
        ) == root + "/codex-resume-tracker"@,
{
    reveal_strlit("codex-resume-tracker");
    reveal_strlit("/codex-resume-tracker");
    if root.len() > 0 && root.last() != '/' {
        assert(root.push('/') + "codex-resume-tracker"@ =~= root + "/codex-resume-tracker"@);
    }
}

/// The files of the tracker are each in the directory for its kind.
pub proof fn files_are_in_their_directories(
    files: &AppPaths,
    database: String,
    settings: String,
    log: String,
)
    requires
        call_ensures(AppPaths::database, (files,), database),
        call_ensures(AppPaths::config, (files,), settings),
        call_ensures(AppPaths::worker_log, (files,), log),
        files@.data_dir.len() > 0 && files@.data_dir.last() != '/',
        files@.config_dir.len() > 0 && files@.config_dir.last() != '/',
        files@.state_dir.len() > 0 && files@.state_dir.last() != '/',
    ensures
        database@ == files@.data_dir + "/tracker.sqlite3"@,
        settings@ == files@.config_dir + "/config.toml"@,
        log@ == files@.state_dir + "/worker.log"@,
{
    reveal_strlit("tracker.sqlite3");
    reveal_strlit("/tracker.sqlite3");
    reveal_strlit("config.toml");
    reveal_strlit("/config.toml");
    reveal_strlit("worker.log");
    reveal_strlit("/worker.log");
    assert(files@.data_dir.push('/') + "tracker.sqlite3"@ =~= files@.data_dir
        + "/tracker.sqlite3"@);
    assert(files@.config_dir.push('/') + "config.toml"@ =~= files@.config_dir + "/config.toml"@);
    assert(files@.state_dir.push('/') + "worker.log"@ =~= files@.state_dir + "/worker.log"@);
}

/// The hooks file is in the directory that is named for Codex, and else in the usual one under the home
/// of the user.
pub proof fn the_hooks_file_is_that_of_codex(named: Seq<char>, home: Seq<char>)
    requires
        named.len() > 0,
        named.last() != '/',
        home.len() > 0,
        home.last() != '/',
    ensures
        setup::hooks_file(Some(named), Some(home)) == Ok::<Seq<char>, Seq<char>>(
            named + "/hooks.json"@,
        ),
        setup::hooks_file(None, Some(home)) == Ok::<Seq<char>, Seq<char>>(
            home + "/.codex/hooks.json"@,
        ),
        setup::hooks_file(None, None) is Err,
{
    reveal_strlit("hooks.json");
    reveal_strlit("/hooks.json");
    reveal_strlit(".codex");
    reveal_strlit("/.codex/hooks.json");
    assert(named.push('/') + "hooks.json"@ =~= named + "/hooks.json"@);
    let directory = home.push('/') + ".codex"@;
    assert(directory.last() == 'x');
    assert(directory.push('/') + "hooks.json"@ =~= home + "/.codex/hooks.json"@);
}

/// The doctor finds no fault just where there is none: the configuration loads, Codex is new enough,
/// the App Server answers, the database is whole, the terminal and `setsid` are there, the hooks file
/// can be read, and the provider can be used.
pub proof fn the_doctor_finds_every_fault(files: PathsView, seen: Observations)
    ensures
        doctor::some_failed(doctor::findings(files, seen)) <==> !({
            &&& seen.config is Ok
            &&& doctor::codex_check(seen.codex).level != CheckLevel::Fail
            &&& seen.app_server is Ok
            &&& seen.integrity is Ok && seen.integrity->Ok_0@ == "ok"@
            &&& seen.terminal is Some
            &&& seen.setsid is Some
            &&& seen.hooks_path is Ok
            &&& seen.hook is Ok
            &&& seen.config matches Ok(settings) && match settings@.summary_provider {
                SummaryProvider::Local => true,
                SummaryProvider::Openai => seen.api_key is Some && texts::says_something(
                    seen.api_key->Some_0@,
                ),
                SummaryProvider::Codex => seen.login matches Ok(output) && output.success,
            }
        }),
{
    let all = doctor::findings(files, seen);
    assert(all[0] == doctor::config_check(files, seen.config));
    assert(all[1] == doctor::codex_check(seen.codex));
    assert(all[2] == doctor::server_check(seen.app_server));
    assert(all[3] == doctor::database_check(files, seen.integrity));
    match seen.api_key {
        Some(key) => texts::trimming_keeps_the_core(key@),
        None => {},
    }
    match seen.config {
        Ok(settings) => {
            assert(all.len() == 8);
            assert(all[4] == doctor::terminal_check(settings@, seen.terminal.deep_view()));
            assert(all[5] == doctor::detach_check(seen.setsid.deep_view()));
            assert(all[6] == doctor::hook_check(seen.hooks_path, seen.hook));
            assert(all[7] == doctor::provider_check(
                settings@.summary_provider,
                seen.api_key.deep_view(),
                seen.login,
            ));
        },
        Err(_) => {
            assert(all[0].level == CheckLevel::Fail);
        },
    }
}

/// A version of Codex that cannot be told is a fault, with what went wrong.
pub proof fn unknown_versions_are_faults(seen: Result<doctor::ProgramOutput, String>)
    ensures
        seen matches Err(error) ==> doctor::codex_check(seen).level == CheckLevel::Fail
            && doctor::codex_check(seen).detail == error@,
        seen matches Ok(output) ==> (!output.success ==> doctor::codex_check(seen).level
            == CheckLevel::Fail),
{
}

/// A program is looked for in the directories of the path, in their order, and one that names a
/// directory itself is taken as it is.
pub proof fn programs_are_looked_for_in_order(program: Seq<char>, a: Seq<char>, b: Seq<char>)
    requires
        !text::holds(program, "/"@),
    ensures
        terminal::program_files(program, Some(a + seq![':'] + b)) == terminal::program_files(
            program,
            Some(a),
        ) + terminal::program_files(program, Some(b)),
        (forall|i: int| 0 <= i < a.len() ==> #[trigger] a[i] != ':') && a.len() > 0 && a.last()
            != '/' ==> terminal::program_files(program, Some(a)) == seq![a + seq!['/'] + program],
        terminal::program_files(program, None).len() == 0,
{
    reveal_strlit("/");
    texts::pieces_are_between_separators(a, ':', b);
    let x = terminal::program_files(program, Some(a));
    let y = terminal::program_files(program, Some(b));
    assert(terminal::program_files(program, Some(a + seq![':'] + b)) =~= x + y);
    if (forall|i: int| 0 <= i < a.len() ==> #[trigger] a[i] != ':') && a.len() > 0 && a.last()
        != '/' {
        if program.len() > 0 && program[0] == '/' {
            assert(program.subrange(0, 1) =~= "/"@);
            assert(text::holds_at(program, "/"@, 0));
        }
        assert(a.push('/') + program =~= a + seq!['/'] + program);
        assert(x =~= seq![a + seq!['/'] + program]);
    }
}

/// A program that names a directory is looked for there alone.
pub proof fn named_programs_are_taken_as_they_are(program: Seq<char>, path: Option<Seq<char>>)
    requires
        text::holds(program, "/"@),
    ensures
        terminal::program_files(program, path) == seq![program],
{
}

/// A placeholder in an argument is exchanged for its value, and what stands before and after it is
/// exchanged likewise.
pub proof fn placeholders_are_exchanged(
    before: Seq<char>,
    after: Seq<char>,
    cwd: Seq<char>,
    thread_id: Seq<char>,
)
    requires
        forall|i: int| 0 <= i < before.len() ==> #[trigger] before[i] != '{',
    ensures
        terminal::rendered_arg(before + "{cwd}"@ + after, cwd, thread_id) == before + cwd
            + terminal::rendered_arg(after, cwd, thread_id),
        terminal::rendered_arg(before + "{thread_id}"@ + after, cwd, thread_id) == before
            + thread_id + terminal::rendered_arg(after, cwd, thread_id),
        terminal::rendered_arg(before, cwd, thread_id) == before,
    decreases before.len(),
{
    reveal_strlit("{cwd}");
    reveal_strlit("{thread_id}");
    let c = "{cwd}"@;
    let t = "{thread_id}"@;
    let x = before + c + after;
    let y = before + t + after;
    if before.len() == 0 {
        assert(x.subrange(0, 5) =~= c);
        assert(text::holds_at(x, c, 0));
        assert(x.skip(5) =~= after);
        assert(y.subrange(0, 11) =~= t);
        assert(text::holds_at(y, t, 0));
        assert(!text::holds_at(y, c, 0)) by {
            if text::holds_at(y, c, 0) {
                assert(y.subrange(0, 5)[1] == c[1]);
                assert(y[1] == t[1]);
            }
        }
        assert(y.skip(11) =~= after);
        assert(cwd + terminal::rendered_arg(after, cwd, thread_id) =~= before + cwd
            + terminal::rendered_arg(after, cwd, thread_id));
        assert(thread_id + terminal::rendered_arg(after, cwd, thread_id) =~= before + thread_id
            + terminal::rendered_arg(after, cwd, thread_id));
    } else {
        let rest = before.drop_first();
        assert forall|i: int| 0 <= i < rest.len() implies #[trigger] rest[i] != '{' by {
            assert(rest[i] == before[i + 1]);
        }
        placeholders_are_exchanged(rest, after, cwd, thread_id);
        assert(before[0] != '{');
        lemma_not_here(x, c);
        lemma_not_here(x, t);
        lemma_not_here(y, c);
        lemma_not_here(y, t);
        lemma_not_here(before, c);
        lemma_not_here(before, t);
        assert(x.skip(1) =~= rest + c + after);
        assert(y.skip(1) =~= rest + t + after);
        assert(before.skip(1) =~= rest);
        assert(terminal::rendered_arg(x, cwd, thread_id) =~= before + cwd + terminal::rendered_arg(
            after,
            cwd,
            thread_id,
        ));
        assert(terminal::rendered_arg(y, cwd, thread_id) =~= before + thread_id
            + terminal::rendered_arg(after, cwd, thread_id));
        assert(terminal::rendered_arg(before, cwd, thread_id) =~= before);
    }
}

proof fn lemma_not_here(value: Seq<char>, mark: Seq<char>)
    requires
        value.len() > 0,
        value[0] != '{',
        mark.len() > 0,
        mark[0] == '{',
    ensures
        !text::holds_at(value, mark, 0),
{
    if text::holds_at(value, mark, 0) {
        assert(value.subrange(0, mark.len() as int)[0] == mark[0]);
    }
}

/// A version of three numbers is new enough where it is 0.144.1 or later, number by number.
pub proof fn plain_versions_are_compared(a: u64, b: u64, c: u64)
    ensures
        doctor::numbers_suffice((a, b, c)) <==> !(a == 0 && (b < 144 || b == 144 && c < 1)),
        doctor::plain_check((a, b, c)).level == CheckLevel::Pass || doctor::plain_check(
            (a, b, c),
        ).level == CheckLevel::Fail,
        doctor::plain_check((a, b, c)).level == CheckLevel::Pass <==> doctor::numbers_suffice(
            (a, b, c),
        ),
{
}

/// The version of Codex is the first word that is one, without letters `v` in front of it.
pub proof fn the_first_version_counts(a: Seq<Seq<char>>, word: Seq<char>, b: Seq<Seq<char>>)
    requires
        forall|i: int| 0 <= i < a.len() ==> doctor::version_parsed(
            doctor::without_v(#[trigger] a[i]),
        ) is None,
    ensures
        doctor::version_parsed(doctor::without_v(word)) is Some ==> doctor::first_version(
            a + seq![word] + b,
        ) == doctor::version_parsed(doctor::without_v(word)),
        doctor::version_parsed(doctor::without_v(word)) is None ==> doctor::first_version(
            a + seq![word] + b,
        ) == doctor::first_version(b),
        doctor::without_v(seq!['v'] + word) == doctor::without_v(word),
        word.len() > 0 && word[0] != 'v' ==> doctor::without_v(word) == word,
    decreases a.len(),
{
    let all = a + seq![word] + b;
    assert((seq!['v'] + word).drop_first() =~= word);
    if a.len() > 0 {
        let rest = a.drop_first();
        assert forall|i: int| 0 <= i < rest.len() implies doctor::version_parsed(
            doctor::without_v(#[trigger] rest[i]),
        ) is None by {
            assert(rest[i] == a[i + 1]);
        }
        the_first_version_counts(rest, word, b);
        assert(all[0] == a[0]);
        assert(doctor::version_parsed(doctor::without_v(a[0])) is None);
        assert(all.drop_first() =~= rest + seq![word] + b);
    } else {
        assert(all[0] == word);
        assert(all.drop_first() =~= b);
    }
}

/// A hook that is there is in order, and one that is not there is no fault but is told.
pub proof fn hooks_are_told(path: String, installed: bool)
    ensures
        ({
            let found = doctor::hook_check(Ok(path), Ok(installed));
            &&& installed ==> found.level == CheckLevel::Pass
            &&& !installed ==> found.level == CheckLevel::Warn
        }),
{
}

/// What became of the hook file is told with its name, and so is that it was left alone.
pub proof fn hook_files_are_told(outcome: setup::HookMergeOutcome)
    ensures
        outcome.changed ==> commands::merged_message(outcome) == "Merged hook into"@ + " "@
            + outcome.path@ + "\n"@,
        !outcome.changed ==> commands::merged_message(outcome) == "Hook already present in"@ + " "@
            + outcome.path@ + "\n"@,
{
}

/// What was saved is told: where, and with which provider, amount of text, behaviour and sources.
pub proof fn saved_configurations_are_told(
    settings: ConfigView,
    path: Seq<char>,
    provider: Seq<char>,
    cap: Seq<char>,
)
    requires
        sessions::names_provider(settings.summary_provider, provider),
        sessions::names_cap(settings.summary_input, cap),
    ensures
        commands::saved_text(settings, path) == "\nSaved "@ + path + "\nProvider="@ + provider
            + " input="@ + cap + " on-close="@ + (match settings.on_close {
            OnClose::Automatic => "automatic"@,
            OnClose::LocalFirst => "local_first"@,
            OnClose::Manual => "manual"@,
        }) + " sources="@ + commands::source_list(settings.sources) + "\n"@,
        settings.sources.len() == 1 ==> commands::source_list(settings.sources) == (
        match settings.sources[0] {
            SourceKind::Cli => "cli"@,
            SourceKind::Vscode => "vscode"@,
            SourceKind::Exec => "exec"@,
        }),
        commands::warning_of(settings.summary_provider)
            == "\nWARNING: summarize --all selected provider="@ + provider + ".\n"@
            + commands::usage_of(settings.summary_provider)
            + "\nContinue for all matching threads? [y/N]: "@,
        commands::summarized_text(path, settings.summary_provider, settings.summary_input)
            == "Summarized "@ + path + " with provider="@ + provider + " input="@ + cap,
{
    let one = Seq::new(
        settings.sources.len(),
        |i: int| config::source_name(settings.sources[i]),
    );
    if settings.sources.len() == 1 {
        assert(one =~= seq![config::source_name(settings.sources[0])]);
    }
}

/// A finding is told with its level, its name and its detail, the name padded so that details stand
/// below each other.
pub proof fn findings_are_told(check: doctor::CheckView)
    requires
        check.name.len() <= 16,
    ensures
        exists|blanks: Seq<char>| #[trigger]
            only_blanks(blanks) && blanks.len() == 16 - check.name.len() && commands::check_text(
                check,
            ) == "["@ + (match check.level {
                CheckLevel::Pass => "PASS"@,
                CheckLevel::Warn => "WARN"@,
                CheckLevel::Fail => "FAIL"@,
            }) + "] "@ + check.name + blanks + " "@ + check.detail,
{
    reveal_strlit("PASS");
    reveal_strlit("WARN");
    reveal_strlit("FAIL");
    let blanks = Seq::new((16 - check.name.len()) as nat, |i: int| ' ');
    lemma_padded(check.name, 16);
    assert(only_blanks(blanks));
    assert(commands::padded(check.name, 16) == check.name + blanks);
    let level = doctor::level_name(check.level);
    assert(level.len() == 4);
    assert(commands::padded(level, 4) == level);
    assert(commands::check_text(check) =~= "["@ + level + "] "@ + check.name + blanks + " "@
        + check.detail);
}

/// Whether a text is made of blanks.
pub open spec fn only_blanks(value: Seq<char>) -> bool {
    forall|i: int| 0 <= i < value.len() ==> #[trigger] value[i] == ' '
}

proof fn lemma_padded(value: Seq<char>, width: nat)
    requires
        value.len() <= width,
    ensures
        commands::padded(value, width) == value + Seq::new(
            (width - value.len()) as nat,
            |i: int| ' ',
        ),
    decreases width - value.len(),
{
    if value.len() < width {
        lemma_padded(value.push(' '), width);
        assert(value.push(' ') + Seq::new((width - value.len() - 1) as nat, |i: int| ' ') =~= value
            + Seq::new((width - value.len()) as nat, |i: int| ' '));
    } else {
        assert(value + Seq::new(0, |i: int| ' ') =~= value);
    }
}

/// The snippet that is shown for the hook has just the group that would be merged, for the end of a
/// session.
pub proof fn the_snippet_is_what_would_be_merged(executable: Seq<char>)
    ensures
        setup::merged(JsonView::Object(Map::empty()), setup::command_of(executable)) == Ok::<
            (JsonView, bool),
            Seq<char>,
        >((setup::snippet(executable), true)),
{
    let root = JsonView::Object(Map::<Seq<char>, JsonView>::empty());
    let command = setup::command_of(executable);
    let none = Seq::<JsonView>::empty();
    assert(!setup::some_group_runs(none, command));
    assert(none.push(setup::hook_group(command)) =~= seq![setup::hook_group(command)]);
    assert(setup::with_end_groups(root, none.push(setup::hook_group(command)))
        == setup::snippet(executable));
}

/// What is written to the hook file is what was merged, and a line end.
pub proof fn merged_files_end_with_a_line_end(
    path: Seq<char>,
    executable: Seq<char>,
    source: Seq<char>,
    root: JsonView,
    after: JsonView,
)
    requires
        json::json_parsed(source) == Ok::<JsonView, serde_json::Error>(root),
        setup::merged(root, setup::command_of(executable)) == Ok::<(JsonView, bool), Seq<char>>(
            (after, true),
        ),
    ensures
        setup::merged_text(Some(source), path, executable) == Ok::<Option<Seq<char>>, Seq<char>>(
            Some(json::json_pretty(after) + "\n"@),
        ),
{
}

/// A version of Codex is a fault just where it comes before the first that the tracker works with, and so
/// is an output that names none.
pub proof fn old_versions_are_faults(
    output: doctor::ProgramOutput,
    version: semver::Version,
    a: u64,
    b: u64,
    c: u64,
)
    requires
        output.success,
        doctor::version_numbers(version) == (a, b, c),
    ensures
        doctor::first_version(text::words(output.stdout@)) == Some(version) ==> {
            let found = doctor::codex_check(Ok::<doctor::ProgramOutput, String>(output));
            &&& found.level == CheckLevel::Fail <==> a == 0 && (b < 144 || b == 144 && c < 1 || b
                == 144 && c == 1 && !doctor::version_released(version))
            &&& found.level == CheckLevel::Pass || found.level == CheckLevel::Fail
        },
        doctor::first_version(text::words(output.stdout@)) is None ==> doctor::codex_check(
            Ok::<doctor::ProgramOutput, String>(output),
        ).level == CheckLevel::Fail,
{
}

/// What to do about the hook can be named in several ways, and in no others.
pub proof fn hook_choices_have_names(name: Seq<char>)
    requires
        text::ascii_folded(name) == name,
    ensures
        setup::choice_named(name) == Some(HookChoice::Automatic) <==> seq![
            "automatic"@,
            "auto"@,
            "merge"@,
        ].contains(name),
        setup::choice_named(name) == Some(HookChoice::Manual) <==> seq![
            "manual"@,
            "snippet"@,
        ].contains(name),
        setup::choice_named(name) == Some(HookChoice::Skip) <==> seq!["skip"@, "none"@].contains(
            name,
        ),
{
    let first = seq!["automatic"@, "auto"@, "merge"@];
    let second = seq!["manual"@, "snippet"@];
    let third = seq!["skip"@, "none"@];
    assert(first[0] == "automatic"@ && first[1] == "auto"@ && first[2] == "merge"@);
    assert(second[0] == "manual"@ && second[1] == "snippet"@);
    assert(third[0] == "skip"@ && third[1] == "none"@);
    reveal_strlit("automatic");
    reveal_strlit("auto");
    reveal_strlit("merge");
    reveal_strlit("manual");
    reveal_strlit("snippet");
    reveal_strlit("skip");
    reveal_strlit("none");
    assert("automatic"@[1] == 'u' && "auto"@[1] == 'u' && "merge"@[1] == 'e' && "manual"@[1] == 'a'
        && "snippet"@[1] == 'n' && "skip"@[1] == 'k' && "none"@[1] == 'o');
}

/// A provider and a kind of source can each be named in several ways, and in no others.
pub proof fn providers_and_sources_have_names(name: Seq<char>)
    requires
        text::ascii_folded(name) == name,
    ensures
        config::provider_named(name) == Some(SummaryProvider::Local) <==> name == "local"@,
        config::provider_named(name) == Some(SummaryProvider::Codex) <==> seq![
            "codex"@,
            "ephemeral-codex"@,
            "ephemeral_codex"@,
        ].contains(name),
        config::provider_named(name) == Some(SummaryProvider::Openai) <==> seq![
            "openai"@,
            "api"@,
        ].contains(name),
        config::source_named(name) == Some(SourceKind::Cli) <==> name == "cli"@,
        config::source_named(name) == Some(SourceKind::Vscode) <==> seq![
            "vscode"@,
            "ide"@,
            "vs-code"@,
        ].contains(name),
        config::source_named(name) == Some(SourceKind::Exec) <==> name == "exec"@,
{
    let codex = seq!["codex"@, "ephemeral-codex"@, "ephemeral_codex"@];
    let openai = seq!["openai"@, "api"@];
    let vscode = seq!["vscode"@, "ide"@, "vs-code"@];
    assert(codex[0] == "codex"@ && codex[1] == "ephemeral-codex"@ && codex[2]
        == "ephemeral_codex"@);
    assert(openai[0] == "openai"@ && openai[1] == "api"@);
    assert(vscode[0] == "vscode"@ && vscode[1] == "ide"@ && vscode[2] == "vs-code"@);
    reveal_strlit("local");
    reveal_strlit("codex");
    reveal_strlit("ephemeral-codex");
    reveal_strlit("ephemeral_codex");
    reveal_strlit("openai");
    reveal_strlit("api");
    reveal_strlit("cli");
    reveal_strlit("vscode");
    reveal_strlit("ide");
    reveal_strlit("vs-code");
    reveal_strlit("exec");
    assert("local"@[0] == 'l' && "codex"@[0] == 'c' && "ephemeral-codex"@[0] == 'e'
        && "ephemeral_codex"@[0] == 'e' && "openai"@[0] == 'o' && "api"@[0] == 'a');
    assert("cli"@[0] == 'c' && "vscode"@[0] == 'v' && "ide"@[0] == 'i' && "vs-code"@[0] == 'v'
        && "exec"@[0] == 'e');
}

/// The setup waits for the name of a model where it needs one and none was given.
pub proof fn the_setup_waits_for_a_model(lines: Seq<Seq<char>>, n2: nat, n3: nat, n4: nat, n5: nat)
    requires
        lines.len() == 5,
        chooses(lines[0], 2, 3, 3),
        chooses(lines[1], 2, 4, n2),
        chooses(lines[2], 1, 3, n3),
        chooses(lines[3], 1, 4, n4),
        chooses(lines[4], 1, 3, n5),
        n2 != 4,
    ensures
        setup::wizard(lines).outcome is Waiting,
{
    lemma_chosen(lines, 0, 2, 3, 3);
    lemma_chosen(lines, 1, 2, 4, n2);
    lemma_chosen(lines, 2, 1, 3, n3);
    lemma_chosen(lines, 3, 1, 4, n4);
    lemma_chosen(lines, 4, 1, 3, n5);
}

} // verus!
