//! The commands of the program: what they decide and what they say.

use vstd::prelude::*;

use crate::config;
use crate::config::{
    deduplicate_sources, Config, ConfigView, OnClose, SourceKind, SummaryInput, SummaryProvider,
};
use crate::doctor;
use crate::doctor::{Check, CheckView};
use crate::json;
use crate::setup;
use crate::setup::{render_hook_snippet, HookChoice, HookMergeOutcome};
use crate::sync::{ReportView, SyncReport};
use crate::text;
use crate::text::{decimal_text, join, same, to_ascii_lowercase, trim};

verus! {

/// What the command line changes of the answers of the setup.
#[derive(Debug, PartialEq, Eq)]
pub struct SetupOptions {
    pub defaults: bool,
    pub provider: Option<SummaryProvider>,
    pub summary_input: Option<SummaryInput>,
    pub on_close: Option<OnClose>,
    pub sources: Vec<SourceKind>,
    pub hook: Option<HookChoice>,
    pub no_import: bool,
    pub summarize_all: bool,
    pub yes: bool,
}

/// What the command line changes, as a mathematical value.
#[verifier::ext_equal]
pub struct OptionsView {
    pub defaults: bool,
    pub provider: Option<SummaryProvider>,
    pub summary_input: Option<SummaryInput>,
    pub on_close: Option<OnClose>,
    pub sources: Seq<SourceKind>,
    pub hook: Option<HookChoice>,
    pub no_import: bool,
    pub summarize_all: bool,
    pub yes: bool,
}

impl View for SetupOptions {
    type V = OptionsView;

    open spec fn view(&self) -> OptionsView {
        OptionsView {
            defaults: self.defaults,
            provider: self.provider,
            summary_input: self.summary_input,
            on_close: self.on_close,
            sources: self.sources@,
            hook: self.hook,
            no_import: self.no_import,
            summarize_all: self.summarize_all,
            yes: self.yes,
        }
    }
}

/// A value that was given, else another.
pub open spec fn given_or<T>(given: Option<T>, other: T) -> T {
    match given {
        Some(value) => value,
        None => other,
    }
}

/// A configuration with what the command line gives in place of what it has.
pub open spec fn overridden(settings: ConfigView, options: OptionsView) -> ConfigView {
    ConfigView {
        summary_provider: given_or(options.provider, settings.summary_provider),
        summary_input: given_or(options.summary_input, settings.summary_input),
        on_close: given_or(options.on_close, settings.on_close),
        sources: if options.sources.len() == 0 {
            settings.sources
        } else {
            config::first_occurrences(options.sources)
        },
        ..settings
    }
}

pub fn apply_options(config: Config, options: &SetupOptions) -> (r: Config)
    ensures
        r@ == overridden(config@, options@),
{
    let mut config = config;
    if let Some(provider) = options.provider {
        config.summary_provider = provider;
    }
    if let Some(input) = options.summary_input {
        config.summary_input = input;
    }
    if let Some(on_close) = options.on_close {
        config.on_close = on_close;
    }
    if options.sources.len() > 0 {
        let sources = options.sources.clone();
        assert(sources@ =~= options.sources@);
        config.sources = deduplicate_sources(sources);
    }
    config
}

/// The names of sources, one after the other.
pub open spec fn source_list(sources: Seq<SourceKind>) -> Seq<char> {
    text::joined(Seq::new(sources.len(), |i: int| config::source_name(sources[i])), ","@)
}

fn source_list_of(sources: &Vec<SourceKind>) -> (r: String)
    ensures
        r@ == source_list(sources@),
{
    let mut names: Vec<String> = Vec::new();
    let mut i: usize = 0;
    while i < sources.len()
        invariant
            i <= sources@.len(),
            names@.len() == i,
            forall|k: int| 0 <= k < i ==> (#[trigger] names@[k])@ == config::source_name(sources@[k]),
        decreases sources@.len() - i,
    {
        names.push(sources[i].to_string());
        i += 1;
    }
    assert(names.deep_view() =~= Seq::new(
        sources@.len(),
        |k: int| config::source_name(sources@[k]),
    ));
    join(&names, ",")
}

/// What is said of a configuration that was saved.
pub open spec fn saved_text(settings: ConfigView, path: Seq<char>) -> Seq<char> {
    "\nSaved "@ + path + "\nProvider="@ + config::provider_name(settings.summary_provider)
        + " input="@ + config::input_name(settings.summary_input) + " on-close="@
        + config::on_close_name(settings.on_close) + " sources="@ + source_list(settings.sources)
        + "\n"@
}

pub fn saved_message(config: &Config, path: &str) -> (r: String)
    ensures
        r@ == saved_text(config@, path@),
{
    "\nSaved ".to_owned().concat(path).concat("\nProvider=").concat(
        config.summary_provider.to_string().as_str(),
    ).concat(" input=").concat(config.summary_input.to_string().as_str()).concat(
        " on-close=",
    ).concat(config.on_close.to_string().as_str()).concat(" sources=").concat(
        source_list_of(&config.sources).as_str(),
    ).concat("\n")
}

/// What is said of the hook, whatever is done about it.
pub open spec fn snippet_text(rendered: Seq<char>) -> Seq<char> {
    "\nSessionEnd hook JSON (always shown for review):\n"@ + rendered + "\n"@
}

/// What is said of a hook that is not installed.
pub open spec fn declined_text(choice: HookChoice) -> Seq<char> {
    match choice {
        HookChoice::Automatic => ""@,
        HookChoice::Manual => "No hook file changed; merge the JSON above manually.\n"@,
        HookChoice::Skip => "Hook installation skipped. See "@ + setup::HOOKS_DOC_URL@ + "\n"@,
    }
}

/// What is said of a hook that was merged into a file.
pub open spec fn merged_message(outcome: HookMergeOutcome) -> Seq<char> {
    (if outcome.changed {
        "Merged hook into"@
    } else {
        "Hook already present in"@
    }) + " "@ + outcome.path@ + "\n"@
}

/// What is said once the hook is dealt with.
pub open spec fn trust_text() -> Seq<char> {
    "Open Codex and run /hooks to review and trust the exact command before it can run.\n"@
}

/// A report in a line.
pub open spec fn report_text(label: Seq<char>, report: ReportView) -> Seq<char> {
    label + ": "@ + text::decimal(report.imported as nat) + " imported, "@ + text::decimal(
        report.updated as nat,
    ) + " updated, "@ + text::decimal(report.summarized as nat) + " summarized, "@ + text::decimal(
        report.errors.len(),
    ) + " error(s)\n"@
}

pub fn report_line(label: &str, report: &SyncReport) -> (r: String)
    ensures
        r@ == report_text(label@, report@),
{
    label.to_owned().concat(": ").concat(decimal_text(report.imported as u64).as_str()).concat(
        " imported, ",
    ).concat(decimal_text(report.updated as u64).as_str()).concat(" updated, ").concat(
        decimal_text(report.summarized as u64).as_str(),
    ).concat(" summarized, ").concat(decimal_text(report.errors.len() as u64).as_str()).concat(
        " error(s)\n",
    )
}

/// What is said after the import.
pub open spec fn imported_text(report: ReportView) -> Seq<char> {
    report_text("Initial local-only import"@, report)
        + "No Codex or OpenAI summary provider was used during initial import.\nOn-demand: `codex-resume-tracker summarize <id>` or `codex-resume-tracker summarize --all`.\n"@
}

/// How the setup goes on, with what is said before it does.
#[derive(Debug)]
pub enum SetupNext {
    Save { config: Config },
    InstallHook { shown: String },
    Import { shown: String },
    Confirm { shown: String, provider: SummaryProvider },
    SummarizeAll { shown: String, provider: SummaryProvider, cap: SummaryInput },
    Done { shown: String },
}

/// How the setup goes on, as a mathematical value.
pub enum SetupNextView {
    Save { config: ConfigView },
    InstallHook { shown: Seq<char> },
    Import { shown: Seq<char> },
    Confirm { shown: Seq<char>, provider: SummaryProvider },
    SummarizeAll { shown: Seq<char>, provider: SummaryProvider, cap: SummaryInput },
    Done { shown: Seq<char> },
}

impl View for SetupNext {
    type V = SetupNextView;

    open spec fn view(&self) -> SetupNextView {
        match *self {
            SetupNext::Save { config } => SetupNextView::Save { config: config@ },
            SetupNext::InstallHook { shown } => SetupNextView::InstallHook { shown: shown@ },
            SetupNext::Import { shown } => SetupNextView::Import { shown: shown@ },
            SetupNext::Confirm { shown, provider } => SetupNextView::Confirm {
                shown: shown@,
                provider,
            },
            SetupNext::SummarizeAll { shown, provider, cap } => SetupNextView::SummarizeAll {
                shown: shown@,
                provider,
                cap,
            },
            SetupNext::Done { shown } => SetupNextView::Done { shown: shown@ },
        }
    }
}

/// What came of a step of the setup.
#[derive(Debug, PartialEq, Eq)]
pub enum SetupReply {
    Saved,
    HookMerged { outcome: HookMergeOutcome },
    Imported { report: SyncReport },
    Confirmed { yes: bool },
    Summarized { report: SyncReport },
}

/// The setup once its questions are answered.
#[derive(Debug)]
pub struct SetupRun {
    pub config: Config,
    pub hook: HookChoice,
    pub options: SetupOptions,
    pub config_path: String,
    pub executable: String,
}

/// The setup as a mathematical value.
#[verifier::ext_equal]
pub struct SetupView {
    pub config: ConfigView,
    pub hook: HookChoice,
    pub options: OptionsView,
    pub config_path: Seq<char>,
    pub executable: Seq<char>,
}

impl View for SetupRun {
    type V = SetupView;

    open spec fn view(&self) -> SetupView {
        SetupView {
            config: self.config@,
            hook: self.hook,
            options: self.options@,
            config_path: self.config_path@,
            executable: self.executable@,
        }
    }
}

/// The setup goes on to the import, or ends where there is to be none.
pub open spec fn import_next(run: SetupView, shown: Seq<char>) -> SetupNextView {
    let said = shown + trust_text();
    if run.options.no_import {
        SetupNextView::Done {
            shown: said + "Initial import skipped; run `codex-resume-tracker sync` later.\n"@,
        }
    } else {
        SetupNextView::Import { shown: said }
    }
}

/// What the setup does about summaries after the import: none without being told to, and with an
/// outside provider none without a confirmation.
pub open spec fn summaries_next(run: SetupView, report: ReportView) -> SetupNextView {
    let shown = imported_text(report);
    let provider = run.config.summary_provider;
    let cap = run.config.summary_input;
    if run.options.summarize_all {
        if run.options.yes {
            SetupNextView::SummarizeAll { shown, provider, cap }
        } else {
            SetupNextView::Confirm { shown, provider }
        }
    } else if !run.options.defaults && provider != SummaryProvider::Local && report.imported
        + report.updated > 0 {
        SetupNextView::Confirm { shown, provider }
    } else {
        SetupNextView::Done { shown }
    }
}

/// How the setup goes on after a reply.
pub open spec fn setup_next(run: SetupView, reply: SetupReply) -> SetupNextView {
    match reply {
        SetupReply::Saved => {
            let rendered = json::json_pretty(setup::snippet(run.executable));
            let shown = saved_text(run.config, run.config_path) + snippet_text(rendered);
            match run.hook {
                HookChoice::Automatic => SetupNextView::InstallHook { shown },
                other => import_next(run, shown + declined_text(other)),
            }
        },
        SetupReply::HookMerged { outcome } => import_next(run, merged_message(outcome)),
        SetupReply::Imported { report } => summaries_next(run, report@),
        SetupReply::Confirmed { yes } => if yes {
            SetupNextView::SummarizeAll {
                shown: ""@,
                provider: run.config.summary_provider,
                cap: run.config.summary_input,
            }
        } else {
            SetupNextView::Done { shown: ""@ }
        },
        SetupReply::Summarized { report } => SetupNextView::Done {
            shown: report_text("Summarize all"@, report@),
        },
    }
}

impl SetupRun {
    /// Starts the setup with the answers to its questions: first the configuration is saved.
    pub fn start(
        config: Config,
        hook: HookChoice,
        options: SetupOptions,
        config_path: &str,
        executable: &str,
    ) -> (r: (SetupRun, SetupNext))
        ensures
            r.0@ == (SetupView {
                config: overridden(config@, options@),
                hook: given_or(options@.hook, hook),
                options: options@,
                config_path: config_path@,
                executable: executable@,
            }),
            r.1@ == (SetupNextView::Save { config: overridden(config@, options@) }),
    {
        let settings = apply_options(config, &options);
        let chosen = match options.hook {
            Some(choice) => choice,
            None => hook,
        };
        let run = SetupRun {
            config: settings.clone(),
            hook: chosen,
            options,
            config_path: config_path.to_owned(),
            executable: executable.to_owned(),
        };
        (run, SetupNext::Save { config: settings })
    }

    fn go_on_to_import(&self, shown: String) -> (r: SetupNext)
        ensures
            r@ == import_next(self@, shown@),
    {
        let said = shown.concat(
            "Open Codex and run /hooks to review and trust the exact command before it can run.\n",
        );
        if self.options.no_import {
            SetupNext::Done {
                shown: said.concat(
                    "Initial import skipped; run `codex-resume-tracker sync` later.\n",
                ),
            }
        } else {
            SetupNext::Import { shown: said }
        }
    }

    fn go_on_to_summaries(&self, report: &SyncReport) -> (r: SetupNext)
        ensures
            r@ == summaries_next(self@, report@),
    {
        let shown = report_line("Initial local-only import", report).concat(
            "No Codex or OpenAI summary provider was used during initial import.\nOn-demand: `codex-resume-tracker summarize <id>` or `codex-resume-tracker summarize --all`.\n",
        );
        let provider = self.config.summary_provider;
        let cap = self.config.summary_input;
        if self.options.summarize_all {
            if self.options.yes {
                SetupNext::SummarizeAll { shown, provider, cap }
            } else {
                SetupNext::Confirm { shown, provider }
            }
        } else if !self.options.defaults && provider.is_external() && (report.imported > 0
            || report.updated > 0) {
            SetupNext::Confirm { shown, provider }
        } else {
            SetupNext::Done { shown }
        }
    }

    /// Takes in what came of a step and says how the setup goes on.
    pub fn step(&self, reply: &SetupReply) -> (r: SetupNext)
        ensures
            r@ == setup_next(self@, *reply),
    {
        match reply {
            SetupReply::Saved => {
                let rendered = render_hook_snippet(self.executable.as_str());
                let shown = saved_message(&self.config, self.config_path.as_str()).concat(
                    "\nSessionEnd hook JSON (always shown for review):\n".to_owned().concat(
                        rendered.as_str(),
                    ).concat("\n").as_str(),
                );
                match self.hook {
                    HookChoice::Automatic => SetupNext::InstallHook { shown },
                    HookChoice::Manual => self.go_on_to_import(
                        shown.concat("No hook file changed; merge the JSON above manually.\n"),
                    ),
                    HookChoice::Skip => self.go_on_to_import(
                        shown.concat(
                            "Hook installation skipped. See ".to_owned().concat(
                                setup::HOOKS_DOC_URL,
                            ).concat("\n").as_str(),
                        ),
                    ),
                }
            },
            SetupReply::HookMerged { outcome } => {
                let verb = if outcome.changed {
                    "Merged hook into"
                } else {
                    "Hook already present in"
                };
                self.go_on_to_import(
                    verb.to_owned().concat(" ").concat(outcome.path.as_str()).concat("\n"),
                )
            },
            SetupReply::Imported { report } => self.go_on_to_summaries(report),
            SetupReply::Confirmed { yes } => if *yes {
                SetupNext::SummarizeAll {
                    shown: "".to_owned(),
                    provider: self.config.summary_provider,
                    cap: self.config.summary_input,
                }
            } else {
                SetupNext::Done { shown: "".to_owned() }
            },
            SetupReply::Summarized { report } => SetupNext::Done {
                shown: report_line("Summarize all", report),
            },
        }
    }
}

/// What a provider costs.
pub open spec fn usage_of(provider: SummaryProvider) -> Seq<char> {
    match provider {
        SummaryProvider::Local => "The local provider makes no Codex/API call, but will replace every generated summary."@,
        SummaryProvider::Codex => "Each thread starts an ephemeral Codex execution and consumes Codex model usage."@,
        SummaryProvider::Openai => "Each thread calls the OpenAI Responses API and may incur API charges."@,
    }
}

/// The question before all threads are summarized.
pub open spec fn warning_of(provider: SummaryProvider) -> Seq<char> {
    "\nWARNING: summarize --all selected provider="@ + config::provider_name(provider) + ".\n"@
        + usage_of(provider) + "\nContinue for all matching threads? [y/N]: "@
}

pub fn usage_warning(provider: SummaryProvider) -> (r: String)
    ensures
        r@ == warning_of(provider),
{
    let usage = match provider {
        SummaryProvider::Local => "The local provider makes no Codex/API call, but will replace every generated summary.",
        SummaryProvider::Codex => "Each thread starts an ephemeral Codex execution and consumes Codex model usage.",
        SummaryProvider::Openai => "Each thread calls the OpenAI Responses API and may incur API charges.",
    };
    "\nWARNING: summarize --all selected provider=".to_owned().concat(
        provider.to_string().as_str(),
    ).concat(".\n").concat(usage).concat("\nContinue for all matching threads? [y/N]: ")
}

/// Whether an answer is a yes.
pub open spec fn says_yes(line: Seq<char>) -> bool {
    let answer = text::ascii_folded(text::trimmed(line));
    answer == "y"@ || answer == "yes"@
}

pub fn is_yes(line: &str) -> (r: bool)
    ensures
        r == says_yes(line@),
{
    let answer = to_ascii_lowercase(trim(line).as_str());
    same(answer.as_str(), "y") || same(answer.as_str(), "yes")
}

/// What a command to summarize does.
#[derive(Debug, PartialEq, Eq)]
pub struct SummarizePlan {
    pub provider: SummaryProvider,
    pub cap: SummaryInput,
    pub confirm: bool,
}

/// Decides with what a command summarizes, and whether that has to be confirmed.
pub fn plan_summarize(
    config: &Config,
    provider: Option<SummaryProvider>,
    cap: Option<SummaryInput>,
    all: bool,
    yes: bool,
) -> (r: SummarizePlan)
    ensures
        r.provider == given_or(provider, config@.summary_provider),
        r.cap == given_or(cap, config@.summary_input),
        r.confirm == (all && !yes),
{
    SummarizePlan {
        provider: match provider {
            Some(provider) => provider,
            None => config.summary_provider,
        },
        cap: match cap {
            Some(cap) => cap,
            None => config.summary_input,
        },
        confirm: all && !yes,
    }
}

/// What is said of a thread that was summarized.
pub open spec fn summarized_text(
    thread_id: Seq<char>,
    provider: SummaryProvider,
    cap: SummaryInput,
) -> Seq<char> {
    "Summarized "@ + thread_id + " with provider="@ + config::provider_name(provider) + " input="@
        + config::input_name(cap)
}

pub fn summarized_message(thread_id: &str, provider: SummaryProvider, cap: SummaryInput) -> (r:
    String)
    ensures
        r@ == summarized_text(thread_id@, provider, cap),
{
    "Summarized ".to_owned().concat(thread_id).concat(" with provider=").concat(
        provider.to_string().as_str(),
    ).concat(" input=").concat(cap.to_string().as_str())
}

/// A text with spaces behind it up to a width.
pub open spec fn padded(value: Seq<char>, width: nat) -> Seq<char>
    decreases width - value.len(),
{
    if value.len() >= width {
        value
    } else {
        padded(value.push(' '), width)
    }
}

fn pad(value: &str, width: usize) -> (r: String)
    ensures
        r@ == padded(value@, width as nat),
{
    let mut out = value.to_owned();
    let mut have: usize = value.unicode_len();
    while have < width
        invariant
            have == out@.len(),
            padded(value@, width as nat) == padded(out@, width as nat),
        decreases width - have,
    {
        out.push(' ');
        have += 1;
    }
    out
}

/// A finding in a line.
pub open spec fn check_text(check: CheckView) -> Seq<char> {
    "["@ + padded(doctor::level_name(check.level), 4) + "] "@ + padded(check.name, 16) + " "@
        + check.detail
}

pub fn check_line(check: &Check) -> (r: String)
    ensures
        r@ == check_text(check@),
{
    "[".to_owned().concat(pad(check.level.to_string().as_str(), 4).as_str()).concat("] ").concat(
        pad(check.name, 16).as_str(),
    ).concat(" ").concat(check.detail.as_str())
}

/// The setup never starts an outside provider on its own: it summarizes all threads only where the
/// command line says so and says yes, or after a confirmation.
pub proof fn setup_asks_before_it_summarizes(run: SetupView, reply: SetupReply)
    ensures
        setup_next(run, reply) is SummarizeAll ==> (reply matches SetupReply::Confirmed { yes }
            && yes) || (reply is Imported && run.options.summarize_all && run.options.yes),
        setup_next(run, reply) matches SetupNextView::SummarizeAll { provider, .. } ==> provider
            == run.config.summary_provider,
{
}

/// A setup that is told to install no hook changes no hook file, and one that is told to import
/// nothing imports nothing.
pub proof fn setup_does_what_it_is_told(run: SetupView, reply: SetupReply)
    ensures
        run.hook != HookChoice::Automatic ==> !(setup_next(run, reply) is InstallHook),
        run.options.no_import ==> !(setup_next(run, reply) is Import),
{
}

} // verus!
