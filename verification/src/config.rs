//! The tracker's configuration: its choices, their names, and what makes a configuration valid.

use vstd::prelude::*;

use crate::text;
use crate::text::{contains, decimal_text, parse_usize, quote, replace, same, strip_prefix, to_ascii_lowercase, trim, NumberFault};

verus! {

/// How titles and summaries are made.
#[derive(Clone, Copy, Debug, PartialEq, Eq, Structural)]
pub enum SummaryProvider {
    Local,
    Codex,
    Openai,
}

/// How many characters of a thread a summary may read.
#[derive(Clone, Copy, Debug, PartialEq, Eq, Structural)]
pub enum SummaryInput {
    SixteenK,
    SixtyFourK,
    Entire,
    Custom(usize),
}

/// What is done when a session ends.
#[derive(Clone, Copy, Debug, PartialEq, Eq, Structural)]
pub enum OnClose {
    Automatic,
    LocalFirst,
    Manual,
}

/// Where a thread was started.
#[derive(Clone, Copy, Debug, PartialEq, Eq, Structural)]
pub enum SourceKind {
    Cli,
    Vscode,
    Exec,
}

/// Why a configuration, or the name of a choice, is refused.
#[derive(Debug, PartialEq, Eq)]
pub enum ConfigError {
    UnknownProvider(String),
    InvalidLimit { value: String, fault: NumberFault },
    ZeroLimit,
    UnknownOnClose(String),
    UnknownSource(String),
    UnsupportedVersion(u32),
    NoSources,
    NoExecutable,
    NoThreadPlaceholder,
    NoCwdPlaceholder,
    EmptyModel,
}

/// What a number fault reads as.
pub open spec fn fault_text(fault: NumberFault) -> Seq<char> {
    match fault {
        NumberFault::Empty => "cannot parse integer from empty string"@,
        NumberFault::InvalidDigit => "invalid digit found in string"@,
        NumberFault::TooLarge => "number too large to fit in target type"@,
    }
}

pub fn fault_message(fault: NumberFault) -> (r: String)
    ensures
        r@ == fault_text(fault),
{
    match fault {
        NumberFault::Empty => "cannot parse integer from empty string".to_owned(),
        NumberFault::InvalidDigit => "invalid digit found in string".to_owned(),
        NumberFault::TooLarge => "number too large to fit in target type".to_owned(),
    }
}

/// What a refusal reads as.
pub open spec fn config_error_text(error: ConfigError) -> Seq<char> {
    match error {
        ConfigError::UnknownProvider(value) => "unknown summary provider "@ + text::quoted(value@)
            + "; use local, codex, or openai"@,
        ConfigError::InvalidLimit { value, fault } => "invalid summary character limit "@ + text::quoted(
            value@,
        ) + ": "@ + fault_text(fault),
        ConfigError::ZeroLimit => "summary character limit must be positive"@,
        ConfigError::UnknownOnClose(value) => "unknown on-close behavior "@ + text::quoted(value@),
        ConfigError::UnknownSource(value) => "unknown source "@ + text::quoted(value@)
            + "; use cli, vscode, or exec"@,
        ConfigError::UnsupportedVersion(version) => "unsupported config version "@ + text::decimal(
            version as nat,
        ) + "; expected 1"@,
        ConfigError::NoSources => "at least one source must be visible"@,
        ConfigError::NoExecutable => "terminal_argv must contain an executable"@,
        ConfigError::NoThreadPlaceholder => "terminal_argv must contain {thread_id}"@,
        ConfigError::NoCwdPlaceholder => "terminal_argv must contain {cwd}"@,
        ConfigError::EmptyModel => "openai_model cannot be empty"@,
    }
}

impl ConfigError {
    pub fn message(&self) -> (r: String)
        ensures
            r@ == config_error_text(*self),
    {
        match self {
            ConfigError::UnknownProvider(value) => "unknown summary provider ".to_owned().concat(
                quote(value.as_str()).as_str(),
            ).concat("; use local, codex, or openai"),
            ConfigError::InvalidLimit {
                value,
                fault,
            } => "invalid summary character limit ".to_owned().concat(
                quote(value.as_str()).as_str(),
            ).concat(": ").concat(fault_message(*fault).as_str()),
            ConfigError::ZeroLimit => "summary character limit must be positive".to_owned(),
            ConfigError::UnknownOnClose(value) => "unknown on-close behavior ".to_owned().concat(
                quote(value.as_str()).as_str(),
            ),
            ConfigError::UnknownSource(value) => "unknown source ".to_owned().concat(
                quote(value.as_str()).as_str(),
            ).concat("; use cli, vscode, or exec"),
            ConfigError::UnsupportedVersion(
                version,
            ) => "unsupported config version ".to_owned().concat(
                decimal_text(*version as u64).as_str(),
            ).concat("; expected 1"),
            ConfigError::NoSources => "at least one source must be visible".to_owned(),
            ConfigError::NoExecutable => "terminal_argv must contain an executable".to_owned(),
            ConfigError::NoThreadPlaceholder => "terminal_argv must contain {thread_id}".to_owned(),
            ConfigError::NoCwdPlaceholder => "terminal_argv must contain {cwd}".to_owned(),
            ConfigError::EmptyModel => "openai_model cannot be empty".to_owned(),
        }
    }
}

/// The name under which a provider is stored and shown.
pub open spec fn provider_name(provider: SummaryProvider) -> Seq<char> {
    match provider {
        SummaryProvider::Local => "local"@,
        SummaryProvider::Codex => "codex"@,
        SummaryProvider::Openai => "openai"@,
    }
}

/// The provider that a text names, whatever the case of its letters.
pub open spec fn provider_named(value: Seq<char>) -> Option<SummaryProvider> {
    let name = text::ascii_folded(value);
    if name == "local"@ {
        Some(SummaryProvider::Local)
    } else if name == "codex"@ || name == "ephemeral-codex"@ || name == "ephemeral_codex"@ {
        Some(SummaryProvider::Codex)
    } else if name == "openai"@ || name == "api"@ {
        Some(SummaryProvider::Openai)
    } else {
        None
    }
}

impl SummaryProvider {
    /// The providers in the order in which they are offered.
    pub const ALL: [SummaryProvider; 3] = [
        SummaryProvider::Local,
        SummaryProvider::Codex,
        SummaryProvider::Openai,
    ];

    pub fn is_external(self) -> (r: bool)
        ensures
            r == (self != SummaryProvider::Local),
    {
        match self {
            SummaryProvider::Local => false,
            _ => true,
        }
    }

    pub fn to_string(&self) -> (r: String)
        ensures
            r@ == provider_name(*self),
    {
        match self {
            SummaryProvider::Local => "local".to_owned(),
            SummaryProvider::Codex => "codex".to_owned(),
            SummaryProvider::Openai => "openai".to_owned(),
        }
    }

    pub fn from_str(value: &str) -> (r: Result<SummaryProvider, ConfigError>)
        ensures
            match r {
                Ok(provider) => provider_named(value@) == Some(provider),
                Err(ConfigError::UnknownProvider(text)) => provider_named(value@) is None && text@
                    == value@,
                Err(_) => false,
            },
    {
        let name = to_ascii_lowercase(value);
        let name = name.as_str();
        if same(name, "local") {
            Ok(SummaryProvider::Local)
        } else if same(name, "codex") || same(name, "ephemeral-codex") || same(
            name,
            "ephemeral_codex",
        ) {
            Ok(SummaryProvider::Codex)
        } else if same(name, "openai") || same(name, "api") {
            Ok(SummaryProvider::Openai)
        } else {
            Err(ConfigError::UnknownProvider(value.to_owned()))
        }
    }
}

impl Default for SummaryProvider {
    fn default() -> (r: Self)
        ensures
            r == SummaryProvider::Codex,
    {
        SummaryProvider::Codex
    }
}

/// The name under which an input limit is stored and shown.
pub open spec fn input_name(input: SummaryInput) -> Seq<char> {
    match input {
        SummaryInput::SixteenK => "16k"@,
        SummaryInput::SixtyFourK => "64k"@,
        SummaryInput::Entire => "entire"@,
        SummaryInput::Custom(value) => "custom:"@ + text::decimal(value as nat),
    }
}

/// The largest number of characters that an input limit lets through, where there is one.
pub open spec fn input_limit(input: SummaryInput) -> Option<usize> {
    match input {
        SummaryInput::SixteenK => Some(16384),
        SummaryInput::SixtyFourK => Some(65536),
        SummaryInput::Entire => None,
        SummaryInput::Custom(value) => Some(value),
    }
}

/// `value` in lower case and without the white space around it.
pub open spec fn input_key(value: Seq<char>) -> Seq<char> {
    text::ascii_folded(text::trimmed(value))
}

/// The digits of a custom limit: what stands behind `custom:`, or the whole text.
pub open spec fn custom_digits(name: Seq<char>) -> Seq<char> {
    if text::holds_at(name, "custom:"@, 0) {
        name.skip("custom:"@.len() as int)
    } else {
        name
    }
}

/// The preset that a text names.
pub open spec fn preset_named(name: Seq<char>) -> Option<SummaryInput> {
    if name == "16k"@ || name == "16384"@ {
        Some(SummaryInput::SixteenK)
    } else if name == "64k"@ || name == "65536"@ {
        Some(SummaryInput::SixtyFourK)
    } else if name == "entire"@ || name == "all"@ || name == "unlimited"@ {
        Some(SummaryInput::Entire)
    } else {
        None
    }
}

/// The input limit that a text names: a preset, or a positive number of characters.
pub open spec fn input_named(value: Seq<char>) -> Option<SummaryInput> {
    let name = input_key(value);
    if preset_named(name) is Some {
        preset_named(name)
    } else {
        match text::usize_value(custom_digits(name)) {
            Some(count) => if count > 0 {
                Some(SummaryInput::Custom(count))
            } else {
                None
            },
            None => None,
        }
    }
}

impl SummaryInput {
    /// The limits that are offered one after the other.
    pub const CYCLE: [SummaryInput; 3] = [
        SummaryInput::SixteenK,
        SummaryInput::SixtyFourK,
        SummaryInput::Entire,
    ];

    pub fn character_limit(self) -> (r: Option<usize>)
        ensures
            r == input_limit(self),
    {
        match self {
            SummaryInput::SixteenK => Some(16 * 1024),
            SummaryInput::SixtyFourK => Some(64 * 1024),
            SummaryInput::Entire => None,
            SummaryInput::Custom(value) => Some(value),
        }
    }

    pub fn to_string(&self) -> (r: String)
        ensures
            r@ == input_name(*self),
    {
        match self {
            SummaryInput::SixteenK => "16k".to_owned(),
            SummaryInput::SixtyFourK => "64k".to_owned(),
            SummaryInput::Entire => "entire".to_owned(),
            SummaryInput::Custom(value) => "custom:".to_owned().concat(
                decimal_text(*value as u64).as_str(),
            ),
        }
    }

    pub fn from_str(value: &str) -> (r: Result<SummaryInput, ConfigError>)
        ensures
            match r {
                Ok(input) => input_named(value@) == Some(input),
                Err(ConfigError::InvalidLimit { value: shown, fault }) => {
                    let digits = custom_digits(input_key(value@));
                    &&& input_named(value@) is None
                    &&& text::usize_value(digits) is None
                    &&& fault == text::usize_fault(digits)
                    &&& shown@ == value@
                },
                Err(ConfigError::ZeroLimit) => {
                    &&& input_named(value@) is None
                    &&& text::usize_value(custom_digits(input_key(value@))) == Some(0usize)
                },
                Err(_) => false,
            },
    {
        let key = to_ascii_lowercase(trim(value).as_str());
        let name = key.as_str();
        if same(name, "16k") || same(name, "16384") {
            return Ok(SummaryInput::SixteenK);
        }
        if same(name, "64k") || same(name, "65536") {
            return Ok(SummaryInput::SixtyFourK);
        }
        if same(name, "entire") || same(name, "all") || same(name, "unlimited") {
            return Ok(SummaryInput::Entire);
        }
        let raw = strip_prefix(name, "custom:");
        match parse_usize(raw.as_str()) {
            Ok(count) => if count == 0 {
                Err(ConfigError::ZeroLimit)
            } else {
                Ok(SummaryInput::Custom(count))
            },
            Err(fault) => Err(ConfigError::InvalidLimit { value: value.to_owned(), fault }),
        }
    }
}

impl Default for SummaryInput {
    fn default() -> (r: Self)
        ensures
            r == SummaryInput::SixtyFourK,
    {
        SummaryInput::SixtyFourK
    }
}

/// The name under which an on-close behaviour is stored and shown.
pub open spec fn on_close_name(on_close: OnClose) -> Seq<char> {
    match on_close {
        OnClose::Automatic => "automatic"@,
        OnClose::LocalFirst => "local_first"@,
        OnClose::Manual => "manual"@,
    }
}

/// The on-close behaviour that a text names, with hyphens read as underscores.
pub open spec fn on_close_named(value: Seq<char>) -> Option<OnClose> {
    let name = text::replaced(text::ascii_folded(value), "-"@, "_"@);
    if name == "automatic"@ || name == "auto"@ {
        Some(OnClose::Automatic)
    } else if name == "local_first"@ || name == "local"@ {
        Some(OnClose::LocalFirst)
    } else if name == "manual"@ || name == "manual_only"@ {
        Some(OnClose::Manual)
    } else {
        None
    }
}

impl OnClose {
    pub fn to_string(&self) -> (r: String)
        ensures
            r@ == on_close_name(*self),
    {
        match self {
            OnClose::Automatic => "automatic".to_owned(),
            OnClose::LocalFirst => "local_first".to_owned(),
            OnClose::Manual => "manual".to_owned(),
        }
    }

    pub fn from_str(value: &str) -> (r: Result<OnClose, ConfigError>)
        ensures
            match r {
                Ok(on_close) => on_close_named(value@) == Some(on_close),
                Err(ConfigError::UnknownOnClose(shown)) => on_close_named(value@) is None && shown@
                    == value@,
                Err(_) => false,
            },
    {
        proof {
            reveal_strlit("-");
        }
        let key = replace(to_ascii_lowercase(value).as_str(), "-", "_");
        let name = key.as_str();
        if same(name, "automatic") || same(name, "auto") {
            Ok(OnClose::Automatic)
        } else if same(name, "local_first") || same(name, "local") {
            Ok(OnClose::LocalFirst)
        } else if same(name, "manual") || same(name, "manual_only") {
            Ok(OnClose::Manual)
        } else {
            Err(ConfigError::UnknownOnClose(value.to_owned()))
        }
    }
}

impl Default for OnClose {
    fn default() -> (r: Self)
        ensures
            r == OnClose::Automatic,
    {
        OnClose::Automatic
    }
}

/// The name of a source in the App Server protocol.
pub open spec fn source_name(source: SourceKind) -> Seq<char> {
    match source {
        SourceKind::Cli => "cli"@,
        SourceKind::Vscode => "vscode"@,
        SourceKind::Exec => "exec"@,
    }
}

/// The source that a text names, whatever the case of its letters.
pub open spec fn source_named(value: Seq<char>) -> Option<SourceKind> {
    let name = text::ascii_folded(value);
    if name == "cli"@ {
        Some(SourceKind::Cli)
    } else if name == "vscode"@ || name == "ide"@ || name == "vs-code"@ {
        Some(SourceKind::Vscode)
    } else if name == "exec"@ {
        Some(SourceKind::Exec)
    } else {
        None
    }
}

impl SourceKind {
    pub fn as_protocol_str(self) -> (r: &'static str)
        ensures
            r@ == source_name(self),
    {
        match self {
            SourceKind::Cli => "cli",
            SourceKind::Vscode => "vscode",
            SourceKind::Exec => "exec",
        }
    }

    pub fn to_string(&self) -> (r: String)
        ensures
            r@ == source_name(*self),
    {
        (*self).as_protocol_str().to_owned()
    }

    pub fn from_str(value: &str) -> (r: Result<SourceKind, ConfigError>)
        ensures
            match r {
                Ok(source) => source_named(value@) == Some(source),
                Err(ConfigError::UnknownSource(shown)) => source_named(value@) is None && shown@
                    == value@,
                Err(_) => false,
            },
    {
        let key = to_ascii_lowercase(value);
        let name = key.as_str();
        if same(name, "cli") {
            Ok(SourceKind::Cli)
        } else if same(name, "vscode") || same(name, "ide") || same(name, "vs-code") {
            Ok(SourceKind::Vscode)
        } else if same(name, "exec") {
            Ok(SourceKind::Exec)
        } else {
            Err(ConfigError::UnknownSource(value.to_owned()))
        }
    }
}

/// What the tracker remembers between runs.
#[derive(Debug, PartialEq, Eq)]
pub struct Config {
    pub version: u32,
    pub summary_provider: SummaryProvider,
    pub summary_input: SummaryInput,
    pub on_close: OnClose,
    pub sources: Vec<SourceKind>,
    pub terminal_argv: Vec<String>,
    pub openai_model: String,
}

/// A configuration as a mathematical value.
pub struct ConfigView {
    pub version: u32,
    pub summary_provider: SummaryProvider,
    pub summary_input: SummaryInput,
    pub on_close: OnClose,
    pub sources: Seq<SourceKind>,
    pub terminal_argv: Seq<Seq<char>>,
    pub openai_model: Seq<char>,
}

impl View for Config {
    type V = ConfigView;

    open spec fn view(&self) -> ConfigView {
        ConfigView {
            version: self.version,
            summary_provider: self.summary_provider,
            summary_input: self.summary_input,
            on_close: self.on_close,
            sources: self.sources@,
            terminal_argv: self.terminal_argv.deep_view(),
            openai_model: self.openai_model@,
        }
    }
}

/// The terminal command of a new configuration.
pub open spec fn default_argv() -> Seq<Seq<char>> {
    seq![
        "x-terminal-emulator"@,
        "-e"@,
        "codex"@,
        "-C"@,
        "{cwd}"@,
        "resume"@,
        "{thread_id}"@,
    ]
}

/// The configuration that the tracker starts with.
pub open spec fn default_config() -> ConfigView {
    ConfigView {
        version: 1,
        summary_provider: SummaryProvider::Codex,
        summary_input: SummaryInput::SixtyFourK,
        on_close: OnClose::Automatic,
        sources: seq![SourceKind::Cli, SourceKind::Vscode],
        terminal_argv: default_argv(),
        openai_model: "gpt-5-mini"@,
    }
}

pub fn default_sources() -> (r: Vec<SourceKind>)
    ensures
        r@ == default_config().sources,
{
    let mut sources: Vec<SourceKind> = Vec::new();
    sources.push(SourceKind::Cli);
    sources.push(SourceKind::Vscode);
    assert(sources@ =~= default_config().sources);
    sources
}

pub fn default_terminal() -> (r: Vec<String>)
    ensures
        r.deep_view() == default_argv(),
{
    let mut argv: Vec<String> = Vec::new();
    argv.push("x-terminal-emulator".to_owned());
    argv.push("-e".to_owned());
    argv.push("codex".to_owned());
    argv.push("-C".to_owned());
    argv.push("{cwd}".to_owned());
    argv.push("resume".to_owned());
    argv.push("{thread_id}".to_owned());
    assert(argv.deep_view() =~= default_argv());
    argv
}

pub fn default_openai_model() -> (r: String)
    ensures
        r@ == default_config().openai_model,
{
    "gpt-5-mini".to_owned()
}

impl Default for Config {
    fn default() -> (r: Self)
        ensures
            r@ == default_config(),
    {
        Config {
            version: 1,
            summary_provider: SummaryProvider::Codex,
            summary_input: SummaryInput::SixtyFourK,
            on_close: OnClose::Automatic,
            sources: default_sources(),
            terminal_argv: default_terminal(),
            openai_model: default_openai_model(),
        }
    }
}

impl Clone for Config {
    fn clone(&self) -> (r: Self)
        ensures
            r@ == self@,
    {
        let sources = self.sources.clone();
        let terminal_argv = self.terminal_argv.clone();
        assert(sources@ =~= self.sources@);
        assert(terminal_argv.deep_view() =~= self.terminal_argv.deep_view());
        Config {
            version: self.version,
            summary_provider: self.summary_provider,
            summary_input: self.summary_input,
            on_close: self.on_close,
            sources,
            terminal_argv,
            openai_model: self.openai_model.clone(),
        }
    }
}

/// Whether `needle` stands in one of `parts`.
pub open spec fn some_holds(parts: Seq<Seq<char>>, needle: Seq<char>) -> bool {
    exists|i: int| 0 <= i < parts.len() && text::holds(#[trigger] parts[i], needle)
}

pub fn any_contains(parts: &[String], needle: &str) -> (r: bool)
    ensures
        r == some_holds(parts.deep_view(), needle@),
{
    let mut i: usize = 0;
    let ghost all = parts.deep_view();
    while i < parts.len()
        invariant
            i <= parts@.len(),
            all == parts.deep_view(),
            forall|j: int| 0 <= j < i ==> !text::holds(#[trigger] all[j], needle@),
        decreases parts@.len() - i,
    {
        if contains(parts[i].as_str(), needle) {
            assert(text::holds(all[i as int], needle@));
            return true;
        }
        assert(all[i as int] == parts@[i as int]@);
        i += 1;
    }
    false
}

/// What is wrong with a configuration: the first of the faults, in the order of the checks.
pub open spec fn config_fault(config: ConfigView) -> Option<ConfigError> {
    if config.version != 1 {
        Some(ConfigError::UnsupportedVersion(config.version))
    } else if config.sources.len() == 0 {
        Some(ConfigError::NoSources)
    } else if config.terminal_argv.len() == 0 || text::trimmed(config.terminal_argv[0]).len() == 0 {
        Some(ConfigError::NoExecutable)
    } else if !some_holds(config.terminal_argv, "{thread_id}"@) {
        Some(ConfigError::NoThreadPlaceholder)
    } else if !some_holds(config.terminal_argv, "{cwd}"@) {
        Some(ConfigError::NoCwdPlaceholder)
    } else if text::trimmed(config.openai_model).len() == 0 {
        Some(ConfigError::EmptyModel)
    } else if config.summary_input == SummaryInput::Custom(0) {
        Some(ConfigError::ZeroLimit)
    } else {
        None
    }
}

impl Config {
    pub fn validate(&self) -> (r: Result<(), ConfigError>)
        ensures
            match config_fault(self@) {
                None => r is Ok,
                Some(fault) => r == Err::<(), ConfigError>(fault),
            },
    {
        if self.version != 1 {
            return Err(ConfigError::UnsupportedVersion(self.version));
        }
        if self.sources.len() == 0 {
            return Err(ConfigError::NoSources);
        }
        if self.terminal_argv.len() == 0 || trim(self.terminal_argv[0].as_str()).as_str().is_empty() {
            return Err(ConfigError::NoExecutable);
        }
        if !any_contains(self.terminal_argv.as_slice(), "{thread_id}") {
            return Err(ConfigError::NoThreadPlaceholder);
        }
        if !any_contains(self.terminal_argv.as_slice(), "{cwd}") {
            return Err(ConfigError::NoCwdPlaceholder);
        }
        if trim(self.openai_model.as_str()).as_str().is_empty() {
            return Err(ConfigError::EmptyModel);
        }
        if self.summary_input == SummaryInput::Custom(0) {
            return Err(ConfigError::ZeroLimit);
        }
        Ok(())
    }

    pub fn source_names(&self) -> (r: Vec<&'static str>)
        ensures
            r@.len() == self.sources@.len(),
            forall|i: int|
                0 <= i < r@.len() ==> (#[trigger] r@[i])@ == source_name(self.sources@[i]),
    {
        let mut names: Vec<&'static str> = Vec::new();
        let mut i: usize = 0;
        while i < self.sources.len()
            invariant
                i <= self.sources@.len(),
                names@.len() == i,
                forall|j: int| 0 <= j < i ==> (#[trigger] names@[j])@ == source_name(self.sources@[j]),
            decreases self.sources@.len() - i,
        {
            names.push(self.sources[i].as_protocol_str());
            i += 1;
        }
        names
    }
}

/// The sources of `sources`, each at the place where it first occurs.
pub open spec fn first_occurrences(sources: Seq<SourceKind>) -> Seq<SourceKind>
    decreases sources.len(),
{
    if sources.len() == 0 {
        Seq::empty()
    } else {
        let before = first_occurrences(sources.drop_last());
        if before.contains(sources.last()) {
            before
        } else {
            before.push(sources.last())
        }
    }
}

pub fn deduplicate_sources(sources: Vec<SourceKind>) -> (r: Vec<SourceKind>)
    ensures
        r@ == first_occurrences(sources@),
{
    let mut output: Vec<SourceKind> = Vec::new();
    let mut i: usize = 0;
    assert(sources@.take(0).len() == 0);
    while i < sources.len()
        invariant
            i <= sources@.len(),
            output@ == first_occurrences(sources@.take(i as int)),
        decreases sources@.len() - i,
    {
        let source = sources[i];
        let mut seen: bool = false;
        let mut k: usize = 0;
        while k < output.len()
            invariant
                k <= output@.len(),
                seen == output@.take(k as int).contains(source),
            decreases output@.len() - k,
        {
            assert(output@.take(k + 1) =~= output@.take(k as int).push(output@[k as int]));
            if output[k] == source {
                seen = true;
                assert(output@.take(k + 1)[k as int] == source);
            } else if seen {
                let ghost j = choose|j: int| 0 <= j < k && output@.take(k as int)[j] == source;
                assert(output@.take(k + 1)[j] == source);
            }
            k += 1;
        }
        assert(output@.take(k as int) =~= output@);
        assert(sources@.take(i + 1).drop_last() =~= sources@.take(i as int));
        if !seen {
            output.push(source);
        }
        i += 1;
    }
    assert(sources@.take(i as int) =~= sources@);
    output
}

/// No source occurs twice after duplicates were removed, and none is lost or added.
pub proof fn deduplication_keeps_each_source_once(sources: Seq<SourceKind>)
    ensures
        first_occurrences(sources).no_duplicates(),
        forall|source: SourceKind|
            first_occurrences(sources).contains(source) <==> #[trigger] sources.contains(source),
    decreases sources.len(),
{
    if sources.len() > 0 {
        let shorter = sources.drop_last();
        let before = first_occurrences(shorter);
        deduplication_keeps_each_source_once(shorter);
        assert(sources =~= shorter.push(sources.last()));
        assert forall|source: SourceKind| first_occurrences(sources).contains(source)
            <==> #[trigger] sources.contains(source) by {
            assert(shorter.contains(source) ==> sources.contains(source)) by {
                if shorter.contains(source) {
                    let j = choose|j: int| 0 <= j < shorter.len() && shorter[j] == source;
                    assert(sources[j] == source);
                }
            }
            assert(sources.contains(source) ==> shorter.contains(source) || source
                == sources.last());
            assert(sources.contains(sources.last()));
            let after = before.push(sources.last());
            assert(after.contains(source) <==> before.contains(source) || source == sources.last())
                by {
                assert(after[before.len() as int] == sources.last());
                if before.contains(source) {
                    let j = choose|j: int| 0 <= j < before.len() && before[j] == source;
                    assert(after[j] == source);
                }
            }
        }
    }
}

/// The name of a choice is read back as that choice.
pub proof fn names_read_back(provider: SummaryProvider, on_close: OnClose, source: SourceKind)
    ensures
        provider_named(provider_name(provider)) == Some(provider),
        on_close_named(on_close_name(on_close)) == Some(on_close),
        source_named(source_name(source)) == Some(source),
{
    reveal_strlit("local");
    reveal_strlit("codex");
    reveal_strlit("openai");
    reveal_strlit("ephemeral-codex");
    reveal_strlit("ephemeral_codex");
    reveal_strlit("api");
    assert(text::ascii_folded(provider_name(provider)) =~= provider_name(provider));
    assert(provider_name(SummaryProvider::Codex) != "local"@) by {
        assert("codex"@[0] != "local"@[0]);
    }
    assert("openai"@ != "local"@ && "openai"@ != "codex"@) by {
        assert("openai"@[0] != "local"@[0]);
        assert("openai"@[0] != "codex"@[0]);
    }
    assert("openai"@.len() != "ephemeral-codex"@.len());
    assert("openai"@.len() != "ephemeral_codex"@.len());
    reveal_strlit("cli");
    reveal_strlit("vscode");
    reveal_strlit("exec");
    reveal_strlit("ide");
    reveal_strlit("vs-code");
    assert(text::ascii_folded(source_name(source)) =~= source_name(source));
    assert("vscode"@.len() != "cli"@.len());
    assert("exec"@.len() != "cli"@.len());
    assert("exec"@.len() != "vscode"@.len());
    assert("exec"@.len() != "ide"@.len());
    assert("exec"@.len() != "vs-code"@.len());
    reveal_strlit("automatic");
    reveal_strlit("auto");
    reveal_strlit("local_first");
    reveal_strlit("manual");
    reveal_strlit("manual_only");
    reveal_strlit("-");
    let name = on_close_name(on_close);
    assert(text::ascii_folded(name) =~= name);
    assert forall|i: int| 0 <= i < name.len() implies #[trigger] name[i] != '-' by {}
    lemma_no_hyphen(name);
    assert("local_first"@.len() != "automatic"@.len());
    assert("local_first"@.len() != "auto"@.len());
    assert("manual"@.len() != "automatic"@.len());
    assert("manual"@.len() != "auto"@.len());
    assert("manual"@.len() != "local_first"@.len());
    assert("manual"@.len() != "local"@.len());
}

proof fn lemma_no_hyphen(name: Seq<char>)
    requires
        forall|i: int| 0 <= i < name.len() ==> #[trigger] name[i] != '-',
    ensures
        text::replaced(name, "-"@, "_"@) == name,
    decreases name.len(),
{
    reveal_strlit("-");
    if name.len() > 0 {
        assert(name.take(1)[0] != "-"@[0]);
        assert forall|i: int| 0 <= i < name.skip(1).len() implies #[trigger] name.skip(1)[i]
            != '-' by {
            assert(name.skip(1)[i] == name[i + 1]);
        }
        lemma_no_hyphen(name.skip(1));
        assert(seq![name[0]] + name.skip(1) =~= name);
    }
}

/// The name of a positive input limit is read back as that limit.
pub proof fn input_names_read_back(input: SummaryInput)
    requires
        input != SummaryInput::Custom(0),
    ensures
        input_named(input_name(input)) == Some(input),
{
    reveal_strlit("16k");
    reveal_strlit("16384");
    reveal_strlit("64k");
    reveal_strlit("65536");
    reveal_strlit("entire");
    reveal_strlit("all");
    reveal_strlit("unlimited");
    reveal_strlit("custom:");
    let name = input_name(input);
    match input {
        SummaryInput::Custom(value) => {
            let digits = text::decimal(value as nat);
            text::decimal_reads_back(value as nat);
            assert(digits.last() == digits[digits.len() - 1]);
            text::lemma_trimmed_is_same(name);
            assert forall|i: int| 0 <= i < name.len() implies text::ascii_lower(
                #[trigger] name[i],
            ) == name[i] by {
                if i >= 7 {
                    assert(name[i] == digits[i - 7]);
                }
            }
            assert(text::ascii_folded(name) =~= name);
            assert(name.subrange(0, 7) =~= "custom:"@);
            assert(name.skip(7) =~= digits);
            assert(name[0] == 'c');
            assert("16k"@[0] != 'c' && "16384"@[0] != 'c' && "64k"@[0] != 'c' && "65536"@[0]
                != 'c' && "entire"@[0] != 'c' && "all"@[0] != 'c' && "unlimited"@[0] != 'c');
        },
        _ => {
            text::lemma_trimmed_is_same(name);
            assert(text::ascii_folded(name) =~= name);
            assert("64k"@[0] != "16k"@[0] && "64k"@.len() != "16384"@.len());
            assert("entire"@.len() != "16k"@.len() && "entire"@.len() != "16384"@.len()
                && "entire"@.len() != "65536"@.len());
        },
    }
}

/// The configuration that the tracker starts with is valid.
pub proof fn default_config_is_valid()
    ensures
        config_fault(default_config()) is None,
{
    reveal_strlit("x-terminal-emulator");
    reveal_strlit("{thread_id}");
    reveal_strlit("{cwd}");
    reveal_strlit("gpt-5-mini");
    let argv = default_argv();
    text::lemma_trimmed_is_same(argv[0]);
    text::lemma_trimmed_is_same("gpt-5-mini"@);
    assert("{thread_id}"@.subrange(0, 11) =~= "{thread_id}"@);
    assert(text::holds_at(argv[6], "{thread_id}"@, 0));
    assert(text::holds(argv[6], "{thread_id}"@));
    assert("{cwd}"@.subrange(0, 5) =~= "{cwd}"@);
    assert(text::holds_at(argv[4], "{cwd}"@, 0));
    assert(text::holds(argv[4], "{cwd}"@));
}

} // verus!
