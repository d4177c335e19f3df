//! Whether the tracker has what it needs.

use vstd::prelude::*;

use crate::config::{Config, ConfigView, SummaryProvider};
use crate::paths;
use crate::paths::{AppPaths, PathsView};
use crate::text;
use crate::text::{chars_of, quote, same, split_whitespace, string_of, trim};

verus! {

/// The oldest version of Codex that the tracker works with.
pub const MINIMUM_CODEX_VERSION: &'static str = "0.144.1";

/// How bad a finding is.
#[derive(Clone, Copy, Debug, PartialEq, Eq, Structural)]
pub enum CheckLevel {
    Pass,
    Warn,
    Fail,
}

/// The word for a level.
pub open spec fn level_name(level: CheckLevel) -> Seq<char> {
    match level {
        CheckLevel::Pass => "PASS"@,
        CheckLevel::Warn => "WARN"@,
        CheckLevel::Fail => "FAIL"@,
    }
}

impl CheckLevel {
    pub fn to_string(&self) -> (r: String)
        ensures
            r@ == level_name(*self),
    {
        match self {
            CheckLevel::Pass => "PASS".to_owned(),
            CheckLevel::Warn => "WARN".to_owned(),
            CheckLevel::Fail => "FAIL".to_owned(),
        }
    }
}

/// A finding.
#[derive(Debug, PartialEq, Eq)]
pub struct Check {
    pub level: CheckLevel,
    pub name: &'static str,
    pub detail: String,
}

/// A finding as a mathematical value.
#[verifier::ext_equal]
pub struct CheckView {
    pub level: CheckLevel,
    pub name: Seq<char>,
    pub detail: Seq<char>,
}

impl View for Check {
    type V = CheckView;

    open spec fn view(&self) -> CheckView {
        CheckView { level: self.level, name: self.name@, detail: self.detail@ }
    }
}

impl DeepView for Check {
    type V = CheckView;

    open spec fn deep_view(&self) -> CheckView {
        self@
    }
}

pub open spec fn passed(name: Seq<char>, detail: Seq<char>) -> CheckView {
    CheckView { level: CheckLevel::Pass, name, detail }
}

pub open spec fn warned(name: Seq<char>, detail: Seq<char>) -> CheckView {
    CheckView { level: CheckLevel::Warn, name, detail }
}

pub open spec fn failed(name: Seq<char>, detail: Seq<char>) -> CheckView {
    CheckView { level: CheckLevel::Fail, name, detail }
}

impl Check {
    pub fn pass(name: &'static str, detail: &str) -> (r: Check)
        ensures
            r@ == passed(name@, detail@),
    {
        Check { level: CheckLevel::Pass, name, detail: detail.to_owned() }
    }

    pub fn warn(name: &'static str, detail: &str) -> (r: Check)
        ensures
            r@ == warned(name@, detail@),
    {
        Check { level: CheckLevel::Warn, name, detail: detail.to_owned() }
    }

    pub fn fail(name: &'static str, detail: &str) -> (r: Check)
        ensures
            r@ == failed(name@, detail@),
    {
        Check { level: CheckLevel::Fail, name, detail: detail.to_owned() }
    }
}

/// Whether there is a failure among the findings.
pub open spec fn some_failed(checks: Seq<CheckView>) -> bool {
    exists|i: int| 0 <= i < checks.len() && (#[trigger] checks[i]).level == CheckLevel::Fail
}

pub fn has_failures(checks: &[Check]) -> (r: bool)
    ensures
        r == some_failed(checks.deep_view()),
{
    let ghost all = checks.deep_view();
    let mut i: usize = 0;
    while i < checks.len()
        invariant
            i <= checks@.len(),
            all == checks.deep_view(),
            forall|k: int| 0 <= k < i ==> (#[trigger] all[k]).level != CheckLevel::Fail,
        decreases checks@.len() - i,
    {
        assert(all[i as int] == checks@[i as int]@);
        if checks[i].level == CheckLevel::Fail {
            assert(all[i as int].level == CheckLevel::Fail);
            return true;
        }
        i += 1;
    }
    false
}

/// A version as `semver` holds it.
#[verifier::external_type_specification]
#[verifier::external_body]
pub struct ExVersion(semver::Version);

/// What `semver::Version::parse` makes of a text, where it is a version.
pub uninterp spec fn version_parsed(value: Seq<char>) -> Option<semver::Version>;

/// How `semver` shows a version.
pub uninterp spec fn version_text(version: semver::Version) -> Seq<char>;

/// Whether `semver` orders a version at or after another.
pub uninterp spec fn version_at_least(version: semver::Version, minimum: semver::Version) -> bool;

/// The three numbers of a version.
pub uninterp spec fn version_numbers(version: semver::Version) -> (u64, u64, u64);

/// Whether a version is a release: it names no pre-release.
pub uninterp spec fn version_released(version: semver::Version) -> bool;

/// Whether a version names no build.
pub uninterp spec fn version_unmarked(version: semver::Version) -> bool;

/// The number that a text writes without leading zeros.
pub open spec fn plain_number(value: Seq<char>) -> Option<u64> {
    if value.len() > 0 && text::all_digits(value) && (value.len() == 1 || value[0] != '0')
        && text::digits_value(value) <= u64::MAX {
        Some(text::digits_value(value) as u64)
    } else {
        None
    }
}

/// The numbers of a version that is written as three numbers with dots between them.
pub open spec fn plain_version(value: Seq<char>) -> Option<(u64, u64, u64)> {
    let parts = text::pieces(value, '.');
    if parts.len() == 3 {
        match (plain_number(parts[0]), plain_number(parts[1]), plain_number(parts[2])) {
            (Some(major), Some(minor), Some(patch)) => Some((major, minor, patch)),
            _ => None,
        }
    } else {
        None
    }
}

/// Whether `found` has the numbers of `value`, where `value` is three numbers with dots between them,
/// and nothing besides.
pub open spec fn reads_plain(found: Option<semver::Version>, value: Seq<char>) -> bool {
    match plain_version(value) {
        Some(numbers) => found is Some && version_numbers(found->Some_0) == numbers
            && version_released(found->Some_0) && version_unmarked(found->Some_0),
        None => true,
    }
}

/// Whether a text begins with a digit.
pub open spec fn begins_with_digit(value: Seq<char>) -> bool {
    value.len() > 0 && '0' <= value[0] && value[0] <= '9'
}

/// Calls `semver::Version::parse`. Three numbers with dots between them are a release without a
/// build, and a text that does not begin with a digit is no version; of other texts no more is said
/// than that the same text always gives the same version.
#[verifier::external_body]
fn read_version(word: &str) -> (r: Option<semver::Version>)
    ensures
        r == version_parsed(word@),
        reads_plain(r, word@),
        !begins_with_digit(word@) ==> r is None,
{
    semver::Version::parse(word).ok()
}

/// Three numbers with dots between them.
pub open spec fn dotted(numbers: (u64, u64, u64)) -> Seq<char> {
    text::decimal(numbers.0 as nat) + "."@ + text::decimal(numbers.1 as nat) + "."@
        + text::decimal(numbers.2 as nat)
}

/// Shows a version as `semver::Version` is displayed: a release without a build as its three numbers
/// with dots between them.
#[verifier::external_body]
fn show_version(version: &semver::Version) -> (r: String)
    ensures
        r@ == version_text(*version),
        version_released(*version) && version_unmarked(*version) ==> r@ == dotted(
            version_numbers(*version),
        ),
{
    version.to_string()
}

/// Whether a version is later than three numbers, or a release of just these.
pub open spec fn reaches(version: semver::Version, numbers: (u64, u64, u64)) -> bool {
    let (major, minor, patch) = version_numbers(version);
    ||| major > numbers.0
    ||| major == numbers.0 && minor > numbers.1
    ||| major == numbers.0 && minor == numbers.1 && patch > numbers.2
    ||| major == numbers.0 && minor == numbers.1 && patch == numbers.2 && version_released(version)
}

/// Compares two versions with `>=`. Against a release without a build the three numbers decide, one
/// after the other, and with the same numbers a pre-release is earlier.
#[verifier::external_body]
fn is_at_least(version: &semver::Version, minimum: &semver::Version) -> (r: bool)
    ensures
        r == version_at_least(*version, *minimum),
        r == reaches(*version, version_numbers(*minimum)) || !version_released(*minimum)
            || !version_unmarked(*minimum),
{
    version >= minimum
}

/// A word without the letters `v` that it starts with.
pub open spec fn without_v(word: Seq<char>) -> Seq<char>
    decreases word.len(),
{
    if word.len() > 0 && word[0] == 'v' {
        without_v(word.drop_first())
    } else {
        word
    }
}

fn strip_v(word: &str) -> (r: String)
    ensures
        r@ == without_v(word@),
{
    let chars = chars_of(word);
    let mut from: usize = 0;
    assert(chars@.skip(0) =~= chars@);
    while from < chars.len() && chars[from] == 'v'
        invariant
            from <= chars@.len(),
            without_v(chars@) == without_v(chars@.skip(from as int)),
        decreases chars@.len() - from,
    {
        assert(chars@.skip(from as int).drop_first() =~= chars@.skip(from + 1));
        from += 1;
    }
    let rest = string_of(&chars, from, chars.len());
    assert(rest@ =~= chars@.skip(from as int));
    rest
}

/// The first version among words.
pub open spec fn first_version(words: Seq<Seq<char>>) -> Option<semver::Version>
    decreases words.len(),
{
    if words.len() == 0 {
        None
    } else {
        match version_parsed(without_v(words[0])) {
            Some(version) => Some(version),
            None => first_version(words.drop_first()),
        }
    }
}

/// The numbers of the first of `words` that begins with a digit, where it is a plain version.
pub open spec fn first_plain(words: Seq<Seq<char>>) -> Option<(u64, u64, u64)>
    decreases words.len(),
{
    if words.len() == 0 {
        None
    } else if begins_with_digit(without_v(words[0])) {
        plain_version(without_v(words[0]))
    } else {
        first_plain(words.drop_first())
    }
}

/// The first version that Codex names. A word that does not begin with a digit, but for letters `v`
/// in front of it, is passed over, and three numbers with dots between them are a release without a
/// build.
pub fn parse_codex_version(output: &str) -> (r: Result<semver::Version, String>)
    ensures
        match r {
            Ok(version) => first_version(text::words(output@)) == Some(version),
            Err(error) => first_version(text::words(output@)) is None && error@
                == "could not parse version from "@ + text::quoted(output@),
        },
        first_plain(text::words(output@)) matches Some(numbers) ==> r matches Ok(version)
            && version_numbers(version) == numbers && version_released(version)
            && version_unmarked(version),
        (forall|i: int|
            0 <= i < text::words(output@).len() ==> !begins_with_digit(
                without_v(#[trigger] text::words(output@)[i]),
            )) ==> r is Err,
{
    let words = split_whitespace(output);
    let ghost all = words.deep_view();
    let mut i: usize = 0;
    assert(all.skip(0) =~= all);
    while i < words.len()
        invariant
            i <= words@.len(),
            all == words.deep_view(),
            all == text::words(output@),
            first_version(all) == first_version(all.skip(i as int)),
            first_plain(all) is Some ==> first_plain(all) == first_plain(all.skip(i as int)),
        decreases words@.len() - i,
    {
        assert(all.skip(i as int)[0] == words@[i as int]@);
        assert(all.skip(i as int).drop_first() =~= all.skip(i + 1));
        match read_version(strip_v(words[i].as_str()).as_str()) {
            Some(version) => {
                assert(begins_with_digit(without_v(all[i as int])));
                return Ok(version);
            },
            None => {},
        }
        i += 1;
    }
    Err("could not parse version from ".to_owned().concat(quote(output).as_str()))
}

/// What a program said that was run: whether it succeeded, how it ended and what it wrote.
#[derive(Debug, PartialEq, Eq)]
pub struct ProgramOutput {
    pub success: bool,
    pub status: String,
    pub stdout: String,
}

/// The numbers of the oldest version of Codex.
pub open spec fn minimum_numbers() -> (u64, u64, u64) {
    (0, 144, 1)
}

/// What is found of a version of Codex.
pub open spec fn version_check(version: semver::Version) -> CheckView {
    if reaches(version, minimum_numbers()) {
        passed(
            "Codex version"@,
            version_text(version) + " is compatible (requires "@ + MINIMUM_CODEX_VERSION@ + "+)"@,
        )
    } else {
        failed(
            "Codex version"@,
            version_text(version) + " is too old; requires "@ + MINIMUM_CODEX_VERSION@ + "+"@,
        )
    }
}

/// What is found of the version that Codex names, where `seen` is what it said or why it did not
/// run.
pub open spec fn codex_check(seen: Result<ProgramOutput, String>) -> CheckView {
    match seen {
        Err(error) => failed("Codex version"@, error@),
        Ok(output) => if !output.success {
            failed("Codex version"@, "codex --version exited with "@ + output.status@)
        } else {
            match first_version(text::words(output.stdout@)) {
                Some(version) => version_check(version),
                None => failed(
                    "Codex version"@,
                    "could not parse version from "@ + text::quoted(output.stdout@),
                ),
            }
        },
    }
}

/// Whether three numbers are at or after the oldest version of Codex.
pub open spec fn numbers_suffice(numbers: (u64, u64, u64)) -> bool {
    let minimum = minimum_numbers();
    ||| numbers.0 > minimum.0
    ||| numbers.0 == minimum.0 && numbers.1 > minimum.1
    ||| numbers.0 == minimum.0 && numbers.1 == minimum.1 && numbers.2 >= minimum.2
}

/// What is found of a plain version of Codex.
pub open spec fn plain_check(numbers: (u64, u64, u64)) -> CheckView {
    if numbers_suffice(numbers) {
        passed(
            "Codex version"@,
            dotted(numbers) + " is compatible (requires "@ + MINIMUM_CODEX_VERSION@ + "+)"@,
        )
    } else {
        failed(
            "Codex version"@,
            dotted(numbers) + " is too old; requires "@ + MINIMUM_CODEX_VERSION@ + "+"@,
        )
    }
}

/// Whether `found` is what there is to find where Codex names a plain version.
pub open spec fn found_plain(seen: Result<ProgramOutput, String>, found: CheckView) -> bool {
    match seen {
        Ok(output) => match first_plain(text::words(output.stdout@)) {
            Some(numbers) => output.success ==> found == plain_check(numbers),
            None => true,
        },
        Err(_) => true,
    }
}

proof fn lemma_minimum_is_plain()
    ensures
        plain_version(MINIMUM_CODEX_VERSION@) == Some(minimum_numbers()),
{
    reveal_strlit("0.144.1");
    let all = MINIMUM_CODEX_VERSION@;
    let a = seq!['0'];
    let b = seq!['1', '4', '4'];
    let c = seq!['1'];
    let rest = all.skip(2);
    let last = rest.skip(4);
    reveal_with_fuel(text::first_at, 8);
    reveal_with_fuel(text::pieces, 4);
    assert(all =~= seq!['0', '.', '1', '4', '4', '.', '1']);
    assert(rest =~= seq!['1', '4', '4', '.', '1']);
    assert(last =~= seq!['1']);
    assert(text::first_at(all, '.') == 1);
    assert(rest.drop_first() =~= seq!['4', '4', '.', '1']);
    assert(rest.drop_first().drop_first() =~= seq!['4', '.', '1']);
    assert(rest.drop_first().drop_first().drop_first() =~= seq!['.', '1']);
    assert(text::first_at(rest, '.') == 3);
    assert(last.drop_first() =~= Seq::empty());
    assert(text::first_at(last, '.') == 1);
    assert(all.take(1) =~= a);
    assert(rest.take(3) =~= b);
    assert(last.take(1) =~= c);
    reveal_with_fuel(text::digits_value, 4);
    assert(a.drop_last() =~= Seq::empty());
    assert(b.drop_last() =~= seq!['1', '4']);
    assert(b.drop_last().drop_last() =~= seq!['1']);
    assert(b.drop_last().drop_last().drop_last() =~= Seq::empty());
    assert(text::digits_value(a) == 0);
    assert(text::digits_value(b) == 144);
    assert(text::digits_value(c) == 1);
    assert(text::pieces(all, '.') =~= seq![a, b, c]);
}

pub fn check_codex_version(seen: &Result<ProgramOutput, String>) -> (r: Check)
    ensures
        r@ == codex_check(*seen),
        found_plain(*seen, r@),
{
    let output = match seen {
        Ok(output) => output,
        Err(error) => {
            return Check::fail("Codex version", error.as_str());
        },
    };
    if !output.success {
        return Check::fail(
            "Codex version",
            "codex --version exited with ".to_owned().concat(output.status.as_str()).as_str(),
        );
    }
    let version = match parse_codex_version(output.stdout.as_str()) {
        Ok(version) => version,
        Err(error) => {
            return Check::fail("Codex version", error.as_str());
        },
    };
    proof {
        lemma_minimum_is_plain();
    }
    let compatible = match read_version(MINIMUM_CODEX_VERSION) {
        Some(minimum) => is_at_least(&version, &minimum),
        None => false,
    };
    let shown = show_version(&version);
    if compatible {
        Check::pass(
            "Codex version",
            shown.concat(" is compatible (requires ").concat(MINIMUM_CODEX_VERSION).concat(
                "+)",
            ).as_str(),
        )
    } else {
        Check::fail(
            "Codex version",
            shown.concat(" is too old; requires ").concat(MINIMUM_CODEX_VERSION).concat(
                "+",
            ).as_str(),
        )
    }
}

/// What was seen of the machine.
#[derive(Debug)]
pub struct Observations {
    /// The configuration, or why it could not be loaded.
    pub config: Result<Config, String>,
    /// What `codex --version` said.
    pub codex: Result<ProgramOutput, String>,
    /// Whether the App Server answered.
    pub app_server: Result<(), String>,
    /// What the integrity check of the database said.
    pub integrity: Result<String, String>,
    /// Where the terminal program is.
    pub terminal: Option<String>,
    /// Where `setsid` is.
    pub setsid: Option<String>,
    /// The hooks file of Codex.
    pub hooks_path: Result<String, String>,
    /// Whether the hook is in it.
    pub hook: Result<bool, String>,
    /// The value of `OPENAI_API_KEY`.
    pub api_key: Option<String>,
    /// What `codex login status` said.
    pub login: Result<ProgramOutput, String>,
}

/// What is found of the credentials that a provider needs.
pub open spec fn provider_check(
    provider: SummaryProvider,
    api_key: Option<Seq<char>>,
    login: Result<ProgramOutput, String>,
) -> CheckView {
    match provider {
        SummaryProvider::Local => passed(
            "provider"@,
            "local extractive provider needs no credentials"@,
        ),
        SummaryProvider::Openai => match api_key {
            Some(key) if text::trimmed(key).len() > 0 => passed(
                "provider"@,
                "OPENAI_API_KEY is present in the environment (value not displayed or stored)"@,
            ),
            _ => failed("provider"@, "OPENAI_API_KEY is not present in the environment"@),
        },
        SummaryProvider::Codex => match login {
            Ok(output) => if output.success {
                passed("provider"@, "Codex login status is valid for ephemeral summaries"@)
            } else {
                failed("provider"@, "codex login status exited with "@ + output.status@)
            },
            Err(error) => failed("provider"@, "run codex login status: "@ + error@),
        },
    }
}

pub fn check_provider(
    provider: SummaryProvider,
    api_key: &Option<String>,
    login: &Result<ProgramOutput, String>,
) -> (r: Check)
    ensures
        r@ == provider_check(provider, api_key.deep_view(), *login),
{
    match provider {
        SummaryProvider::Local => Check::pass(
            "provider",
            "local extractive provider needs no credentials",
        ),
        SummaryProvider::Openai => {
            let present = match api_key {
                Some(key) => !trim(key.as_str()).as_str().is_empty(),
                None => false,
            };
            if present {
                Check::pass(
                    "provider",
                    "OPENAI_API_KEY is present in the environment (value not displayed or stored)",
                )
            } else {
                Check::fail("provider", "OPENAI_API_KEY is not present in the environment")
            }
        },
        SummaryProvider::Codex => match login {
            Ok(output) => if output.success {
                Check::pass("provider", "Codex login status is valid for ephemeral summaries")
            } else {
                Check::fail(
                    "provider",
                    "codex login status exited with ".to_owned().concat(
                        output.status.as_str(),
                    ).as_str(),
                )
            },
            Err(error) => Check::fail(
                "provider",
                "run codex login status: ".to_owned().concat(error.as_str()).as_str(),
            ),
        },
    }
}

/// What is found of the configuration.
pub open spec fn config_check(files: PathsView, seen: Result<Config, String>) -> CheckView {
    match seen {
        Ok(_) => passed(
            "config"@,
            "valid: "@ + paths::path_under(files.config_dir, "config.toml"@),
        ),
        Err(error) => failed("config"@, error@),
    }
}

fn check_config(files: &AppPaths, seen: &Result<Config, String>) -> (r: Check)
    ensures
        r@ == config_check(files@, *seen),
{
    match seen {
        Ok(_) => Check::pass(
            "config",
            "valid: ".to_owned().concat(files.config().as_str()).as_str(),
        ),
        Err(error) => Check::fail("config", error.as_str()),
    }
}

/// What is found of the App Server.
pub open spec fn server_check(seen: Result<(), String>) -> CheckView {
    match seen {
        Ok(()) => passed("app-server"@, "initialize and thread/list succeeded"@),
        Err(error) => failed("app-server"@, error@),
    }
}

fn check_server(seen: &Result<(), String>) -> (r: Check)
    ensures
        r@ == server_check(*seen),
{
    match seen {
        Ok(_) => Check::pass("app-server", "initialize and thread/list succeeded"),
        Err(error) => Check::fail("app-server", error.as_str()),
    }
}

/// What is found of the database.
pub open spec fn database_check(files: PathsView, seen: Result<String, String>) -> CheckView {
    match seen {
        Ok(result) => if result@ == "ok"@ {
            passed(
                "database"@,
                "integrity ok: "@ + paths::path_under(files.data_dir, "tracker.sqlite3"@),
            )
        } else {
            failed("database"@, "integrity check: "@ + result@)
        },
        Err(error) => failed("database"@, error@),
    }
}

fn check_database(files: &AppPaths, seen: &Result<String, String>) -> (r: Check)
    ensures
        r@ == database_check(files@, *seen),
{
    match seen {
        Ok(result) => if same(result.as_str(), "ok") {
            Check::pass(
                "database",
                "integrity ok: ".to_owned().concat(files.database().as_str()).as_str(),
            )
        } else {
            Check::fail(
                "database",
                "integrity check: ".to_owned().concat(result.as_str()).as_str(),
            )
        },
        Err(error) => Check::fail("database", error.as_str()),
    }
}

/// The program that starts a terminal.
pub open spec fn terminal_program(settings: ConfigView) -> Seq<char> {
    if settings.terminal_argv.len() > 0 {
        settings.terminal_argv[0]
    } else {
        ""@
    }
}

/// What is found of the terminal.
pub open spec fn terminal_check(settings: ConfigView, seen: Option<Seq<char>>) -> CheckView {
    match seen {
        Some(path) => passed("terminal"@, path),
        None => failed(
            "terminal"@,
            "executable "@ + text::quoted(terminal_program(settings)) + " not found on PATH"@,
        ),
    }
}

fn check_terminal(config: &Config, seen: &Option<String>) -> (r: Check)
    ensures
        r@ == terminal_check(config@, seen.deep_view()),
{
    match seen {
        Some(path) => Check::pass("terminal", path.as_str()),
        None => {
            let program = if config.terminal_argv.len() > 0 {
                config.terminal_argv[0].as_str()
            } else {
                ""
            };
            Check::fail(
                "terminal",
                "executable ".to_owned().concat(quote(program).as_str()).concat(
                    " not found on PATH",
                ).as_str(),
            )
        },
    }
}

/// What is found of the program that detaches the worker.
pub open spec fn detach_check(seen: Option<Seq<char>>) -> CheckView {
    match seen {
        Some(path) => passed("worker detach"@, path),
        None => failed("worker detach"@, "setsid was not found; install util-linux"@),
    }
}

fn check_detach(seen: &Option<String>) -> (r: Check)
    ensures
        r@ == detach_check(seen.deep_view()),
{
    match seen {
        Some(path) => Check::pass("worker detach", path.as_str()),
        None => Check::fail("worker detach", "setsid was not found; install util-linux"),
    }
}

/// What is found of the hook.
pub open spec fn hook_check(
    path: Result<String, String>,
    installed: Result<bool, String>,
) -> CheckView {
    match path {
        Err(error) => failed("SessionEnd hook"@, error@),
        Ok(path) => match installed {
            Err(error) => failed("SessionEnd hook"@, error@),
            Ok(true) => passed(
                "SessionEnd hook"@,
                "installed in "@ + path@ + "; approve it with /hooks"@,
            ),
            Ok(false) => warned(
                "SessionEnd hook"@,
                "not installed in "@ + path@ + "; run setup or merge the snippet"@,
            ),
        },
    }
}

fn check_hook(path: &Result<String, String>, installed: &Result<bool, String>) -> (r: Check)
    ensures
        r@ == hook_check(*path, *installed),
{
    let path = match path {
        Ok(path) => path,
        Err(error) => {
            return Check::fail("SessionEnd hook", error.as_str());
        },
    };
    match installed {
        Err(error) => Check::fail("SessionEnd hook", error.as_str()),
        Ok(found) => if *found {
            Check::pass(
                "SessionEnd hook",
                "installed in ".to_owned().concat(path.as_str()).concat(
                    "; approve it with /hooks",
                ).as_str(),
            )
        } else {
            Check::warn(
                "SessionEnd hook",
                "not installed in ".to_owned().concat(path.as_str()).concat(
                    "; run setup or merge the snippet",
                ).as_str(),
            )
        },
    }
}

/// All that is found, in the order in which it is shown. The terminal and the provider are looked at
/// only where there is a configuration that names them.
pub open spec fn findings(files: PathsView, seen: Observations) -> Seq<CheckView> {
    let first = seq![
        config_check(files, seen.config),
        codex_check(seen.codex),
        server_check(seen.app_server),
        database_check(files, seen.integrity),
    ];
    let last = seq![detach_check(seen.setsid.deep_view()), hook_check(seen.hooks_path, seen.hook)];
    match seen.config {
        Ok(config) => first + seq![terminal_check(config@, seen.terminal.deep_view())] + last + seq![
            provider_check(config@.summary_provider, seen.api_key.deep_view(), seen.login),
        ],
        Err(_) => first + last,
    }
}

pub fn run(paths: &AppPaths, seen: &Observations) -> (r: Vec<Check>)
    ensures
        r.deep_view() == findings(paths@, *seen),
        found_plain(seen.codex, r.deep_view()[1]),
{
    let mut checks: Vec<Check> = Vec::new();
    checks.push(check_config(paths, &seen.config));
    checks.push(check_codex_version(&seen.codex));
    checks.push(check_server(&seen.app_server));
    checks.push(check_database(paths, &seen.integrity));
    match &seen.config {
        Ok(config) => {
            checks.push(check_terminal(config, &seen.terminal));
        },
        Err(_) => {},
    }
    checks.push(check_detach(&seen.setsid));
    checks.push(check_hook(&seen.hooks_path, &seen.hook));
    match &seen.config {
        Ok(config) => {
            checks.push(check_provider(config.summary_provider, &seen.api_key, &seen.login));
        },
        Err(_) => {},
    }
    assert(checks.deep_view() =~= findings(paths@, *seen));
    checks
}

/// Findings fail just where one of them does: warnings do not make them fail.
pub proof fn warnings_are_no_failures(checks: Seq<CheckView>)
    requires
        forall|i: int| 0 <= i < checks.len() ==> (#[trigger] checks[i]).level != CheckLevel::Fail,
    ensures
        !some_failed(checks),
{
}

/// Where the hook is not installed but all else is in order, nothing fails.
pub proof fn a_missing_hook_is_no_failure(files: PathsView, seen: Observations)
    requires
        seen.hooks_path is Ok,
        seen.hook == Ok::<bool, String>(false),
        forall|i: int|
            0 <= i < findings(files, seen).len() && (#[trigger] findings(files, seen)[i]).level
                == CheckLevel::Fail ==> findings(files, seen)[i].name == "SessionEnd hook"@,
    ensures
        !some_failed(findings(files, seen)),
{
    reveal_strlit("SessionEnd hook");
    reveal_strlit("config");
    reveal_strlit("Codex version");
    reveal_strlit("app-server");
    reveal_strlit("database");
    reveal_strlit("terminal");
    reveal_strlit("worker detach");
    reveal_strlit("provider");
    assert("SessionEnd hook"@.len() == 15 && "config"@.len() == 6 && "Codex version"@.len() == 13
        && "app-server"@.len() == 10 && "database"@.len() == 8 && "terminal"@.len() == 8
        && "worker detach"@.len() == 13 && "provider"@.len() == 8);
}

/// A version is refused just where it is earlier than the oldest one that is supported: by its
/// numbers, one after the other, not by its text.
pub proof fn versions_are_compared_by_their_numbers(version: semver::Version)
    requires
        version_released(version),
    ensures
        ({
            let (major, minor, patch) = version_numbers(version);
            let early = major == 0 && (minor < 144 || minor == 144 && patch < 1);
            &&& (version_check(version).level == CheckLevel::Fail) == early
            &&& (version_check(version).level == CheckLevel::Pass) == !early
        }),
{
}

} // verus!
