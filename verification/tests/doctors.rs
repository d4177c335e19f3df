use codex_resume_tracker::commands::check_line;
use codex_resume_tracker::config::{Config, SummaryProvider};
use codex_resume_tracker::doctor::{
    check_codex_version, check_provider, has_failures, parse_codex_version, run, Check, CheckLevel,
    Observations, ProgramOutput, MINIMUM_CODEX_VERSION,
};
use codex_resume_tracker::paths::AppPaths;
use semver::Version;

fn said(stdout: &str) -> Result<ProgramOutput, String> {
    Ok(ProgramOutput { success: true, status: "exit status: 0".into(), stdout: stdout.into() })
}

fn refused() -> Result<ProgramOutput, String> {
    Ok(ProgramOutput { success: false, status: "exit status: 3".into(), stdout: String::new() })
}

#[test]
fn version_parser_accepts_codex_cli_output() {
    assert_eq!(parse_codex_version("codex-cli 0.144.1\n").unwrap(), Version::new(0, 144, 1));
    assert!(parse_codex_version("codex unknown").is_err());
}

#[test]
fn versions_are_found_among_words() {
    assert_eq!(parse_codex_version("x 1.2 vv1.20.3 2.0.0").unwrap(), Version::new(1, 20, 3));
    assert_eq!(
        parse_codex_version("v1.0.0-beta.1+b7").unwrap(),
        Version::parse("1.0.0-beta.1+b7").unwrap()
    );
    assert_eq!(
        parse_codex_version("a\tb").unwrap_err(),
        "could not parse version from \"a\\tb\""
    );
}

#[test]
fn required_minimum_is_enforced_semantically() {
    let minimum = Version::parse(MINIMUM_CODEX_VERSION).unwrap();
    assert!(Version::new(0, 144, 0) < minimum);
    assert!(Version::new(0, 145, 0) > minimum);
}

#[test]
fn versions_are_judged_by_their_numbers() {
    let judged = |stdout: &str| check_codex_version(&said(stdout));
    assert_eq!(
        judged("codex-cli 0.144.1"),
        Check::pass("Codex version", "0.144.1 is compatible (requires 0.144.1+)")
    );
    assert_eq!(judged("codex-cli 0.200.0").level, CheckLevel::Pass);
    assert_eq!(judged("codex-cli 1.0.0").level, CheckLevel::Pass);
    assert_eq!(judged("codex-cli 0.144.1+build").level, CheckLevel::Pass);
    assert_eq!(
        judged("codex-cli 0.99.9"),
        Check::fail("Codex version", "0.99.9 is too old; requires 0.144.1+")
    );
    assert_eq!(judged("codex-cli 0.144.1-alpha").level, CheckLevel::Fail);
    assert_eq!(judged("codex-cli 0.144.2-alpha").level, CheckLevel::Pass);
    assert_eq!(
        judged("none"),
        Check::fail("Codex version", "could not parse version from \"none\"")
    );
    assert_eq!(
        check_codex_version(&refused()),
        Check::fail("Codex version", "codex --version exited with exit status: 3")
    );
    assert_eq!(
        check_codex_version(&Err("not found".into())),
        Check::fail("Codex version", "not found")
    );
}

#[test]
fn warnings_do_not_make_doctor_fail() {
    let checks = vec![Check::pass("a", "ok"), Check::warn("b", "optional")];
    assert!(!has_failures(&checks));
    assert!(has_failures(&[Check::fail("c", "broken")]));
}

#[test]
fn credentials_are_looked_at_for_the_provider_in_use() {
    let none = Err("no codex".to_owned());
    assert_eq!(
        check_provider(SummaryProvider::Local, &None, &none),
        Check::pass("provider", "local extractive provider needs no credentials")
    );
    assert_eq!(
        check_provider(SummaryProvider::Openai, &Some("key".into()), &none).level,
        CheckLevel::Pass
    );
    assert_eq!(
        check_provider(SummaryProvider::Openai, &Some("  ".into()), &none),
        Check::fail("provider", "OPENAI_API_KEY is not present in the environment")
    );
    assert_eq!(
        check_provider(SummaryProvider::Openai, &None, &none).level,
        CheckLevel::Fail
    );
    assert_eq!(
        check_provider(SummaryProvider::Codex, &None, &said("")).level,
        CheckLevel::Pass
    );
    assert_eq!(
        check_provider(SummaryProvider::Codex, &None, &refused()),
        Check::fail("provider", "codex login status exited with exit status: 3")
    );
    assert_eq!(
        check_provider(SummaryProvider::Codex, &None, &none),
        Check::fail("provider", "run codex login status: no codex")
    );
}

fn observations() -> Observations {
    Observations {
        config: Ok(Config::default()),
        codex: said("codex-cli 0.150.0"),
        app_server: Ok(()),
        integrity: Ok("ok".into()),
        terminal: Some("/usr/bin/x-terminal-emulator".into()),
        setsid: Some("/usr/bin/setsid".into()),
        hooks_path: Ok("/home/me/.codex/hooks.json".into()),
        hook: Ok(false),
        api_key: None,
        login: said("Logged in"),
    }
}

#[test]
fn a_machine_in_order_has_no_failures() {
    let paths = AppPaths::from_roots("/data", "/config", "/state");
    let checks = run(&paths, &observations());
    let lines: Vec<String> = checks.iter().map(check_line).collect();
    assert_eq!(
        lines,
        vec![
            "[PASS] config           valid: /config/codex-resume-tracker/config.toml",
            "[PASS] Codex version    0.150.0 is compatible (requires 0.144.1+)",
            "[PASS] app-server       initialize and thread/list succeeded",
            "[PASS] database         integrity ok: /data/codex-resume-tracker/tracker.sqlite3",
            "[PASS] terminal         /usr/bin/x-terminal-emulator",
            "[PASS] worker detach    /usr/bin/setsid",
            "[WARN] SessionEnd hook  not installed in /home/me/.codex/hooks.json; run setup or merge the snippet",
            "[PASS] provider         Codex login status is valid for ephemeral summaries",
        ]
    );
    assert!(!has_failures(&checks));
}

#[test]
fn a_machine_out_of_order_is_told_all_of_it() {
    let paths = AppPaths::from_roots("/data", "/config", "/state");
    let seen = Observations {
        config: Err("read tracker config".into()),
        app_server: Err("start codex app-server".into()),
        integrity: Ok("row 3 missing".into()),
        terminal: None,
        setsid: None,
        hook: Err("parse Codex hooks file".into()),
        ..observations()
    };
    let checks = run(&paths, &seen);
    let details: Vec<&str> = checks.iter().map(|check| check.detail.as_str()).collect();
    assert_eq!(
        details,
        vec![
            "read tracker config",
            "0.150.0 is compatible (requires 0.144.1+)",
            "start codex app-server",
            "integrity check: row 3 missing",
            "setsid was not found; install util-linux",
            "parse Codex hooks file",
        ]
    );
    assert!(has_failures(&checks));
    let seen = Observations { terminal: None, hook: Ok(true), ..observations() };
    let checks = run(&paths, &seen);
    assert_eq!(
        checks[4],
        Check::fail("terminal", "executable \"x-terminal-emulator\" not found on PATH")
    );
    assert_eq!(
        checks[6],
        Check::pass(
            "SessionEnd hook",
            "installed in /home/me/.codex/hooks.json; approve it with /hooks"
        )
    );
    let seen = Observations { hooks_path: Err("HOME is not set".into()), ..observations() };
    assert_eq!(run(&paths, &seen)[6], Check::fail("SessionEnd hook", "HOME is not set"));
}
