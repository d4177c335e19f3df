use codex_resume_tracker::paths::{codex_home, join_path, AppPaths};
use codex_resume_tracker::text::{
    contains, decimal_text, is_whitespace, join, less, lines, parse_usize, replace, same,
    split, split_whitespace, strip_prefix, to_ascii_lowercase, trim, without_last,
    NumberFault,
};

#[test]
fn white_space_is_that_of_unicode() {
    for code in 0..=0x10ffff_u32 {
        if let Some(c) = char::from_u32(code) {
            assert_eq!(is_whitespace(c), c.is_whitespace(), "{code:x}");
        }
    }
}

const SAMPLES: [&str; 9] = [
    "",
    " ",
    "abc",
    "  two  words ",
    "tab\tand\nline\r\nend\r\n",
    "a,b,,c,",
    "ÄÖ ß İ Σ",
    "\u{3000}wide\u{2003}",
    "last\r",
];

#[test]
fn texts_are_taken_apart_as_std_does() {
    for sample in SAMPLES {
        assert_eq!(trim(sample), sample.trim());
        assert_eq!(split_whitespace(sample), sample.split_whitespace().collect::<Vec<_>>());
        assert_eq!(lines(sample), sample.lines().collect::<Vec<_>>());
        assert_eq!(split(sample, ','), sample.split(',').collect::<Vec<_>>());
        assert_eq!(to_ascii_lowercase(sample), sample.to_ascii_lowercase());
        assert_eq!(replace(sample, "a", "xy"), sample.replace("a", "xy"));
        assert_eq!(replace(sample, ", ", ""), sample.replace(", ", ""));
        for other in SAMPLES {
            assert_eq!(contains(sample, other), sample.contains(other));
            assert_eq!(less(sample, other), sample < other);
            assert_eq!(same(sample, other), sample == other);
            assert_eq!(strip_prefix(sample, other), sample.strip_prefix(other).unwrap_or(sample));
        }
    }
    assert_eq!(replace("aaaa", "aa", "b"), "bb");
    assert_eq!(join(&vec!["a".into(), "".into(), "b".into()], ", "), "a, , b");
    assert_eq!(without_last("aé"), "a");
    assert_eq!(without_last(""), "");
}

#[test]
fn numbers_are_read_and_written() {
    assert_eq!(decimal_text(0), "0");
    assert_eq!(decimal_text(u64::MAX), "18446744073709551615");
    assert_eq!(parse_usize("+42"), Ok(42));
    assert_eq!(parse_usize("0007"), Ok(7));
    assert_eq!(parse_usize("18446744073709551615"), Ok(usize::MAX));
    assert_eq!(parse_usize("18446744073709551616"), Err(NumberFault::TooLarge));
    assert_eq!(parse_usize("99999999999999999999x"), Err(NumberFault::TooLarge));
    assert_eq!(parse_usize(""), Err(NumberFault::Empty));
    assert_eq!(parse_usize("+"), Err(NumberFault::InvalidDigit));
    assert_eq!(parse_usize("-1"), Err(NumberFault::InvalidDigit));
    assert_eq!(parse_usize("1 "), Err(NumberFault::InvalidDigit));
}

#[test]
fn paths_are_put_together() {
    for base in ["", "/", "/a", "/a/", "b"] {
        for name in ["c", "/d", "e/f", ""] {
            assert_eq!(
                join_path(base, name),
                std::path::Path::new(base).join(name).to_str().unwrap(),
                "{base:?} {name:?}"
            );
        }
    }
}

#[test]
fn directories_follow_the_environment() {
    let paths = AppPaths::discover(Some("/home/me"), None, Some("/cfg"), None).unwrap();
    assert_eq!(paths.data_dir, "/home/me/.local/share/codex-resume-tracker");
    assert_eq!(paths.config_dir, "/cfg/codex-resume-tracker");
    assert_eq!(paths.state_dir, "/home/me/.local/state/codex-resume-tracker");
    assert_eq!(paths.database(), "/home/me/.local/share/codex-resume-tracker/tracker.sqlite3");
    assert_eq!(paths.config(), "/cfg/codex-resume-tracker/config.toml");
    assert_eq!(paths.worker_log(), "/home/me/.local/state/codex-resume-tracker/worker.log");
    assert_eq!(
        paths.summary_schema(),
        "/home/me/.local/state/codex-resume-tracker/summary-output.schema.json"
    );
    assert_eq!(
        AppPaths::discover(None, Some("/d"), Some("/c"), Some("/s")).unwrap_err(),
        "HOME is not set; cannot resolve XDG paths"
    );
    assert_eq!(codex_home(None, Some("/home/me")).unwrap(), "/home/me/.codex");
    assert_eq!(codex_home(Some("/x"), Some("/home/me")).unwrap(), "/x");
}
