use codex_resume_tracker::config::Config;
use codex_resume_tracker::terminal::{executable_candidates, render_argv};

#[test]
fn default_terminal_contract_renders_expected_resume_argv() {
    let template = vec![
        "x-terminal-emulator".into(),
        "-e".into(),
        "codex".into(),
        "-C".into(),
        "{cwd}".into(),
        "resume".into(),
        "{thread_id}".into(),
    ];
    assert_eq!(
        render_argv(&template, "/work/repo", "thr_123").unwrap(),
        vec!["x-terminal-emulator", "-e", "codex", "-C", "/work/repo", "resume", "thr_123"]
    );
}

#[test]
fn values_remain_single_arguments_without_shell_interpolation() {
    let template = vec!["terminal".into(), "{cwd}".into(), "{thread_id}".into()];
    let argv = render_argv(&template, "/repo; touch owned", "id$(whoami)").unwrap();
    assert_eq!(argv[1], "/repo; touch owned");
    assert_eq!(argv[2], "id$(whoami)");
    assert_eq!(argv.len(), 3);
}

#[test]
fn templates_that_lack_something_are_refused() {
    let refused = |parts: &[&str]| {
        let template: Vec<String> = parts.iter().map(|part| (*part).to_owned()).collect();
        render_argv(&template, "/repo", "id").unwrap_err()
    };
    assert_eq!(refused(&[]), "terminal argv template is empty");
    assert_eq!(refused(&["  ", "{cwd}", "{thread_id}"]), "terminal argv template is empty");
    assert_eq!(refused(&["x", "{thread_id}"]), "terminal argv template omitted {cwd}");
    assert_eq!(refused(&["x", "{cwd}"]), "terminal argv template omitted {thread_id}");
    assert_eq!(refused(&["x"]), "terminal argv template omitted {cwd}");
}

#[test]
fn placeholders_within_arguments_are_exchanged() {
    let template = vec!["sh {cwd}".into(), "a={cwd}/{cwd}:{thread_id}{thread_id}".into()];
    assert_eq!(render_argv(&template, "/r", "t").unwrap(), vec!["sh /r", "a=/r//r:tt"]);
    let nested = vec!["x".into(), "{cwd}".into(), "{thread_id}".into()];
    assert_eq!(render_argv(&nested, "/{thread_id}", "t").unwrap()[1], "/{thread_id}");
    assert_eq!(render_argv(&nested, "/r", "{cwd}").unwrap()[2], "{cwd}");
    let broken = vec!["{cw{cwd}d}".into(), "{thread_id".into(), "{{thread_id}}".into()];
    assert_eq!(
        render_argv(&broken, "/r", "t").unwrap(),
        vec!["{cw/rd}", "{thread_id", "{t}"]
    );
}

#[test]
fn a_directory_that_holds_a_placeholder_is_handed_on_as_it_is() {
    let template = Config::default().terminal_argv;
    assert_eq!(
        render_argv(&template, "/w/{thread_id}", "thr_1").unwrap(),
        vec![
            "x-terminal-emulator",
            "-e",
            "codex",
            "-C",
            "/w/{thread_id}",
            "resume",
            "thr_1"
        ]
    );
}

#[test]
fn programs_are_looked_for_on_the_path() {
    assert_eq!(executable_candidates("./tool", Some("/bin:/usr/bin")), vec!["./tool"]);
    assert_eq!(
        executable_candidates("tool", Some("/bin:/opt/:")),
        vec!["/bin/tool", "/opt/tool", "tool"]
    );
    assert!(executable_candidates("tool", None).is_empty());
}
