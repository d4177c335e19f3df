//! Starting Codex in a new terminal.

use vstd::prelude::*;

use crate::config;
use crate::config::any_contains;
use crate::paths;
use crate::paths::join_path;
use crate::text;
use crate::text::{chars_of, contains, matches_at, split, trim};

verus! {

/// An argument with its placeholders exchanged for their values, from its start to its end. What was
/// put in is not searched for placeholders again.
pub open spec fn rendered_arg(
    argument: Seq<char>,
    cwd: Seq<char>,
    thread_id: Seq<char>,
) -> Seq<char>
    decreases argument.len(),
{
    proof {
        reveal_strlit("{cwd}");
        reveal_strlit("{thread_id}");
    }
    if argument.len() == 0 {
        argument
    } else if text::holds_at(argument, "{cwd}"@, 0) {
        cwd + rendered_arg(argument.skip("{cwd}"@.len() as int), cwd, thread_id)
    } else if text::holds_at(argument, "{thread_id}"@, 0) {
        thread_id + rendered_arg(argument.skip("{thread_id}"@.len() as int), cwd, thread_id)
    } else {
        seq![argument[0]] + rendered_arg(argument.skip(1), cwd, thread_id)
    }
}

fn render_arg(argument: &str, cwd: &str, thread_id: &str) -> (r: String)
    ensures
        r@ == rendered_arg(argument@, cwd@, thread_id@),
{
    let chars = chars_of(argument);
    let cwd_mark = chars_of("{cwd}");
    let id_mark = chars_of("{thread_id}");
    let ghost whole = rendered_arg(argument@, cwd@, thread_id@);
    let mut out = String::new();
    let mut i: usize = 0;
    proof {
        reveal_strlit("{cwd}");
        reveal_strlit("{thread_id}");
        assert(chars@.skip(0) =~= chars@);
        assert(out@ + whole =~= whole);
    }
    while i < chars.len()
        invariant
            i <= chars@.len(),
            cwd_mark@ == "{cwd}"@,
            id_mark@ == "{thread_id}"@,
            cwd_mark@.len() > 0,
            id_mark@.len() > 0,
            whole == out@ + rendered_arg(chars@.skip(i as int), cwd@, thread_id@),
        decreases chars@.len() - i,
    {
        let ghost before = out@;
        let ghost rest = chars@.skip(i as int);
        proof {
            lemma_holds_here(chars@, cwd_mark@, i as int);
            lemma_holds_here(chars@, id_mark@, i as int);
        }
        if matches_at(&chars, &cwd_mark, i) {
            assert(rest.skip(cwd_mark@.len() as int) =~= chars@.skip(i + cwd_mark@.len()));
            out.append(cwd);
            i += cwd_mark.len();
        } else if matches_at(&chars, &id_mark, i) {
            assert(rest.skip(id_mark@.len() as int) =~= chars@.skip(i + id_mark@.len()));
            out.append(thread_id);
            i += id_mark.len();
        } else {
            assert(rest.skip(1) =~= chars@.skip(i + 1));
            out.push(chars[i]);
            assert(out@ =~= before + seq![rest[0]]);
            i += 1;
        }
        assert(out@ + rendered_arg(chars@.skip(i as int), cwd@, thread_id@) =~= before
            + rendered_arg(rest, cwd@, thread_id@));
    }
    assert(chars@.skip(i as int) =~= Seq::<char>::empty());
    assert(out@ + Seq::<char>::empty() =~= out@);
    out
}

proof fn lemma_holds_here(value: Seq<char>, needle: Seq<char>, at: int)
    requires
        0 <= at <= value.len(),
    ensures
        text::holds_at(value.skip(at), needle, 0) == text::holds_at(value, needle, at),
{
    if at + needle.len() <= value.len() {
        assert(value.skip(at).subrange(0, needle.len() as int) =~= value.subrange(
            at,
            at + needle.len(),
        ));
    }
}

/// The arguments that start a terminal, or what the template lacks.
pub open spec fn rendered_argv(
    template: Seq<Seq<char>>,
    cwd: Seq<char>,
    thread_id: Seq<char>,
) -> Result<Seq<Seq<char>>, Seq<char>> {
    if template.len() == 0 || text::trimmed(template[0]).len() == 0 {
        Err("terminal argv template is empty"@)
    } else if !config::some_holds(template, "{cwd}"@) {
        Err("terminal argv template omitted {cwd}"@)
    } else if !config::some_holds(template, "{thread_id}"@) {
        Err("terminal argv template omitted {thread_id}"@)
    } else {
        Ok(Seq::new(template.len(), |i: int| rendered_arg(template[i], cwd, thread_id)))
    }
}

pub fn render_argv(template: &[String], cwd: &str, thread_id: &str) -> (r: Result<
    Vec<String>,
    String,
>)
    ensures
        match r {
            Ok(argv) => rendered_argv(template.deep_view(), cwd@, thread_id@) == Ok::<
                Seq<Seq<char>>,
                Seq<char>,
            >(argv.deep_view()),
            Err(error) => rendered_argv(template.deep_view(), cwd@, thread_id@) == Err::<
                Seq<Seq<char>>,
                Seq<char>,
            >(error@),
        },
{
    let ghost all = template.deep_view();
    if template.len() == 0 || trim(template[0].as_str()).as_str().is_empty() {
        assert(all.len() > 0 ==> all[0] == template@[0]@);
        return Err("terminal argv template is empty".to_owned());
    }
    assert(all[0] == template@[0]@);
    if !any_contains(template, "{cwd}") {
        return Err("terminal argv template omitted {cwd}".to_owned());
    }
    if !any_contains(template, "{thread_id}") {
        return Err("terminal argv template omitted {thread_id}".to_owned());
    }
    let mut argv: Vec<String> = Vec::new();
    let mut i: usize = 0;
    while i < template.len()
        invariant
            i <= template@.len(),
            all == template.deep_view(),
            argv@.len() == i,
            forall|k: int|
                0 <= k < i ==> (#[trigger] argv@[k])@ == rendered_arg(all[k], cwd@, thread_id@),
        decreases template@.len() - i,
    {
        argv.push(render_arg(template[i].as_str(), cwd, thread_id));
        i += 1;
    }
    assert(argv.deep_view() =~= Seq::new(
        all.len(),
        |k: int| rendered_arg(all[k], cwd@, thread_id@),
    ));
    Ok(argv)
}

/// The files that may be `program`, in the order in which they are tried, where `path` is the value
/// of `PATH`.
pub open spec fn program_files(program: Seq<char>, path: Option<Seq<char>>) -> Seq<Seq<char>> {
    if text::holds(program, "/"@) {
        seq![program]
    } else {
        match path {
            Some(path) => {
                let directories = text::pieces(path, ':');
                Seq::new(directories.len(), |i: int| paths::path_under(directories[i], program))
            },
            None => Seq::empty(),
        }
    }
}

pub fn executable_candidates(program: &str, path: Option<&str>) -> (r: Vec<String>)
    ensures
        r.deep_view() == program_files(program@, path.deep_view()),
{
    let mut out: Vec<String> = Vec::new();
    if contains(program, "/") {
        out.push(program.to_owned());
        assert(out.deep_view() =~= seq![program@]);
        return out;
    }
    match path {
        Some(path) => {
            let directories = split(path, ':');
            let ghost expected = program_files(program@, Some(path@));
            let mut i: usize = 0;
            while i < directories.len()
                invariant
                    i <= directories@.len(),
                    directories.deep_view() == text::pieces(path@, ':'),
                    expected == program_files(program@, Some(path@)),
                    !text::holds(program@, "/"@),
                    out@.len() == i,
                    forall|k: int| 0 <= k < i ==> (#[trigger] out@[k])@ == expected[k],
                decreases directories@.len() - i,
            {
                assert(directories.deep_view()[i as int] == directories@[i as int]@);
                out.push(join_path(directories[i].as_str(), program));
                i += 1;
            }
            assert(directories.deep_view().len() == directories@.len());
            assert(out.deep_view() =~= expected);
        },
        None => {
            assert(out.deep_view() =~= Seq::empty());
        },
    }
    out
}

proof fn lemma_plain_is_kept(argument: Seq<char>, cwd: Seq<char>, thread_id: Seq<char>)
    requires
        !text::holds(argument, "{cwd}"@),
        !text::holds(argument, "{thread_id}"@),
    ensures
        rendered_arg(argument, cwd, thread_id) == argument,
    decreases argument.len(),
{
    if argument.len() > 0 {
        assert(!text::holds_at(argument, "{cwd}"@, 0));
        assert(!text::holds_at(argument, "{thread_id}"@, 0));
        let rest = argument.skip(1);
        lemma_lacks_after(argument, "{cwd}"@);
        lemma_lacks_after(argument, "{thread_id}"@);
        lemma_plain_is_kept(rest, cwd, thread_id);
        assert(seq![argument[0]] + rest =~= argument);
    }
}

proof fn lemma_lacks_after(argument: Seq<char>, needle: Seq<char>)
    requires
        argument.len() > 0,
        !text::holds(argument, needle),
    ensures
        !text::holds(argument.skip(1), needle),
{
    let rest = argument.skip(1);
    assert forall|i: int| !text::holds_at(rest, needle, i) by {
        if text::holds_at(rest, needle, i) {
            assert(argument.subrange(i + 1, i + 1 + needle.len()) =~= rest.subrange(
                i,
                i + needle.len(),
            ));
            assert(text::holds_at(argument, needle, i + 1));
        }
    }
}

/// A value stays a single argument as it is, whatever a shell would make of it and whatever
/// placeholders it holds: an argument that is a placeholder becomes the value, and an argument
/// without placeholders is not changed. The number of arguments stays the same.
pub proof fn values_stay_single_arguments(
    template: Seq<Seq<char>>,
    cwd: Seq<char>,
    thread_id: Seq<char>,
    i: int,
)
    requires
        rendered_argv(template, cwd, thread_id) is Ok,
        0 <= i < template.len(),
    ensures
        rendered_argv(template, cwd, thread_id)->Ok_0.len() == template.len(),
        template[i] == "{cwd}"@ ==> rendered_argv(template, cwd, thread_id)->Ok_0[i] == cwd,
        template[i] == "{thread_id}"@ ==> rendered_argv(template, cwd, thread_id)->Ok_0[i]
            == thread_id,
        !text::holds(template[i], "{cwd}"@) && !text::holds(template[i], "{thread_id}"@)
            ==> rendered_argv(template, cwd, thread_id)->Ok_0[i] == template[i],
{
    let c = "{cwd}"@;
    let t = "{thread_id}"@;
    reveal_strlit("{cwd}");
    reveal_strlit("{thread_id}");
    let nothing = Seq::<char>::empty();
    assert(rendered_arg(nothing, cwd, thread_id) == nothing);
    if template[i] == c {
        assert(c.subrange(0, c.len() as int) =~= c);
        assert(c.skip(c.len() as int) =~= nothing);
        assert(cwd + nothing =~= cwd);
    } else if template[i] == t {
        assert(!text::holds_at(t, c, 0)) by {
            if text::holds_at(t, c, 0) {
                assert(t.subrange(0, c.len() as int)[1] == c[1]);
            }
        }
        assert(t.subrange(0, t.len() as int) =~= t);
        assert(t.skip(t.len() as int) =~= nothing);
        assert(thread_id + nothing =~= thread_id);
    }
    if !text::holds(template[i], c) && !text::holds(template[i], t) {
        lemma_plain_is_kept(template[i], cwd, thread_id);
    }
}

/// A configuration without a fault has a terminal template that can be rendered for every thread.
pub proof fn valid_templates_render(settings: config::ConfigView, cwd: Seq<char>, thread_id: Seq<char>)
    requires
        config::config_fault(settings) is None,
    ensures
        rendered_argv(settings.terminal_argv, cwd, thread_id) is Ok,
{
}

} // verus!
