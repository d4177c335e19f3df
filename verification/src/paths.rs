//! Where the tracker keeps its files.

use vstd::prelude::*;

verus! {

/// `name` under the directory `base`: `name` itself where it is absolute.
pub open spec fn path_under(base: Seq<char>, name: Seq<char>) -> Seq<char> {
    if name.len() > 0 && name[0] == '/' {
        name
    } else if base.len() == 0 || base.last() == '/' {
        base + name
    } else {
        base.push('/') + name
    }
}

pub fn join_path(base: &str, name: &str) -> (r: String)
    ensures
        r@ == path_under(base@, name@),
{
    let base_len: usize = base.unicode_len();
    if name.unicode_len() > 0 && name.get_char(0) == '/' {
        return name.to_owned();
    }
    let mut path = base.to_owned();
    if base_len > 0 && base.get_char(base_len - 1) != '/' {
        path.push('/');
    }
    path.concat(name)
}

/// The directories of the tracker.
#[derive(Debug, PartialEq, Eq)]
pub struct AppPaths {
    pub data_dir: String,
    pub config_dir: String,
    pub state_dir: String,
}

/// The directories as a mathematical value.
#[verifier::ext_equal]
pub struct PathsView {
    pub data_dir: Seq<char>,
    pub config_dir: Seq<char>,
    pub state_dir: Seq<char>,
}

impl View for AppPaths {
    type V = PathsView;

    open spec fn view(&self) -> PathsView {
        PathsView {
            data_dir: self.data_dir@,
            config_dir: self.config_dir@,
            state_dir: self.state_dir@,
        }
    }
}

impl Clone for AppPaths {
    fn clone(&self) -> (r: Self)
        ensures
            r@ == self@,
    {
        AppPaths {
            data_dir: self.data_dir.clone(),
            config_dir: self.config_dir.clone(),
            state_dir: self.state_dir.clone(),
        }
    }
}

/// The directories under three roots.
pub open spec fn paths_under(data: Seq<char>, config: Seq<char>, state: Seq<char>) -> PathsView {
    PathsView {
        data_dir: path_under(data, crate::APP_NAME@),
        config_dir: path_under(config, crate::APP_NAME@),
        state_dir: path_under(state, crate::APP_NAME@),
    }
}

/// A root that the environment names, else the usual one in the home directory.
pub open spec fn root_or(named: Option<Seq<char>>, home: Seq<char>, usual: Seq<char>) -> Seq<char> {
    match named {
        Some(root) => root,
        None => path_under(home, usual),
    }
}

fn root_or_usual(named: Option<&str>, home: &str, usual: &str) -> (r: String)
    ensures
        r@ == root_or(named.deep_view(), home@, usual@),
{
    match named {
        Some(root) => root.to_owned(),
        None => join_path(home, usual),
    }
}

/// The directories for the values of `HOME`, `XDG_DATA_HOME`, `XDG_CONFIG_HOME` and
/// `XDG_STATE_HOME`.
pub open spec fn discovered(
    home: Option<Seq<char>>,
    data: Option<Seq<char>>,
    config: Option<Seq<char>>,
    state: Option<Seq<char>>,
) -> Result<PathsView, Seq<char>> {
    match home {
        None => Err("HOME is not set; cannot resolve XDG paths"@),
        Some(home) => Ok(
            paths_under(
                root_or(data, home, ".local/share"@),
                root_or(config, home, ".config"@),
                root_or(state, home, ".local/state"@),
            ),
        ),
    }
}

impl AppPaths {
    pub fn discover(
        home: Option<&str>,
        data: Option<&str>,
        config: Option<&str>,
        state: Option<&str>,
    ) -> (r: Result<AppPaths, String>)
        ensures
            match r {
                Ok(paths) => discovered(
                    home.deep_view(),
                    data.deep_view(),
                    config.deep_view(),
                    state.deep_view(),
                ) == Ok::<PathsView, Seq<char>>(paths@),
                Err(error) => discovered(
                    home.deep_view(),
                    data.deep_view(),
                    config.deep_view(),
                    state.deep_view(),
                ) == Err::<PathsView, Seq<char>>(error@),
            },
    {
        match home {
            None => Err("HOME is not set; cannot resolve XDG paths".to_owned()),
            Some(home) => Ok(
                AppPaths::from_roots(
                    root_or_usual(data, home, ".local/share").as_str(),
                    root_or_usual(config, home, ".config").as_str(),
                    root_or_usual(state, home, ".local/state").as_str(),
                ),
            ),
        }
    }

    pub fn from_roots(data_root: &str, config_root: &str, state_root: &str) -> (r: AppPaths)
        ensures
            r@ == paths_under(data_root@, config_root@, state_root@),
    {
        AppPaths {
            data_dir: join_path(data_root, crate::APP_NAME),
            config_dir: join_path(config_root, crate::APP_NAME),
            state_dir: join_path(state_root, crate::APP_NAME),
        }
    }

    pub fn database(&self) -> (r: String)
        ensures
            r@ == path_under(self@.data_dir, "tracker.sqlite3"@),
    {
        join_path(self.data_dir.as_str(), "tracker.sqlite3")
    }

    pub fn config(&self) -> (r: String)
        ensures
            r@ == path_under(self@.config_dir, "config.toml"@),
    {
        join_path(self.config_dir.as_str(), "config.toml")
    }

    pub fn worker_log(&self) -> (r: String)
        ensures
            r@ == path_under(self@.state_dir, "worker.log"@),
    {
        join_path(self.state_dir.as_str(), "worker.log")
    }

    pub fn summary_schema(&self) -> (r: String)
        ensures
            r@ == schema_path(self@),
    {
        join_path(self.state_dir.as_str(), "summary-output.schema.json")
    }
}

/// The file that holds the schema of what Codex answers.
pub open spec fn schema_path(paths: PathsView) -> Seq<char> {
    path_under(paths.state_dir, "summary-output.schema.json"@)
}

/// The directory of Codex for the values of `CODEX_HOME` and `HOME`.
pub open spec fn codex_dir(named: Option<Seq<char>>, home: Option<Seq<char>>) -> Result<
    Seq<char>,
    Seq<char>,
> {
    match named {
        Some(path) => Ok(path),
        None => match home {
            Some(home) => Ok(path_under(home, ".codex"@)),
            None => Err("HOME is not set; cannot resolve CODEX_HOME"@),
        },
    }
}

pub fn codex_home(named: Option<&str>, home: Option<&str>) -> (r: Result<String, String>)
    ensures
        match r {
            Ok(path) => codex_dir(named.deep_view(), home.deep_view()) == Ok::<
                Seq<char>,
                Seq<char>,
            >(path@),
            Err(error) => codex_dir(named.deep_view(), home.deep_view()) == Err::<
                Seq<char>,
                Seq<char>,
            >(error@),
        },
{
    match named {
        Some(path) => Ok(path.to_owned()),
        None => match home {
            Some(home) => Ok(join_path(home, ".codex")),
            None => Err("HOME is not set; cannot resolve CODEX_HOME".to_owned()),
        },
    }
}

} // verus!
