//! Where the configuration and the state files live.

use vstd::prelude::*;


verus! {

/// The files of the tool: the configuration, the sync state next to it, and
/// the directory that holds both.
#[derive(Debug)]
pub struct Paths {
    pub config: String,
    pub state: String,
    pub base_dir: String,
}

#[derive(Debug, PartialEq, Eq, Structural)]
pub enum PathsError {
    /// No application data directory could be determined.
    NoAppDir,
    /// The configuration path has no parent directory.
    NoParent,
}

/// What `Path::join` yields, as text.
pub uninterp spec fn spec_path_join(base: Seq<char>, name: Seq<char>) -> Seq<char>;

/// What `Path::parent` yields, as text.
pub uninterp spec fn spec_path_parent(path: Seq<char>) -> Option<Seq<char>>;

/// `base` joined with `name` (`Path::join`). Claimed: the result is std's
/// for these texts.
#[verifier::external_body]
pub(crate) fn path_join(base: &str, name: &str) -> (r: String)
    ensures
        r@ == spec_path_join(base@, name@),
{
    std::path::Path::new(base).join(name).to_string_lossy().into_owned()
}

/// The directory a path lies in (`Path::parent`). Claimed: the result is
/// std's for this text.
#[verifier::external_body]
pub(crate) fn path_parent(path: &str) -> (r: Option<String>)
    ensures
        crate::text::opt_text(r) == spec_path_parent(path@),
{
    match std::path::Path::new(path).parent() {
        Some(p) => Some(p.to_string_lossy().into_owned()),
        None => None,
    }
}

/// The user's data directory (`directories::BaseDirs::new`, then
/// `data_dir`: `~/Library/Application Support` on macOS, `~/.local/share` or
/// `$XDG_DATA_HOME` on Linux), when it can be determined and is UTF-8.
/// Nothing is claimed of the value: it depends on the environment.
#[verifier::external_body]
pub(crate) fn user_data_dir() -> (r: Option<String>) {
    match directories::BaseDirs::new() {
        Some(dirs) => match dirs.data_dir().to_str() {
            Some(s) => Some(s.to_owned()),
            None => None,
        },
        None => None,
    }
}

/// The name of the application's directory inside the user's data directory.
pub open spec fn app_dir_name() -> Seq<char> {
    "comdirect-ynab"@
}

/// Where the configuration lies by default, for the user's data directory
/// `data_dir`: `<data_dir>/comdirect-ynab/config.toml`.
pub open spec fn default_config_path(data_dir: Seq<char>) -> Seq<char> {
    spec_path_join(spec_path_join(data_dir, app_dir_name()), "config.toml"@)
}

/// The paths that follow from a configuration path: the directory it lies
/// in, and `state.json` in that directory.
pub fn paths_for_config(config: String) -> (r: Result<Paths, PathsError>)
    ensures
        match r {
            Ok(p) => p.config@ == config@ && spec_path_parent(config@) == Some(p.base_dir@)
                && p.state@ == spec_path_join(p.base_dir@, "state.json"@),
            Err(e) => spec_path_parent(config@) is None && e == PathsError::NoParent,
        },
{
    match path_parent(config.as_str()) {
        Some(base_dir) => {
            let state = path_join(base_dir.as_str(), "state.json");
            Ok(Paths { config, state, base_dir })
        },
        None => Err(PathsError::NoParent),
    }
}

/// The configuration path in effect: the override when there is one, else
/// the default one in `data_dir`.
pub open spec fn config_path_in(data_dir: Seq<char>, config_override: Option<String>) -> Seq<char> {
    match config_override {
        Some(c) => c@,
        None => default_config_path(data_dir),
    }
}

/// What the paths for `config_override` and the user's data directory
/// `data_dir` are: those [`paths_for_config`] gives for
/// [`config_path_in`].
pub open spec fn paths_outcome(
    data_dir: Seq<char>,
    config_override: Option<String>,
    r: Result<Paths, PathsError>,
) -> bool {
    let want = config_path_in(data_dir, config_override);
    match r {
        Ok(p) => p.config@ == want && spec_path_parent(want) == Some(p.base_dir@) && p.state@
            == spec_path_join(p.base_dir@, "state.json"@),
        Err(e) => spec_path_parent(want) is None && e == PathsError::NoParent,
    }
}

/// The paths for a configuration file at `config_override`, or at
/// `comdirect-ynab/config.toml` in the user's data directory `data_dir`.
pub fn paths_in(data_dir: String, config_override: Option<String>) -> (r: Result<Paths, PathsError>)
    ensures
        paths_outcome(data_dir@, config_override, r),
{
    let ghost want = config_path_in(data_dir@, config_override);
    let config_path = match config_override {
        Some(c) => c,
        None => {
            let app_dir = path_join(data_dir.as_str(), "comdirect-ynab");
            path_join(app_dir.as_str(), "config.toml")
        },
    };
    assert(config_path@ == want);
    paths_for_config(config_path)
}

impl Paths {
    /// The paths for a configuration file at `config_override`, or at
    /// `comdirect-ynab/config.toml` in the user's data directory:
    /// [`paths_in`] of the data directory looked up. The data directory is
    /// looked up either way, and its absence is an error either way; which
    /// directory it is depends on the environment.
    pub fn new(config_override: Option<String>) -> (r: Result<Paths, PathsError>)
        ensures
            r == Err::<Paths, PathsError>(PathsError::NoAppDir) || exists|d: Seq<char>|
                #[trigger] paths_outcome(d, config_override, r),
    {
        let data_dir = match user_data_dir() {
            Some(d) => d,
            None => return Err(PathsError::NoAppDir),
        };
        let ghost d = data_dir@;
        let r = paths_in(data_dir, config_override);
        assert(paths_outcome(d, config_override, r));
        r
    }
}

} // verus!
