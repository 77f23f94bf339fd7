//! Where the files of the stores lie.

use vstd::prelude::*;

use std::path::PathBuf;

verus! {

/// What the environment says of where files lie. A variable that is not set is `None`.
#[derive(Debug, Clone)]
pub struct PathEnv {
    /// `CRS_RX_PREFIXES`: the prefix config.
    pub prefixes: Option<PathBuf>,
    /// `CRS_RX_STATS`: the stats.
    pub stats: Option<PathBuf>,
    /// `CRS_CTX_DIR`: the directory of the probes.
    pub ctx_dir: Option<PathBuf>,
    /// `XDG_CONFIG_HOME`: the directory of config files.
    pub config_home: Option<PathBuf>,
    /// `HOME`: the home directory.
    pub home: Option<PathBuf>,
}

/// A path as a base and the components that are to be joined to it, one after another.
#[derive(Debug)]
pub struct Location {
    /// The base; `None` for the empty path.
    pub base: Option<PathBuf>,
    pub parts: Vec<&'static str>,
}

/// What a [`Location`] holds.
#[verifier::ext_equal]
pub struct LocationView {
    pub base: Option<PathBuf>,
    pub parts: Seq<Seq<char>>,
}

impl DeepView for Location {
    type V = LocationView;

    open spec fn deep_view(&self) -> LocationView {
        LocationView { base: self.base, parts: self.parts.deep_view() }
    }
}

/// The location that is a path as it stands.
pub open spec fn at(path: PathBuf) -> LocationView {
    LocationView { base: Some(path), parts: seq![] }
}

/// The location of `file` in the directory `dir` of the config home, which is `XDG_CONFIG_HOME`
/// where it is set, and else `.config` in the home directory.
pub open spec fn in_config_home(env: PathEnv, dir: Seq<char>, file: Seq<char>) -> LocationView {
    match env.config_home {
        Some(base) => LocationView { base: Some(base), parts: seq![dir, file] },
        None => LocationView { base: env.home, parts: seq![".config"@, dir, file] },
    }
}

/// The location that is `over` where it is given, and else that of `file` in `dir` of the config
/// home.
pub open spec fn or_in_config_home(
    over: Option<PathBuf>,
    env: PathEnv,
    dir: Seq<char>,
    file: Seq<char>,
) -> LocationView {
    match over {
        Some(path) => at(path),
        None => in_config_home(env, dir, file),
    }
}

/// The location of `candidates.toml` in `CRS_CTX_DIR` where it is set, and else in `.ctx`.
pub open spec fn probes_location(env: PathEnv) -> LocationView {
    match env.ctx_dir {
        Some(base) => LocationView { base: Some(base), parts: seq!["candidates.toml"@] },
        None => LocationView { base: None, parts: seq![".ctx"@, "candidates.toml"@] },
    }
}

/// The location of the prefix config: `CRS_RX_PREFIXES` where it is set, and else
/// `rx/prefixes.toml` in the config home.
pub open spec fn prefixes_location(env: PathEnv) -> LocationView {
    or_in_config_home(env.prefixes, env, "rx"@, "prefixes.toml"@)
}

/// The prefix config lies at `CRS_RX_PREFIXES` where it is set; else at `rx/prefixes.toml` in
/// `XDG_CONFIG_HOME` where that is set; and else at `.config/rx/prefixes.toml` in `HOME`, which
/// counts as empty where it is not set.
pub proof fn law_prefixes_location(env: PathEnv)
    ensures
        env.prefixes matches Some(path) ==> prefixes_location(env) == at(path),
        env.prefixes is None && env.config_home is Some ==> prefixes_location(env) == (
        LocationView { base: env.config_home, parts: seq!["rx"@, "prefixes.toml"@] }),
        env.prefixes is None && env.config_home is None ==> prefixes_location(env) == (
        LocationView { base: env.home, parts: seq![".config"@, "rx"@, "prefixes.toml"@] }),
{
}

/// What is given explicitly is taken as it stands, whatever the environment says.
pub proof fn law_override_wins(path: PathBuf, env: PathEnv, dir: Seq<char>, file: Seq<char>)
    ensures
        or_in_config_home(Some(path), env, dir, file) == at(path),
{
}

/// A copy of a path that may be given.
fn copy_path(path: &Option<PathBuf>) -> (r: Option<PathBuf>)
    ensures
        r == *path,
{
    match path {
        Some(path) => Some(path.clone()),
        None => None,
    }
}

/// `over` where it is given, and else `file` in `dir` of the config home.
pub fn locate(
    over: &Option<PathBuf>,
    env: &PathEnv,
    dir: &'static str,
    file: &'static str,
) -> (r: Location)
    ensures
        r.deep_view() == or_in_config_home(*over, *env, dir@, file@),
{
    let mut parts: Vec<&'static str> = Vec::new();
    let base = if over.is_some() {
        copy_path(over)
    } else if env.config_home.is_some() {
        parts.push(dir);
        parts.push(file);
        copy_path(&env.config_home)
    } else {
        parts.push(".config");
        parts.push(dir);
        parts.push(file);
        copy_path(&env.home)
    };
    let r = Location { base, parts };
    assert(r.deep_view() =~= or_in_config_home(*over, *env, dir@, file@));
    r
}

/// `candidates.toml` in the directory of the probes.
pub fn locate_probes(env: &PathEnv) -> (r: Location)
    ensures
        r.deep_view() == probes_location(*env),
{
    let mut parts: Vec<&'static str> = Vec::new();
    if env.ctx_dir.is_none() {
        parts.push(".ctx");
    }
    parts.push("candidates.toml");
    let r = Location { base: copy_path(&env.ctx_dir), parts };
    assert(r.deep_view() =~= probes_location(*env));
    r
}

/// The resolver that goes by the environment.
#[derive(Debug, Clone)]
pub struct EnvPathResolver {
    /// What the environment says.
    pub env: PathEnv,
}

impl EnvPathResolver {
    /// Where the prefix config lies.
    pub fn prefix_config_path(&self) -> (r: Location)
        ensures
            r.deep_view() == prefixes_location(self.env),
    {
        locate(&self.env.prefixes, &self.env, "rx", "prefixes.toml")
    }

    /// Where the probe store lies.
    pub fn probe_store_path(&self) -> (r: Location)
        ensures
            r.deep_view() == probes_location(self.env),
    {
        locate_probes(&self.env)
    }
}

/// Port: resolves the paths of the prefix config and of the probe store.
pub trait PathResolver {
    /// Whether `prefix_config_path` may answer with `path`.
    open spec fn may_hold_config(&self, path: PathBuf) -> bool {
        true
    }

    /// Whether `probe_store_path` may answer with `path`.
    open spec fn may_hold_probes(&self, path: PathBuf) -> bool {
        true
    }

    /// The path of the prefix config.
    fn prefix_config_path(&self) -> (r: PathBuf)
        ensures
            self.may_hold_config(r),
    ;

    /// The path of the probe store.
    fn probe_store_path(&self) -> (r: PathBuf)
        ensures
            self.may_hold_probes(r),
    ;
}

/// The resolver whose paths are given when it is made.
#[derive(Debug, Clone)]
pub struct ExplicitPathResolver {
    pub prefix_config: PathBuf,
    pub probe_store: PathBuf,
}

impl PathResolver for ExplicitPathResolver {
    open spec fn may_hold_config(&self, path: PathBuf) -> bool {
        path == self.prefix_config
    }

    open spec fn may_hold_probes(&self, path: PathBuf) -> bool {
        path == self.probe_store
    }

    fn prefix_config_path(&self) -> (r: PathBuf) {
        self.prefix_config.clone()
    }

    fn probe_store_path(&self) -> (r: PathBuf) {
        self.probe_store.clone()
    }
}

/// A file lies where it is said to lie; else in its directory of `XDG_CONFIG_HOME` where that is
/// set; and else in its directory of `.config` in `HOME`, which counts as empty where it is not
/// set.
pub proof fn law_config_home(
    over: Option<PathBuf>,
    env: PathEnv,
    dir: Seq<char>,
    file: Seq<char>,
)
    ensures
        over is Some ==> or_in_config_home(over, env, dir, file) == (LocationView {
            base: over,
            parts: seq![],
        }),
        over is None && env.config_home is Some ==> or_in_config_home(over, env, dir, file) == (
        LocationView { base: env.config_home, parts: seq![dir, file] }),
        over is None && env.config_home is None ==> or_in_config_home(over, env, dir, file) == (
        LocationView { base: env.home, parts: seq![".config"@, dir, file] }),
{
}

/// The prefix config goes by `CRS_RX_PREFIXES`, and else lies in `rx` of the config home. The
/// probes lie in `CRS_CTX_DIR` where that is set, and else in `.ctx`.
pub proof fn law_locations(env: PathEnv)
    ensures
        prefixes_location(env) == or_in_config_home(env.prefixes, env, "rx"@, "prefixes.toml"@),
        env.ctx_dir is Some ==> probes_location(env) == (LocationView {
            base: env.ctx_dir,
            parts: seq!["candidates.toml"@],
        }),
        env.ctx_dir is None ==> probes_location(env) == (LocationView {
            base: None,
            parts: seq![".ctx"@, "candidates.toml"@],
        }),
{
}

/// A resolver with given paths answers with the one of the config for the config, and with the one
/// of the probes for the probes.
pub proof fn law_explicit(resolver: ExplicitPathResolver, path: PathBuf)
    ensures
        resolver.may_hold_config(path) <==> path == resolver.prefix_config,
        resolver.may_hold_probes(path) <==> path == resolver.probe_store,
{
}

} // verus!
