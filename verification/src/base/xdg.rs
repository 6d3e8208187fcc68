//! Base directories. Paths are bytes, as the system has them.

use vstd::prelude::*;
use crate::utf8::copy_bytes;

verus! {

/// The variables of the environment that base directories come from, as far as
/// they are set.
pub struct Environment {
    pub xdg_data_home: Option<Vec<u8>>,
    pub xdg_config_home: Option<Vec<u8>>,
    pub xdg_cache_home: Option<Vec<u8>>,
    pub xdg_runtime_dir: Option<Vec<u8>>,
    pub home: Option<Vec<u8>>,
}

/// A base directory that is not known: neither the variable that names it nor
/// `HOME` is set.
#[derive(Clone, Copy, Debug, PartialEq, Eq, Structural)]
pub enum NoBase {
    Data,
    Config,
    Cache,
}

/// The variable that names a base directory.
pub open spec fn variable_of(e: NoBase) -> Seq<char> {
    match e {
        NoBase::Data => "XDG_DATA_HOME"@,
        NoBase::Config => "XDG_CONFIG_HOME"@,
        NoBase::Cache => "XDG_CACHE_HOME"@,
    }
}

impl NoBase {
    /// What went wrong, in words.
    pub fn message(&self) -> (s: String)
        ensures
            s@ == "neither "@ + variable_of(*self) + " nor HOME is set"@,
    {
        let mut s = "neither ".to_owned();
        match self {
            NoBase::Data => s.append("XDG_DATA_HOME"),
            NoBase::Config => s.append("XDG_CONFIG_HOME"),
            NoBase::Cache => s.append("XDG_CACHE_HOME"),
        }
        s.append(" nor HOME is set");
        s
    }
}

/// The bytes of an optional path.
pub open spec fn path_view(o: Option<Vec<u8>>) -> Option<Seq<u8>> {
    match o {
        Some(p) => Some(p@),
        None => None,
    }
}

/// `rest` below the directory `base`. An absolute path stands for itself.
pub open spec fn below(base: Seq<u8>, rest: Seq<u8>) -> Seq<u8> {
    if rest.len() > 0 && rest[0] == 0x2f {
        rest
    } else if base.len() == 0 || base.last() == 0x2f {
        base + rest
    } else {
        base.push(0x2f) + rest
    }
}

/// The directory that `var` names, or else `fallback` below the home directory.
pub open spec fn base_dir(
    var: Option<Seq<u8>>,
    home: Option<Seq<u8>>,
    fallback: Seq<u8>,
) -> Option<Seq<u8>> {
    match var {
        Some(p) => Some(p),
        None => match home {
            Some(h) => Some(below(h, fallback)),
            None => None,
        },
    }
}

/// `.local/share`.
pub open spec fn share_dir() -> Seq<u8> {
    seq![0x2e, 0x6c, 0x6f, 0x63, 0x61, 0x6c, 0x2f, 0x73, 0x68, 0x61, 0x72, 0x65]
}

/// `.config`.
pub open spec fn config_dir() -> Seq<u8> {
    seq![0x2e, 0x63, 0x6f, 0x6e, 0x66, 0x69, 0x67]
}

/// `.cache`.
pub open spec fn cache_dir() -> Seq<u8> {
    seq![0x2e, 0x63, 0x61, 0x63, 0x68, 0x65]
}

/// `config.toml`.
pub open spec fn config_name() -> Seq<u8> {
    seq![0x63, 0x6f, 0x6e, 0x66, 0x69, 0x67, 0x2e, 0x74, 0x6f, 0x6d, 0x6c]
}

/// `/tmp`.
pub open spec fn tmp_dir() -> Seq<u8> {
    seq![0x2f, 0x74, 0x6d, 0x70]
}

/// The base directory for data.
pub open spec fn data_base(env: Environment) -> Option<Seq<u8>> {
    base_dir(path_view(env.xdg_data_home), path_view(env.home), share_dir())
}

/// The base directory for configuration.
pub open spec fn config_base(env: Environment) -> Option<Seq<u8>> {
    base_dir(path_view(env.xdg_config_home), path_view(env.home), config_dir())
}

/// The base directory for caches.
pub open spec fn cache_base(env: Environment) -> Option<Seq<u8>> {
    base_dir(path_view(env.xdg_cache_home), path_view(env.home), cache_dir())
}

/// The directory for sockets.
pub open spec fn runtime_base(env: Environment) -> Seq<u8> {
    match env.xdg_runtime_dir {
        Some(p) => p@,
        None => tmp_dir(),
    }
}

/// `rest` below the directory `base`. An absolute path stands for itself.
pub fn join_path(base: &Vec<u8>, rest: &Vec<u8>) -> (r: Vec<u8>)
    ensures
        r@ == below(base@, rest@),
{
    if rest.len() > 0 && rest[0] == 0x2f {
        return copy_bytes(rest);
    }
    let mut r = copy_bytes(base);
    if base.len() > 0 && base[base.len() - 1] != 0x2f {
        r.push(0x2f);
    }
    let ghost before = r@;
    r.extend_from_slice(rest.as_slice());
    assert(r@ == before + rest@);
    r
}

/// The directory that `var` names, or else `fallback` below the home directory.
fn base(var: &Option<Vec<u8>>, home: &Option<Vec<u8>>, fallback: &Vec<u8>) -> (r: Option<Vec<u8>>)
    ensures
        path_view(r) == base_dir(path_view(*var), path_view(*home), fallback@),
{
    match var {
        Some(p) => Some(copy_bytes(p)),
        None => match home {
            Some(h) => Some(join_path(h, fallback)),
            None => None,
        },
    }
}

/// The base directory for data: `$XDG_DATA_HOME`, or else
/// `$HOME/.local/share`.
pub fn data_home(env: &Environment) -> (r: Result<Vec<u8>, NoBase>)
    ensures
        match r {
            Ok(p) => data_base(*env) == Some(p@),
            Err(e) => data_base(*env) is None && e == NoBase::Data,
        },
{
    let fallback: Vec<u8> = vec![
        0x2e, 0x6c, 0x6f, 0x63, 0x61, 0x6c, 0x2f, 0x73, 0x68, 0x61, 0x72, 0x65,
    ];
    assert(fallback@ == share_dir());
    match base(&env.xdg_data_home, &env.home, &fallback) {
        Some(p) => Ok(p),
        None => Err(NoBase::Data),
    }
}

/// The base directory for configuration: `$XDG_CONFIG_HOME`, or else
/// `$HOME/.config`.
pub fn config_home(env: &Environment) -> (r: Result<Vec<u8>, NoBase>)
    ensures
        match r {
            Ok(p) => config_base(*env) == Some(p@),
            Err(e) => config_base(*env) is None && e == NoBase::Config,
        },
{
    let fallback: Vec<u8> = vec![0x2e, 0x63, 0x6f, 0x6e, 0x66, 0x69, 0x67];
    assert(fallback@ == config_dir());
    match base(&env.xdg_config_home, &env.home, &fallback) {
        Some(p) => Ok(p),
        None => Err(NoBase::Config),
    }
}

/// The base directory for caches: `$XDG_CACHE_HOME`, or else `$HOME/.cache`.
pub fn cache_home(env: &Environment) -> (r: Result<Vec<u8>, NoBase>)
    ensures
        match r {
            Ok(p) => cache_base(*env) == Some(p@),
            Err(e) => cache_base(*env) is None && e == NoBase::Cache,
        },
{
    let fallback: Vec<u8> = vec![0x2e, 0x63, 0x61, 0x63, 0x68, 0x65];
    assert(fallback@ == cache_dir());
    match base(&env.xdg_cache_home, &env.home, &fallback) {
        Some(p) => Ok(p),
        None => Err(NoBase::Cache),
    }
}

/// The directory for sockets: `$XDG_RUNTIME_DIR`, or else `/tmp`.
pub fn runtime_dir(env: &Environment) -> (p: Vec<u8>)
    ensures
        p@ == runtime_base(*env),
{
    match &env.xdg_runtime_dir {
        Some(p) => copy_bytes(p),
        None => {
            let p: Vec<u8> = vec![0x2f, 0x74, 0x6d, 0x70];
            assert(p@ == tmp_dir());
            p
        },
    }
}

/// The data file `file` of the tool `app`.
pub fn data_file(env: &Environment, app: &Vec<u8>, file: &Vec<u8>) -> (r: Result<Vec<u8>, NoBase>)
    ensures
        match r {
            Ok(p) => data_base(*env) is Some && p@ == below(
                below(data_base(*env)->0, app@),
                file@,
            ),
            Err(e) => data_base(*env) is None && e == NoBase::Data,
        },
{
    match data_home(env) {
        Ok(b) => {
            let dir = join_path(&b, app);
            Ok(join_path(&dir, file))
        },
        Err(e) => Err(e),
    }
}

/// The configuration file of the tool `app`; none where there is no place for
/// one, and then the defaults apply.
pub fn config_file(env: &Environment, app: &Vec<u8>) -> (r: Option<Vec<u8>>)
    ensures
        match r {
            Some(p) => config_base(*env) is Some && p@ == below(
                below(config_base(*env)->0, app@),
                config_name(),
            ),
            None => config_base(*env) is None,
        },
{
    match config_home(env) {
        Ok(b) => {
            let dir = join_path(&b, app);
            let name: Vec<u8> = vec![
                0x63, 0x6f, 0x6e, 0x66, 0x69, 0x67, 0x2e, 0x74, 0x6f, 0x6d, 0x6c,
            ];
            assert(name@ == config_name());
            Some(join_path(&dir, &name))
        },
        Err(_) => None,
    }
}

/// The cache file `file` of the tool `app`; none where there is no place for
/// one.
pub fn cache_file(env: &Environment, app: &Vec<u8>, file: &Vec<u8>) -> (r: Option<Vec<u8>>)
    ensures
        match r {
            Some(p) => cache_base(*env) is Some && p@ == below(
                below(cache_base(*env)->0, app@),
                file@,
            ),
            None => cache_base(*env) is None,
        },
{
    match cache_home(env) {
        Ok(b) => {
            let dir = join_path(&b, app);
            Some(join_path(&dir, file))
        },
        Err(_) => None,
    }
}

/// The socket `name`.
pub fn runtime_file(env: &Environment, name: &Vec<u8>) -> (p: Vec<u8>)
    ensures
        p@ == below(runtime_base(*env), name@),
{
    let dir = runtime_dir(env);
    join_path(&dir, name)
}

/// A variable that is set decides alone; the home directory only matters where
/// it is not.
pub proof fn variable_wins(
    var: Seq<u8>,
    home: Option<Seq<u8>>,
    other: Option<Seq<u8>>,
    fallback: Seq<u8>,
)
    ensures
        base_dir(Some(var), home, fallback) == base_dir(Some(var), other, fallback),
        base_dir(None, None, fallback) is None,
{
}

/// A file whose name is not absolute lies below its directory.
pub proof fn joined_paths_lie_below(dir: Seq<u8>, rest: Seq<u8>)
    requires
        rest.len() == 0 || rest[0] != 0x2f,
    ensures
        dir.len() <= below(dir, rest).len(),
        below(dir, rest).take(dir.len() as int) == dir,
{
    assert(below(dir, rest).take(dir.len() as int) =~= dir);
}

} // verus!
