//! Where Seekr keeps its files, and its settings.

use crate::db::opt_view;
use crate::error::ErrorKind;
use crate::text::{append_chars, chars_of, string_from_chars};
use vstd::prelude::*;

verus! {

/// The directory name that Seekr uses under the platform's directories.
pub const APP_DIR_NAME: &'static str = "seekr";

/// The file name of the settings file.
pub const CONFIG_FILE_NAME: &'static str = "config.toml";

/// The file name of the command store.
pub const DATABASE_FILE_NAME: &'static str = "seekr.db";

/// `base` joined with the relative path `comp`, as `PathBuf::join` does on
/// Unix: a separator is added unless `base` is empty or already ends with one.
pub open spec fn path_join(base: Seq<char>, comp: Seq<char>) -> Seq<char> {
    if base.len() == 0 || base.last() == '/' {
        base + comp
    } else {
        base + seq!['/'] + comp
    }
}

/// Joins a relative path onto a base path.
pub fn join_path(base: &str, comp: &str) -> (res: String)
    ensures
        res@ == path_join(base@, comp@),
{
    let mut v = chars_of(base);
    let n = v.len();
    if n > 0 && v[n - 1] != '/' {
        v.push('/');
    }
    let c = chars_of(comp);
    append_chars(&mut v, c.as_slice());
    string_from_chars(v.as_slice())
}

/// Whether `b` is a bare drive prefix such as `C:`.
pub open spec fn is_drive_prefix(b: Seq<char>) -> bool {
    &&& b.len() == 2
    &&& b[1] == ':'
    &&& ((65 <= (b[0] as u32) <= 90) || (97 <= (b[0] as u32) <= 122))
}

/// `base` joined with the relative path `comp` on a platform, as
/// `PathBuf::join` does: on Windows the separator is `\`, either slash
/// already ending `base` counts, and a bare drive prefix takes no separator;
/// elsewhere as [`path_join`].
pub open spec fn path_join_on(p: Platform, base: Seq<char>, comp: Seq<char>) -> Seq<char> {
    if p == Platform::Windows {
        if base.len() == 0 || base.last() == '\\' || base.last() == '/' || is_drive_prefix(base) {
            base + comp
        } else {
            base + seq!['\\'] + comp
        }
    } else {
        path_join(base, comp)
    }
}

/// Joins a relative path onto a base path on a platform.
pub fn join_path_on(p: Platform, base: &str, comp: &str) -> (res: String)
    ensures
        res@ == path_join_on(p, base@, comp@),
{
    if p != Platform::Windows {
        return join_path(base, comp);
    }
    let mut v = chars_of(base);
    let n = v.len();
    let drive = n == 2 && v[1] == ':' && ((65 <= (v[0] as u32) && (v[0] as u32) <= 90) || (97 <= (
    v[0] as u32) && (v[0] as u32) <= 122));
    if n > 0 && v[n - 1] != '\\' && v[n - 1] != '/' && !drive {
        v.push('\\');
    }
    let c = chars_of(comp);
    append_chars(&mut v, c.as_slice());
    string_from_chars(v.as_slice())
}

/// The family of operating system, which decides where Seekr's directories
/// lie when no override is set.
#[derive(Debug, Clone, Copy, PartialEq, Eq, Default, Structural)]
pub enum Platform {
    /// `~/Library/Application Support`.
    MacOs,
    /// `%APPDATA%` and `%LOCALAPPDATA%`.
    Windows,
    /// The XDG base directories.
    #[default]
    Unix,
}

/// The environment variables that decide Seekr's directories, and the
/// platform; an unset variable is `None`.
#[derive(Debug, Clone, PartialEq, Eq, Default)]
pub struct PathEnv {
    pub platform: Platform,
    pub seekr_config_dir: Option<String>,
    pub seekr_data_dir: Option<String>,
    pub xdg_config_home: Option<String>,
    pub xdg_data_home: Option<String>,
    pub home: Option<String>,
    pub appdata: Option<String>,
    pub localappdata: Option<String>,
}

/// Why the directories could not be resolved.
#[derive(Debug, Clone, Copy, PartialEq, Eq, Structural)]
pub enum ConfigError {
    /// `HOME` is unset or empty, and a directory had to be derived from it.
    MissingHome,
    /// `APPDATA` is unset, and the settings directory had to be derived from it.
    MissingAppData,
    /// Neither `LOCALAPPDATA` nor `APPDATA` is set, and the data directory
    /// had to be derived from one of them.
    MissingLocalAppData,
}

impl ConfigError {
    /// The category of this error: always something absent.
    pub fn kind(&self) -> (res: ErrorKind)
        ensures
            res == ErrorKind::NotFound,
    {
        ErrorKind::NotFound
    }

    /// A message that describes the error.
    pub fn message(&self) -> (res: String)
        ensures
            res@ == "required environment variable "@ + missing_variable(*self)
                + " is not set"@,
    {
        let mut v = chars_of("required environment variable ");
        let name = match self {
            ConfigError::MissingHome => "HOME",
            ConfigError::MissingAppData => "APPDATA",
            ConfigError::MissingLocalAppData => "LOCALAPPDATA",
        };
        append_chars(&mut v, chars_of(name).as_slice());
        append_chars(&mut v, chars_of(" is not set").as_slice());
        string_from_chars(v.as_slice())
    }
}

/// The variable whose absence an error reports.
pub open spec fn missing_variable(e: ConfigError) -> Seq<char> {
    match e {
        ConfigError::MissingHome => "HOME"@,
        ConfigError::MissingAppData => "APPDATA"@,
        ConfigError::MissingLocalAppData => "LOCALAPPDATA"@,
    }
}

/// The value of a variable when it is set and not empty.
pub open spec fn nonempty(v: Option<Seq<char>>) -> Option<Seq<char>> {
    match v {
        Some(s) => if s.len() > 0 {
            Some(s)
        } else {
            None
        },
        None => None,
    }
}

/// `HOME`, when it is set and not empty.
pub open spec fn home_of(env: PathEnv) -> Result<Seq<char>, ConfigError> {
    match nonempty(opt_view(env.home)) {
        Some(h) => Ok(h),
        None => Err(ConfigError::MissingHome),
    }
}

/// The application's directory under a base directory.
pub open spec fn app_dir(p: Platform, base: Seq<char>) -> Seq<char> {
    path_join_on(p, base, APP_DIR_NAME@)
}

/// The platform's directory for `Library/Application Support` on macOS, an
/// XDG variable or `fallback` under `HOME` elsewhere (Windows aside).
pub open spec fn macos_or_xdg(env: PathEnv, xdg: Option<Seq<char>>, fallback: Seq<char>) -> Result<
    Seq<char>,
    ConfigError,
> {
    if env.platform == Platform::MacOs {
        match home_of(env) {
            Ok(h) => Ok(app_dir(env.platform, path_join(h, "Library/Application Support"@))),
            Err(e) => Err(e),
        }
    } else if nonempty(xdg) is Some {
        Ok(app_dir(env.platform, nonempty(xdg).unwrap()))
    } else {
        match home_of(env) {
            Ok(h) => Ok(app_dir(env.platform, path_join(h, fallback))),
            Err(e) => Err(e),
        }
    }
}

/// The settings directory for an environment: `SEEKR_CONFIG_DIR` when it is
/// set and not empty; else `seekr` under `~/Library/Application Support` on
/// macOS, under `APPDATA` on Windows, and under `XDG_CONFIG_HOME` (when set
/// and not empty) or `~/.config` elsewhere.
pub open spec fn config_dir_of(env: PathEnv) -> Result<Seq<char>, ConfigError> {
    if nonempty(opt_view(env.seekr_config_dir)) is Some {
        Ok(nonempty(opt_view(env.seekr_config_dir)).unwrap())
    } else if env.platform == Platform::Windows {
        match opt_view(env.appdata) {
            Some(a) => Ok(app_dir(env.platform, a)),
            None => Err(ConfigError::MissingAppData),
        }
    } else {
        macos_or_xdg(env, opt_view(env.xdg_config_home), ".config"@)
    }
}

/// The data directory for an environment: `SEEKR_DATA_DIR` when it is set and
/// not empty; else `seekr` under `~/Library/Application Support` on macOS,
/// under `LOCALAPPDATA` (or else `APPDATA`) on Windows, and under
/// `XDG_DATA_HOME` (when set and not empty) or `~/.local/share` elsewhere.
pub open spec fn data_dir_of(env: PathEnv) -> Result<Seq<char>, ConfigError> {
    if nonempty(opt_view(env.seekr_data_dir)) is Some {
        Ok(nonempty(opt_view(env.seekr_data_dir)).unwrap())
    } else if env.platform == Platform::Windows {
        match opt_view(env.localappdata) {
            Some(l) => Ok(app_dir(env.platform, l)),
            None => match opt_view(env.appdata) {
                Some(a) => Ok(app_dir(env.platform, a)),
                None => Err(ConfigError::MissingLocalAppData),
            },
        }
    } else {
        macos_or_xdg(env, opt_view(env.xdg_data_home), ".local/share"@)
    }
}

/// Whether an optional string is present and not empty.
fn is_set(v: &Option<String>) -> (res: bool)
    ensures
        res == (nonempty(opt_view(*v)) is Some),
{
    match v {
        Some(s) => chars_of(s.as_str()).len() > 0,
        None => false,
    }
}

/// The application's directory under `base`.
fn app_dir_under(p: Platform, base: &str) -> (res: String)
    ensures
        res@ == app_dir(p, base@),
{
    join_path_on(p, base, APP_DIR_NAME)
}

/// `HOME`, when it is set and not empty.
fn home_dir(env: &PathEnv) -> (res: Result<String, ConfigError>)
    ensures
        match res {
            Ok(h) => home_of(*env) == Ok::<Seq<char>, ConfigError>(h@),
            Err(e) => home_of(*env) == Err::<Seq<char>, ConfigError>(e),
        },
{
    if is_set(&env.home) {
        match &env.home {
            Some(h) => Ok(h.clone()),
            None => Err(ConfigError::MissingHome),
        }
    } else {
        Err(ConfigError::MissingHome)
    }
}

/// Resolves a directory on macOS or an XDG platform.
fn resolve_macos_or_xdg(env: &PathEnv, xdg: &Option<String>, fallback: &str) -> (res: Result<
    String,
    ConfigError,
>)
    ensures
        match res {
            Ok(d) => macos_or_xdg(*env, opt_view(*xdg), fallback@) == Ok::<Seq<char>, ConfigError>(
                d@,
            ),
            Err(e) => macos_or_xdg(*env, opt_view(*xdg), fallback@) == Err::<
                Seq<char>,
                ConfigError,
            >(e),
        },
{
    if env.platform == Platform::MacOs {
        let h = home_dir(env)?;
        let base = join_path(h.as_str(), "Library/Application Support");
        return Ok(app_dir_under(env.platform, base.as_str()));
    }
    if is_set(xdg) {
        return match xdg {
            Some(x) => Ok(app_dir_under(env.platform, x.as_str())),
            None => Err(ConfigError::MissingHome),
        };
    }
    let h = home_dir(env)?;
    let base = join_path(h.as_str(), fallback);
    Ok(app_dir_under(env.platform, base.as_str()))
}

/// Resolves the settings directory.
fn resolve_config_dir(env: &PathEnv) -> (res: Result<String, ConfigError>)
    ensures
        match res {
            Ok(d) => config_dir_of(*env) == Ok::<Seq<char>, ConfigError>(d@),
            Err(e) => config_dir_of(*env) == Err::<Seq<char>, ConfigError>(e),
        },
{
    if is_set(&env.seekr_config_dir) {
        return match &env.seekr_config_dir {
            Some(d) => Ok(d.clone()),
            None => Err(ConfigError::MissingHome),
        };
    }
    if env.platform == Platform::Windows {
        return match &env.appdata {
            Some(a) => Ok(app_dir_under(env.platform, a.as_str())),
            None => Err(ConfigError::MissingAppData),
        };
    }
    resolve_macos_or_xdg(env, &env.xdg_config_home, ".config")
}

/// Resolves the data directory.
fn resolve_data_dir(env: &PathEnv) -> (res: Result<String, ConfigError>)
    ensures
        match res {
            Ok(d) => data_dir_of(*env) == Ok::<Seq<char>, ConfigError>(d@),
            Err(e) => data_dir_of(*env) == Err::<Seq<char>, ConfigError>(e),
        },
{
    if is_set(&env.seekr_data_dir) {
        return match &env.seekr_data_dir {
            Some(d) => Ok(d.clone()),
            None => Err(ConfigError::MissingHome),
        };
    }
    if env.platform == Platform::Windows {
        return match &env.localappdata {
            Some(l) => Ok(app_dir_under(env.platform, l.as_str())),
            None => match &env.appdata {
                Some(a) => Ok(app_dir_under(env.platform, a.as_str())),
                None => Err(ConfigError::MissingLocalAppData),
            },
        };
    }
    resolve_macos_or_xdg(env, &env.xdg_data_home, ".local/share")
}

/// Seekr's settings and data directories.
#[derive(Debug, Clone, PartialEq, Eq)]
pub struct ResolvedPaths {
    pub config_dir: String,
    pub data_dir: String,
    /// The platform, which decides how file names are joined on.
    pub platform: Platform,
}

impl ResolvedPaths {
    /// Resolves both directories from the environment; the settings
    /// directory's error comes first when both fail.
    pub fn from_env(env: &PathEnv) -> (res: Result<ResolvedPaths, ConfigError>)
        ensures
            res is Ok <==> (config_dir_of(*env) is Ok && data_dir_of(*env) is Ok),
            res matches Ok(p) ==> config_dir_of(*env) == Ok::<Seq<char>, ConfigError>(
                p.config_dir@,
            ) && data_dir_of(*env) == Ok::<Seq<char>, ConfigError>(p.data_dir@) && p.platform
                == env.platform,
            res matches Err(e) ==> match config_dir_of(*env) {
                Err(c) => e == c,
                Ok(_) => data_dir_of(*env) == Err::<Seq<char>, ConfigError>(e),
            },
    {
        let config_dir = resolve_config_dir(env)?;
        let data_dir = resolve_data_dir(env)?;
        Ok(ResolvedPaths { config_dir, data_dir, platform: env.platform })
    }

    /// The settings file.
    pub fn config_file(&self) -> (res: String)
        ensures
            res@ == path_join_on(self.platform, self.config_dir@, CONFIG_FILE_NAME@),
    {
        join_path_on(self.platform, self.config_dir.as_str(), CONFIG_FILE_NAME)
    }

    /// The command store.
    pub fn database_file(&self) -> (res: String)
        ensures
            res@ == path_join_on(self.platform, self.data_dir@, DATABASE_FILE_NAME@),
    {
        join_path_on(self.platform, self.data_dir.as_str(), DATABASE_FILE_NAME)
    }
}

/// The commands ignored unless the settings say otherwise.
pub open spec fn default_ignored() -> Seq<Seq<char>> {
    seq!["ls"@, "cd"@, "pwd"@, "clear"@]
}

/// The views of a sequence of strings.
pub open spec fn string_views(v: Seq<String>) -> Seq<Seq<char>> {
    v.map_values(|s: String| s@)
}

/// The commands ignored unless the settings say otherwise: `ls`, `cd`, `pwd`
/// and `clear`.
pub fn default_ignored_commands() -> (res: Vec<String>)
    ensures
        string_views(res@) == default_ignored(),
{
    let mut v: Vec<String> = Vec::new();
    v.push(String::from_str("ls"));
    v.push(String::from_str("cd"));
    v.push(String::from_str("pwd"));
    v.push(String::from_str("clear"));
    assert(string_views(v@) =~= default_ignored());
    v
}

/// Privacy settings: optional redaction and the commands never stored.
#[derive(Debug, Clone, PartialEq, Eq)]
pub struct PrivacyConfig {
    pub redaction_enabled: bool,
    pub ignore_commands: Vec<String>,
}

impl Default for PrivacyConfig {
    /// Redaction off; `ls`, `cd`, `pwd` and `clear` ignored.
    fn default() -> (res: Self)
        ensures
            !res.redaction_enabled,
            string_views(res.ignore_commands@) == default_ignored(),
    {
        PrivacyConfig { redaction_enabled: false, ignore_commands: default_ignored_commands() }
    }
}

/// Shell settings.
#[derive(Debug, Clone, PartialEq, Eq)]
pub struct ShellConfig {
    pub preferred_shell: Option<String>,
}

impl Default for ShellConfig {
    /// No preferred shell.
    fn default() -> (res: Self)
        ensures
            res.preferred_shell is None,
    {
        ShellConfig { preferred_shell: None }
    }
}

/// All of Seekr's settings.
#[derive(Debug, Clone, PartialEq, Eq)]
pub struct SeekrConfig {
    pub privacy: PrivacyConfig,
    pub shell: ShellConfig,
}

impl Default for SeekrConfig {
    /// The default privacy and shell settings.
    fn default() -> (res: Self)
        ensures
            !res.privacy.redaction_enabled,
            string_views(res.privacy.ignore_commands@) == default_ignored(),
            res.shell.preferred_shell is None,
    {
        SeekrConfig { privacy: PrivacyConfig::default(), shell: ShellConfig::default() }
    }
}

} // verus!
