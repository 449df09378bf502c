//! The checker's settings: which one is in force (the first found), and
//! how two of them combine when a caller asks for that.
use std::path::PathBuf;

use vstd::prelude::*;

verus! {

/// Where tree-sitter grammars are looked for.
#[derive(Debug)]
pub struct ParserConfig {
    pub path: Option<PathBuf>,
    pub auto_download: bool,
}

/// The settings read from a `.comment-checker.toml` file.
#[derive(Debug)]
pub struct Config {
    pub allowlist: Vec<String>,
    /// The languages to check; empty means all supported ones.
    pub languages: Vec<String>,
    pub instruction: Option<String>,
    pub parsers: ParserConfig,
}

/// The value of a configuration, with its strings taken as text.
pub struct ConfigView {
    pub allowlist: Seq<Seq<char>>,
    pub languages: Seq<Seq<char>>,
    pub instruction: Option<Seq<char>>,
    pub parser_path: Option<PathBuf>,
    pub auto_download: bool,
}

impl View for Config {
    type V = ConfigView;

    open spec fn view(&self) -> ConfigView {
        ConfigView {
            allowlist: self.allowlist@.map_values(|s: String| s@),
            languages: self.languages@.map_values(|s: String| s@),
            instruction: match self.instruction {
                Some(s) => Some(s@),
                None => None,
            },
            parser_path: self.parsers.path,
            auto_download: self.parsers.auto_download,
        }
    }
}

/// The default of `auto_download` when a file leaves it out.
pub fn default_true() -> (b: bool)
    ensures
        b,
{
    true
}

impl Default for ParserConfig {
    /// No grammar directory, and downloads on.
    fn default() -> (c: Self)
        ensures
            c.path is None,
            c.auto_download,
    {
        ParserConfig { path: None, auto_download: true }
    }
}

impl Default for Config {
    /// No patterns, no instruction, default parser settings.
    fn default() -> (c: Self)
        ensures
            c@ == default_config_view(),
    {
        let c = Config {
            allowlist: Vec::new(),
            languages: Vec::new(),
            instruction: None,
            parsers: ParserConfig { path: None, auto_download: true },
        };
        assert(c@.allowlist =~= Seq::<Seq<char>>::empty());
        assert(c@.languages =~= Seq::<Seq<char>>::empty());
        c
    }
}

/// The value of `Config::default()`.
pub open spec fn default_config_view() -> ConfigView {
    ConfigView {
        allowlist: Seq::empty(),
        languages: Seq::empty(),
        instruction: None,
        parser_path: None,
        auto_download: true,
    }
}

/// The project's value when it has one, else the global one.
pub open spec fn or_else<T>(project: Option<T>, global: Option<T>) -> Option<T> {
    match project {
        Some(v) => Some(v),
        None => global,
    }
}

/// The combination of a global and a project configuration: the allowlists
/// are concatenated (global first); the project's language list wins when
/// it is not empty; the project's instruction and parser path win when
/// present; `auto_download` is the project's.
pub open spec fn merged_config(global: ConfigView, project: ConfigView) -> ConfigView {
    ConfigView {
        allowlist: global.allowlist + project.allowlist,
        languages: if project.languages.len() > 0 {
            project.languages
        } else {
            global.languages
        },
        instruction: or_else(project.instruction, global.instruction),
        parser_path: or_else(project.parser_path, global.parser_path),
        auto_download: project.auto_download,
    }
}

/// Combine the global configuration with a project's.
pub fn merge(global: Config, project: Config) -> (c: Config)
    ensures
        c@ == merged_config(global@, project@),
{
    let Config {
        allowlist: global_allowlist,
        languages: global_languages,
        instruction: global_instruction,
        parsers: global_parsers,
    } = global;
    let Config {
        allowlist: project_allowlist,
        languages: project_languages,
        instruction: project_instruction,
        parsers: project_parsers,
    } = project;
    let languages = if project_languages.len() > 0 {
        project_languages
    } else {
        global_languages
    };
    let mut allowlist = global_allowlist;
    let mut extra = project_allowlist;
    let ghost a = allowlist@;
    let ghost b = extra@;
    allowlist.append(&mut extra);
    let instruction = match project_instruction {
        Some(s) => Some(s),
        None => global_instruction,
    };
    let path = match project_parsers.path {
        Some(p) => Some(p),
        None => global_parsers.path,
    };
    let c = Config {
        allowlist,
        languages,
        instruction,
        parsers: ParserConfig { path, auto_download: project_parsers.auto_download },
    };
    assert(c@.allowlist =~= a.map_values(|s: String| s@) + b.map_values(|s: String| s@));
    c
}

/// The configuration in force: the first one found wins and nothing is
/// merged. `project` is the file given on the command line or the nearest
/// `.comment-checker.toml` above the working directory; `global` is the
/// user's configuration file, or the built-in defaults when there is none.
pub fn load_config(global: Config, project: Option<Config>) -> (c: Config)
    ensures
        c@ == match project {
            Some(p) => p@,
            None => global@,
        },
{
    match project {
        Some(proj) => proj,
        None => global,
    }
}

/// Where the user's configuration directory is, from the environment.
#[derive(Debug)]
pub enum ConfigHome {
    /// `$XDG_CONFIG_HOME` itself.
    Xdg(String),
    /// `.config` under `$HOME`.
    Home(String),
}

/// The user's configuration directory: `$XDG_CONFIG_HOME` when it is set
/// and not empty, else `.config` under `$HOME` when that is set and not
/// empty, else none.
pub fn config_home(xdg: Option<String>, home: Option<String>) -> (r: Option<ConfigHome>)
    ensures
        match xdg {
            Some(x) if x@.len() > 0 => r matches Some(ConfigHome::Xdg(d)) && d@ == x@,
            _ => match home {
                Some(h) if h@.len() > 0 => r matches Some(ConfigHome::Home(d)) && d@ == h@,
                _ => r is None,
            },
        },
{
    match xdg {
        Some(x) if !x.as_str().is_empty() => return Some(ConfigHome::Xdg(x)),
        _ => {},
    }
    match home {
        Some(h) if !h.as_str().is_empty() => Some(ConfigHome::Home(h)),
        _ => None,
    }
}

/// Combining configurations is associative: merging in two project files
/// one after the other is merging in their combination.
pub proof fn law_merge_associative(a: ConfigView, b: ConfigView, c: ConfigView)
    ensures
        merged_config(merged_config(a, b), c) == merged_config(a, merged_config(b, c)),
{
    assert((a.allowlist + b.allowlist) + c.allowlist =~= a.allowlist + (b.allowlist
        + c.allowlist));
}

/// The default configuration is a left identity of combination: a project
/// combined with defaults is the project itself.
pub proof fn law_merge_default_identity(c: ConfigView)
    ensures
        merged_config(default_config_view(), c) == c,
{
    assert(Seq::<Seq<char>>::empty() + c.allowlist =~= c.allowlist);
    assert(c.languages.len() == 0 ==> c.languages =~= Seq::<Seq<char>>::empty());
}

} // verus!
