//! What the operator configures: where to look for projects, and which terminal to prefer.

use vstd::prelude::*;
use vstd::string::StringExecFns;
use crate::expand::{expand_path, expanded, home_key, Environment};
use crate::name::text_of;

verus! {

/// A directory tree to scan: project roots are looked for exactly `depth` levels below
/// `path`. With depth 0 the directory itself is the candidate.
#[derive(Clone, Debug, PartialEq, Eq)]
pub struct Directory {
    pub path: String,
    pub depth: usize,
}

/// The launcher's configuration.
#[derive(Clone, Debug, PartialEq, Eq)]
pub struct Config {
    /// What a query has to start with to address the launcher.
    pub prefix: String,
    /// The terminal to try before all others.
    pub terminal: Option<String>,
    /// The directory of registered project configurations, in place of the usual two.
    pub tmuxinator_dir: Option<String>,
    /// The directory trees to scan.
    pub directories: Vec<Directory>,
}

impl Default for Config {
    /// The configuration in force where none is written: the prefix `:t`, no preferred
    /// terminal, the usual directories of registered configurations, and no tree to scan.
    fn default() -> (config: Config)
        ensures
            config.prefix@ == ":t"@,
            config.terminal is None,
            config.tmuxinator_dir is None,
            config.directories@.len() == 0,
    {
        Config {
            prefix: String::from_str(":t"),
            terminal: None,
            tmuxinator_dir: None,
            directories: Vec::new(),
        }
    }
}

/// The directories of registered configurations: the configured one, expanded, where
/// there is one; else the two usual ones below the home directory, where that is known.
pub open spec fn registries(custom: Option<Seq<char>>, env: Map<Seq<char>, Seq<char>>) -> Seq<
    Seq<char>,
> {
    match custom {
        Some(dir) => seq![expanded(dir, env)],
        None => if env.contains_key(home_key()) {
            seq![env[home_key()] + "/.config/tmuxinator"@, env[home_key()] + "/.tmuxinator"@]
        } else {
            Seq::empty()
        },
    }
}

/// The texts of a list of strings.
pub open spec fn texts(list: Seq<String>) -> Seq<Seq<char>> {
    list.map_values(|s: String| s@)
}

/// The two usual directories of registered configurations, where the home directory is
/// known.
pub fn default_tmuxinator_dirs(env: &Environment) -> (dirs: Vec<String>)
    ensures
        texts(dirs@) == registries(None, env@),
{
    let mut dirs: Vec<String> = Vec::new();
    match env.get("HOME") {
        Some(home) => {
            dirs.push(home.clone().concat("/.config/tmuxinator"));
            dirs.push(home.concat("/.tmuxinator"));
        },
        None => {},
    }
    assert(texts(dirs@) =~= registries(None, env@));
    dirs
}

/// The directories of registered configurations that a configuration asks for.
pub fn tmuxinator_dirs(config: &Config, env: &Environment) -> (dirs: Vec<String>)
    ensures
        texts(dirs@) == registries(text_of(config.tmuxinator_dir), env@),
{
    match &config.tmuxinator_dir {
        Some(custom) => {
            let mut dirs: Vec<String> = Vec::new();
            dirs.push(expand_path(custom.as_str(), env));
            assert(texts(dirs@) =~= registries(text_of(config.tmuxinator_dir), env@));
            dirs
        },
        None => default_tmuxinator_dirs(env),
    }
}

} // verus!
