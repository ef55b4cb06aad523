//! The configuration that a template carries in its `init-anything.json`.
use vstd::prelude::*;

verus! {

/// A variable that commands and files refer to as `$name`.
#[derive(Clone)]
pub struct Var {
    pub name: String,
    /// Comma-separated names of the commands (`init` for the init commands)
    /// that require a value for the variable; absent or empty means every
    /// command. Any command may still refer to the variable.
    pub reqFor: Option<String>,
    pub default: Option<String>,
}

/// One command line of a run command, with the directory to change to first.
#[derive(Clone)]
pub struct CommandString {
    pub command: String,
    pub execDir: Option<String>,
}

/// A named sequence of command lines.
#[derive(Clone)]
pub struct RunCommand {
    pub name: String,
    pub runAsync: Option<bool>,
    pub commands: Vec<CommandString>,
}

/// A command that adds dependencies, run once per dependency.
#[derive(Clone)]
pub struct DependencyAdd {
    pub command: String,
    pub deps: Vec<String>,
}

/// The contents of `init-anything.json`.
#[derive(Clone)]
pub struct Config {
    pub name: String,
    pub runCommands: Option<Vec<RunCommand>>,
    pub initCommands: Option<Vec<CommandString>>,
    pub addDeps: Option<Vec<DependencyAdd>>,
    pub vars: Option<Vec<Var>>,
    pub varFiles: Option<Vec<String>>,
    pub forceInitVerbose: Option<bool>,
}

/// A template: its configuration and the directory whose files it copies.
pub struct Template {
    pub config: Config,
    pub path: String,
}

} // verus!
