//! What the command line asks for.
use vstd::prelude::*;

use crate::config::Config;

verus! {

/// What the tool is asked to do.
pub enum Mode {
    /// `init`: initialize a project from a template.
    Init,
    /// `run <name>`: run a run command of the configuration here.
    Run,
    /// Anything else: show how to use the tool.
    Usage,
}

/// The mode that the arguments (without the flags) ask for: exactly
/// `<program> init`, or `<program> run <name> ...`.
pub fn parseMode(args: &Vec<String>) -> (m: Mode)
    ensures
        (m is Init) == (args.len() == 2 && args[1]@ == "init"@),
        (m is Run) == (args.len() > 2 && args[1]@ == "run"@),
{
    let init = String::from_str("init");
    let run = String::from_str("run");
    proof {
        reveal_strlit("init");
        reveal_strlit("run");
    }
    if args.len() == 2 && args[1] == init {
        Mode::Init
    } else if args.len() > 2 && args[1] == run {
        Mode::Run
    } else {
        Mode::Usage
    }
}

/// The flags with which a project is initialized: `-v` is added when the
/// configuration forces verbose output.
pub open spec fn init_flags(config: Config, flags: Seq<Seq<char>>) -> Seq<Seq<char>> {
    if config.forceInitVerbose == Some(true) {
        flags.push(seq!['-', 'v'])
    } else {
        flags
    }
}

/// The flags with which a project is initialized: `-v` is added when the
/// configuration forces verbose output.
pub fn initFlags(config: &Config, flags: Vec<String>) -> (r: Vec<String>)
    ensures
        r.deep_view() == init_flags(*config, flags.deep_view()),
{
    let mut r = flags;
    if let Some(true) = config.forceInitVerbose {
        proof {
            reveal_strlit("-v");
            assert("-v"@ =~= seq!['-', 'v']);
        }
        let ghost before = r.deep_view();
        r.push(String::from_str("-v"));
        assert(r.deep_view() =~= before.push(seq!['-', 'v']));
    }
    r
}

} // verus!
