//! Running a named run command of a configuration: which programs to start,
//! in which order and how, and what is reported.
use vstd::prelude::*;

use crate::config::{CommandString, Config, RunCommand};
use crate::errors::{commandExecuteError, RunError};
use crate::helpers::{
    command_words, missing_message, replaceVars, substitution, unknown_command_message,
    Substitution,
};
use crate::plan::{cloneOptString, cloneStrings, commandExecution, command_step, Execution, ExecutionView};

verus! {

/// The outcome of substituting the variables into a command line of the
/// configuration, for the command named `cmd` (no substitution when the
/// configuration declares no variables).
pub open spec fn command_text(config: Config, flags: Seq<Seq<char>>, cmd: Seq<char>, text: Seq<char>) -> Substitution {
    match config.vars {
        Some(vs) => if vs.len() > 0 {
            substitution(text, vs@, flags, cmd)
        } else {
            Substitution::Text(text)
        },
        None => Substitution::Text(text),
    }
}

/// The substituted text, where there is one.
pub open spec fn substituted_text(s: Substitution) -> Seq<char> {
    match s {
        Substitution::Text(t) => t,
        _ => Seq::<char>::empty(),
    }
}

/// The report for a failed substitution.
pub open spec fn failure_message(s: Substitution) -> Seq<char> {
    match s {
        Substitution::Missing(name) => missing_message(name),
        _ => Seq::<char>::empty(),
    }
}

/// The index of the first command line whose substitution fails.
pub open spec fn first_failing(texts: Seq<Seq<char>>, config: Config, flags: Seq<Seq<char>>, cmd: Seq<char>) -> Option<int>
    decreases texts.len(),
{
    if texts.len() == 0 {
        None
    } else {
        match first_failing(texts.drop_last(), config, flags, cmd) {
            Some(k) => Some(k),
            None => if command_text(config, flags, cmd, texts.last()) is Text {
                None
            } else {
                Some(texts.len() - 1)
            },
        }
    }
}

/// The command lines of a list of commands.
pub open spec fn command_texts(cs: Seq<CommandString>) -> Seq<Seq<char>> {
    cs.map_values(|c: CommandString| c.command@)
}

/// The command lines of a run command.
pub open spec fn line_texts(rc: RunCommand) -> Seq<Seq<char>> {
    command_texts(rc.commands@)
}

/// The index of the first run command called `name`.
pub open spec fn find_run(rcs: Seq<RunCommand>, name: Seq<char>) -> Option<int>
    decreases rcs.len(),
{
    if rcs.len() == 0 {
        None
    } else {
        match find_run(rcs.drop_last(), name) {
            Some(k) => Some(k),
            None => if rcs.last().name@ == name {
                Some(rcs.len() - 1)
            } else {
                None
            },
        }
    }
}

/// Whether the configuration has any run command.
pub open spec fn has_run_commands(config: Config) -> bool {
    config.runCommands matches Some(rcs) && rcs.len() > 0
}

/// The run commands of the configuration.
pub open spec fn run_commands(config: Config) -> Seq<RunCommand> {
    match config.runCommands {
        Some(rcs) => rcs@,
        None => Seq::<RunCommand>::empty(),
    }
}

/// Whether the first failing substitution of a command's lines meets a flag
/// that names a variable without giving a value.
pub open spec fn lines_malformed(rc: RunCommand, config: Config, flags: Seq<Seq<char>>) -> bool {
    match first_failing(line_texts(rc), config, flags, rc.name@) {
        Some(m) => command_text(config, flags, rc.name@, rc.commands@[m].command@) is Malformed,
        None => false,
    }
}

/// The inputs on which running a command cannot be planned: there are run
/// commands but no command name among the arguments, or a flag names a
/// required variable without a value.
pub open spec fn run_panics(config: Config, flags: Seq<Seq<char>>, args: Seq<Seq<char>>) -> bool {
    has_run_commands(config) && (args.len() <= 2 || match find_run(run_commands(config), args[2]) {
        Some(k) => lines_malformed(run_commands(config)[k], config, flags),
        None => false,
    })
}

/// The execution of line `m` of the run command `rc`: the last line shows
/// its output (`-v`) and is waited for, the others take the command line's
/// flags and the command's `runAsync`.
pub open spec fn run_step(rc: RunCommand, m: int, config: Config, flags: Seq<Seq<char>>) -> ExecutionView {
    let last = m == rc.commands.len() - 1;
    command_step(
        command_words(substituted_text(command_text(config, flags, rc.name@, rc.commands@[m].command@))),
        if last {
            seq![seq!['-', 'v']]
        } else {
            flags
        },
        if last {
            false
        } else {
            rc.runAsync == Some(true)
        },
        rc.commands@[m].execDir.deep_view(),
    )
}

/// How many lines of `rc` are executed: those before the first failing one.
pub open spec fn lines_run(rc: RunCommand, config: Config, flags: Seq<Seq<char>>) -> int {
    match first_failing(line_texts(rc), config, flags, rc.name@) {
        Some(m) => m,
        None => rc.commands.len() as int,
    }
}

/// The programs to start, in order; once they have all run the outcome is
/// reported.
pub struct RunPlan {
    pub steps: Vec<Execution>,
    pub outcome: Result<(), RunError>,
}

pub proof fn lemma_first_failing_prefix(cs: Seq<Seq<char>>, j: int, config: Config, flags: Seq<Seq<char>>, cmd: Seq<char>)
    requires
        0 <= j <= cs.len(),
        first_failing(cs.take(j), config, flags, cmd) is Some,
    ensures
        first_failing(cs, config, flags, cmd) == first_failing(cs.take(j), config, flags, cmd),
    decreases cs.len() - j,
{
    if j == cs.len() {
        assert(cs.take(j) =~= cs);
    } else {
        assert(cs.take(j + 1).drop_last() =~= cs.take(j));
        lemma_first_failing_prefix(cs, j + 1, config, flags, cmd);
    }
}

pub proof fn lemma_first_failing_in_range(texts: Seq<Seq<char>>, config: Config, flags: Seq<Seq<char>>, cmd: Seq<char>)
    ensures
        first_failing(texts, config, flags, cmd) matches Some(m) ==> 0 <= m < texts.len(),
    decreases texts.len(),
{
    if texts.len() > 0 {
        lemma_first_failing_in_range(texts.drop_last(), config, flags, cmd);
    }
}

/// The execution list `["-v"]` with which the last line of a run command runs.
fn verboseFlags() -> (f: Vec<String>)
    ensures
        f.deep_view() == seq![seq!['-', 'v']],
{
    proof {
        reveal_strlit("-v");
        assert("-v"@ =~= seq!['-', 'v']);
    }
    let mut f: Vec<String> = Vec::new();
    f.push(String::from_str("-v"));
    assert(f.deep_view() =~= seq![seq!['-', 'v']]);
    f
}

/// The plan for the lines of the run command `rc`.
fn planLines(config: &Config, rc: &RunCommand, ownFlags: &Vec<String>) -> (plan: RunPlan)
    requires
        !lines_malformed(*rc, *config, ownFlags.deep_view()),
    ensures
        plan.steps.len() == lines_run(*rc, *config, ownFlags.deep_view()),
        forall|m: int|
            0 <= m < plan.steps.len() ==> (#[trigger] plan.steps[m])@ == run_step(
                *rc,
                m,
                *config,
                ownFlags.deep_view(),
            ),
        match first_failing(line_texts(*rc), *config, ownFlags.deep_view(), rc.name@) {
            Some(m) => plan.outcome matches Err(e) && e.message@ == failure_message(
                command_text(*config, ownFlags.deep_view(), rc.name@, rc.commands@[m].command@),
            ),
            None => plan.outcome is Ok,
        },
{
    let ghost fl = ownFlags.deep_view();
    let cs = &rc.commands;
    let n = cs.len();
    let runAsync = match rc.runAsync {
        Some(b) => b,
        None => false,
    };
    let hasVars = match &config.vars {
        Some(vs) => vs.len() > 0,
        None => false,
    };
    let mut steps: Vec<Execution> = Vec::new();
    let mut m: usize = 0;
    let ghost texts = line_texts(*rc);
    assert(texts.take(0) =~= Seq::<Seq<char>>::empty());
    while m < n
        invariant
            n == cs.len(),
            cs == &rc.commands,
            fl == ownFlags.deep_view(),
            runAsync == (rc.runAsync == Some(true)),
            hasVars == (config.vars matches Some(vs) && vs.len() > 0),
            !lines_malformed(*rc, *config, fl),
            m <= n,
            steps.len() == m,
            forall|q: int| 0 <= q < m ==> (#[trigger] steps[q])@ == run_step(*rc, q, *config, fl),
            texts == line_texts(*rc),
            first_failing(texts.take(m as int), *config, fl, rc.name@) is None,
        decreases n - m,
    {
        let ghost ct = command_text(*config, fl, rc.name@, cs@[m as int].command@);
        proof {
            assert(texts.take(m + 1).drop_last() =~= texts.take(m as int));
            assert(texts.take(m + 1).last() == cs@[m as int].command@);
            if !(ct is Text) {
                lemma_first_failing_prefix(texts, m + 1, *config, fl, rc.name@);
            }
        }
        let text: Result<String, RunError> = if hasVars {
            match &config.vars {
                Some(vs) => match replaceVars(cs[m].command.clone(), vs, ownFlags, rc.name.clone()) {
                    Ok(s) => Ok(s),
                    Err(e) => Err(RunError { message: e.message }),
                },
                None => Ok(cs[m].command.clone()),
            }
        } else {
            Ok(cs[m].command.clone())
        };
        match text {
            Ok(t) => {
                assert(t@ == substituted_text(ct));
                let last = m == n - 1;
                let flags = if last {
                    verboseFlags()
                } else {
                    cloneStrings(ownFlags)
                };
                let step = commandExecution(
                    &t,
                    flags,
                    if last {
                        false
                    } else {
                        runAsync
                    },
                    cloneOptString(&cs[m].execDir),
                );
                steps.push(step);
            },
            Err(e) => {
                return RunPlan { steps, outcome: Err(e) };
            },
        }
        m = m + 1;
    }
    assert(texts.take(n as int) =~= texts);
    RunPlan { steps, outcome: Ok(()) }
}

/// Whether planning the run would fail on its inputs (see `run_panics`).
pub fn runCmdPanics(config: &Config, ownFlags: &Vec<String>, ownArgs: &Vec<String>) -> (b: bool)
    ensures
        b == run_panics(*config, ownFlags.deep_view(), ownArgs.deep_view()),
{
    match &config.runCommands {
        Some(rcs) => {
            if rcs.len() == 0 {
                return false;
            }
            if ownArgs.len() <= 2 {
                return true;
            }
            match findRun(rcs, &ownArgs[2]) {
                Some(k) => linesMalformed(config, &rcs[k], ownFlags),
                None => false,
            }
        },
        None => false,
    }
}

/// The index of the first of `texts` whose substitution for the command
/// `cmd` fails.
pub fn firstFailingLine(config: &Config, texts: &Vec<String>, ownFlags: &Vec<String>, cmd: &String) -> (r: Option<usize>)
    ensures
        match first_failing(texts.deep_view(), *config, ownFlags.deep_view(), cmd@) {
            Some(m) => 0 <= m < texts.len() && r == Some(m as usize),
            None => r is None,
        },
{
    let ghost fl = ownFlags.deep_view();
    let ghost tv = texts.deep_view();
    let n = texts.len();
    let mut m: usize = 0;
    assert(tv.take(0) =~= Seq::<Seq<char>>::empty());
    while m < n
        invariant
            n == texts.len(),
            tv == texts.deep_view(),
            fl == ownFlags.deep_view(),
            m <= n,
            first_failing(tv.take(m as int), *config, fl, cmd@) is None,
        decreases n - m,
    {
        proof {
            assert(tv.take(m + 1).drop_last() =~= tv.take(m as int));
            assert(tv.take(m + 1).last() == texts[m as int]@);
        }
        if !textSubstitutes(config, &texts[m], ownFlags, cmd) {
            proof {
                lemma_first_failing_prefix(tv, m + 1, *config, fl, cmd@);
            }
            return Some(m);
        }
        m = m + 1;
    }
    assert(tv.take(n as int) =~= tv);
    None
}

/// Whether substituting into the command line `text` succeeds.
fn textSubstitutes(config: &Config, text: &String, ownFlags: &Vec<String>, cmd: &String) -> (b: bool)
    ensures
        b == (command_text(*config, ownFlags.deep_view(), cmd@, text@) is Text),
{
    !matches!(textOutcome(config, text, ownFlags, cmd), crate::helpers::Substituted::Missing(_) | crate::helpers::Substituted::Malformed)
}

/// What substituting into the command line `text` comes to.
fn textOutcome(config: &Config, text: &String, ownFlags: &Vec<String>, cmd: &String) -> (r: crate::helpers::Substituted)
    ensures
        r.view() is Text <==> command_text(*config, ownFlags.deep_view(), cmd@, text@) is Text,
        r.view() is Malformed <==> command_text(*config, ownFlags.deep_view(), cmd@, text@) is Malformed,
{
    match &config.vars {
        Some(vs) => {
            if vs.len() > 0 {
                crate::helpers::substitute(text, vs, ownFlags, cmd)
            } else {
                crate::helpers::Substituted::Text(String::new())
            }
        },
        None => crate::helpers::Substituted::Text(String::new()),
    }
}

/// Whether the first failing line among `texts` is malformed.
pub fn firstFailureMalformed(config: &Config, texts: &Vec<String>, ownFlags: &Vec<String>, cmd: &String) -> (b: bool)
    ensures
        b == match first_failing(texts.deep_view(), *config, ownFlags.deep_view(), cmd@) {
            Some(m) => command_text(*config, ownFlags.deep_view(), cmd@, texts.deep_view()[m]) is Malformed,
            None => false,
        },
{
    match firstFailingLine(config, texts, ownFlags, cmd) {
        Some(m) => {
            assert(texts.deep_view()[m as int] == texts[m as int]@);
            matches!(textOutcome(config, &texts[m], ownFlags, cmd), crate::helpers::Substituted::Malformed)
        },
        None => false,
    }
}

/// The command lines of `cs`.
pub fn commandTexts(cs: &Vec<CommandString>) -> (texts: Vec<String>)
    ensures
        texts.deep_view() == command_texts(cs@),
{
    let mut texts: Vec<String> = Vec::new();
    let mut i: usize = 0;
    while i < cs.len()
        invariant
            i <= cs.len(),
            texts.len() == i,
            forall|k: int| 0 <= k < i ==> (#[trigger] texts[k])@ == cs@[k].command@,
        decreases cs.len() - i,
    {
        texts.push(cs[i].command.clone());
        i = i + 1;
    }
    assert(texts.deep_view() =~= command_texts(cs@));
    texts
}

/// Whether the first failing line of `rc` is malformed (see `lines_malformed`).
fn linesMalformed(config: &Config, rc: &RunCommand, ownFlags: &Vec<String>) -> (b: bool)
    ensures
        b == lines_malformed(*rc, *config, ownFlags.deep_view()),
{
    let texts = commandTexts(&rc.commands);
    proof {
        if let Some(m) = first_failing(line_texts(*rc), *config, ownFlags.deep_view(), rc.name@) {
            lemma_first_failing_in_range(line_texts(*rc), *config, ownFlags.deep_view(), rc.name@);
            assert(line_texts(*rc)[m] == rc.commands@[m].command@);
        }
    }
    firstFailureMalformed(config, &texts, ownFlags, &rc.name)
}

/// The index of the first run command called `name`.
fn findRun(rcs: &Vec<RunCommand>, name: &String) -> (r: Option<usize>)
    ensures
        match find_run(rcs@, name@) {
            Some(k) => 0 <= k < rcs.len() && r == Some(k as usize),
            None => r is None,
        },
{
    let n = rcs.len();
    let mut found: Option<usize> = None;
    let mut i: usize = 0;
    assert(rcs@.take(0) =~= Seq::<RunCommand>::empty());
    while i < n
        invariant
            n == rcs.len(),
            i <= n,
            match find_run(rcs@.take(i as int), name@) {
                Some(k) => 0 <= k < i && found == Some(k as usize),
                None => found is None,
            },
        decreases n - i,
    {
        assert(rcs@.take(i + 1).drop_last() =~= rcs@.take(i as int));
        assert(rcs@.take(i + 1).last() == rcs@[i as int]);
        if found.is_none() && rcs[i].name == *name {
            found = Some(i);
        }
        i = i + 1;
    }
    assert(rcs@.take(n as int) =~= rcs@);
    found
}

/// Plans running the run command named by the third argument: each of its
/// lines, with the variables substituted, becomes an execution; the plan
/// stops at the first line whose variables cannot be substituted and then
/// reports why. Without run commands, or without one of that name, nothing
/// runs and the plan reports it.
pub fn runCmd(config: &Config, ownFlags: &Vec<String>, ownArgs: &Vec<String>) -> (plan: RunPlan)
    requires
        !run_panics(*config, ownFlags.deep_view(), ownArgs.deep_view()),
    ensures
        !has_run_commands(*config) ==> plan.steps.len() == 0 && (plan.outcome matches Err(e)
            && e.message@ == "No commands found in config!"@),
        has_run_commands(*config) ==> match find_run(run_commands(*config), ownArgs[2]@) {
            None => plan.steps.len() == 0 && (plan.outcome matches Err(e) && e.message@
                == unknown_command_message(ownArgs[2]@)),
            Some(k) => {
                let rc = run_commands(*config)[k];
                &&& plan.steps.len() == lines_run(rc, *config, ownFlags.deep_view())
                &&& forall|m: int|
                    0 <= m < plan.steps.len() ==> (#[trigger] plan.steps[m])@ == run_step(
                        rc,
                        m,
                        *config,
                        ownFlags.deep_view(),
                    )
                &&& match first_failing(line_texts(rc), *config, ownFlags.deep_view(), rc.name@) {
                    Some(m) => plan.outcome matches Err(e) && e.message@ == failure_message(
                        command_text(*config, ownFlags.deep_view(), rc.name@, rc.commands@[m].command@),
                    ),
                    None => plan.outcome is Ok,
                }
            },
        },
{
    match &config.runCommands {
        Some(rcs) => {
            if rcs.len() > 0 {
                let name = &ownArgs[2];
                assert(ownArgs.deep_view()[2] == name@);
                match findRun(rcs, name) {
                    Some(k) => planLines(config, &rcs[k], ownFlags),
                    None => {
                        let mut message = String::from_str("No command ");
                        message.append(name.as_str());
                        message.append(" found in config!");
                        RunPlan { steps: Vec::new(), outcome: Err(RunError { message }) }
                    },
                }
            } else {
                RunPlan {
                    steps: Vec::new(),
                    outcome: Err(RunError { message: String::from_str("No commands found in config!") }),
                }
            }
        },
        None => RunPlan {
            steps: Vec::new(),
            outcome: Err(RunError { message: String::from_str("No commands found in config!") }),
        },
    }
}

/// The report for a run command whose program could not be started.
pub fn runFailure(error: commandExecuteError) -> (e: RunError)
    ensures
        e.message@ == "Error running command "@ + error.command@ + ": "@ + error.message@,
{
    let mut message = String::from_str("Error running command ");
    message.append(error.command.as_str());
    message.append(": ");
    message.append(error.message.as_str());
    RunError { message }
}

} // verus!
