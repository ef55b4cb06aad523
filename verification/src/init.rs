//! Initializing a project from a template: the init commands, the copies of
//! the template's files, the variables in the listed files, and the
//! dependency additions.
use vstd::prelude::*;

use crate::config::{CommandString, Config, DependencyAdd, Template};
use crate::errors::{commandExecuteError, InitError};
use crate::helpers::{command_words, getCommandArgs, init_name, replaceVars, substitute, substitution, Substituted, Substitution};
use crate::plan::{cloneOptString, cloneStrings, commandExecution, command_step, views, Execution, ExecutionView};
use crate::run::{command_texts, commandTexts, firstFailureMalformed, command_text, failure_message, first_failing, lemma_first_failing_prefix, substituted_text};

verus! {

/// The init commands of the configuration.
pub open spec fn init_commands(config: Config) -> Seq<CommandString> {
    match config.initCommands {
        Some(v) => v@,
        None => Seq::<CommandString>::empty(),
    }
}

/// The command lines of the init commands.
pub open spec fn init_lines(config: Config) -> Seq<Seq<char>> {
    command_texts(init_commands(config))
}

/// Whether the first failing substitution into the init commands meets a
/// flag that names a variable without giving a value.
pub open spec fn init_panics(config: Config, flags: Seq<Seq<char>>) -> bool {
    match first_failing(init_lines(config), config, flags, init_name()) {
        Some(m) => command_text(config, flags, init_name(), init_lines(config)[m]) is Malformed,
        None => false,
    }
}

/// How many init commands run: those before the first failing one.
pub open spec fn init_run(config: Config, flags: Seq<Seq<char>>) -> int {
    match first_failing(init_lines(config), config, flags, init_name()) {
        Some(m) => m,
        None => init_lines(config).len() as int,
    }
}

/// The execution of init command `m`: waited for, with the command line's
/// flags, in the command's `execDir`.
pub open spec fn init_step(config: Config, m: int, flags: Seq<Seq<char>>) -> ExecutionView {
    command_step(
        command_words(substituted_text(command_text(config, flags, init_name(), init_lines(config)[m]))),
        flags,
        false,
        init_commands(config)[m].execDir.deep_view(),
    )
}

/// The executions of one dependency addition: its command once per
/// dependency, with the dependency's own words as a second argument group.
pub open spec fn dep_steps_of(d: DependencyAdd, flags: Seq<Seq<char>>) -> Seq<ExecutionView> {
    d.deps.deep_view().map_values(
        |j: Seq<char>|
            ExecutionView {
                program: command_words(d.command@)[0],
                args: seq![command_words(d.command@).skip(1), command_words(j)],
                flags,
                runAsync: false,
                workDir: None,
            },
    )
}

/// The executions of all dependency additions, in order.
pub open spec fn dep_steps(adds: Seq<DependencyAdd>, flags: Seq<Seq<char>>) -> Seq<ExecutionView>
    decreases adds.len(),
{
    if adds.len() == 0 {
        Seq::<ExecutionView>::empty()
    } else {
        dep_steps(adds.drop_last(), flags) + dep_steps_of(adds.last(), flags)
    }
}

/// The dependency additions of the configuration.
pub open spec fn dep_adds(config: Config) -> Seq<DependencyAdd> {
    match config.addDeps {
        Some(a) => a@,
        None => Seq::<DependencyAdd>::empty(),
    }
}

/// The files named in `varFiles`.
pub open spec fn var_files(config: Config) -> Seq<Seq<char>> {
    match config.varFiles {
        Some(v) => v.deep_view(),
        None => Seq::<Seq<char>>::empty(),
    }
}

/// What an action of initializing a project is, as plain sequences.
pub enum InitActionView {
    Run(ExecutionView),
    CopyTemplateFiles,
    SubstituteFile(Seq<char>),
    Fail(Seq<char>),
}

/// One action of initializing a project. The actions are performed in
/// order, and the first one that fails ends the initialization with its
/// error.
pub enum InitAction {
    /// Start a program.
    Run(Execution),
    /// Copy every entry of the template's directory into the working
    /// directory, each by `copyStep`.
    CopyTemplateFiles,
    /// If the file is among the working directory's entries, replace its
    /// contents by what `renderVarFile` makes of them.
    SubstituteFile(String),
    /// End the initialization with this error.
    Fail(InitError),
}

impl View for InitAction {
    type V = InitActionView;

    open spec fn view(&self) -> InitActionView {
        match self {
            InitAction::Run(e) => InitActionView::Run(e@),
            InitAction::CopyTemplateFiles => InitActionView::CopyTemplateFiles,
            InitAction::SubstituteFile(f) => InitActionView::SubstituteFile(f@),
            InitAction::Fail(e) => InitActionView::Fail(e.message@),
        }
    }
}

/// The views of a sequence of actions.
pub open spec fn action_views(a: Seq<InitAction>) -> Seq<InitActionView> {
    a.map_values(|x: InitAction| x@)
}

/// Starting each of the executions, in order.
pub open spec fn runs(s: Seq<ExecutionView>) -> Seq<InitActionView> {
    s.map_values(|e: ExecutionView| InitActionView::Run(e))
}

/// Initializing a project: the init commands, with the variables substituted
/// for `init`, up to the first one whose variables cannot be substituted,
/// which ends it with the reason; else, after them, the copies of the
/// template's files, then the variables in each file of `varFiles`, then
/// the dependency additions.
pub open spec fn init_actions(config: Config, flags: Seq<Seq<char>>) -> Seq<InitActionView> {
    let commands = Seq::new(init_run(config, flags) as nat, |m: int| InitActionView::Run(init_step(config, m, flags)));
    match first_failing(init_lines(config), config, flags, init_name()) {
        Some(m) => commands.push(
            InitActionView::Fail(failure_message(command_text(config, flags, init_name(), init_lines(config)[m]))),
        ),
        None => commands + seq![InitActionView::CopyTemplateFiles] + var_files(config).map_values(
            |f: Seq<char>| InitActionView::SubstituteFile(f),
        ) + runs(dep_steps(dep_adds(config), flags)),
    }
}

/// Appends an action that starts each of `steps`, in order.
fn appendRuns(actions: &mut Vec<InitAction>, steps: Vec<Execution>)
    ensures
        action_views(final(actions)@) == action_views(old(actions)@) + runs(views(steps@)),
{
    let ghost start = action_views(actions@);
    let ghost all = steps@;
    let mut rest = steps;
    let n = rest.len();
    let mut k: usize = 0;
    assert(runs(views(all)).take(0) =~= Seq::<InitActionView>::empty());
    assert(start + runs(views(all)).take(0) =~= start);
    while k < n
        invariant
            n == all.len(),
            k <= n,
            rest@ == all.skip(k as int),
            action_views(actions@) == start + runs(views(all)).take(k as int),
        decreases n - k,
    {
        let step = rest.remove(0);
        assert(step == all[k as int]);
        assert(rest@ =~= all.skip(k + 1));
        let ghost before = action_views(actions@);
        actions.push(InitAction::Run(step));
        assert(action_views(actions@) =~= before.push(InitActionView::Run(step@)));
        assert(runs(views(all)).take(k + 1) =~= runs(views(all)).take(k as int).push(
            InitActionView::Run(step@),
        ));
        k = k + 1;
    }
    assert(runs(views(all)).take(n as int) =~= runs(views(all)));
}

/// The executions of the init commands, up to the first one whose variables
/// cannot be substituted.
fn initCommandSteps(config: &Config, ownFlags: &Vec<String>) -> (r: (Vec<Execution>, Result<(), InitError>))
    requires
        !init_panics(*config, ownFlags.deep_view()),
    ensures
        r.0.len() == init_run(*config, ownFlags.deep_view()),
        forall|m: int| 0 <= m < r.0.len() ==> (#[trigger] r.0[m])@ == init_step(*config, m, ownFlags.deep_view()),
        match first_failing(init_lines(*config), *config, ownFlags.deep_view(), init_name()) {
            Some(m) => r.1 matches Err(e) && e.message@ == failure_message(
                command_text(*config, ownFlags.deep_view(), init_name(), init_lines(*config)[m]),
            ),
            None => r.1 is Ok,
        },
{
    let ghost fl = ownFlags.deep_view();
    let mut steps: Vec<Execution> = Vec::new();
    match &config.initCommands {
        None => {
            return (steps, Ok(()));
        },
        Some(lines) => {
            let hasVars = match &config.vars {
                Some(vs) => vs.len() > 0,
                None => false,
            };
            proof {
                reveal_strlit("init");
                assert("init"@ =~= init_name());
            }
            let n = lines.len();
            let ghost texts = init_lines(*config);
            let mut m: usize = 0;
            assert(texts.take(0) =~= Seq::<Seq<char>>::empty());
            while m < n
                invariant
                    n == lines.len(),
                    config.initCommands == Some(*lines),
                    texts == init_lines(*config),
                    texts == command_texts(lines@),
                    fl == ownFlags.deep_view(),
                    "init"@ == init_name(),
                    hasVars == (config.vars matches Some(vs) && vs.len() > 0),
                    !init_panics(*config, fl),
                    m <= n,
                    steps.len() == m,
                    forall|q: int| 0 <= q < m ==> (#[trigger] steps[q])@ == init_step(*config, q, fl),
                    first_failing(texts.take(m as int), *config, fl, init_name()) is None,
                decreases n - m,
            {
                let ghost ct = command_text(*config, fl, init_name(), texts[m as int]);
                proof {
                    assert(texts.take(m + 1).drop_last() =~= texts.take(m as int));
                    assert(texts.take(m + 1).last() == texts[m as int]);
                    assert(texts[m as int] == lines[m as int].command@);
                    if !(ct is Text) {
                        lemma_first_failing_prefix(texts, m + 1, *config, fl, init_name());
                    }
                }
                let text: Result<String, InitError> = if hasVars {
                    match &config.vars {
                        Some(vs) => match replaceVars(lines[m].command.clone(), vs, ownFlags, String::from_str("init")) {
                            Ok(s) => Ok(s),
                            Err(e) => Err(InitError { message: e.message }),
                        },
                        None => Ok(lines[m].command.clone()),
                    }
                } else {
                    Ok(lines[m].command.clone())
                };
                match text {
                    Ok(t) => {
                        assert(t@ == substituted_text(ct));
                        let step = commandExecution(&t, cloneStrings(ownFlags), false, cloneOptString(&lines[m].execDir));
                        steps.push(step);
                    },
                    Err(e) => {
                        return (steps, Err(e));
                    },
                }
                m = m + 1;
            }
            assert(texts.take(n as int) =~= texts);
            (steps, Ok(()))
        },
    }
}

/// The executions of the dependency additions.
fn depAddSteps(config: &Config, ownFlags: &Vec<String>) -> (steps: Vec<Execution>)
    ensures
        views(steps@) == dep_steps(dep_adds(*config), ownFlags.deep_view()),
{
    let ghost fl = ownFlags.deep_view();
    let mut steps: Vec<Execution> = Vec::new();
    match &config.addDeps {
        None => {
            assert(views(steps@) =~= dep_steps(dep_adds(*config), fl));
            steps
        },
        Some(adds) => {
            let n = adds.len();
            let mut i: usize = 0;
            assert(adds@.take(0) =~= Seq::<DependencyAdd>::empty());
            assert(views(steps@) =~= Seq::<ExecutionView>::empty());
            while i < n
                invariant
                    n == adds.len(),
                    config.addDeps == Some(*adds),
                    fl == ownFlags.deep_view(),
                    i <= n,
                    views(steps@) == dep_steps(adds@.take(i as int), fl),
                decreases n - i,
            {
                let d = &adds[i];
                let words = getCommandArgs(d.command.as_str());
                let mut rest: Vec<String> = Vec::new();
                let mut k: usize = 1;
                while k < words.len()
                    invariant
                        1 <= k <= words.len(),
                        rest.len() == k - 1,
                        forall|q: int| 0 <= q < k - 1 ==> (#[trigger] rest[q])@ == words[q + 1]@,
                    decreases words.len() - k,
                {
                    rest.push(words[k].clone());
                    k = k + 1;
                }
                assert(rest.deep_view() =~= words.deep_view().skip(1));
                let ghost base = views(steps@);
                let mut j: usize = 0;
                assert(dep_steps_of(*d, fl).take(0) =~= Seq::<ExecutionView>::empty());
                assert(base + dep_steps_of(*d, fl).take(0) =~= base);
                while j < d.deps.len()
                    invariant
                        fl == ownFlags.deep_view(),
                        words.deep_view() == command_words(d.command@),
                        words.len() >= 1,
                        rest.deep_view() == words.deep_view().skip(1),
                        j <= d.deps.len(),
                        views(steps@) == base + dep_steps_of(*d, fl).take(j as int),
                    decreases d.deps.len() - j,
                {
                    let mut args: Vec<Vec<String>> = Vec::new();
                    args.push(cloneStrings(&rest));
                    args.push(getCommandArgs(d.deps[j].as_str()));
                    let step = Execution {
                        program: words[0].clone(),
                        args,
                        flags: cloneStrings(ownFlags),
                        runAsync: false,
                        workDir: None,
                    };
                    assert(step.args.deep_view() =~= seq![
                        command_words(d.command@).skip(1),
                        command_words(d.deps.deep_view()[j as int]),
                    ]);
                    assert(step@ == dep_steps_of(*d, fl)[j as int]);
                    let ghost before = views(steps@);
                    steps.push(step);
                    assert(views(steps@) =~= before.push(step@));
                    assert(dep_steps_of(*d, fl).take(j + 1) =~= dep_steps_of(*d, fl).take(j as int).push(
                        dep_steps_of(*d, fl)[j as int],
                    ));
                    j = j + 1;
                }
                proof {
                    assert(dep_steps_of(*d, fl).take(d.deps.len() as int) =~= dep_steps_of(*d, fl));
                    assert(adds@.take(i + 1).drop_last() =~= adds@.take(i as int));
                    assert(adds@.take(i + 1).last() == *d);
                }
                i = i + 1;
            }
            assert(adds@.take(n as int) =~= adds@);
            steps
        },
    }
}

/// Plans initializing a project from `template`, as the ordered actions of
/// `init_actions`.
pub fn initTemplate(template: &Template, ownFlags: &Vec<String>) -> (actions: Vec<InitAction>)
    requires
        !init_panics(template.config, ownFlags.deep_view()),
    ensures
        action_views(actions@) == init_actions(template.config, ownFlags.deep_view()),
{
    let ghost config = template.config;
    let ghost fl = ownFlags.deep_view();
    let (commandSteps, commandOutcome) = initCommandSteps(&template.config, ownFlags);
    let mut actions: Vec<InitAction> = Vec::new();
    let ghost commands = Seq::new(init_run(config, fl) as nat, |m: int| InitActionView::Run(init_step(config, m, fl)));
    assert(runs(views(commandSteps@)) =~= commands);
    appendRuns(&mut actions, commandSteps);
    assert(action_views(actions@) =~= commands);
    match commandOutcome {
        Err(e) => {
            let ghost before = action_views(actions@);
            actions.push(InitAction::Fail(e));
            assert(action_views(actions@) =~= before.push(InitActionView::Fail(e.message@)));
        },
        Ok(()) => {
            let ghost before = action_views(actions@);
            actions.push(InitAction::CopyTemplateFiles);
            assert(action_views(actions@) =~= before + seq![InitActionView::CopyTemplateFiles]);
            let ghost files = var_files(config).map_values(|f: Seq<char>| InitActionView::SubstituteFile(f));
            let ghost base = action_views(actions@);
            match &template.config.varFiles {
                Some(fs) => {
                    let mut i: usize = 0;
                    assert(files.take(0) =~= Seq::<InitActionView>::empty());
                    assert(base + files.take(0) =~= base);
                    while i < fs.len()
                        invariant
                            template.config.varFiles == Some(*fs),
                            config == template.config,
                            files == var_files(config).map_values(|f: Seq<char>| InitActionView::SubstituteFile(f)),
                            i <= fs.len(),
                            action_views(actions@) == base + files.take(i as int),
                        decreases fs.len() - i,
                    {
                        let ghost b = action_views(actions@);
                        actions.push(InitAction::SubstituteFile(fs[i].clone()));
                        assert(action_views(actions@) =~= b.push(InitActionView::SubstituteFile(fs[i as int]@)));
                        assert(files.take(i + 1) =~= files.take(i as int).push(files[i as int]));
                        i = i + 1;
                    }
                    assert(files.take(fs.len() as int) =~= files);
                },
                None => {
                    assert(files =~= Seq::<InitActionView>::empty());
                    assert(base + files =~= base);
                },
            }
            let depSteps = depAddSteps(&template.config, ownFlags);
            appendRuns(&mut actions, depSteps);
        },
    }
    actions
}

/// Whether the first failing init command would meet a flag that names a
/// variable without a value (see `init_panics`).
pub fn initTemplatePanics(template: &Template, ownFlags: &Vec<String>) -> (b: bool)
    ensures
        b == init_panics(template.config, ownFlags.deep_view()),
{
    match &template.config.initCommands {
        None => false,
        Some(lines) => {
            proof {
                reveal_strlit("init");
                assert("init"@ =~= init_name());
            }
            let texts = commandTexts(lines);
            firstFailureMalformed(&template.config, &texts, ownFlags, &String::from_str("init"))
        },
    }
}

/// The execution that copies one entry of the template's directory into the
/// working directory (`cp -r <entry> ./`).
pub fn copyStep(entry: &String, ownFlags: &Vec<String>) -> (e: Execution)
    ensures
        e@ == (ExecutionView {
            program: "cp"@,
            args: seq![seq!["-r"@, entry@, "./"@]],
            flags: ownFlags.deep_view(),
            runAsync: false,
            workDir: None,
        }),
{
    let mut group: Vec<String> = Vec::new();
    group.push(String::from_str("-r"));
    group.push(entry.clone());
    group.push(String::from_str("./"));
    assert(group.deep_view() =~= seq!["-r"@, entry@, "./"@]);
    let mut args: Vec<Vec<String>> = Vec::new();
    args.push(group);
    let e = Execution {
        program: String::from_str("cp"),
        args,
        flags: cloneStrings(ownFlags),
        runAsync: false,
        workDir: None,
    };
    assert(e.args.deep_view() =~= seq![seq!["-r"@, entry@, "./"@]]);
    e
}

/// The contents of a file of `varFiles` with the variables substituted for
/// `init`; fails on the first required variable without a value.
pub fn renderVarFile(content: String, config: &Config, ownFlags: &Vec<String>) -> (r: Result<String, InitError>)
    requires
        config.vars is Some,
        !(substitution(content@, config.vars.unwrap()@, ownFlags.deep_view(), init_name()) is Malformed),
    ensures
        match substitution(content@, config.vars.unwrap()@, ownFlags.deep_view(), init_name()) {
            Substitution::Text(t) => r matches Ok(s) && s@ == t,
            m => r matches Err(e) && e.message@ == failure_message(m),
        },
{
    proof {
        reveal_strlit("init");
        assert("init"@ =~= init_name());
    }
    match &config.vars {
        Some(vs) => match replaceVars(content, vs, ownFlags, String::from_str("init")) {
            Ok(s) => Ok(s),
            Err(e) => Err(InitError { message: e.message }),
        },
        None => Ok(content),
    }
}

/// Whether substituting into a file of `varFiles` would meet a flag that
/// names a required variable without a value.
pub fn renderVarFilePanics(content: &String, config: &Config, ownFlags: &Vec<String>) -> (b: bool)
    requires
        config.vars is Some,
    ensures
        b == (substitution(content@, config.vars.unwrap()@, ownFlags.deep_view(), init_name()) is Malformed),
{
    proof {
        reveal_strlit("init");
        assert("init"@ =~= init_name());
    }
    let cmd = String::from_str("init");
    match &config.vars {
        Some(vs) => match substitute(content, vs, ownFlags, &cmd) {
            Substituted::Malformed => true,
            _ => false,
        },
        None => false,
    }
}

/// The report for an init step whose program could not be started.
pub fn initFailure(error: commandExecuteError) -> (e: InitError)
    ensures
        e.message@ == error.message@,
{
    InitError { message: error.message }
}

} // verus!
