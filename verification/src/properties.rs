//! What the operations are for, stated directly over their inputs: which
//! value a variable takes, which run command is planned, which dependency
//! additions run, which commands a `reqFor` may name, and which flags an
//! initialization gets.
use vstd::prelude::*;

use crate::cli::init_flags;
use crate::config::{Config, DependencyAdd, RunCommand, Var};
use crate::helpers::{
    command_words, config_unknowns, first_flag, is_flag, known_commands, pick, substitute_prefix,
    substitution, unknown_entries, unknown_requirements, var_unknowns, Substitution,
};
use crate::init::{dep_steps, dep_steps_of, init_commands, init_step};
use crate::load::{candidate_error, first_bad, TemplateCandidate};
use crate::plan::ExecutionView;
use crate::run::{command_text, find_run, first_failing, run_step};
use crate::text::{replace_all, split_on, trim_char};

verus! {

/// Whether the flag `f` sets the variable `name`: without its leading and
/// trailing dashes, the part before its first `=` is `name`.
pub open spec fn sets_var(f: Seq<char>, name: Seq<char>) -> bool {
    split_on(trim_char(f, '-'), '=')[0] == name
}

proof fn lemma_no_flag_sets(flags: Seq<Seq<char>>, name: Seq<char>)
    requires
        forall|j: int| 0 <= j < flags.len() ==> !sets_var(#[trigger] flags[j], name),
    ensures
        first_flag(flags, name) is None,
    decreases flags.len(),
{
    if flags.len() > 0 {
        let d = flags.drop_last();
        assert forall|j: int| 0 <= j < d.len() implies !sets_var(#[trigger] d[j], name) by {
            assert(d[j] == flags[j]);
        }
        lemma_no_flag_sets(d, name);
        assert(!sets_var(flags[flags.len() - 1], name));
    }
}

proof fn lemma_first_flag_at(flags: Seq<Seq<char>>, name: Seq<char>, k: int)
    requires
        0 <= k < flags.len(),
        sets_var(flags[k], name),
        forall|j: int| 0 <= j < k ==> !sets_var(#[trigger] flags[j], name),
    ensures
        first_flag(flags, name) == Some(k),
    decreases flags.len(),
{
    let d = flags.drop_last();
    if k == flags.len() - 1 {
        assert forall|j: int| 0 <= j < d.len() implies !sets_var(#[trigger] d[j], name) by {
            assert(d[j] == flags[j]);
        }
        lemma_no_flag_sets(d, name);
    } else {
        assert(d[k] == flags[k]);
        assert forall|j: int| 0 <= j < k implies !sets_var(#[trigger] d[j], name) by {
            assert(d[j] == flags[j]);
        }
        lemma_first_flag_at(d, name, k);
    }
}

/// Whatever the variable's `reqFor` and whatever the command: when the
/// first flag that sets the variable carries a value (`--name=value`), the
/// variable's step of the substitution replaces every `$name` by that value,
/// never by the default.
pub proof fn law_flag_value_replaces(
    s: Seq<char>,
    vars: Seq<Var>,
    flags: Seq<Seq<char>>,
    cmd: Seq<char>,
    i: nat,
    t: Seq<char>,
    k: int,
)
    requires
        i < vars.len(),
        substitute_prefix(s, vars, flags, cmd, i) == Substitution::Text(t),
        0 <= k < flags.len(),
        sets_var(flags[k], vars[i as int].name@),
        forall|j: int| 0 <= j < k ==> !sets_var(#[trigger] flags[j], vars[i as int].name@),
        split_on(flags[k], '=').len() >= 2,
    ensures
        substitute_prefix(s, vars, flags, cmd, i + 1) == Substitution::Text(
            replace_all(t, seq!['$'] + vars[i as int].name@, split_on(flags[k], '=')[1]),
        ),
{
    lemma_first_flag_at(flags, vars[i as int].name@, k);
}

proof fn lemma_single(t: Seq<char>, v: Var, flags: Seq<Seq<char>>, cmd: Seq<char>)
    ensures
        substitution(t, seq![v], flags, cmd) == crate::helpers::apply_var(t, v, flags, cmd),
{
    assert(seq![v][0] == v);
    assert(seq![v].len() == 1);
    assert(substitute_prefix(t, seq![v], flags, cmd, 0) == Substitution::Text(t));
    assert(substitute_prefix(t, seq![v], flags, cmd, 1) == crate::helpers::apply_var(t, seq![v][0], flags, cmd));
}

/// Substituting a single variable into a text, for any `reqFor` and any
/// command: the first flag that sets it, when it carries a value, gives its
/// value.
pub proof fn law_flag_value_replaces_one(t: Seq<char>, v: Var, flags: Seq<Seq<char>>, cmd: Seq<char>, k: int)
    requires
        0 <= k < flags.len(),
        sets_var(flags[k], v.name@),
        forall|j: int| 0 <= j < k ==> !sets_var(#[trigger] flags[j], v.name@),
        split_on(flags[k], '=').len() >= 2,
    ensures
        substitution(t, seq![v], flags, cmd) == Substitution::Text(
            replace_all(t, seq!['$'] + v.name@, split_on(flags[k], '=')[1]),
        ),
{
    lemma_first_flag_at(flags, v.name@, k);
    lemma_single(t, v, flags, cmd);
}

/// When no flag sets a variable, its default, where it has one, replaces
/// every `$name`, whatever the variable's `reqFor` and the command.
pub proof fn law_default_replaces(t: Seq<char>, v: Var, flags: Seq<Seq<char>>, cmd: Seq<char>, d: String)
    requires
        forall|j: int| 0 <= j < flags.len() ==> !sets_var(#[trigger] flags[j], v.name@),
        v.default == Some(d),
    ensures
        substitution(t, seq![v], flags, cmd) == Substitution::Text(replace_all(t, seq!['$'] + v.name@, d@)),
{
    lemma_no_flag_sets(flags, v.name@);
    lemma_single(t, v, flags, cmd);
}

/// A variable that no flag sets and that has no default makes substitution
/// fail, naming it, when `reqFor` is absent or empty or lists the command
/// (with spaces around it); when `reqFor` lists other commands only, the
/// text stays as it is.
pub proof fn law_valueless_variable(t: Seq<char>, v: Var, flags: Seq<Seq<char>>, cmd: Seq<char>)
    requires
        forall|j: int| 0 <= j < flags.len() ==> !sets_var(#[trigger] flags[j], v.name@),
        v.default is None,
    ensures
        (v.reqFor is None || (v.reqFor matches Some(r) && r@.len() == 0)) ==> substitution(t, seq![v], flags, cmd)
            == Substitution::Missing(v.name@),
        (v.reqFor matches Some(r) && exists|p: int|
            0 <= p < split_on(r@, ',').len() && trim_char(#[trigger] split_on(r@, ',')[p], ' ') == cmd)
            ==> substitution(t, seq![v], flags, cmd) == Substitution::Missing(v.name@),
        (v.reqFor matches Some(r) && r@.len() > 0 && forall|p: int|
            0 <= p < split_on(r@, ',').len() ==> trim_char(#[trigger] split_on(r@, ',')[p], ' ') != cmd)
            ==> substitution(t, seq![v], flags, cmd) == Substitution::Text(t),
{
    lemma_no_flag_sets(flags, v.name@);
    lemma_single(t, v, flags, cmd);
    if let Some(r) = v.reqFor {
        let es = split_on(r@, ',').map_values(|e: Seq<char>| trim_char(e, ' '));
        if exists|p: int| 0 <= p < split_on(r@, ',').len() && trim_char(#[trigger] split_on(r@, ',')[p], ' ') == cmd {
            let p = choose|p: int| 0 <= p < split_on(r@, ',').len() && trim_char(#[trigger] split_on(r@, ',')[p], ' ') == cmd;
            assert(es[p] == cmd);
        }
        if r@.len() > 0 && forall|p: int|
            0 <= p < split_on(r@, ',').len() ==> trim_char(#[trigger] split_on(r@, ',')[p], ' ') != cmd {
            assert forall|p: int| 0 <= p < es.len() implies es[p] != cmd by {
                assert(es[p] == trim_char(split_on(r@, ',')[p], ' '));
            }
            assert(!es.contains(cmd));
        }
    }
}

/// The run command that a run is planned for is the first one whose name is
/// the one asked for; when no run command has that name, none is planned.
pub proof fn law_find_run_first(rcs: Seq<RunCommand>, name: Seq<char>)
    ensures
        find_run(rcs, name) matches Some(k) ==> 0 <= k < rcs.len() && rcs[k].name@ == name && forall|j: int|
            0 <= j < k ==> (#[trigger] rcs[j]).name@ != name,
        find_run(rcs, name) is None ==> forall|j: int| 0 <= j < rcs.len() ==> (#[trigger] rcs[j]).name@ != name,
    decreases rcs.len(),
{
    if rcs.len() > 0 {
        let d = rcs.drop_last();
        law_find_run_first(d, name);
        assert forall|j: int| 0 <= j < d.len() implies d[j] == rcs[j] by {}
    }
}

/// The executions of a list of dependency additions are those of its first
/// part followed by those of its second part.
pub proof fn law_dep_steps_append(a: Seq<DependencyAdd>, b: Seq<DependencyAdd>, flags: Seq<Seq<char>>)
    ensures
        dep_steps(a + b, flags) == dep_steps(a, flags) + dep_steps(b, flags),
    decreases b.len(),
{
    if b.len() == 0 {
        assert(a + b =~= a);
        assert(dep_steps(a, flags) + dep_steps(b, flags) =~= dep_steps(a, flags));
    } else {
        law_dep_steps_append(a, b.drop_last(), flags);
        assert((a + b).drop_last() =~= a + b.drop_last());
        assert((a + b).last() == b.last());
        assert(dep_steps(a, flags) + dep_steps(b, flags) =~= (dep_steps(a, flags) + dep_steps(
            b.drop_last(),
            flags,
        )) + dep_steps_of(b.last(), flags));
    }
}

/// One dependency addition runs its command once per dependency, in order:
/// the command's first word is the program, the rest of its words one
/// argument group, and the dependency's words a second one.
pub proof fn law_dep_steps_single(d: DependencyAdd, flags: Seq<Seq<char>>)
    ensures
        dep_steps(seq![d], flags).len() == d.deps.len(),
        forall|j: int|
            0 <= j < d.deps.len() ==> #[trigger] dep_steps(seq![d], flags)[j] == (ExecutionView {
                program: command_words(d.command@)[0],
                args: seq![command_words(d.command@).skip(1), command_words(d.deps[j]@)],
                flags,
                runAsync: false,
                workDir: None,
            }),
{
    let e = Seq::<DependencyAdd>::empty();
    assert(seq![d].drop_last() =~= e);
    assert(seq![d].last() == d);
    assert(dep_steps(e, flags) == Seq::<ExecutionView>::empty());
    assert(dep_steps(seq![d], flags) == dep_steps(e, flags) + dep_steps_of(d, flags));
    assert(dep_steps(seq![d], flags) =~= dep_steps_of(d, flags));
    assert forall|j: int| 0 <= j < d.deps.len() implies #[trigger] dep_steps(seq![d], flags)[j] == (ExecutionView {
        program: command_words(d.command@)[0],
        args: seq![command_words(d.command@).skip(1), command_words(d.deps[j]@)],
        flags,
        runAsync: false,
        workDir: None,
    }) by {
        assert(d.deps.deep_view()[j] == d.deps[j]@);
    }
}

/// `init` always names the init commands, and every run command's name
/// names it, whatever else the configuration holds.
pub proof fn law_known_commands(config: Config)
    ensures
        known_commands(config).contains(seq!['i', 'n', 'i', 't']),
        config.runCommands matches Some(rcs) ==> forall|k: int|
            0 <= k < rcs.len() ==> known_commands(config).contains(#[trigger] rcs@[k].name@),
{
    assert(known_commands(config)[0] == seq!['i', 'n', 'i', 't']);
    if let Some(rcs) = config.runCommands {
        assert forall|k: int| 0 <= k < rcs.len() implies known_commands(config).contains(#[trigger] rcs@[k].name@) by {
            assert(known_commands(config)[k + 1] == rcs@[k].name@);
        }
    }
}

/// The flags of an initialization are the command line's flags, all kept in
/// their order, with `-v` appended when the configuration forces verbose
/// output.
pub proof fn law_init_flags(config: Config, flags: Seq<Seq<char>>)
    ensures
        config.forceInitVerbose == Some(true) ==> init_flags(config, flags) == flags.push(seq!['-', 'v']),
        config.forceInitVerbose != Some(true) ==> init_flags(config, flags) == flags,
{
}

/// Splitting the words of a command line into flags and arguments works word
/// by word: the result for two runs of words is the results for each, one
/// after the other, and a single word goes to the flags exactly when it
/// starts with `-`.
pub proof fn law_pick_append(a: Seq<Seq<char>>, b: Seq<Seq<char>>, flags: bool)
    ensures
        pick(a + b, flags) == pick(a, flags) + pick(b, flags),
    decreases b.len(),
{
    if b.len() == 0 {
        assert(a + b =~= a);
        assert(pick(a, flags) + pick(b, flags) =~= pick(a, flags));
    } else {
        law_pick_append(a, b.drop_last(), flags);
        assert((a + b).drop_last() =~= a + b.drop_last());
        assert((a + b).last() == b.last());
        if is_flag(b.last()) == flags {
            assert(pick(a, flags) + pick(b, flags) =~= (pick(a, flags) + pick(b.drop_last(), flags)).push(
                b.last(),
            ));
        } else {
            assert(pick(a, flags) + pick(b, flags) =~= pick(a, flags) + pick(b.drop_last(), flags));
        }
    }
}

/// A single word goes to the flags exactly when it starts with `-`, and to
/// the arguments otherwise.
pub proof fn law_pick_single(w: Seq<char>)
    ensures
        (w.len() > 0 && w[0] == '-') ==> pick(seq![w], true) == seq![w] && pick(seq![w], false).len() == 0,
        !(w.len() > 0 && w[0] == '-') ==> pick(seq![w], false) == seq![w] && pick(seq![w], true).len() == 0,
{
    let e = Seq::<Seq<char>>::empty();
    assert(seq![w].drop_last() =~= e);
    assert(seq![w].last() == w);
    assert(seq![w].len() == 1);
    assert(pick(e, true) == e);
    assert(pick(e, false) == e);
    assert(e.push(w) =~= seq![w]);
    if is_flag(w) {
        assert(pick(seq![w], true) == e.push(w));
        assert(pick(seq![w], false) == e);
    } else {
        assert(pick(seq![w], false) == e.push(w));
        assert(pick(seq![w], true) == e);
    }
}

/// Without variables, line `m` of a run command starts the program that its
/// first word names, with the rest of its words, in its `execDir`.
pub proof fn law_run_step_without_vars(rc: RunCommand, m: int, config: Config, flags: Seq<Seq<char>>)
    requires
        0 <= m < rc.commands.len(),
        config.vars is None || (config.vars matches Some(vs) && vs.len() == 0),
    ensures
        run_step(rc, m, config, flags).program == command_words(rc.commands@[m].command@)[0],
        run_step(rc, m, config, flags).args == seq![command_words(rc.commands@[m].command@).skip(1)],
        run_step(rc, m, config, flags).workDir == rc.commands@[m].execDir.deep_view(),
{
}

/// Without variables, init command `m` starts the program that its first
/// word names, with the rest of its words and the command line's flags, in
/// its `execDir`, and is waited for.
pub proof fn law_init_step_without_vars(config: Config, m: int, flags: Seq<Seq<char>>)
    requires
        0 <= m < init_commands(config).len(),
        config.vars is None || (config.vars matches Some(vs) && vs.len() == 0),
    ensures
        init_step(config, m, flags).program == command_words(init_commands(config)[m].command@)[0],
        init_step(config, m, flags).args == seq![command_words(init_commands(config)[m].command@).skip(1)],
        init_step(config, m, flags).flags == flags,
        !init_step(config, m, flags).runAsync,
        init_step(config, m, flags).workDir == init_commands(config)[m].execDir.deep_view(),
{
    assert(crate::init::init_lines(config)[m] == init_commands(config)[m].command@);
}

/// The line at which a run stops is the first one whose variables cannot be
/// substituted; when there is none, every line substitutes.
pub proof fn law_first_failing_first(texts: Seq<Seq<char>>, config: Config, flags: Seq<Seq<char>>, cmd: Seq<char>)
    ensures
        first_failing(texts, config, flags, cmd) matches Some(m) ==> 0 <= m < texts.len() && !(command_text(
            config,
            flags,
            cmd,
            texts[m],
        ) is Text) && forall|j: int| 0 <= j < m ==> command_text(config, flags, cmd, #[trigger] texts[j]) is Text,
        first_failing(texts, config, flags, cmd) is None ==> forall|j: int|
            0 <= j < texts.len() ==> command_text(config, flags, cmd, #[trigger] texts[j]) is Text,
    decreases texts.len(),
{
    if texts.len() > 0 {
        let d = texts.drop_last();
        law_first_failing_first(d, config, flags, cmd);
        assert forall|j: int| 0 <= j < d.len() implies d[j] == texts[j] by {}
    }
}

/// Loading stops at the first template whose configuration is wrong; when
/// none is, every candidate is right.
pub proof fn law_first_bad_first(cs: Seq<TemplateCandidate>)
    ensures
        first_bad(cs) matches Some(k) ==> 0 <= k < cs.len() && candidate_error(cs[k]) is Some && forall|j: int|
            0 <= j < k ==> candidate_error(#[trigger] cs[j]) is None,
        first_bad(cs) is None ==> forall|j: int| 0 <= j < cs.len() ==> candidate_error(#[trigger] cs[j]) is None,
    decreases cs.len(),
{
    if cs.len() > 0 {
        let d = cs.drop_last();
        law_first_bad_first(d);
        assert forall|j: int| 0 <= j < d.len() implies d[j] == cs[j] by {}
    }
}

proof fn lemma_unknown_entries_empty(ps: Seq<Seq<char>>, known: Seq<Seq<char>>)
    ensures
        unknown_entries(ps, known).len() == 0 <==> forall|p: int|
            0 <= p < ps.len() ==> known.contains(trim_char(#[trigger] ps[p], ' ')),
    decreases ps.len(),
{
    if ps.len() > 0 {
        let d = ps.drop_last();
        lemma_unknown_entries_empty(d, known);
        assert forall|j: int| 0 <= j < d.len() implies d[j] == ps[j] by {}
        if !known.contains(trim_char(ps.last(), ' ')) {
            assert(!known.contains(trim_char(ps[ps.len() - 1], ' ')));
        }
    }
}

/// The comma-separated pieces of a variable's `reqFor`, as written; none
/// when it is absent or empty.
pub open spec fn req_pieces(v: Var) -> Seq<Seq<char>> {
    match v.reqFor {
        Some(r) => if r@.len() > 0 {
            split_on(r@, ',')
        } else {
            Seq::<Seq<char>>::empty()
        },
        None => Seq::<Seq<char>>::empty(),
    }
}

/// Whether every entry of every non-empty `reqFor`, without surrounding
/// spaces, names a known command.
pub open spec fn requirements_known(vars: Seq<Var>, known: Seq<Seq<char>>) -> bool {
    forall|k: int, p: int|
        0 <= k < vars.len() && 0 <= p < req_pieces(vars[k]).len() ==> known.contains(
            trim_char(#[trigger] req_pieces(#[trigger] vars[k])[p], ' '),
        )
}

proof fn lemma_requirements_empty(vars: Seq<Var>, known: Seq<Seq<char>>)
    ensures
        unknown_requirements(vars, known).len() == 0 <==> requirements_known(vars, known),
    decreases vars.len(),
{
    if vars.len() > 0 {
        let d = vars.drop_last();
        let v = vars.last();
        lemma_requirements_empty(d, known);
        lemma_unknown_entries_empty(req_pieces(v), known);
        assert(var_unknowns(v, known) == unknown_entries(req_pieces(v), known));
        assert(vars[vars.len() - 1] == v);
        if requirements_known(vars, known) {
            assert forall|k: int, p: int| 0 <= k < d.len() && 0 <= p < req_pieces(d[k]).len() implies known.contains(
                trim_char(#[trigger] req_pieces(#[trigger] d[k])[p], ' '),
            ) by {
                assert(d[k] == vars[k]);
            }
            assert forall|p: int| 0 <= p < req_pieces(v).len() implies known.contains(
                trim_char(#[trigger] req_pieces(v)[p], ' '),
            ) by {}
        }
        if unknown_requirements(vars, known).len() == 0 {
            assert(unknown_requirements(d, known).len() == 0);
            assert(var_unknowns(v, known).len() == 0);
            assert forall|k: int, p: int| 0 <= k < vars.len() && 0 <= p < req_pieces(vars[k]).len() implies known.contains(
                trim_char(#[trigger] req_pieces(#[trigger] vars[k])[p], ' '),
            ) by {
                if k < d.len() {
                    assert(d[k] == vars[k]);
                }
            }
        }
    }
}

/// A configuration passes validation exactly when every comma-separated
/// entry of every non-empty `reqFor`, without surrounding spaces, is `init`
/// or the name of one of its run commands.
pub proof fn law_validation_exact(config: Config)
    ensures
        config.vars matches Some(vs) ==> (config_unknowns(config).len() == 0 <==> requirements_known(
            vs@,
            known_commands(config),
        )),
        config.vars is None ==> config_unknowns(config).len() == 0,
{
    if let Some(vs) = config.vars {
        lemma_requirements_empty(vs@, known_commands(config));
    }
}

/// A template candidate is wrong exactly when its configuration did not
/// parse, with the parser's message, or does not pass validation.
pub proof fn law_candidate_error(c: TemplateCandidate)
    ensures
        c.parsed matches Err(m) ==> candidate_error(c) == Some(m@),
        c.parsed matches Ok(cfg) ==> (candidate_error(c) is None <==> match cfg.vars {
            Some(vs) => requirements_known(vs@, known_commands(cfg)),
            None => true,
        }),
{
    if let Ok(cfg) = c.parsed {
        law_validation_exact(cfg);
    }
}

} // verus!
