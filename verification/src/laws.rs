//! Properties that relate several operations of the library.
use vstd::prelude::*;

use crate::cli::init_flags;
use crate::config::{Config, RunCommand, Var};
use crate::helpers::{
    apply_var, init_name, config_unknowns, first_flag, known_commands, lemma_unknown_entries_append,
    lemma_unknown_requirements_append, req_entries, unknown_entries, unknown_requirements,
    var_applies, var_unknowns, Substitution,
};
use crate::init::{
    dep_adds, dep_steps, init_actions, init_lines, init_run, init_step, runs, var_files,
    InitActionView,
};
use crate::run::{first_failing, lemma_first_failing_in_range, run_step};
use crate::text::{split_on, trim_char};

verus! {

/// Every line of a run command but the last starts with the command line's
/// flags and the command's `runAsync`; the last line is waited for and shows
/// its output.
pub proof fn law_last_line_waits(rc: RunCommand, m: int, config: Config, flags: Seq<Seq<char>>)
    requires
        0 <= m < rc.commands.len(),
    ensures
        m == rc.commands.len() - 1 ==> !run_step(rc, m, config, flags).runAsync
            && run_step(rc, m, config, flags).flags == seq![seq!['-', 'v']],
        m < rc.commands.len() - 1 ==> run_step(rc, m, config, flags).runAsync == (rc.runAsync
            == Some(true)) && run_step(rc, m, config, flags).flags == flags,
        run_step(rc, m, config, flags).workDir == rc.commands@[m].execDir.deep_view(),
{
}

/// A variable that the command requires, that no flag sets and that has no
/// default, makes the substitution fail and names the variable.
pub proof fn law_required_without_value_fails(t: Seq<char>, v: Var, flags: Seq<Seq<char>>, cmd: Seq<char>)
    requires
        var_applies(v, cmd),
        first_flag(flags, v.name@) is None,
        v.default is None,
    ensures
        apply_var(t, v, flags, cmd) == Substitution::Missing(v.name@),
{
}

/// When the configuration forces verbose output, the flags of the init
/// commands ask for verbose output (what `isVerbose` tests); otherwise they
/// are the command line's flags.
pub proof fn law_forced_verbose(config: Config, flags: Seq<Seq<char>>)
    ensures
        config.forceInitVerbose == Some(true) ==> init_flags(config, flags).contains(seq!['-', 'v']),
        config.forceInitVerbose != Some(true) ==> init_flags(config, flags) == flags,
{
    if config.forceInitVerbose == Some(true) {
        assert(init_flags(config, flags)[flags.len() as int] == seq!['-', 'v']);
    }
}

/// A configuration that passes validation requires its variables only for the
/// init commands and for run commands that it has.
pub proof fn law_validated_requirements_known(config: Config, k: int, cmd: Seq<char>)
    requires
        config_unknowns(config).len() == 0,
        config.vars is Some,
        0 <= k < config.vars.unwrap().len(),
        config.vars.unwrap()@[k].reqFor matches Some(r) && r@.len() > 0,
        var_applies(config.vars.unwrap()@[k], cmd),
    ensures
        known_commands(config).contains(cmd),
{
    let vs = config.vars.unwrap()@;
    let kn = known_commands(config);
    let v = vs[k];
    assert(vs =~= vs.take(k) + seq![v] + vs.skip(k + 1));
    lemma_unknown_requirements_append(vs.take(k) + seq![v], vs.skip(k + 1), kn);
    lemma_unknown_requirements_append(vs.take(k), seq![v], kn);
    assert(seq![v].drop_last() =~= Seq::<Var>::empty());
    assert(unknown_requirements(seq![v], kn) =~= var_unknowns(v, kn));
    let r = v.reqFor.unwrap();
    let ps = split_on(r@, ',');
    let es = req_entries(r@);
    assert(unknown_entries(ps, kn).len() == 0);
    let j = choose|j: int| 0 <= j < es.len() && es[j] == cmd;
    let p = ps[j];
    assert(trim_char(p, ' ') == cmd);
    assert(ps =~= ps.take(j) + seq![p] + ps.skip(j + 1));
    lemma_unknown_entries_append(ps.take(j) + seq![p], ps.skip(j + 1), kn);
    lemma_unknown_entries_append(ps.take(j), seq![p], kn);
    assert(seq![p].drop_last() =~= Seq::<Seq<char>>::empty());
    assert(seq![p].last() == p);
    if !kn.contains(cmd) {
        assert(unknown_entries(seq![p], kn).len() == 1);
    }
}

/// Initializing a project starts the init commands first. When one of them
/// cannot be substituted, that ends it; otherwise it then copies the
/// template's files, then substitutes into each file of `varFiles`, in
/// order, then starts the dependency additions, in order.
pub proof fn law_init_order(config: Config, flags: Seq<Seq<char>>)
    ensures
        0 <= init_run(config, flags) <= init_lines(config).len(),
        forall|i: int|
            0 <= i < init_run(config, flags) ==> init_actions(config, flags)[i] == InitActionView::Run(
                init_step(config, i, flags),
            ),
        first_failing(init_lines(config), config, flags, init_name()) is Some ==> {
            &&& init_actions(config, flags).len() == init_run(config, flags) + 1
            &&& init_actions(config, flags)[init_run(config, flags)] is Fail
        },
        first_failing(init_lines(config), config, flags, init_name()) is None ==> {
            &&& init_actions(config, flags).len() == init_run(config, flags) + 1 + var_files(config).len()
                + dep_steps(dep_adds(config), flags).len()
            &&& init_actions(config, flags)[init_run(config, flags)] is CopyTemplateFiles
            &&& forall|i: int|
                0 <= i < var_files(config).len() ==> init_actions(config, flags)[init_run(config, flags) + 1 + i]
                    == InitActionView::SubstituteFile(var_files(config)[i])
            &&& forall|i: int|
                0 <= i < dep_steps(dep_adds(config), flags).len() ==> init_actions(config, flags)[init_run(
                    config,
                    flags,
                ) + 1 + var_files(config).len() + i] == InitActionView::Run(dep_steps(dep_adds(config), flags)[i])
        },
{
    lemma_first_failing_in_range(init_lines(config), config, flags, init_name());
    let n = init_run(config, flags);
    let a = init_actions(config, flags);
    let commands = Seq::new(n as nat, |m: int| InitActionView::Run(init_step(config, m, flags)));
    let files = var_files(config).map_values(|f: Seq<char>| InitActionView::SubstituteFile(f));
    let deps = runs(dep_steps(dep_adds(config), flags));
    if first_failing(init_lines(config), config, flags, init_name()) is None {
        assert(a == commands + seq![InitActionView::CopyTemplateFiles] + files + deps);
        assert forall|i: int| 0 <= i < n implies a[i] == InitActionView::Run(init_step(config, i, flags)) by {
            assert(a[i] == commands[i]);
        }
        assert forall|i: int| 0 <= i < var_files(config).len() implies a[n + 1 + i] == InitActionView::SubstituteFile(
            var_files(config)[i],
        ) by {
            assert(a[n + 1 + i] == files[i]);
        }
        assert forall|i: int| 0 <= i < dep_steps(dep_adds(config), flags).len() implies a[n + 1 + var_files(config).len() + i]
            == InitActionView::Run(dep_steps(dep_adds(config), flags)[i]) by {
            assert(a[n + 1 + var_files(config).len() + i] == deps[i]);
        }
    } else {
        assert forall|i: int| 0 <= i < n implies a[i] == InitActionView::Run(init_step(config, i, flags)) by {
            assert(a[i] == commands[i]);
        }
    }
}

} // verus!
