//! Command-line words, flags, variable substitution and configuration checks.
use vstd::prelude::*;

use crate::config::{Config, RunCommand, Var};
use crate::errors::{ReplaceError, ValidationError};
use crate::text::{
    count_char, join, lemma_join_split, lemma_replace_join, lemma_split_len, replace_all, replace_str, split_char, split_on,
    trim_char, trim_matches_char,
};

verus! {

// ---------------------------------------------------------------------------
// Specification
// ---------------------------------------------------------------------------

/// The escape that keeps a space inside one argument: `%20`.
pub open spec fn space_escape() -> Seq<char> {
    seq!['%', '2', '0']
}

/// The arguments of a command line: the pieces between single spaces, in each
/// of which `%20` then stands for a space.
pub open spec fn command_words(c: Seq<char>) -> Seq<Seq<char>> {
    split_on(c, ' ').map_values(|w: Seq<char>| replace_all(w, space_escape(), seq![' ']))
}

/// A word of the command line is a flag when it starts with `-`.
pub open spec fn is_flag(a: Seq<char>) -> bool {
    a.len() > 0 && a[0] == '-'
}

/// The words that are flags (`flags == true`) or that are not, in their order.
pub open spec fn pick(words: Seq<Seq<char>>, flags: bool) -> Seq<Seq<char>>
    decreases words.len(),
{
    if words.len() == 0 {
        Seq::<Seq<char>>::empty()
    } else {
        let r = pick(words.drop_last(), flags);
        if is_flag(words.last()) == flags {
            r.push(words.last())
        } else {
            r
        }
    }
}

/// The variable name that a flag sets: the flag without its leading and
/// trailing dashes, up to the first `=`.
pub open spec fn flag_name(f: Seq<char>) -> Seq<char> {
    split_on(trim_char(f, '-'), '=')[0]
}

/// Whether a flag carries a value after an `=`.
pub open spec fn flag_has_value(f: Seq<char>) -> bool {
    split_on(f, '=').len() >= 2
}

/// The value that a flag gives: what stands between its first and its second `=`.
pub open spec fn flag_value(f: Seq<char>) -> Seq<char> {
    split_on(f, '=')[1]
}

/// The index of the first flag that sets the variable `name`.
pub open spec fn first_flag(flags: Seq<Seq<char>>, name: Seq<char>) -> Option<int>
    decreases flags.len(),
{
    if flags.len() == 0 {
        None
    } else {
        match first_flag(flags.drop_last(), name) {
            Some(k) => Some(k),
            None => if flag_name(flags.last()) == name {
                Some(flags.len() - 1)
            } else {
                None
            },
        }
    }
}

/// The command names that a `reqFor` list holds: its comma-separated entries,
/// without surrounding spaces.
pub open spec fn req_entries(r: Seq<char>) -> Seq<Seq<char>> {
    split_on(r, ',').map_values(|e: Seq<char>| trim_char(e, ' '))
}

/// Whether the command named `cmd` requires the variable `v`: every command
/// when `reqFor` is absent or empty, else the commands that it lists.
pub open spec fn var_applies(v: Var, cmd: Seq<char>) -> bool {
    match v.reqFor {
        None => true,
        Some(r) => r@.len() == 0 || req_entries(r@).contains(cmd),
    }
}

/// What substituting variables into a text comes to.
pub enum Substitution {
    /// The text with the variables substituted.
    Text(Seq<char>),
    /// The first variable that is required and neither set by a flag nor defaulted.
    Missing(Seq<char>),
    /// The first flag that names a required variable gives no value.
    Malformed,
}

/// The pattern by which a text refers to the variable `name`: `$name`.
pub open spec fn var_pattern(name: Seq<char>) -> Seq<char> {
    seq!['$'] + name
}

/// Substituting the one variable `v` into `t`: its value is the one that
/// the first flag naming it gives, else its default. Without a value the
/// text stays as it is, unless the command requires the variable; then a
/// flag without a value is malformed, and no value at all is missing.
pub open spec fn apply_var(t: Seq<char>, v: Var, flags: Seq<Seq<char>>, cmd: Seq<char>) -> Substitution {
    match first_flag(flags, v.name@) {
        Some(k) => if flag_has_value(flags[k]) {
            Substitution::Text(replace_all(t, var_pattern(v.name@), flag_value(flags[k])))
        } else if var_applies(v, cmd) {
            Substitution::Malformed
        } else {
            Substitution::Text(t)
        },
        None => match v.default {
            Some(d) => Substitution::Text(replace_all(t, var_pattern(v.name@), d@)),
            None => if var_applies(v, cmd) {
                Substitution::Missing(v.name@)
            } else {
                Substitution::Text(t)
            },
        },
    }
}

/// Substituting the first `i` variables into `s`, one after the other.
pub open spec fn substitute_prefix(
    s: Seq<char>,
    vars: Seq<Var>,
    flags: Seq<Seq<char>>,
    cmd: Seq<char>,
    i: nat,
) -> Substitution
    decreases i,
{
    if i == 0 {
        Substitution::Text(s)
    } else {
        match substitute_prefix(s, vars, flags, cmd, (i - 1) as nat) {
            Substitution::Text(t) => apply_var(t, vars[i - 1], flags, cmd),
            other => other,
        }
    }
}

/// Substituting all of `vars` into `s` for the command `cmd`.
pub open spec fn substitution(s: Seq<char>, vars: Seq<Var>, flags: Seq<Seq<char>>, cmd: Seq<char>) -> Substitution {
    substitute_prefix(s, vars, flags, cmd, vars.len())
}

/// The report for a required variable that has no value.
pub open spec fn missing_message(name: Seq<char>) -> Seq<char> {
    "Could not find variable "@ + name + " and no default was given!"@
}

/// The name under which `reqFor` refers to the init commands.
pub open spec fn init_name() -> Seq<char> {
    seq!['i', 'n', 'i', 't']
}

/// The names of the run commands.
pub open spec fn run_names(rcs: Seq<RunCommand>) -> Seq<Seq<char>> {
    rcs.map_values(|rc: RunCommand| rc.name@)
}

/// The names that a `reqFor` entry may use: `init` and the run commands' names.
pub open spec fn known_commands(config: Config) -> Seq<Seq<char>> {
    seq![init_name()] + match config.runCommands {
        Some(rcs) => run_names(rcs@),
        None => Seq::<Seq<char>>::empty(),
    }
}

/// The pieces of a `reqFor` list that, without surrounding spaces, name no
/// known command, as they are written, in their order.
pub open spec fn unknown_entries(pieces: Seq<Seq<char>>, known: Seq<Seq<char>>) -> Seq<Seq<char>>
    decreases pieces.len(),
{
    if pieces.len() == 0 {
        Seq::<Seq<char>>::empty()
    } else {
        let r = unknown_entries(pieces.drop_last(), known);
        if known.contains(trim_char(pieces.last(), ' ')) {
            r
        } else {
            r.push(pieces.last())
        }
    }
}

/// The unknown entries of a variable's non-empty `reqFor`.
pub open spec fn var_unknowns(v: Var, known: Seq<Seq<char>>) -> Seq<Seq<char>> {
    match v.reqFor {
        Some(r) => if r@.len() > 0 {
            unknown_entries(split_on(r@, ','), known)
        } else {
            Seq::<Seq<char>>::empty()
        },
        None => Seq::<Seq<char>>::empty(),
    }
}

/// The unknown entries of all the variables, in order.
pub open spec fn unknown_requirements(vars: Seq<Var>, known: Seq<Seq<char>>) -> Seq<Seq<char>>
    decreases vars.len(),
{
    if vars.len() == 0 {
        Seq::<Seq<char>>::empty()
    } else {
        unknown_requirements(vars.drop_last(), known) + var_unknowns(vars.last(), known)
    }
}

/// The `reqFor` entries of a configuration that name no command of it.
pub open spec fn config_unknowns(config: Config) -> Seq<Seq<char>> {
    match config.vars {
        Some(vs) => unknown_requirements(vs@, known_commands(config)),
        None => Seq::<Seq<char>>::empty(),
    }
}

/// The report for a `reqFor` entry that names no command.
pub open spec fn unknown_command_message(entry: Seq<char>) -> Seq<char> {
    "No command "@ + entry + " found in config!"@
}

// ---------------------------------------------------------------------------
// Lemmas
// ---------------------------------------------------------------------------

pub proof fn lemma_unknown_entries_append(a: Seq<Seq<char>>, b: Seq<Seq<char>>, known: Seq<Seq<char>>)
    ensures
        unknown_entries(a + b, known) == unknown_entries(a, known) + unknown_entries(b, known),
    decreases b.len(),
{
    if b.len() == 0 {
        assert(a + b =~= a);
        assert(unknown_entries(a, known) + unknown_entries(b, known) =~= unknown_entries(a, known));
    } else {
        lemma_unknown_entries_append(a, b.drop_last(), known);
        assert((a + b).drop_last() =~= a + b.drop_last());
        assert((a + b).last() == b.last());
        if known.contains(trim_char(b.last(), ' ')) {
        } else {
            assert(unknown_entries(a, known) + unknown_entries(b, known) =~= (unknown_entries(a, known)
                + unknown_entries(b.drop_last(), known)).push(b.last()));
        }
    }
}

pub proof fn lemma_unknown_requirements_append(a: Seq<Var>, b: Seq<Var>, known: Seq<Seq<char>>)
    ensures
        unknown_requirements(a + b, known) == unknown_requirements(a, known) + unknown_requirements(b, known),
    decreases b.len(),
{
    if b.len() == 0 {
        assert(a + b =~= a);
        assert(unknown_requirements(a, known) + unknown_requirements(b, known) =~= unknown_requirements(a, known));
    } else {
        lemma_unknown_requirements_append(a, b.drop_last(), known);
        assert((a + b).drop_last() =~= a + b.drop_last());
        assert((a + b).last() == b.last());
        assert(unknown_requirements(a, known) + unknown_requirements(b, known) =~= (
        unknown_requirements(a, known) + unknown_requirements(b.drop_last(), known)) + var_unknowns(
            b.last(),
            known,
        ));
    }
}

proof fn lemma_substitution_sticks(
    s: Seq<char>,
    vars: Seq<Var>,
    flags: Seq<Seq<char>>,
    cmd: Seq<char>,
    i: nat,
    j: nat,
)
    requires
        i <= j,
        !(substitute_prefix(s, vars, flags, cmd, i) is Text),
    ensures
        substitute_prefix(s, vars, flags, cmd, j) == substitute_prefix(s, vars, flags, cmd, i),
    decreases j,
{
    if i < j {
        lemma_substitution_sticks(s, vars, flags, cmd, i, (j - 1) as nat);
    }
}

// ---------------------------------------------------------------------------
// Laws
// ---------------------------------------------------------------------------

/// A command line has one argument more than it has spaces: an escaped space
/// (`%20`) never separates two arguments.
pub proof fn law_words_count(c: Seq<char>)
    ensures
        command_words(c).len() == count_char(c, ' ') + 1,
{
    lemma_split_len(c, ' ');
}

/// Joining the arguments of a command line with spaces gives the line with
/// every `%20` turned into a space.
pub proof fn law_words_join(c: Seq<char>)
    ensures
        join(command_words(c), ' ') == replace_all(c, space_escape(), seq![' ']),
{
    let pat = space_escape();
    assert(!pat.contains(' ')) by {
        if pat.contains(' ') {
            let i = choose|i: int| 0 <= i < pat.len() && pat[i] == ' ';
            assert(pat[0] != ' ' && pat[1] != ' ' && pat[2] != ' ');
        }
    }
    lemma_join_split(c, ' ');
    lemma_replace_join(split_on(c, ' '), pat, seq![' '], ' ');
    assert(command_words(c) =~= split_on(c, ' ').map_values(|w: Seq<char>| replace_all(w, pat, seq![' '])));
}

/// Every word of the command line lands in exactly one of the two lists:
/// the flags or the arguments.
pub proof fn law_flags_partition(words: Seq<Seq<char>>)
    ensures
        pick(words, true).len() + pick(words, false).len() == words.len(),
    decreases words.len(),
{
    if words.len() > 0 {
        law_flags_partition(words.drop_last());
    }
}

/// A variable that the command does not require never makes the
/// substitution fail: the value that a flag or the default gives is used,
/// and without one the text stays as it is.
pub proof fn law_unrequired_var_never_fails(t: Seq<char>, v: Var, flags: Seq<Seq<char>>, cmd: Seq<char>)
    requires
        !var_applies(v, cmd),
    ensures
        apply_var(t, v, flags, cmd) is Text,
        (first_flag(flags, v.name@) is None && v.default is None) ==> apply_var(t, v, flags, cmd)
            == Substitution::Text(t),
{
}

/// Where every flag that names a variable gives a value, substituting never
/// meets a malformed flag.
pub proof fn law_valued_flags_never_malformed(s: Seq<char>, vars: Seq<Var>, flags: Seq<Seq<char>>, cmd: Seq<char>)
    requires
        forall|k: int, i: int|
            0 <= k < flags.len() && 0 <= i < vars.len() && flag_name(#[trigger] flags[k]) == (#[trigger] vars[i]).name@
                ==> flag_has_value(flags[k]),
    ensures
        !(substitution(s, vars, flags, cmd) is Malformed),
{
    lemma_valued_prefix(s, vars, flags, cmd, vars.len());
}

/// The value of the variable `v`: the value that the first flag naming it
/// gives, else its default.
pub open spec fn var_value(v: Var, flags: Seq<Seq<char>>) -> Option<Seq<char>> {
    match first_flag(flags, v.name@) {
        Some(k) => Some(flag_value(flags[k])),
        None => match v.default {
            Some(d) => Some(d@),
            None => None,
        },
    }
}

/// `s` with `$name` replaced by the value of each of the first `i`
/// variables that has one, one variable after the other.
pub open spec fn replace_each(s: Seq<char>, vars: Seq<Var>, flags: Seq<Seq<char>>, i: nat) -> Seq<char>
    decreases i,
{
    if i == 0 {
        s
    } else {
        let t = replace_each(s, vars, flags, (i - 1) as nat);
        match var_value(vars[i - 1], flags) {
            Some(x) => replace_all(t, var_pattern(vars[i - 1].name@), x),
            None => t,
        }
    }
}

/// The index of the first of the first `i` variables that has no value.
pub open spec fn first_valueless(vars: Seq<Var>, flags: Seq<Seq<char>>, i: nat) -> Option<int>
    decreases i,
{
    if i == 0 {
        None
    } else {
        match first_valueless(vars, flags, (i - 1) as nat) {
            Some(k) => Some(k),
            None => if var_value(vars[i - 1], flags) is None {
                Some(i - 1)
            } else {
                None
            },
        }
    }
}

/// For variables without `reqFor`, and flags that give a value wherever
/// they name a variable: substituting fails, naming it, on the first
/// variable with neither a flag nor a default; otherwise every `$name` is
/// replaced by the variable's value, one variable after the other.
pub proof fn law_substitution_closed_form(s: Seq<char>, vars: Seq<Var>, flags: Seq<Seq<char>>, cmd: Seq<char>)
    requires
        forall|i: int| 0 <= i < vars.len() ==> (#[trigger] vars[i]).reqFor is None,
        forall|k: int, i: int|
            0 <= k < flags.len() && 0 <= i < vars.len() && flag_name(#[trigger] flags[k]) == (#[trigger] vars[i]).name@
                ==> flag_has_value(flags[k]),
    ensures
        substitution(s, vars, flags, cmd) == match first_valueless(vars, flags, vars.len()) {
            Some(k) => Substitution::Missing(vars[k].name@),
            None => Substitution::Text(replace_each(s, vars, flags, vars.len())),
        },
{
    lemma_closed_form_prefix(s, vars, flags, cmd, vars.len());
}

proof fn lemma_closed_form_prefix(s: Seq<char>, vars: Seq<Var>, flags: Seq<Seq<char>>, cmd: Seq<char>, i: nat)
    requires
        i <= vars.len(),
        forall|j: int| 0 <= j < vars.len() ==> (#[trigger] vars[j]).reqFor is None,
        forall|k: int, j: int|
            0 <= k < flags.len() && 0 <= j < vars.len() && flag_name(#[trigger] flags[k]) == (#[trigger] vars[j]).name@
                ==> flag_has_value(flags[k]),
    ensures
        first_valueless(vars, flags, i) matches Some(k) ==> 0 <= k < i,
        substitute_prefix(s, vars, flags, cmd, i) == match first_valueless(vars, flags, i) {
            Some(k) => Substitution::Missing(vars[k].name@),
            None => Substitution::Text(replace_each(s, vars, flags, i)),
        },
    decreases i,
{
    if i > 0 {
        lemma_closed_form_prefix(s, vars, flags, cmd, (i - 1) as nat);
        let v = vars[i - 1];
        assert(v.reqFor is None);
        assert(var_applies(v, cmd));
        lemma_first_flag_names(flags, v.name@);
        if let Some(k) = first_flag(flags, v.name@) {
            assert(flag_name(flags[k]) == vars[i - 1].name@);
            assert(flag_has_value(flags[k]));
        }
    }
}

proof fn lemma_first_flag_names(flags: Seq<Seq<char>>, name: Seq<char>)
    ensures
        first_flag(flags, name) matches Some(k) ==> 0 <= k < flags.len() && flag_name(flags[k]) == name,
    decreases flags.len(),
{
    if flags.len() > 0 {
        lemma_first_flag_names(flags.drop_last(), name);
    }
}

proof fn lemma_valued_prefix(s: Seq<char>, vars: Seq<Var>, flags: Seq<Seq<char>>, cmd: Seq<char>, i: nat)
    requires
        i <= vars.len(),
        forall|k: int, j: int|
            0 <= k < flags.len() && 0 <= j < vars.len() && flag_name(#[trigger] flags[k]) == (#[trigger] vars[j]).name@
                ==> flag_has_value(flags[k]),
    ensures
        !(substitute_prefix(s, vars, flags, cmd, i) is Malformed),
    decreases i,
{
    if i > 0 {
        lemma_valued_prefix(s, vars, flags, cmd, (i - 1) as nat);
        let v = vars[i - 1];
        lemma_first_flag_names(flags, v.name@);
        if let Some(k) = first_flag(flags, v.name@) {
            assert(flag_name(flags[k]) == vars[i - 1].name@);
            assert(flag_has_value(flags[k]));
        }
    }
}

/// Substituting into a text that mentions no variable gives the text back,
/// unless a required variable is missing or malformed.
pub proof fn law_text_without_references(
    s: Seq<char>,
    vars: Seq<Var>,
    flags: Seq<Seq<char>>,
    cmd: Seq<char>,
)
    requires
        forall|k: int| 0 <= k < vars.len() ==> !crate::text::occurs_in(s, #[trigger] var_pattern(vars[k].name@)),
    ensures
        substitution(s, vars, flags, cmd) is Text ==> substitution(s, vars, flags, cmd) == Substitution::Text(s),
{
    let n = vars.len();
    assert forall|i: nat| i <= n implies (substitute_prefix(s, vars, flags, cmd, i) is Text
        ==> substitute_prefix(s, vars, flags, cmd, i) == Substitution::Text(s)) by {
        lemma_prefix_without_references(s, vars, flags, cmd, i);
    }
}

proof fn lemma_prefix_without_references(
    s: Seq<char>,
    vars: Seq<Var>,
    flags: Seq<Seq<char>>,
    cmd: Seq<char>,
    i: nat,
)
    requires
        i <= vars.len(),
        forall|k: int| 0 <= k < vars.len() ==> !crate::text::occurs_in(s, #[trigger] var_pattern(vars[k].name@)),
    ensures
        substitute_prefix(s, vars, flags, cmd, i) is Text ==> substitute_prefix(s, vars, flags, cmd, i)
            == Substitution::Text(s),
    decreases i,
{
    if i > 0 {
        lemma_prefix_without_references(s, vars, flags, cmd, (i - 1) as nat);
        let p = var_pattern(vars[i - 1].name@);
        assert(!crate::text::occurs_in(s, p));
        assert forall|r: Seq<char>| replace_all(s, p, r) == s by {
            crate::text::lemma_replace_absent(s, p, r);
        }
    }
}

// ---------------------------------------------------------------------------
// Implementation
// ---------------------------------------------------------------------------

/// Splits the words of the command line into the arguments and the flags
/// (the words that start with `-`), keeping the order of each.
pub fn passFlags(totalArgs: Vec<String>) -> (res: (Vec<String>, Vec<String>))
    requires
        forall|i: int| 0 <= i < totalArgs.len() ==> (#[trigger] totalArgs[i])@.len() > 0,
    ensures
        res.0.deep_view() == pick(totalArgs.deep_view(), false),
        res.1.deep_view() == pick(totalArgs.deep_view(), true),
{
    let mut flags: Vec<String> = Vec::new();
    let mut args: Vec<String> = Vec::new();
    let n = totalArgs.len();
    let mut i: usize = 0;
    assert(totalArgs.deep_view().take(0) =~= Seq::<Seq<char>>::empty());
    while i < n
        invariant
            n == totalArgs.len(),
            i <= n,
            forall|k: int| 0 <= k < totalArgs.len() ==> (#[trigger] totalArgs[k])@.len() > 0,
            args.deep_view() == pick(totalArgs.deep_view().take(i as int), false),
            flags.deep_view() == pick(totalArgs.deep_view().take(i as int), true),
        decreases n - i,
    {
        let ghost w = totalArgs.deep_view();
        assert(w.take(i + 1).drop_last() =~= w.take(i as int));
        assert(w.take(i + 1).last() == totalArgs[i as int]@);
        let word = totalArgs[i].clone();
        assert(totalArgs[i as int]@.len() > 0);
        let first = word.as_str().get_char(0);
        if first == '-' {
            let ghost before = flags.deep_view();
            flags.push(word);
            assert(flags.deep_view() =~= before.push(totalArgs[i as int]@));
        } else {
            let ghost before = args.deep_view();
            args.push(word);
            assert(args.deep_view() =~= before.push(totalArgs[i as int]@));
        }
        i = i + 1;
    }
    assert(totalArgs.deep_view().take(n as int) =~= totalArgs.deep_view());
    (args, flags)
}

/// The arguments of a command line: split at every space, then `%20` turned
/// into a space inside each argument.
pub fn getCommandArgs(command: &str) -> (args: Vec<String>)
    ensures
        args.deep_view() == command_words(command@),
        args.len() >= 1,
{
    let pieces = split_char(command, ' ');
    let mut out: Vec<String> = Vec::new();
    let n = pieces.len();
    let mut i: usize = 0;
    proof {
        reveal_strlit("%20");
        reveal_strlit(" ");
    }
    while i < n
        invariant
            n == pieces.len(),
            pieces.deep_view() == split_on(command@, ' '),
            "%20"@ == space_escape(),
            " "@ == seq![' '],
            i <= n,
            out.len() == i,
            forall|k: int|
                0 <= k < i ==> (#[trigger] out[k])@ == replace_all(
                    pieces[k]@,
                    space_escape(),
                    seq![' '],
                ),
        decreases n - i,
    {
        let w = replace_str(pieces[i].as_str(), "%20", " ");
        out.push(w);
        i = i + 1;
    }
    assert(out.deep_view() =~= command_words(command@));
    out
}

/// The variable name that a flag sets.
fn flagName(flag: &String) -> (r: String)
    ensures
        r@ == flag_name(flag@),
{
    let t = trim_matches_char(flag.as_str(), '-');
    let p = split_char(t.as_str(), '=');
    p[0].clone()
}

/// The index of the first flag that sets the variable `name`.
fn findFlag(flags: &Vec<String>, name: &String) -> (r: Option<usize>)
    ensures
        match first_flag(flags.deep_view(), name@) {
            Some(k) => 0 <= k < flags.len() && r == Some(k as usize),
            None => r is None,
        },
{
    let n = flags.len();
    let mut found: Option<usize> = None;
    let mut j: usize = 0;
    assert(flags.deep_view().take(0) =~= Seq::<Seq<char>>::empty());
    while j < n
        invariant
            n == flags.len(),
            j <= n,
            match first_flag(flags.deep_view().take(j as int), name@) {
                Some(k) => 0 <= k < j && found == Some(k as usize),
                None => found is None,
            },
        decreases n - j,
    {
        let ghost w = flags.deep_view();
        assert(w.take(j + 1).drop_last() =~= w.take(j as int));
        assert(w.take(j + 1).last() == flags[j as int]@);
        if found.is_none() {
            let nm = flagName(&flags[j]);
            if nm == *name {
                found = Some(j);
            }
        }
        j = j + 1;
    }
    assert(flags.deep_view().take(n as int) =~= flags.deep_view());
    found
}

/// Whether `list` holds a string equal to `s`.
fn containsString(list: &Vec<String>, s: &String) -> (b: bool)
    ensures
        b == list.deep_view().contains(s@),
{
    let mut k: usize = 0;
    while k < list.len()
        invariant
            k <= list.len(),
            forall|j: int| 0 <= j < k ==> list.deep_view()[j] != s@,
        decreases list.len() - k,
    {
        if list[k] == *s {
            assert(list.deep_view()[k as int] == s@);
            return true;
        }
        k = k + 1;
    }
    false
}

/// The command names of a `reqFor` list.
fn reqEntries(r: &String) -> (entries: Vec<String>)
    ensures
        entries.deep_view() == req_entries(r@),
{
    let pieces = split_char(r.as_str(), ',');
    let mut out: Vec<String> = Vec::new();
    let mut k: usize = 0;
    while k < pieces.len()
        invariant
            pieces.deep_view() == split_on(r@, ','),
            k <= pieces.len(),
            out.len() == k,
            forall|j: int| 0 <= j < k ==> (#[trigger] out[j])@ == trim_char(pieces[j]@, ' '),
        decreases pieces.len() - k,
    {
        out.push(trim_matches_char(pieces[k].as_str(), ' '));
        k = k + 1;
    }
    assert(out.deep_view() =~= req_entries(r@));
    out
}

/// Whether the variable `v` takes part in the command named `cmd`.
fn varApplies(v: &Var, cmd: &String) -> (b: bool)
    ensures
        b == var_applies(*v, cmd@),
{
    match &v.reqFor {
        None => true,
        Some(r) => {
            if r.as_str().unicode_len() == 0 {
                return true;
            }
            let entries = reqEntries(r);
            containsString(&entries, cmd)
        },
    }
}

/// What substituting variables into a text came to.
pub enum Substituted {
    Text(String),
    Missing(String),
    Malformed,
}

impl View for Substituted {
    type V = Substitution;

    open spec fn view(&self) -> Substitution {
        match self {
            Substituted::Text(t) => Substitution::Text(t@),
            Substituted::Missing(n) => Substitution::Missing(n@),
            Substituted::Malformed => Substitution::Malformed,
        }
    }
}

/// Substitutes the variables into `text` for the command `cmd`, one variable
/// after the other; reports the first required variable without a value, or a
/// flag that names a required variable without giving a value.
pub fn substitute(text: &String, vars: &Vec<Var>, flags: &Vec<String>, cmd: &String) -> (r: Substituted)
    ensures
        r.view() == substitution(text@, vars@, flags.deep_view(), cmd@),
{
    let mut out = text.clone();
    let n = vars.len();
    let mut i: usize = 0;
    proof {
        reveal_strlit("$");
    }
    while i < n
        invariant
            n == vars.len(),
            i <= n,
            "$"@ == seq!['$'],
            substitute_prefix(text@, vars@, flags.deep_view(), cmd@, i as nat) == Substitution::Text(
                out@,
            ),
        decreases n - i,
    {
        let v = &vars[i];
        assert(substitute_prefix(text@, vars@, flags.deep_view(), cmd@, (i + 1) as nat) == apply_var(
            out@,
            vars@[i as int],
            flags.deep_view(),
            cmd@,
        ));
        let applies = varApplies(v, cmd);
        let mut pat = String::from_str("$");
        pat.append(v.name.as_str());
        assert(pat@ == var_pattern(v.name@));
        match findFlag(flags, &v.name) {
            Some(k) => {
                let p = split_char(flags[k].as_str(), '=');
                assert(flags.deep_view()[k as int] == flags[k as int]@);
                if p.len() >= 2 {
                    assert(p.deep_view()[1] == p[1]@);
                    out = replace_str(out.as_str(), pat.as_str(), p[1].as_str());
                } else if applies {
                    proof {
                        assert(!flag_has_value(flags.deep_view()[k as int]));
                        assert(first_flag(flags.deep_view(), v.name@) == Some(k as int));
                        assert(apply_var(out@, vars@[i as int], flags.deep_view(), cmd@)
                            == Substitution::Malformed);
                        lemma_substitution_sticks(
                            text@,
                            vars@,
                            flags.deep_view(),
                            cmd@,
                            (i + 1) as nat,
                            n as nat,
                        );
                    }
                    return Substituted::Malformed;
                }
            },
            None => {
                match &v.default {
                    Some(d) => {
                        out = replace_str(out.as_str(), pat.as_str(), d.as_str());
                    },
                    None => {
                        if applies {
                            proof {
                                lemma_substitution_sticks(
                                    text@,
                                    vars@,
                                    flags.deep_view(),
                                    cmd@,
                                    (i + 1) as nat,
                                    n as nat,
                                );
                            }
                            return Substituted::Missing(v.name.clone());
                        }
                    },
                }
            },
        }
        i = i + 1;
    }
    Substituted::Text(out)
}

/// The error message for a variable that is required and has no value.
fn missingMessage(name: &String) -> (m: String)
    ensures
        m@ == missing_message(name@),
{
    let mut m = String::from_str("Could not find variable ");
    m.append(name.as_str());
    m.append(" and no default was given!");
    m
}

/// Whether substituting would meet a flag that names a required variable
/// without giving it a value.
pub fn replaceVarsPanics(replaceString: &String, vars: &Vec<Var>, ownFlags: &Vec<String>, currentCommand: &String) -> (b: bool)
    ensures
        b == (substitution(replaceString@, vars@, ownFlags.deep_view(), currentCommand@) is Malformed),
{
    match substitute(replaceString, vars, ownFlags, currentCommand) {
        Substituted::Malformed => true,
        _ => false,
    }
}

/// Replaces `$name` by the value of each variable: the value that the first
/// flag `--name=value` gives, else the variable's default; fails on the
/// first variable that the command requires (see `var_applies`) and that has
/// neither.
pub fn replaceVars(replaceString: String, vars: &Vec<Var>, ownFlags: &Vec<String>, currentCommand: String) -> (r: Result<String, ReplaceError>)
    requires
        !(substitution(replaceString@, vars@, ownFlags.deep_view(), currentCommand@) is Malformed),
    ensures
        match substitution(replaceString@, vars@, ownFlags.deep_view(), currentCommand@) {
            Substitution::Text(t) => r matches Ok(s) && s@ == t,
            Substitution::Missing(name) => r matches Err(e) && e.message@ == missing_message(name),
            Substitution::Malformed => false,
        },
{
    match substitute(&replaceString, vars, ownFlags, &currentCommand) {
        Substituted::Text(t) => Ok(t),
        Substituted::Missing(name) => Err(ReplaceError { message: missingMessage(&name) }),
        Substituted::Malformed => Err(ReplaceError { message: String::new() }),
    }
}

/// The names that a `reqFor` entry may use: `init` and the run commands' names.
fn knownCommands(config: &Config) -> (known: Vec<String>)
    ensures
        known.deep_view() == known_commands(*config),
{
    let mut known: Vec<String> = Vec::new();
    proof {
        reveal_strlit("init");
        assert("init"@ =~= init_name());
    }
    known.push(String::from_str("init"));
    match &config.runCommands {
        Some(rcs) => {
            let mut i: usize = 0;
            while i < rcs.len()
                invariant
                    i <= rcs.len(),
                    known.len() == i + 1,
                    known[0]@ == init_name(),
                    forall|k: int| 1 <= k <= i ==> (#[trigger] known[k])@ == rcs[k - 1].name@,
                decreases rcs.len() - i,
            {
                known.push(rcs[i].name.clone());
                i = i + 1;
            }
            assert(known.deep_view() =~= known_commands(*config));
        },
        None => {
            assert(known.deep_view() =~= known_commands(*config));
        },
    }
    known
}

/// The error message for a `reqFor` entry that names no command.
fn unknownCommandMessage(entry: &String) -> (m: String)
    ensures
        m@ == unknown_command_message(entry@),
{
    let mut m = String::from_str("No command ");
    m.append(entry.as_str());
    m.append(" found in config!");
    m
}

#[verifier::loop_isolation(false)]
/// Checks that every entry of every non-empty `reqFor` names, without
/// surrounding spaces, the init commands (`init`) or a run command of the
/// configuration; reports the first entry that does not, as it is written.
pub fn validateConfig(config: &Config) -> (r: Result<(), ValidationError>)
    ensures
        r is Ok <==> config_unknowns(*config).len() == 0,
        r matches Err(e) ==> e.message@ == unknown_command_message(config_unknowns(*config)[0]),
{
    match &config.vars {
        None => Ok(()),
        Some(vars) => {
            let known = knownCommands(config);
            let ghost kn = known_commands(*config);
            let n = vars.len();
            let mut i: usize = 0;
            assert(vars@.take(0) =~= Seq::<Var>::empty());
            while i < n
                invariant
                    n == vars.len(),
                    i <= n,
                    known.deep_view() == kn,
                    config.vars == Some(*vars),
                    kn == known_commands(*config),
                    unknown_requirements(vars@.take(i as int), kn).len() == 0,
                decreases n - i,
            {
                let v = &vars[i];
                proof {
                    assert(vars@.take(i + 1) =~= vars@.take(i as int) + seq![*v]);
                    lemma_unknown_requirements_append(vars@.take(i as int), seq![*v], kn);
                    assert(seq![*v].drop_last() =~= Seq::<Var>::empty());
                    assert(seq![*v].last() == *v);
                    assert(unknown_requirements(Seq::<Var>::empty(), kn) =~= Seq::<Seq<char>>::empty());
                    assert(unknown_requirements(seq![*v], kn) =~= var_unknowns(*v, kn));
                }
                match &v.reqFor {
                    Some(r) => {
                        if r.as_str().unicode_len() > 0 {
                            let pieces = split_char(r.as_str(), ',');
                            let m = pieces.len();
                            let mut j: usize = 0;
                            assert(pieces.deep_view().take(0) =~= Seq::<Seq<char>>::empty());
                            while j < m
                                invariant
                                    m == pieces.len(),
                                    j <= m,
                                    known.deep_view() == kn,
                                    unknown_entries(pieces.deep_view().take(j as int), kn).len() == 0,
                                decreases m - j,
                            {
                                let ghost w = pieces.deep_view();
                                assert(w.take(j + 1).drop_last() =~= w.take(j as int));
                                assert(w.take(j + 1).last() == pieces[j as int]@);
                                let entry = trim_matches_char(pieces[j].as_str(), ' ');
                                if !containsString(&known, &entry) {
                                    proof {
                                        let e = pieces[j as int]@;
                                        assert(w =~= w.take(j + 1) + w.skip(j + 1));
                                        lemma_unknown_entries_append(w.take(j + 1), w.skip(j + 1), kn);
                                        assert(unknown_entries(w.take(j + 1), kn) =~= seq![e]);
                                        assert(var_unknowns(*v, kn) == unknown_entries(w, kn));
                                        assert(vars@ =~= vars@.take(i + 1) + vars@.skip(i + 1));
                                        lemma_unknown_requirements_append(
                                            vars@.take(i + 1),
                                            vars@.skip(i + 1),
                                            kn,
                                        );
                                        assert(config_unknowns(*config)[0] == e);
                                    }
                                    return Err(ValidationError { message: unknownCommandMessage(&pieces[j]) });
                                }
                                j = j + 1;
                            }
                            assert(pieces.deep_view().take(m as int) =~= pieces.deep_view());
                        }
                    },
                    None => {},
                }
                i = i + 1;
            }
            assert(vars@.take(n as int) =~= vars@);
            Ok(())
        },
    }
}

/// Whether the words of the command line ask for verbose output (`-v`).
pub fn isVerbose(flags: &Vec<String>) -> (b: bool)
    ensures
        b == flags.deep_view().contains(seq!['-', 'v']),
{
    proof {
        reveal_strlit("-v");
        assert("-v"@ =~= seq!['-', 'v']);
    }
    let v = String::from_str("-v");
    containsString(flags, &v)
}

} // verus!
