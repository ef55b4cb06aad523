//! The program executions that the library decides on and a caller performs.
use vstd::prelude::*;

use crate::helpers::{command_words, getCommandArgs};

verus! {

/// What an execution is, as plain sequences.
pub struct ExecutionView {
    pub program: Seq<char>,
    pub args: Seq<Seq<Seq<char>>>,
    pub flags: Seq<Seq<char>>,
    pub runAsync: bool,
    pub workDir: Option<Seq<char>>,
}

/// One program to start: its argument groups (passed one after the other),
/// the words of the command line that decide how to start it (`-v` shows its
/// output), whether to wait for it, and the directory to change to first.
pub struct Execution {
    pub program: String,
    pub args: Vec<Vec<String>>,
    pub flags: Vec<String>,
    pub runAsync: bool,
    pub workDir: Option<String>,
}

impl View for Execution {
    type V = ExecutionView;

    open spec fn view(&self) -> ExecutionView {
        ExecutionView {
            program: self.program@,
            args: self.args.deep_view(),
            flags: self.flags.deep_view(),
            runAsync: self.runAsync,
            workDir: self.workDir.deep_view(),
        }
    }
}

/// The execution of a command line: its first word is the program, the
/// rest form one argument group.
pub open spec fn command_step(
    words: Seq<Seq<char>>,
    flags: Seq<Seq<char>>,
    runAsync: bool,
    workDir: Option<Seq<char>>,
) -> ExecutionView {
    ExecutionView { program: words[0], args: seq![words.skip(1)], flags, runAsync, workDir }
}

/// The views of a sequence of executions.
pub open spec fn views(steps: Seq<Execution>) -> Seq<ExecutionView> {
    steps.map_values(|e: Execution| e@)
}

/// A copy of a list of strings.
pub fn cloneStrings(v: &Vec<String>) -> (r: Vec<String>)
    ensures
        r.deep_view() == v.deep_view(),
{
    let mut r: Vec<String> = Vec::new();
    let mut i: usize = 0;
    while i < v.len()
        invariant
            i <= v.len(),
            r.len() == i,
            forall|k: int| 0 <= k < i ==> (#[trigger] r[k])@ == v[k]@,
        decreases v.len() - i,
    {
        r.push(v[i].clone());
        i = i + 1;
    }
    assert(r.deep_view() =~= v.deep_view());
    r
}

/// A copy of an optional string.
pub fn cloneOptString(o: &Option<String>) -> (r: Option<String>)
    ensures
        r.deep_view() == o.deep_view(),
{
    match o {
        Some(s) => Some(s.clone()),
        None => None,
    }
}

/// The execution of the command line `text`.
pub fn commandExecution(text: &String, flags: Vec<String>, runAsync: bool, workDir: Option<String>) -> (e: Execution)
    ensures
        e@ == command_step(command_words(text@), flags.deep_view(), runAsync, workDir.deep_view()),
{
    let words = getCommandArgs(text.as_str());
    let program = words[0].clone();
    let mut rest: Vec<String> = Vec::new();
    let mut i: usize = 1;
    while i < words.len()
        invariant
            1 <= i <= words.len(),
            rest.len() == i - 1,
            forall|k: int| 0 <= k < i - 1 ==> (#[trigger] rest[k])@ == words[k + 1]@,
        decreases words.len() - i,
    {
        rest.push(words[i].clone());
        i = i + 1;
    }
    assert(rest.deep_view() =~= words.deep_view().skip(1));
    let mut args: Vec<Vec<String>> = Vec::new();
    args.push(rest);
    let e = Execution { program, args, flags, runAsync, workDir };
    assert(e.args.deep_view() =~= seq![words.deep_view().skip(1)]);
    e
}

} // verus!
