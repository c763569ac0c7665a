//! Commands: the program and the arguments that a command line stands for,
//! and how a command is shown in a report.

use crate::parser::{parse_command, tokens};
use crate::substitution::{replace_variables, resolved};
use crate::text::{chars_of, is_space, is_whitespace, views};
use crate::variables::VariableMap;
use vstd::prelude::*;
use vstd::string::StringExecFns;

verus! {

/// Whether an argument holds white space.
pub open spec fn has_space(arg: Seq<char>) -> bool {
    exists|i: int| 0 <= i < arg.len() && is_space(#[trigger] arg[i])
}

/// An argument as it is shown: between double quotes where it holds white
/// space.
pub open spec fn shown(arg: Seq<char>) -> Seq<char> {
    if has_space(arg) {
        seq!['"'] + arg + seq!['"']
    } else {
        arg
    }
}

/// A command as it is shown: the program and the arguments, each as `shown`
/// gives it, with one space between neighbours.
pub open spec fn command_line(program: Seq<char>, args: Seq<Seq<char>>) -> Seq<char>
    decreases args.len(),
{
    if args.len() == 0 {
        shown(program)
    } else {
        command_line(program, args.drop_last()) + seq![' '] + shown(args.last())
    }
}

/// The program and the arguments that a list of tokens stands for: the first
/// token is the program. No token at all gives an empty program name.
pub open spec fn command_of(parts: Seq<Seq<char>>) -> CommandView {
    if parts.len() == 0 {
        CommandView { program: Seq::empty(), args: Seq::empty() }
    } else {
        CommandView { program: parts[0], args: parts.skip(1) }
    }
}

/// A command: the program to start and its arguments.
#[derive(Debug)]
pub struct Command {
    pub command: String,
    pub args: Vec<String>,
}

/// What a command holds.
pub struct CommandView {
    pub program: Seq<char>,
    pub args: Seq<Seq<char>>,
}

impl View for Command {
    type V = CommandView;

    open spec fn view(&self) -> CommandView {
        CommandView { program: self.command@, args: views(self.args@) }
    }
}

/// Whether an argument holds white space.
fn has_whitespace(arg: &str) -> (r: bool)
    ensures
        r == has_space(arg@),
{
    let text = chars_of(arg);
    let mut at: usize = 0;
    while at < text.len()
        invariant
            text@ == arg@,
            at <= text.len(),
            forall|i: int| 0 <= i < at ==> !is_space(#[trigger] text@[i]),
        decreases text.len() - at,
    {
        if is_whitespace(text[at]) {
            return true;
        }
        at = at + 1;
    }
    false
}

/// Puts an argument behind a line, as it is shown.
fn push_shown(line: &mut String, arg: &str)
    ensures
        final(line)@ == old(line)@ + shown(arg@),
{
    if has_whitespace(arg) {
        line.push('"');
        line.append(arg);
        line.push('"');
        assert(line@ =~= old(line)@ + (seq!['"'] + arg@ + seq!['"']));
    } else {
        line.append(arg);
    }
}

impl Command {
    /// The command that a tokenized command line stands for.
    pub fn from_parts(parts: Vec<String>) -> (r: Command)
        ensures
            r@ == command_of(views(parts@)),
    {
        let mut parts = parts;
        if parts.len() == 0 {
            let r = Command { command: String::new(), args: parts };
            assert(views(r.args@) =~= Seq::<Seq<char>>::empty());
            r
        } else {
            let ghost before = parts@;
            let command = parts.remove(0);
            assert(views(parts@) =~= views(before).skip(1));
            Command { command, args: parts }
        }
    }

    /// The command on one line, for a report: an argument that holds white
    /// space stands between double quotes. This need not be the text that the
    /// command was parsed from.
    pub fn command_string(&self) -> (r: String)
        ensures
            r@ == command_line(self@.program, self@.args),
    {
        let mut line = String::new();
        push_shown(&mut line, self.command.as_str());
        let mut at: usize = 0;
        assert(line@ =~= shown(self.command@));
        assert(views(self.args@).take(0) =~= Seq::<Seq<char>>::empty());
        while at < self.args.len()
            invariant
                at <= self.args.len(),
                line@ == command_line(self.command@, views(self.args@).take(at as int)),
            decreases self.args.len() - at,
        {
            line.push(' ');
            push_shown(&mut line, self.args[at].as_str());
            assert(views(self.args@).take(at + 1).drop_last() =~= views(self.args@).take(
                at as int,
            ));
            assert(line@ =~= command_line(self.command@, views(self.args@).take(at as int))
                + seq![' '] + shown(self.args@[at as int]@));
            at = at + 1;
        }
        assert(views(self.args@).take(at as int) =~= views(self.args@));
        line
    }
}

/// Turns one command of a pipeline into what is to be started: the variables
/// are put in, then the line is split.
pub fn execute_step(cmd: &str, variables: &VariableMap, environment: &VariableMap) -> (r: Command)
    ensures
        r@ == command_of(tokens(resolved(cmd@, variables@, environment@))),
{
    let cmd = replace_variables(cmd, variables, environment);
    Command::from_parts(parse_command(cmd.as_str()))
}

} // verus!
