//! The capture of a running command's output: what follows from each line,
//! from a failed read and from the end of the output.

use crate::command::{command_line, Command};
use crate::execution::{StepOutcome, StepResult};
use vstd::prelude::*;
use vstd::string::StringExecFns;

verus! {

/// What the process of a running command has let its reader know.
#[derive(Debug)]
pub enum StreamEvent {
    /// One more line of output, without its line end.
    Line(String),
    /// Reading the output failed, other than by its end.
    ReadError,
    /// The output has ended and the process has exited: whether with
    /// success, and its exit code unless a signal ended it.
    Closed { success: bool, code: Option<i32> },
}

/// What an event holds.
pub enum StreamEventView {
    Line(Seq<char>),
    ReadError,
    Closed { success: bool, code: Option<i32> },
}

impl View for StreamEvent {
    type V = StreamEventView;

    open spec fn view(&self) -> StreamEventView {
        match self {
            StreamEvent::Line(line) => StreamEventView::Line(line@),
            StreamEvent::ReadError => StreamEventView::ReadError,
            StreamEvent::Closed { success, code } => StreamEventView::Closed {
                success: *success,
                code: *code,
            },
        }
    }
}

/// What the reader of a running command does next.
#[derive(Debug)]
pub enum Reaction {
    /// Show the line on the console and read on.
    Echo(String),
    /// Kill the process; the step has ended with this result.
    Kill(StepResult),
    /// The step has ended with this result.
    Done(StepResult),
}

/// What a reaction holds.
pub enum ReactionView {
    Echo(Seq<char>),
    Kill(StepOutcome),
    Done(StepOutcome),
}

impl View for Reaction {
    type V = ReactionView;

    open spec fn view(&self) -> ReactionView {
        match self {
            Reaction::Echo(line) => ReactionView::Echo(line@),
            Reaction::Kill(result) => ReactionView::Kill(result@),
            Reaction::Done(result) => ReactionView::Done(result@),
        }
    }
}

/// The captured output after an event: a line is added with a line end behind
/// it, the other events add nothing.
pub open spec fn captured(output: Seq<char>, event: StreamEventView) -> Seq<char> {
    match event {
        StreamEventView::Line(line) => output + line + seq!['\n'],
        _ => output,
    }
}

/// What follows from an event for the command shown as `command`, when
/// `output` has been captured before it.
///
/// A line is echoed. A read error ends the step as a failure without an exit
/// code, and the process is to be killed. The end of the output ends the step
/// by the exit status: success, or a failure with the exit code if there is
/// one.
pub open spec fn reaction_to(
    command: Seq<char>,
    output: Seq<char>,
    event: StreamEventView,
) -> ReactionView {
    match event {
        StreamEventView::Line(line) => ReactionView::Echo(line),
        StreamEventView::ReadError => ReactionView::Kill(
            StepOutcome::Error { command, output, code: None },
        ),
        StreamEventView::Closed { success, code } => ReactionView::Done(
            if success {
                StepOutcome::Success { command, output }
            } else {
                StepOutcome::Error { command, output, code }
            },
        ),
    }
}

/// The output of a running command, as far as it has been read.
pub struct Capture {
    command: String,
    output: String,
}

impl Capture {
    /// The command, as it is shown in the result.
    pub closed spec fn command_line(&self) -> Seq<char> {
        self.command@
    }

    /// What has been captured so far.
    pub closed spec fn output(&self) -> Seq<char> {
        self.output@
    }

    /// Takes one event from the process and says what to do next.
    pub fn feed(&mut self, event: StreamEvent) -> (reaction: Reaction)
        ensures
            final(self).command_line() == old(self).command_line(),
            final(self).output() == captured(old(self).output(), event@),
            reaction@ == reaction_to(old(self).command_line(), old(self).output(), event@),
    {
        match event {
            StreamEvent::Line(line) => {
                self.output.append(line.as_str());
                self.output.push('\n');
                Reaction::Echo(line)
            },
            StreamEvent::ReadError => Reaction::Kill(
                StepResult::Error(self.command.clone(), self.output.clone(), None),
            ),
            StreamEvent::Closed { success, code } => {
                if success {
                    Reaction::Done(StepResult::Success(self.command.clone(), self.output.clone()))
                } else {
                    Reaction::Done(
                        StepResult::Error(self.command.clone(), self.output.clone(), code),
                    )
                }
            },
        }
    }
}

impl Command {
    /// Begins the capture of this command's output: nothing has been read yet.
    /// The caller starts the process, with its error output joined to its
    /// output, and feeds what it reads to the capture.
    pub fn execute(&self) -> (capture: Capture)
        ensures
            capture.command_line() == command_line(self@.program, self@.args),
            capture.output() == Seq::<char>::empty(),
    {
        Capture { command: self.command_string(), output: String::new() }
    }
}

/// The lines of a command's output as they are captured: each with a line
/// end behind it, in the order in which they came.
pub open spec fn transcript(lines: Seq<Seq<char>>) -> Seq<char>
    decreases lines.len(),
{
    if lines.len() == 0 {
        Seq::empty()
    } else {
        transcript(lines.drop_last()) + lines.last() + seq!['\n']
    }
}

/// The captured output after a row of events, one after the other.
pub open spec fn captured_all(output: Seq<char>, events: Seq<StreamEventView>) -> Seq<char>
    decreases events.len(),
{
    if events.len() == 0 {
        output
    } else {
        captured(captured_all(output, events.drop_last()), events.last())
    }
}

/// After a row of lines the capture holds what it held before and then every
/// line, in the order in which they came.
pub proof fn lemma_captured_lines(output: Seq<char>, lines: Seq<Seq<char>>)
    ensures
        captured_all(output, Seq::new(lines.len(), |i: int| StreamEventView::Line(lines[i])))
            == output + transcript(lines),
    decreases lines.len(),
{
    let events = Seq::new(lines.len(), |i: int| StreamEventView::Line(lines[i]));
    if lines.len() == 0 {
        assert(output + transcript(lines) =~= output);
    } else {
        let earlier = lines.drop_last();
        lemma_captured_lines(output, earlier);
        assert(events.drop_last() =~= Seq::new(
            earlier.len(),
            |i: int| StreamEventView::Line(earlier[i]),
        ));
        assert(output + transcript(earlier) + lines.last() + seq!['\n'] =~= output + (transcript(
            earlier,
        ) + lines.last() + seq!['\n']));
    }
}

} // verus!
