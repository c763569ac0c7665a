//! The run of a list of pipelines: which command is to be run next, and how
//! the run ends.

use crate::command::{command_of, execute_step, Command, CommandView};
use crate::gate::{gate, should_run};
use crate::parser::tokens;
use crate::pipeline::{pipeline_views, Pipeline, PipelineView};
use crate::substitution::resolved;
use crate::variables::{Entries, VariableMap};
use vstd::prelude::*;

verus! {

/// How one command ended.
#[derive(Debug)]
pub enum StepResult {
    /// The command as shown and what it printed; it exited with success.
    Success(String, String),
    /// The command as shown, what it printed, and its exit code where it
    /// left one.
    Error(String, String, Option<i32>),
}

/// What a step result holds.
pub enum StepOutcome {
    Success { command: Seq<char>, output: Seq<char> },
    Error { command: Seq<char>, output: Seq<char>, code: Option<i32> },
}

impl View for StepResult {
    type V = StepOutcome;

    open spec fn view(&self) -> StepOutcome {
        match self {
            StepResult::Success(command, output) => StepOutcome::Success {
                command: command@,
                output: output@,
            },
            StepResult::Error(command, output, code) => StepOutcome::Error {
                command: command@,
                output: output@,
                code: *code,
            },
        }
    }
}

/// What a list of step results holds.
pub open spec fn outcomes(steps: Seq<StepResult>) -> Seq<StepOutcome> {
    Seq::new(steps.len(), |i: int| steps[i]@)
}

/// How a run of pipelines ended.
#[derive(Debug)]
pub enum ExecutionResult {
    /// No pipeline's condition held.
    NoExecution,
    /// Every command of every pipeline that ran succeeded: their results.
    Success(Vec<StepResult>),
    /// A command failed: the results of its pipeline up to and including it.
    Error(Vec<StepResult>),
}

/// What an execution result holds.
pub enum Outcome {
    NoExecution,
    Success(Seq<StepOutcome>),
    Error(Seq<StepOutcome>),
}

impl View for ExecutionResult {
    type V = Outcome;

    open spec fn view(&self) -> Outcome {
        match self {
            ExecutionResult::NoExecution => Outcome::NoExecution,
            ExecutionResult::Success(steps) => Outcome::Success(outcomes(steps@)),
            ExecutionResult::Error(steps) => Outcome::Error(outcomes(steps@)),
        }
    }
}

/// The commands that a pipeline starts, one for each of its lines.
pub open spec fn commands_of(
    pipeline: PipelineView,
    variables: Entries,
    environment: Entries,
) -> Seq<CommandView> {
    Seq::new(
        pipeline.commands.len(),
        |i: int| command_of(tokens(resolved(pipeline.commands[i], variables, environment))),
    )
}

/// Whether a step failed.
pub open spec fn failed(step: StepOutcome) -> bool {
    step is Error
}

/// How far a pipeline has got.
pub enum Progress {
    /// This command is to be run next.
    Awaiting(CommandView),
    /// A command failed: the results up to and including it.
    Failed(Seq<StepOutcome>),
    /// Every command has run and succeeded.
    Completed,
}

/// How far a pipeline with these commands has got when the commands from the
/// first on have given `results`, as seen from command `from` on.
pub open spec fn progress_from(
    commands: Seq<CommandView>,
    results: Seq<StepOutcome>,
    from: int,
) -> Progress
    decreases commands.len() - from,
{
    if from < 0 || from >= commands.len() {
        Progress::Completed
    } else if from >= results.len() {
        Progress::Awaiting(commands[from])
    } else if failed(results[from]) {
        Progress::Failed(results.take(from + 1))
    } else {
        progress_from(commands, results, from + 1)
    }
}

/// What a run does next.
pub enum NextView {
    /// This command is to be run, and its result handed back.
    Run(CommandView),
    /// The run has ended.
    Finished(Outcome),
}

/// What a run does next, seen from pipeline `at` on, when `results` are the
/// results of the commands run from that pipeline on.
///
/// The pipelines are taken in order. One whose condition does not hold is
/// passed over. One whose condition holds runs its commands in order; the
/// first failure ends the whole run, with the results of that pipeline alone.
/// When no pipeline is left, the run has succeeded with the results of all
/// the pipelines that ran, `done`, or, where none ran, nothing was executed.
pub open spec fn run_from(
    pipelines: Seq<PipelineView>,
    variables: Entries,
    environment: Entries,
    at: int,
    executed: bool,
    done: Seq<StepOutcome>,
    results: Seq<StepOutcome>,
) -> NextView
    decreases pipelines.len() - at,
{
    if at < 0 || at >= pipelines.len() {
        NextView::Finished(
            if executed {
                Outcome::Success(done)
            } else {
                Outcome::NoExecution
            },
        )
    } else if !should_run(pipelines[at].when, variables, environment) {
        run_from(pipelines, variables, environment, at + 1, executed, done, results)
    } else {
        let commands = commands_of(pipelines[at], variables, environment);
        match progress_from(commands, results, 0) {
            Progress::Awaiting(command) => NextView::Run(command),
            Progress::Failed(steps) => NextView::Finished(Outcome::Error(steps)),
            Progress::Completed => run_from(
                pipelines,
                variables,
                environment,
                at + 1,
                true,
                done + results.take(commands.len() as int),
                results.skip(commands.len() as int),
            ),
        }
    }
}

/// What a run of `pipelines` does next, once the commands run so far have
/// given `results`.
pub open spec fn next_step(
    pipelines: Seq<PipelineView>,
    variables: Entries,
    environment: Entries,
    results: Seq<StepOutcome>,
) -> NextView {
    run_from(pipelines, variables, environment, 0, false, Seq::empty(), results)
}

/// Results that are no failures are passed over.
proof fn lemma_progress_skip(commands: Seq<CommandView>, results: Seq<StepOutcome>, upto: int)
    requires
        0 <= upto <= commands.len(),
        upto <= results.len(),
        forall|i: int| 0 <= i < upto ==> !failed(#[trigger] results[i]),
    ensures
        progress_from(commands, results, 0) == progress_from(commands, results, upto),
    decreases upto,
{
    if upto > 0 {
        lemma_progress_skip(commands, results, upto - 1);
        assert(!failed(results[upto - 1]));
    }
}

/// A run that waits for the result of a command.
pub struct Running<'a> {
    pipelines: &'a Vec<Pipeline>,
    variables: &'a VariableMap,
    environment: &'a VariableMap,
    /// The directory in which the commands run.
    directory: &'a str,
    /// The pipeline in progress.
    at: usize,
    /// The results of its commands so far: all of them successes.
    steps: Vec<StepResult>,
    /// The results of the pipelines that ran before it.
    done: Vec<StepResult>,
    /// The command to run now.
    command: Command,
}

/// What a run does next: it hands out a command, or it has ended.
pub enum Next<'a> {
    Run(Running<'a>),
    Finished(ExecutionResult),
}

impl<'a> View for Next<'a> {
    type V = NextView;

    open spec fn view(&self) -> NextView {
        match self {
            Next::Run(running) => NextView::Run(running.command_view()),
            Next::Finished(result) => NextView::Finished(result@),
        }
    }
}

/// Whether a run that stands in pipeline `at`, with `done` from the pipelines
/// before it and `steps` from this one, is where the results so far lead, and
/// goes on from there as the run goes on.
spec fn on_course(
    pipelines: Seq<PipelineView>,
    variables: Entries,
    environment: Entries,
    at: int,
    executed: bool,
    done: Seq<StepOutcome>,
    steps: Seq<StepOutcome>,
) -> bool {
    forall|more: Seq<StepOutcome>| #[trigger]
        next_step(pipelines, variables, environment, done + steps + more) == run_from(
            pipelines,
            variables,
            environment,
            at,
            executed,
            done,
            steps + more,
        )
}

impl<'a> Running<'a> {
    #[verifier::type_invariant]
    closed spec fn valid(&self) -> bool {
        &&& self.at < self.pipelines@.len()
        &&& should_run(self.pipelines@[self.at as int]@.when, self.variables@, self.environment@)
        &&& self.steps@.len() < self.pipelines@[self.at as int].commands@.len()
        &&& forall|i: int| 0 <= i < self.steps@.len() ==> !failed(#[trigger] outcomes(self.steps@)[i])
        &&& self.command@ == commands_of(
            self.pipelines@[self.at as int]@,
            self.variables@,
            self.environment@,
        )[self.steps@.len() as int]
        &&& on_course(
            pipeline_views(self.pipelines@),
            self.variables@,
            self.environment@,
            self.at as int,
            true,
            outcomes(self.done@),
            outcomes(self.steps@),
        )
    }

    /// The pipelines of this run.
    pub closed spec fn pipelines(&self) -> Seq<PipelineView> {
        pipeline_views(self.pipelines@)
    }

    /// The pipeline variables of this run.
    pub closed spec fn variables(&self) -> Entries {
        self.variables@
    }

    /// The process environment of this run.
    pub closed spec fn environment(&self) -> Entries {
        self.environment@
    }

    /// The directory in which the commands of this run are to be run.
    pub closed spec fn directory(&self) -> Seq<char> {
        self.directory@
    }

    /// The results that the run has been given so far, in order.
    pub closed spec fn results(&self) -> Seq<StepOutcome> {
        outcomes(self.done@) + outcomes(self.steps@)
    }

    /// The command that the run waits for.
    pub closed spec fn command_view(&self) -> CommandView {
        self.command@
    }

    /// The directory in which the command is to be run.
    pub fn working_directory(&self) -> (directory: &'a str)
        ensures
            directory@ == self.directory(),
    {
        self.directory
    }

    /// The command to run now.
    pub fn command(&self) -> (command: &Command)
        ensures
            command@ == self.command_view(),
            NextView::Run(command@) == next_step(
                self.pipelines(),
                self.variables(),
                self.environment(),
                self.results(),
            ),
    {
        proof {
            use_type_invariant(self);
            self.lemma_awaits();
        }
        &self.command
    }

    /// A valid run waits for the command that the results so far lead to.
    proof fn lemma_awaits(&self)
        requires
            self.valid(),
        ensures
            NextView::Run(self.command@) == next_step(
                self.pipelines(),
                self.variables(),
                self.environment(),
                self.results(),
            ),
    {
        let steps = outcomes(self.steps@);
        let done = outcomes(self.done@);
        let commands = commands_of(
            self.pipelines@[self.at as int]@,
            self.variables@,
            self.environment@,
        );
        let nothing = Seq::<StepOutcome>::empty();
        assert(done + steps + nothing =~= done + steps);
        assert(steps + nothing =~= steps);
        assert(next_step(
            self.pipelines(),
            self.variables(),
            self.environment(),
            done + steps + nothing,
        ) == run_from(
            self.pipelines(),
            self.variables(),
            self.environment(),
            self.at as int,
            true,
            done,
            steps + nothing,
        ));
        lemma_progress_skip(commands, steps, steps.len() as int);
    }
}

/// With the condition of pipeline `at` holding, what the run does from there
/// does not depend on whether a pipeline ran before.
proof fn lemma_executed_irrelevant(
    pipelines: Seq<PipelineView>,
    variables: Entries,
    environment: Entries,
    at: int,
    executed: bool,
    done: Seq<StepOutcome>,
    steps: Seq<StepOutcome>,
)
    requires
        0 <= at < pipelines.len(),
        should_run(pipelines[at].when, variables, environment),
        on_course(pipelines, variables, environment, at, executed, done, steps),
    ensures
        on_course(pipelines, variables, environment, at, true, done, steps),
{
    assert forall|more: Seq<StepOutcome>| #[trigger]
        next_step(pipelines, variables, environment, done + steps + more) == run_from(
            pipelines,
            variables,
            environment,
            at,
            true,
            done,
            steps + more,
        ) by {
        assert(run_from(pipelines, variables, environment, at, true, done, steps + more)
            == run_from(pipelines, variables, environment, at, executed, done, steps + more));
    }
}

/// Passing over pipeline `at`, whose condition does not hold or which has no
/// command, keeps the run on course.
proof fn lemma_pass_over(
    pipelines: Seq<PipelineView>,
    variables: Entries,
    environment: Entries,
    at: int,
    executed: bool,
    done: Seq<StepOutcome>,
)
    requires
        0 <= at < pipelines.len(),
        on_course(pipelines, variables, environment, at, executed, done, Seq::empty()),
        !should_run(pipelines[at].when, variables, environment) || pipelines[at].commands.len()
            == 0,
    ensures
        on_course(
            pipelines,
            variables,
            environment,
            at + 1,
            executed || should_run(pipelines[at].when, variables, environment),
            done,
            Seq::empty(),
        ),
{
    let nothing = Seq::<StepOutcome>::empty();
    let later = executed || should_run(pipelines[at].when, variables, environment);
    assert forall|more: Seq<StepOutcome>| #[trigger]
        next_step(pipelines, variables, environment, done + nothing + more) == run_from(
            pipelines,
            variables,
            environment,
            at + 1,
            later,
            done,
            nothing + more,
        ) by {
        let rest = nothing + more;
        assert(next_step(pipelines, variables, environment, done + nothing + more) == run_from(
            pipelines,
            variables,
            environment,
            at,
            executed,
            done,
            rest,
        ));
        if should_run(pipelines[at].when, variables, environment) {
            let commands = commands_of(pipelines[at], variables, environment);
            assert(commands.len() == 0);
            assert(done + rest.take(0) =~= done);
            assert(rest.skip(0) =~= rest);
        }
    }
}

/// Finds the next command from pipeline `from` on, or ends the run.
fn seek<'a>(
    pipelines: &'a Vec<Pipeline>,
    variables: &'a VariableMap,
    environment: &'a VariableMap,
    directory: &'a str,
    from: usize,
    executed: bool,
    done: Vec<StepResult>,
) -> (next: Next<'a>)
    requires
        from <= pipelines@.len(),
        on_course(
            pipeline_views(pipelines@),
            variables@,
            environment@,
            from as int,
            executed,
            outcomes(done@),
            Seq::empty(),
        ),
    ensures
        next@ == next_step(pipeline_views(pipelines@), variables@, environment@, outcomes(done@)),
        match next {
            Next::Run(running) => {
                &&& running.pipelines() == pipeline_views(pipelines@)
                &&& running.variables() == variables@
                &&& running.environment() == environment@
                &&& running.directory() == directory@
                &&& running.results() == outcomes(done@)
            },
            Next::Finished(_) => true,
        },
{
    let ghost all = pipeline_views(pipelines@);
    let ghost nothing = Seq::<StepOutcome>::empty();
    let mut at = from;
    let mut executed = executed;
    while at < pipelines.len()
        invariant
            at <= pipelines@.len(),
            all == pipeline_views(pipelines@),
            nothing == Seq::<StepOutcome>::empty(),
            on_course(all, variables@, environment@, at as int, executed, outcomes(done@), nothing),
        decreases pipelines@.len() - at,
    {
        let pipeline = &pipelines[at];
        assert(all[at as int] == pipeline@);
        let runs = gate(&pipeline.when, variables, environment);
        assert(runs == should_run(pipeline@.when, variables@, environment@));
        if runs && pipeline.commands.len() > 0 {
            let command = execute_step(pipeline.commands[0].as_str(), variables, environment);
            let steps: Vec<StepResult> = Vec::new();
            proof {
                lemma_executed_irrelevant(
                    all,
                    variables@,
                    environment@,
                    at as int,
                    executed,
                    outcomes(done@),
                    nothing,
                );
                assert(outcomes(steps@) =~= nothing);
                assert(outcomes(done@) + outcomes(steps@) =~= outcomes(done@));
            }
            let running = Running {
                pipelines,
                variables,
                environment,
                directory,
                at,
                steps,
                done,
                command,
            };
            proof {
                running.lemma_awaits();
            }
            return Next::Run(running);
        }
        proof {
            lemma_pass_over(all, variables@, environment@, at as int, executed, outcomes(done@));
        }
        executed = executed || runs;
        at = at + 1;
    }
    proof {
        assert(outcomes(done@) + nothing + nothing =~= outcomes(done@));
        assert(nothing + nothing =~= nothing);
        assert(next_step(all, variables@, environment@, outcomes(done@) + nothing + nothing)
            == run_from(
            all,
            variables@,
            environment@,
            at as int,
            executed,
            outcomes(done@),
            nothing + nothing,
        ));
    }
    if executed {
        Next::Finished(ExecutionResult::Success(done))
    } else {
        Next::Finished(ExecutionResult::NoExecution)
    }
}

/// Begins a run of the pipelines, in order, and says what it does first: it
/// hands out the first command of the first pipeline whose condition holds,
/// or ends at once where there is none.
///
/// The caller runs each command that is handed out, in the directory
/// `directory`, and gives its result to `Running::resume`, until the run has
/// ended. One command runs at a time, and nothing limits how long it may
/// take.
pub fn execute<'a>(
    pipelines: &'a Vec<Pipeline>,
    variables: &'a VariableMap,
    environment: &'a VariableMap,
    directory: &'a str,
) -> (next: Next<'a>)
    ensures
        next@ == next_step(
            pipeline_views(pipelines@),
            variables@,
            environment@,
            Seq::<StepOutcome>::empty(),
        ),
        match next {
            Next::Run(running) => {
                &&& running.pipelines() == pipeline_views(pipelines@)
                &&& running.variables() == variables@
                &&& running.environment() == environment@
                &&& running.directory() == directory@
                &&& running.results() == Seq::<StepOutcome>::empty()
            },
            Next::Finished(_) => true,
        },
{
    let done: Vec<StepResult> = Vec::new();
    proof {
        let nothing = Seq::<StepOutcome>::empty();
        assert(outcomes(done@) =~= nothing);
        assert forall|more: Seq<StepOutcome>| #[trigger]
            next_step(
                pipeline_views(pipelines@),
                variables@,
                environment@,
                nothing + nothing + more,
            ) == run_from(
                pipeline_views(pipelines@),
                variables@,
                environment@,
                0,
                false,
                nothing,
                nothing + more,
            ) by {
            assert(nothing + nothing + more =~= nothing + more);
        }
    }
    seek(pipelines, variables, environment, directory, 0, false, done)
}

impl<'a> Running<'a> {
    /// Takes the result of the command that was handed out, and says what the
    /// run does next. A failure ends the run, with the results of the failing
    /// command's pipeline. After a success the next command of the pipeline is
    /// handed out, or the first of the next pipeline whose condition holds;
    /// where nothing is left, the run ends with all results.
    pub fn resume(self, result: StepResult) -> (next: Next<'a>)
        ensures
            next@ == next_step(
                self.pipelines(),
                self.variables(),
                self.environment(),
                self.results().push(result@),
            ),
            match next {
                Next::Run(running) => {
                    &&& running.pipelines() == self.pipelines()
                    &&& running.variables() == self.variables()
                    &&& running.environment() == self.environment()
                    &&& running.directory() == self.directory()
                    &&& running.results() == self.results().push(result@)
                },
                Next::Finished(_) => true,
            },
    {
        proof {
            use_type_invariant(&self);
        }
        let ghost all = pipeline_views(self.pipelines@);
        let ghost old_steps = outcomes(self.steps@);
        let ghost old_done = outcomes(self.done@);
        let ghost one = seq![result@];
        let ghost commands = commands_of(
            self.pipelines@[self.at as int]@,
            self.variables@,
            self.environment@,
        );
        let Running { pipelines, variables, environment, directory, at, steps, done, command } =
            self;
        let mut steps = steps;
        let mut done = done;
        let failure = match &result {
            StepResult::Error(_, _, _) => true,
            StepResult::Success(_, _) => false,
        };
        steps.push(result);
        let ghost new_steps = outcomes(steps@);
        proof {
            assert(new_steps =~= old_steps + one);
            assert((old_done + old_steps).push(one[0]) =~= old_done + old_steps + one);
            assert(all[at as int] == pipelines@[at as int]@);
            assert(next_step(all, variables@, environment@, old_done + old_steps + one)
                == run_from(all, variables@, environment@, at as int, true, old_done, new_steps));
        }
        if failure {
            proof {
                lemma_progress_skip(commands, new_steps, old_steps.len() as int);
                assert(new_steps.take(old_steps.len() as int + 1) =~= new_steps);
            }
            return Next::Finished(ExecutionResult::Error(steps));
        }
        let pipeline = &pipelines[at];
        if steps.len() < pipeline.commands.len() {
            let command = execute_step(
                pipeline.commands[steps.len()].as_str(),
                variables,
                environment,
            );
            proof {
                assert forall|more: Seq<StepOutcome>| #[trigger]
                    next_step(all, variables@, environment@, old_done + new_steps + more)
                        == run_from(
                        all,
                        variables@,
                        environment@,
                        at as int,
                        true,
                        old_done,
                        new_steps + more,
                    ) by {
                    assert(old_done + new_steps + more =~= old_done + old_steps + (one + more));
                    assert(new_steps + more =~= old_steps + (one + more));
                }
                assert(old_done + new_steps =~= (old_done + old_steps).push(one[0]));
            }
            let running = Running {
                pipelines,
                variables,
                environment,
                directory,
                at,
                steps,
                done,
                command,
            };
            proof {
                running.lemma_awaits();
            }
            return Next::Run(running);
        }
        done.append(&mut steps);
        assert(at < pipelines.len());
        proof {
            let nothing = Seq::<StepOutcome>::empty();
            assert(outcomes(done@) =~= old_done + new_steps);
            assert(outcomes(done@) =~= (old_done + old_steps).push(one[0]));
            assert forall|more: Seq<StepOutcome>| #[trigger]
                next_step(all, variables@, environment@, outcomes(done@) + nothing + more)
                    == run_from(
                    all,
                    variables@,
                    environment@,
                    at + 1,
                    true,
                    outcomes(done@),
                    nothing + more,
                ) by {
                let rest = new_steps + more;
                assert(outcomes(done@) + nothing + more =~= old_done + old_steps + (one + more));
                assert(rest =~= old_steps + (one + more));
                lemma_progress_skip(commands, rest, new_steps.len() as int);
                assert(rest.take(commands.len() as int) =~= new_steps);
                assert(rest.skip(commands.len() as int) =~= nothing + more);
            }
        }
        seek(pipelines, variables, environment, directory, at + 1, true, done)
    }
}

/// Where no pipeline's condition holds, nothing is executed, whatever
/// results are offered.
pub proof fn lemma_nothing_runs(
    pipelines: Seq<PipelineView>,
    variables: Entries,
    environment: Entries,
    results: Seq<StepOutcome>,
)
    requires
        forall|i: int|
            0 <= i < pipelines.len() ==> !should_run(
                (#[trigger] pipelines[i]).when,
                variables,
                environment,
            ),
    ensures
        next_step(pipelines, variables, environment, results) == NextView::Finished(
            Outcome::NoExecution,
        ),
{
    lemma_none_runs_from(pipelines, variables, environment, 0, results);
}

/// Where no condition holds, nothing is executed from any pipeline on.
proof fn lemma_none_runs_from(
    pipelines: Seq<PipelineView>,
    variables: Entries,
    environment: Entries,
    at: int,
    results: Seq<StepOutcome>,
)
    requires
        0 <= at,
        forall|i: int|
            0 <= i < pipelines.len() ==> !should_run(
                (#[trigger] pipelines[i]).when,
                variables,
                environment,
            ),
    ensures
        run_from(pipelines, variables, environment, at, false, Seq::empty(), results)
            == NextView::Finished(Outcome::NoExecution),
    decreases pipelines.len() - at,
{
    if at < pipelines.len() {
        assert(!should_run(pipelines[at].when, variables, environment));
        lemma_none_runs_from(pipelines, variables, environment, at + 1, results);
    }
}

/// Where a run ends without an execution, no pipeline's condition holds.
pub proof fn lemma_no_execution(
    pipelines: Seq<PipelineView>,
    variables: Entries,
    environment: Entries,
    results: Seq<StepOutcome>,
)
    requires
        next_step(pipelines, variables, environment, results) == NextView::Finished(
            Outcome::NoExecution,
        ),
    ensures
        forall|i: int|
            0 <= i < pipelines.len() ==> !should_run(
                (#[trigger] pipelines[i]).when,
                variables,
                environment,
            ),
{
    lemma_no_execution_from(pipelines, variables, environment, 0, false, Seq::empty(), results);
}

/// Where nothing is executed from a pipeline on, no pipeline ran before and
/// no condition holds from there on.
proof fn lemma_no_execution_from(
    pipelines: Seq<PipelineView>,
    variables: Entries,
    environment: Entries,
    at: int,
    executed: bool,
    done: Seq<StepOutcome>,
    results: Seq<StepOutcome>,
)
    requires
        0 <= at,
        run_from(pipelines, variables, environment, at, executed, done, results)
            == NextView::Finished(Outcome::NoExecution),
    ensures
        !executed,
        forall|i: int|
            at <= i < pipelines.len() ==> !should_run(
                (#[trigger] pipelines[i]).when,
                variables,
                environment,
            ),
    decreases pipelines.len() - at,
{
    if at < pipelines.len() {
        if should_run(pipelines[at].when, variables, environment) {
            let commands = commands_of(pipelines[at], variables, environment);
            lemma_no_execution_from(
                pipelines,
                variables,
                environment,
                at + 1,
                true,
                done + results.take(commands.len() as int),
                results.skip(commands.len() as int),
            );
        } else {
            lemma_no_execution_from(
                pipelines,
                variables,
                environment,
                at + 1,
                executed,
                done,
                results,
            );
        }
    }
}

/// How many commands the pipelines from `from` up to `upto` run between them:
/// those of the pipelines whose condition holds.
pub open spec fn commands_between(
    pipelines: Seq<PipelineView>,
    variables: Entries,
    environment: Entries,
    from: int,
    upto: int,
) -> int
    decreases upto - from,
{
    if from >= upto {
        0
    } else if should_run(pipelines[from].when, variables, environment) {
        pipelines[from].commands.len() + commands_between(
            pipelines,
            variables,
            environment,
            from + 1,
            upto,
        )
    } else {
        commands_between(pipelines, variables, environment, from + 1, upto)
    }
}

/// A count of commands is not negative.
proof fn lemma_commands_between(
    pipelines: Seq<PipelineView>,
    variables: Entries,
    environment: Entries,
    from: int,
    upto: int,
)
    ensures
        commands_between(pipelines, variables, environment, from, upto) >= 0,
    decreases upto - from,
{
    if from < upto {
        lemma_commands_between(pipelines, variables, environment, from + 1, upto);
    }
}

/// A pipeline that has failed reports its results up to the first failure.
proof fn lemma_progress_failed(
    commands: Seq<CommandView>,
    results: Seq<StepOutcome>,
    from: int,
    steps: Seq<StepOutcome>,
)
    requires
        0 <= from,
        forall|i: int| 0 <= i < from && i < results.len() ==> !failed(#[trigger] results[i]),
        progress_from(commands, results, from) == Progress::Failed(steps),
    ensures
        0 < steps.len() <= results.len(),
        steps.len() <= commands.len(),
        steps == results.take(steps.len() as int),
        failed(steps.last()),
        forall|i: int| 0 <= i < steps.len() - 1 ==> !failed(#[trigger] steps[i]),
    decreases commands.len() - from,
{
    if from < commands.len() && from < results.len() && !failed(results[from]) {
        lemma_progress_failed(commands, results, from + 1, steps);
    }
}

/// A pipeline has completed only when a result has come in for each of its
/// commands, none of them a failure.
proof fn lemma_completed(commands: Seq<CommandView>, results: Seq<StepOutcome>, from: int)
    requires
        0 <= from,
        progress_from(commands, results, from) == Progress::Completed,
    ensures
        from <= commands.len() && from <= results.len() ==> commands.len() <= results.len(),
        forall|i: int| from <= i < commands.len() ==> !failed(#[trigger] results[i]),
    decreases commands.len() - from,
{
    if from < commands.len() {
        lemma_completed(commands, results, from + 1);
    }
}

/// The shape of an error, seen from a pipeline on.
proof fn lemma_error_from(
    pipelines: Seq<PipelineView>,
    variables: Entries,
    environment: Entries,
    at: int,
    executed: bool,
    done: Seq<StepOutcome>,
    results: Seq<StepOutcome>,
    steps: Seq<StepOutcome>,
) -> (failing: int)
    requires
        0 <= at,
        run_from(pipelines, variables, environment, at, executed, done, results)
            == NextView::Finished(Outcome::Error(steps)),
    ensures
        at <= failing < pipelines.len(),
        should_run(pipelines[failing].when, variables, environment),
        0 < steps.len() <= pipelines[failing].commands.len(),
        failed(steps.last()),
        forall|i: int| 0 <= i < steps.len() - 1 ==> !failed(#[trigger] steps[i]),
        commands_between(pipelines, variables, environment, at, failing) + steps.len()
            <= results.len(),
        steps == results.subrange(
            commands_between(pipelines, variables, environment, at, failing),
            commands_between(pipelines, variables, environment, at, failing) + steps.len(),
        ),
    decreases pipelines.len() - at,
{
    if !should_run(pipelines[at].when, variables, environment) {
        let failing = lemma_error_from(
            pipelines,
            variables,
            environment,
            at + 1,
            executed,
            done,
            results,
            steps,
        );
        assert(commands_between(pipelines, variables, environment, at, failing)
            == commands_between(pipelines, variables, environment, at + 1, failing));
        failing
    } else {
        let commands = commands_of(pipelines[at], variables, environment);
        match progress_from(commands, results, 0) {
            Progress::Awaiting(_) => at,
            Progress::Failed(_) => {
                lemma_progress_failed(commands, results, 0, steps);
                assert(results.take(steps.len() as int) =~= results.subrange(
                    0,
                    steps.len() as int,
                ));
                at
            },
            Progress::Completed => {
                lemma_completed(commands, results, 0);
                let rest = results.skip(commands.len() as int);
                let failing = lemma_error_from(
                    pipelines,
                    variables,
                    environment,
                    at + 1,
                    true,
                    done + results.take(commands.len() as int),
                    rest,
                    steps,
                );
                let first = commands_between(pipelines, variables, environment, at + 1, failing);
                lemma_commands_between(pipelines, variables, environment, at + 1, failing);
                assert(commands_between(pipelines, variables, environment, at, failing)
                    == commands.len() + first);
                assert(rest.subrange(first, first + steps.len()) =~= results.subrange(
                    commands.len() + first,
                    commands.len() + first + steps.len(),
                ));
                failing
            },
        }
    }
}

/// A run that ends with an error reports the steps of one pipeline, the
/// pipeline `failing`, and of no other.
///
/// The condition of that pipeline holds. The steps are the results of its
/// commands from the first one on, up to the one that failed: they stand in
/// the results behind those of all the commands of the pipelines that ran
/// before, they end with the failure, and none before it is a failure.
pub proof fn lemma_error_shape(
    pipelines: Seq<PipelineView>,
    variables: Entries,
    environment: Entries,
    results: Seq<StepOutcome>,
    steps: Seq<StepOutcome>,
) -> (failing: int)
    requires
        next_step(pipelines, variables, environment, results) == NextView::Finished(
            Outcome::Error(steps),
        ),
    ensures
        0 <= failing < pipelines.len(),
        should_run(pipelines[failing].when, variables, environment),
        0 < steps.len() <= pipelines[failing].commands.len(),
        failed(steps.last()),
        forall|i: int| 0 <= i < steps.len() - 1 ==> !failed(#[trigger] steps[i]),
        commands_between(pipelines, variables, environment, 0, failing) + steps.len()
            <= results.len(),
        steps == results.subrange(
            commands_between(pipelines, variables, environment, 0, failing),
            commands_between(pipelines, variables, environment, 0, failing) + steps.len(),
        ),
{
    lemma_error_from(pipelines, variables, environment, 0, false, Seq::empty(), results, steps)
}

/// The shape of a success, seen from a pipeline on.
proof fn lemma_success_from(
    pipelines: Seq<PipelineView>,
    variables: Entries,
    environment: Entries,
    at: int,
    executed: bool,
    done: Seq<StepOutcome>,
    results: Seq<StepOutcome>,
    steps: Seq<StepOutcome>,
)
    requires
        0 <= at <= pipelines.len(),
        run_from(pipelines, variables, environment, at, executed, done, results)
            == NextView::Finished(Outcome::Success(steps)),
    ensures
        0 <= commands_between(pipelines, variables, environment, at, pipelines.len() as int)
            <= results.len(),
        steps == done + results.take(
            commands_between(pipelines, variables, environment, at, pipelines.len() as int),
        ),
        forall|i: int|
            0 <= i < commands_between(pipelines, variables, environment, at, pipelines.len() as int)
                ==> !failed(#[trigger] results[i]),
        executed || exists|i: int|
            at <= i < pipelines.len() && should_run(
                (#[trigger] pipelines[i]).when,
                variables,
                environment,
            ),
    decreases pipelines.len() - at,
{
    if at >= pipelines.len() {
        assert(done + results.take(0) =~= done);
    } else if !should_run(pipelines[at].when, variables, environment) {
        lemma_success_from(pipelines, variables, environment, at + 1, executed, done, results, steps);
        assert(commands_between(pipelines, variables, environment, at, pipelines.len() as int)
            == commands_between(pipelines, variables, environment, at + 1, pipelines.len() as int));
    } else {
        let commands = commands_of(pipelines[at], variables, environment);
        lemma_completed(commands, results, 0);
        let count = commands.len() as int;
        let rest = results.skip(count);
        lemma_success_from(
            pipelines,
            variables,
            environment,
            at + 1,
            true,
            done + results.take(count),
            rest,
            steps,
        );
        let taken = commands_between(
            pipelines,
            variables,
            environment,
            at + 1,
            pipelines.len() as int,
        );
        assert(commands_between(pipelines, variables, environment, at, pipelines.len() as int)
            == count + taken);
        assert(done + results.take(count) + rest.take(taken) =~= done + results.take(
            count + taken,
        ));
        assert forall|i: int| 0 <= i < count + taken implies !failed(#[trigger] results[i]) by {
            if i >= count {
                assert(results[i] == rest[i - count]);
            }
        }
        assert(should_run(pipelines[at].when, variables, environment));
    }
}

/// A run that ends with success reports the results of all the commands of
/// the pipelines whose condition holds, in order, none of them a failure;
/// and the condition of at least one pipeline holds.
pub proof fn lemma_success_shape(
    pipelines: Seq<PipelineView>,
    variables: Entries,
    environment: Entries,
    results: Seq<StepOutcome>,
    steps: Seq<StepOutcome>,
)
    requires
        next_step(pipelines, variables, environment, results) == NextView::Finished(
            Outcome::Success(steps),
        ),
    ensures
        steps.len() == commands_between(
            pipelines,
            variables,
            environment,
            0,
            pipelines.len() as int,
        ),
        steps.len() <= results.len(),
        steps == results.take(steps.len() as int),
        forall|i: int| 0 <= i < steps.len() ==> !failed(#[trigger] steps[i]),
        exists|i: int|
            0 <= i < pipelines.len() && should_run(
                (#[trigger] pipelines[i]).when,
                variables,
                environment,
            ),
{
    let nothing = Seq::<StepOutcome>::empty();
    lemma_success_from(pipelines, variables, environment, 0, false, nothing, results, steps);
    let taken = commands_between(pipelines, variables, environment, 0, pipelines.len() as int);
    assert(nothing + results.take(taken) =~= results.take(taken));
}

} // verus!
