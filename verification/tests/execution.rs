use cinderella::capture::{Reaction, StreamEvent};
use cinderella::command::{execute_step, Command};
use cinderella::execution::{execute, ExecutionResult, Next, StepResult};
use cinderella::gate::{execute_test, gate_passes};
use cinderella::substitution::{replace_envvars, replace_variables};
use cinderella::pipeline::Pipeline;
use cinderella::variables::VariableMap;
use std::io::{BufRead, BufReader};

/// Runs one command as a child process in a directory, its error output
/// joined to its output, and feeds what it prints to the capture.
fn run_command_in(command: &Command, directory: &str) -> StepResult {
    let reader = duct::cmd(&command.command, &command.args)
        .dir(directory)
        .stderr_to_stdout()
        .unchecked()
        .reader()
        .unwrap();
    let mut capture = command.execute();
    for line in BufReader::new(&reader).lines() {
        let event = match line {
            Ok(line) => StreamEvent::Line(line),
            Err(_) => StreamEvent::ReadError,
        };
        match capture.feed(event) {
            Reaction::Echo(line) => println!("{}", line),
            Reaction::Kill(result) => {
                reader.kill().expect("Could not kill reader");
                return result;
            },
            Reaction::Done(result) => return result,
        }
    }
    let output = reader.try_wait().unwrap().unwrap();
    let closed = StreamEvent::Closed { success: output.status.success(), code: output
        .status
        .code() };
    match capture.feed(closed) {
        Reaction::Done(result) => result,
        Reaction::Kill(result) => result,
        Reaction::Echo(_) => unreachable!(),
    }
}

fn run_command(command: &Command) -> StepResult {
    run_command_in(command, ".")
}

/// Runs the pipelines to the end, each command as a child process.
fn run_all(pipelines: &Vec<Pipeline>, variables: &VariableMap) -> ExecutionResult {
    let environment = VariableMap::new();
    let mut next = execute(pipelines, variables, &environment, ".");
    loop {
        match next {
            Next::Run(running) => {
                let result = run_command_in(running.command(), running.working_directory());
                next = running.resume(result);
            },
            Next::Finished(result) => return result,
        }
    }
}

/// Runs the pipelines to the end, with `results` in place of the commands'
/// results, and says how many commands were handed out.
fn replay(
    pipelines: &Vec<Pipeline>,
    variables: &VariableMap,
    results: Vec<StepResult>,
) -> (ExecutionResult, Vec<String>) {
    let environment = VariableMap::new();
    let mut commands = Vec::new();
    let mut results = results.into_iter();
    let mut next = execute(pipelines, variables, &environment, "/srv/work");
    loop {
        match next {
            Next::Run(running) => {
                assert_eq!(running.working_directory(), "/srv/work");
                commands.push(running.command().command_string());
                next = running.resume(results.next().expect("a result for each command"));
            },
            Next::Finished(result) => return (result, commands),
        }
    }
}

fn execute_stringout(pipeline: Pipeline, variables: VariableMap) -> String {
    let res = run_all(&vec![pipeline], &variables);

    let mut out = String::new();
    match res {
        ExecutionResult::Success(steps) | ExecutionResult::Error(steps) => {
            for step in steps {
                let text = match step {
                    StepResult::Success(_command, out) => out,
                    StepResult::Error(_command, out, _code) => out,
                };
                out.push_str(&text);
            }
        },
        _ => (),
    }

    out
}

fn pipeline(name: &str, commands: &[&str], when: Option<&str>) -> Pipeline {
    Pipeline {
        name: name.to_string(),
        commands: commands.iter().map(|c| c.to_string()).collect(),
        when: when.map(|w| w.to_string()),
    }
}

fn success(command: &str, output: &str) -> StepResult {
    StepResult::Success(command.to_string(), output.to_string())
}

fn failure(command: &str, output: &str, code: Option<i32>) -> StepResult {
    StepResult::Error(command.to_string(), output.to_string(), code)
}

fn shape(result: &ExecutionResult) -> Vec<(bool, String, String, Option<i32>)> {
    let steps = match result {
        ExecutionResult::NoExecution => return Vec::new(),
        ExecutionResult::Success(steps) => steps,
        ExecutionResult::Error(steps) => steps,
    };
    steps
        .iter()
        .map(|step| match step {
            StepResult::Success(c, o) => (true, c.clone(), o.clone(), None),
            StepResult::Error(c, o, code) => (false, c.clone(), o.clone(), *code),
        })
        .collect()
}

fn branch_is(branch: &str) -> VariableMap {
    let mut variables = VariableMap::new();
    variables.insert(String::from("branch"), String::from(branch));
    variables
}

#[test]
fn test_execute_pipeline() {
    let pipeline = Pipeline {
        name: String::from("my-test"),
        commands: vec!["echo 'this is my test'".to_string()],
        when: None,
    };
    let variables = VariableMap::new();

    let result = execute_stringout(pipeline, variables);

    assert!(result.contains("this is my test"));
}

#[test]
fn test_execute_error_statement() {
    let pipeline = Pipeline {
        name: String::from("error-test"),
        commands: vec!["bash -c \"exit 1\"".to_string()],
        when: None,
    };
    let variables = VariableMap::new();

    let result = run_all(&vec![pipeline], &variables);

    match result {
        ExecutionResult::Error(steps) => {
            if let StepResult::Error(cmd, _out, _code) = &steps[0] {
                assert_eq!(cmd, "bash -c \"exit 1\"");
            } else {
                assert!(false);
            }
        },
        // fail if something different from error is returned
        _ => assert!(false),
    }
}

#[test]
fn test_pipeline_with_variables() {
    let pipeline = Pipeline {
        name: String::from("my-test"),
        commands: vec!["echo '%MYVAR'".to_string()],
        when: None,
    };
    let mut variables = VariableMap::new();
    variables.insert(String::from("myvar"), String::from("some value"));

    let result = execute_stringout(pipeline, variables);

    assert!(result.contains("some value"));
}

#[test]
fn test_conditional_pipeline_false() {
    let pipeline = Pipeline {
        name: String::from("my-test"),
        commands: vec!["echo 'Building non-master'".to_string()],
        when: Some(String::from("\"%BRANCH\" != \"master\"")),
    };
    let mut variables = VariableMap::new();
    variables.insert(String::from("branch"), String::from("master"));

    let result = execute_stringout(pipeline, variables);

    assert!(!result.contains("non-master"));
}

#[test]
fn test_conditional_pipeline_true() {
    let pipeline = Pipeline {
        name: String::from("my-test"),
        commands: vec!["echo 'Building master'".to_string()],
        when: Some(String::from("\"%BRANCH\" == \"master\"")),
    };
    let mut variables = VariableMap::new();
    variables.insert(String::from("branch"), String::from("master"));

    let result = execute_stringout(pipeline, variables);

    assert!(result.contains("Building master"));
}

#[test]
fn commands_run_in_the_directory_of_the_run() {
    let pipelines = vec![pipeline("where", &["pwd"], None)];
    let variables = VariableMap::new();
    let environment = VariableMap::new();
    let mut next = execute(&pipelines, &variables, &environment, "/");
    let result = loop {
        match next {
            Next::Run(running) => {
                let result = run_command_in(running.command(), running.working_directory());
                next = running.resume(result);
            },
            Next::Finished(result) => break result,
        }
    };
    assert_eq!(shape(&result), vec![(true, "pwd".to_string(), "/\n".to_string(), None)]);
}

#[test]
fn exit_status_zero_is_success() {
    let result = run_command(&Command { command: "true".to_string(), args: vec![] });
    assert!(matches!(result, StepResult::Success(c, o) if c == "true" && o.is_empty()));
}

#[test]
fn exit_code_is_reported() {
    let command = Command::from_parts(vec!["bash".to_string(), "-c".to_string(), "exit 3"
        .to_string()]);
    match run_command(&command) {
        StepResult::Error(shown, output, code) => {
            assert_eq!(shown, "bash -c \"exit 3\"");
            assert_eq!(output, "");
            assert_eq!(code, Some(3));
        },
        StepResult::Success(_, _) => panic!("the command failed"),
    }
}

#[test]
fn signal_leaves_no_exit_code() {
    let command = Command::from_parts(vec!["bash".to_string(), "-c".to_string(), "kill -9 $$"
        .to_string()]);
    assert!(matches!(run_command(&command), StepResult::Error(_, _, None)));
}

#[test]
fn output_is_captured_in_order_with_errors_joined() {
    let script = "echo one; echo two 1>&2; echo three";
    let command = Command::from_parts(vec!["bash".to_string(), "-c".to_string(), script
        .to_string()]);
    match run_command(&command) {
        StepResult::Success(_, output) => assert_eq!(output, "one\ntwo\nthree\n"),
        StepResult::Error(_, _, _) => panic!("the command succeeded"),
    }
}

#[test]
fn failure_keeps_what_was_printed() {
    let command = Command::from_parts(vec!["bash".to_string(), "-c".to_string(),
        "echo before; exit 7".to_string()]);
    match run_command(&command) {
        StepResult::Error(_, output, code) => {
            assert_eq!(output, "before\n");
            assert_eq!(code, Some(7));
        },
        StepResult::Success(_, _) => panic!("the command failed"),
    }
}

#[test]
fn capture_adds_each_line_with_a_line_end() {
    let command = Command { command: "make".to_string(), args: vec!["all targets".to_string()] };
    let mut capture = command.execute();
    assert!(matches!(capture.feed(StreamEvent::Line("first".to_string())),
        Reaction::Echo(line) if line == "first"));
    assert!(matches!(capture.feed(StreamEvent::Line("".to_string())),
        Reaction::Echo(line) if line.is_empty()));
    assert!(matches!(capture.feed(StreamEvent::Line("third".to_string())),
        Reaction::Echo(line) if line == "third"));
    match capture.feed(StreamEvent::Closed { success: true, code: Some(0) }) {
        Reaction::Done(StepResult::Success(shown, output)) => {
            assert_eq!(shown, "make \"all targets\"");
            assert_eq!(output, "first\n\nthird\n");
        },
        _ => panic!("the step ended with success"),
    }
}

#[test]
fn read_error_kills_and_keeps_the_output_so_far() {
    let command = Command { command: "make".to_string(), args: vec![] };
    let mut capture = command.execute();
    capture.feed(StreamEvent::Line("so far".to_string()));
    match capture.feed(StreamEvent::ReadError) {
        Reaction::Kill(StepResult::Error(shown, output, code)) => {
            assert_eq!(shown, "make");
            assert_eq!(output, "so far\n");
            assert_eq!(code, None);
        },
        _ => panic!("a read error kills the process"),
    }
}

#[test]
fn closed_without_success_is_a_failure_with_the_code() {
    let command = Command { command: "make".to_string(), args: vec![] };
    let mut capture = command.execute();
    assert!(matches!(capture.feed(StreamEvent::Closed { success: false, code: Some(2) }),
        Reaction::Done(StepResult::Error(_, _, Some(2)))));
    let mut capture = command.execute();
    assert!(matches!(capture.feed(StreamEvent::Closed { success: false, code: None }),
        Reaction::Done(StepResult::Error(_, _, None))));
}

#[test]
fn command_is_shown_with_quotes_round_spaced_arguments() {
    let command = Command::from_parts(vec!["my program".to_string(), "a".to_string(), "b c"
        .to_string(), "".to_string(), "d\te".to_string()]);
    assert_eq!(command.command, "my program");
    assert_eq!(command.args, vec!["a", "b c", "", "d\te"]);
    assert_eq!(command.command_string(), "\"my program\" a \"b c\"  \"d\te\"");
}

#[test]
fn no_tokens_give_an_empty_program() {
    let command = Command::from_parts(Vec::new());
    assert_eq!(command.command, "");
    assert!(command.args.is_empty());
    assert_eq!(command.command_string(), "");
}

#[test]
fn variables_are_put_in_by_their_upper_case_names() {
    let mut variables = VariableMap::new();
    variables.insert("myvar".to_string(), "some value".to_string());
    variables.insert("Other".to_string(), "2".to_string());
    let environment = VariableMap::new();
    assert_eq!(
        replace_variables("echo %MYVAR %myvar %OTHER%OTHER %MISSING", &variables, &environment),
        "echo some value %myvar 22 %MISSING"
    );
}

#[test]
fn environment_is_put_in_after_the_variables() {
    let mut variables = VariableMap::new();
    variables.insert("target".to_string(), "$home/out".to_string());
    let mut environment = VariableMap::new();
    environment.insert("Home".to_string(), "/root".to_string());
    environment.insert("PERCENT".to_string(), "%TARGET".to_string());
    assert_eq!(
        replace_variables("cp %TARGET $HOME $PERCENT $UNSET", &variables, &environment),
        "cp $home/out /root %TARGET $UNSET"
    );
    assert_eq!(replace_envvars("$HOME/%TARGET", &environment), "/root/%TARGET");
}

#[test]
fn variables_are_put_in_one_after_the_other() {
    let mut variables = VariableMap::new();
    variables.insert("a".to_string(), "%B".to_string());
    variables.insert("b".to_string(), "x".to_string());
    let environment = VariableMap::new();
    assert_eq!(replace_variables("%A", &variables, &environment), "x");
    assert_eq!(replace_variables("%B%A", &variables, &environment), "xx");
}

#[test]
fn text_without_placeholders_stays() {
    let variables = branch_is("master");
    let environment = VariableMap::new();
    assert_eq!(replace_variables("100% $ure", &variables, &environment), "100% $ure");
}

#[test]
fn gate_compares_the_branch() {
    let variables = branch_is("master");
    let environment = VariableMap::new();
    assert!(execute_test("\"%BRANCH\" == \"master\"", &variables, &environment));
    assert!(!execute_test("\"%BRANCH\" != \"master\"", &variables, &environment));
    assert!(!execute_test("\"%BRANCH\" == \"develop\"", &variables, &environment));
    assert!(execute_test("true", &variables, &environment));
    assert!(!execute_test("false", &variables, &environment));
    assert!(execute_test("true != false", &variables, &environment));
}

#[test]
fn gate_is_false_where_the_condition_cannot_be_evaluated() {
    let variables = branch_is("master");
    let environment = VariableMap::new();
    assert!(!execute_test("\"%BRANCH\" ==", &variables, &environment));
    assert!(!execute_test("(((", &variables, &environment));
    assert!(!execute_test("1 + 1", &variables, &environment));
    assert!(!execute_test("\"master\"", &variables, &environment));
    assert!(!execute_test("", &variables, &environment));
}

#[test]
fn gate_passes_on_true_alone() {
    assert!(gate_passes(Some(true)));
    assert!(!gate_passes(Some(false)));
    assert!(!gate_passes(None));
}

#[test]
fn step_is_resolved_then_split() {
    let mut variables = VariableMap::new();
    variables.insert("msg".to_string(), "two words".to_string());
    let environment = VariableMap::new();
    let command = execute_step("echo %MSG \"%MSG\"", &variables, &environment);
    assert_eq!(command.command, "echo");
    assert_eq!(command.args, vec!["two", "words", "two words"]);
}

#[test]
fn failure_in_second_pipeline_reports_its_steps_alone() {
    let pipelines = vec![
        pipeline("first", &["true", "true"], None),
        pipeline("second", &["bash -c \"exit 1\"", "echo never"], None),
    ];
    let result = run_all(&pipelines, &VariableMap::new());
    match result {
        ExecutionResult::Error(steps) => {
            assert_eq!(steps.len(), 1);
            assert!(matches!(&steps[0], StepResult::Error(c, _, Some(1))
                if c == "bash -c \"exit 1\""));
        },
        _ => panic!("the run failed"),
    }
}

#[test]
fn failure_report_holds_the_steps_before_it_in_its_pipeline() {
    let pipelines = vec![
        pipeline("first", &["a1", "a2"], None),
        pipeline("second", &["b1", "b2", "b3"], None),
        pipeline("third", &["c1"], None),
    ];
    let results = vec![success("a1", "1"), success("a2", "2"), success("b1", "3"),
        failure("b2", "4", Some(9))];
    let (result, commands) = replay(&pipelines, &VariableMap::new(), results);
    assert_eq!(commands, vec!["a1", "a2", "b1", "b2"]);
    assert!(matches!(result, ExecutionResult::Error(_)));
    assert_eq!(
        shape(&result),
        vec![
            (true, "b1".to_string(), "3".to_string(), None),
            (false, "b2".to_string(), "4".to_string(), Some(9)),
        ]
    );
}

#[test]
fn success_holds_the_steps_of_all_pipelines_that_ran() {
    let pipelines = vec![
        pipeline("first", &["a1", "a2"], None),
        pipeline("skipped", &["s1"], Some("\"%BRANCH\" == \"develop\"")),
        pipeline("third", &["c1"], Some("\"%BRANCH\" == \"master\"")),
    ];
    let results = vec![success("a1", "1"), success("a2", "2"), success("c1", "3")];
    let (result, commands) = replay(&pipelines, &branch_is("master"), results);
    assert_eq!(commands, vec!["a1", "a2", "c1"]);
    assert!(matches!(result, ExecutionResult::Success(_)));
    assert_eq!(
        shape(&result),
        vec![
            (true, "a1".to_string(), "1".to_string(), None),
            (true, "a2".to_string(), "2".to_string(), None),
            (true, "c1".to_string(), "3".to_string(), None),
        ]
    );
}

#[test]
fn nothing_runs_where_no_condition_holds() {
    let pipelines = vec![
        pipeline("one", &["echo one"], Some("\"%BRANCH\" != \"master\"")),
        pipeline("two", &["echo two"], Some("false")),
        pipeline("three", &["echo three"], Some("not a condition")),
    ];
    let result = run_all(&pipelines, &branch_is("master"));
    assert!(matches!(result, ExecutionResult::NoExecution));
    let (result, commands) = replay(&pipelines, &branch_is("master"), Vec::new());
    assert!(matches!(result, ExecutionResult::NoExecution));
    assert!(commands.is_empty());
}

#[test]
fn no_pipelines_execute_nothing() {
    let result = run_all(&Vec::new(), &VariableMap::new());
    assert!(matches!(result, ExecutionResult::NoExecution));
}

#[test]
fn pipeline_without_commands_is_a_success_without_steps() {
    let pipelines = vec![pipeline("empty", &[], None)];
    let (result, commands) = replay(&pipelines, &VariableMap::new(), Vec::new());
    assert!(commands.is_empty());
    assert!(matches!(result, ExecutionResult::Success(steps) if steps.is_empty()));
}

#[test]
fn later_pipelines_do_not_run_after_a_failure() {
    let pipelines = vec![
        pipeline("first", &["bash -c \"echo broken; exit 4\""], None),
        pipeline("second", &["echo later"], None),
    ];
    let result = run_all(&pipelines, &VariableMap::new());
    assert_eq!(
        shape(&result),
        vec![(false, "bash -c \"echo broken; exit 4\"".to_string(), "broken\n".to_string(), Some(4))]
    );
    assert!(matches!(result, ExecutionResult::Error(_)));
}

#[test]
fn commands_are_resolved_when_they_are_handed_out() {
    let pipelines = vec![pipeline("build", &["make %TARGET", "echo \"built %TARGET\""], None)];
    let mut variables = VariableMap::new();
    variables.insert("target".to_string(), "all".to_string());
    let results = vec![success("make all", ""), success("echo \"built all\"", "built all\n")];
    let (result, commands) = replay(&pipelines, &variables, results);
    assert_eq!(commands, vec!["make all", "echo \"built all\""]);
    assert!(matches!(result, ExecutionResult::Success(steps) if steps.len() == 2));
}

#[test]
fn test_environment_variables_get_replaced() {
    let pipelines = vec![pipeline("test", &["echo $MY_ENV_VAR"], None)];
    let variables = VariableMap::new();
    let mut environment = VariableMap::new();
    environment.insert("MY_ENV_VAR".to_string(), "test-env-var".to_string());

    let mut next = execute(&pipelines, &variables, &environment, ".");
    let result = loop {
        match next {
            Next::Run(running) => {
                let result = run_command_in(running.command(), running.working_directory());
                next = running.resume(result);
            },
            Next::Finished(result) => break result,
        }
    };

    let stdout: String = shape(&result).into_iter().map(|(_, _, output, _)| output).collect();

    assert!(stdout.contains("test-env-var"));
}
