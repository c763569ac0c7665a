use cinderella::parser::parse_command;

#[test]
fn test_parse_simple_command() {
    let result = parse_command("program execute something");

    assert_eq!(result.len(), 3);
    assert_eq!(result[0], "program");
    assert_eq!(result[1], "execute");
    assert_eq!(result[2], "something");
}

#[test]
fn test_parse_command_with_quoted_args() {
    let result = parse_command("program \"execute something\" and \"something else\"");

    assert_eq!(result.len(), 4);
    assert_eq!(result[0], "program");
    assert_eq!(result[1], "execute something");
    assert_eq!(result[2], "and");
    assert_eq!(result[3], "something else");
}

#[test]
fn test_parse_command_with_spaced_arg() {
    let result = parse_command("program execute\\ something");

    assert_eq!(result.len(), 2);
    assert_eq!(result[0], "program");
    assert_eq!(result[1], "execute something");
}

#[test]
fn test_bash_command() {
    let result = parse_command("bash -c \"exit 1\"");

    assert_eq!(result.len(), 3);
    assert_eq!(result[0], "bash");
    assert_eq!(result[1], "-c");
    assert_eq!(result[2], "exit 1");
}

#[test]
fn test_parse_virtualenv_tox_command() {
    let result = parse_command("bash -c \"virtualenv env && source env/bin/activate && tox\"");

    assert_eq!(result.len(), 3);
    assert_eq!(result[0], "bash");
    assert_eq!(result[1], "-c");
    assert_eq!(result[2], "virtualenv env && source env/bin/activate && tox");
}

#[test]
fn empty_input_has_no_tokens() {
    assert_eq!(parse_command(""), Vec::<String>::new());
    assert_eq!(parse_command("   "), Vec::<String>::new());
}

#[test]
fn unquoted_words_are_split_at_white_space() {
    assert_eq!(parse_command("  make   -j4\tall\n"), vec!["make", "-j4", "all"]);
    assert_eq!(parse_command("one"), vec!["one"]);
}

#[test]
fn quoted_and_unquoted_runs_merge() {
    assert_eq!(parse_command("ab\"cd ef\"gh"), vec!["abcd efgh"]);
    assert_eq!(parse_command("--name=\"my project\" build"), vec!["--name=my project", "build"]);
    assert_eq!(parse_command("\"a\"\"b\""), vec!["ab"]);
}

#[test]
fn empty_quotes_are_an_empty_argument() {
    assert_eq!(parse_command("echo \"\" x"), vec!["echo", "", "x"]);
    assert_eq!(parse_command("\"\""), vec![""]);
}

#[test]
fn unmatched_quote_ends_with_the_text() {
    assert_eq!(parse_command("echo \"hello world"), vec!["echo", "hello world"]);
    assert_eq!(parse_command("echo \""), vec!["echo", ""]);
}

#[test]
fn backslash_between_quotes_is_kept() {
    assert_eq!(parse_command("echo \"a\\nb\""), vec!["echo", "a\\nb"]);
}

#[test]
fn escapes_outside_quotes() {
    assert_eq!(parse_command("a\\ b c"), vec!["a b", "c"]);
    assert_eq!(parse_command("say \\\"hi\\\""), vec!["say", "\"hi\""]);
    assert_eq!(parse_command("a\\\\b"), vec!["a\\b"]);
}

#[test]
fn escape_between_words_joins_the_next_word() {
    assert_eq!(parse_command("\\a b"), vec!["ab"]);
    assert_eq!(parse_command("\\a"), vec!["a"]);
}

#[test]
fn trailing_backslash_is_dropped() {
    assert_eq!(parse_command("abc\\"), vec!["abc"]);
    assert_eq!(parse_command("\\"), Vec::<String>::new());
}

#[test]
fn tokens_may_hold_any_character() {
    assert_eq!(parse_command("echo grüße \"日本 語\""), vec!["echo", "grüße", "日本 語"]);
}
