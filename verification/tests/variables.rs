use cinderella::config::{CinderellaConfig, Configs, ExecutionConfig, Secrets};
use cinderella::crypto::{encrypt_string, CryptoError};
use cinderella::variables::{
    load, load_internal, load_secrets, load_secrets_from_file, LoadError, VariableMap,
};

fn entries(variables: &VariableMap) -> Vec<(String, String)> {
    (0..variables.len())
        .map(|at| (variables.name_at(at).clone(), variables.value_at(at).clone()))
        .collect()
}

fn pair(name: &str, value: &str) -> (String, String) {
    (name.to_string(), value.to_string())
}

fn execution(branch: Option<&str>) -> ExecutionConfig {
    ExecutionConfig {
        repo_url: "https://example.com/my-repo.git".to_string(),
        branch: branch.map(|b| b.to_string()),
        tag: None,
        cinderella_filepath: None,
    }
}

fn application(password: Option<&str>) -> CinderellaConfig {
    CinderellaConfig {
        email: None,
        secrets: password.map(|p| Secrets { password: p.to_string() }),
        dashboard: None,
    }
}

#[test]
fn test_load_secrets() {
    let config = "USERNAME = \"my-user\"\nPASSWORD = \"my-pass\"";
    let variables = load_secrets(config).unwrap();

    assert_eq!(variables.get(&"USERNAME".to_string()).unwrap(), "my-user");
    assert_eq!(variables.get(&"PASSWORD".to_string()).unwrap(), "my-pass");
}

#[test]
fn secrets_come_in_the_order_of_their_names() {
    let variables = load_secrets("zeta = \"1\"\nalpha = \"2\"\nMid = \"3\"").unwrap();
    assert_eq!(entries(&variables), vec![pair("Mid", "3"), pair("alpha", "2"), pair("zeta", "1")]);
}

#[test]
fn secrets_that_are_no_assignments_of_texts_are_refused() {
    assert!(matches!(load_secrets("USERNAME = "), Err(LoadError::Syntax)));
    assert!(matches!(load_secrets("PORT = 5432"), Err(LoadError::Syntax)));
    assert!(matches!(load_secrets("[section]\nkey = \"value\""), Err(LoadError::Syntax)));
    assert_eq!(entries(&load_secrets("").unwrap()), Vec::new());
}

#[test]
fn insert_replaces_the_value_of_a_name() {
    let mut variables = VariableMap::new();
    assert_eq!(variables.len(), 0);
    variables.insert("a".to_string(), "1".to_string());
    variables.insert("b".to_string(), "2".to_string());
    variables.insert("a".to_string(), "3".to_string());
    variables.insert("A".to_string(), "4".to_string());
    assert_eq!(entries(&variables), vec![pair("a", "3"), pair("b", "2"), pair("A", "4")]);
    assert_eq!(variables.find(&"b".to_string()), Some(1));
    assert_eq!(variables.find(&"c".to_string()), None);
    assert_eq!(variables.get(&"a".to_string()), Some(&"3".to_string()));
    assert_eq!(variables.get(&"c".to_string()), None);
}

#[test]
fn extend_puts_the_entries_in_in_order() {
    let mut variables = VariableMap::new();
    variables.insert("a".to_string(), "1".to_string());
    let mut more = VariableMap::new();
    more.insert("b".to_string(), "2".to_string());
    more.insert("c".to_string(), "5".to_string());
    more.insert("a".to_string(), "3".to_string());
    variables.extend(&more);
    assert_eq!(entries(&variables), vec![pair("a", "3"), pair("b", "2"), pair("c", "5")]);
    assert_eq!(entries(&more), vec![pair("b", "2"), pair("c", "5"), pair("a", "3")]);
}

#[test]
fn branch_is_a_variable() {
    let application = application(None);
    let with_branch = execution(Some("master"));
    let configs = Configs { cinderella_config: &application, execution_config: &with_branch };
    assert_eq!(entries(&load_internal(&configs)), vec![pair("branch", "master")]);
    assert_eq!(entries(&load(&configs, &[]).unwrap()), vec![pair("branch", "master")]);

    let without = execution(None);
    let configs = Configs { cinderella_config: &application, execution_config: &without };
    assert_eq!(entries(&load_internal(&configs)), Vec::new());
    assert_eq!(entries(&load(&configs, &[]).unwrap()), Vec::new());
}

#[test]
fn tag_is_a_variable() {
    let application = application(None);
    let mut tagged = execution(None);
    tagged.tag = Some("v1.0".to_string());
    let configs = Configs { cinderella_config: &application, execution_config: &tagged };
    assert_eq!(entries(&load(&configs, &[]).unwrap()), vec![pair("tag", "v1.0")]);

    let mut both = execution(Some("master"));
    both.tag = Some("v1.0".to_string());
    let configs = Configs { cinderella_config: &application, execution_config: &both };
    assert_eq!(
        entries(&load_internal(&configs)),
        vec![pair("branch", "master"), pair("tag", "v1.0")]
    );
}

#[test]
fn secrets_are_loaded_under_the_configured_password() {
    let blob = encrypt_string("TOKEN = \"abc\"\nbranch = \"hidden\"", "my-pass").unwrap();
    let application = application(Some("my-pass"));
    let execution = execution(Some("master"));
    let configs = Configs { cinderella_config: &application, execution_config: &execution };
    assert_eq!(
        entries(&load_secrets_from_file(&configs, &blob).unwrap()),
        vec![pair("TOKEN", "abc"), pair("branch", "hidden")]
    );
    assert_eq!(
        entries(&load(&configs, &blob).unwrap()),
        vec![pair("branch", "hidden"), pair("TOKEN", "abc")]
    );
}

#[test]
fn secrets_are_left_out_under_a_wrong_password() {
    let blob = encrypt_string("TOKEN = \"abc\"", "my-pass").unwrap();
    let application = application(Some("other"));
    let execution = execution(Some("master"));
    let configs = Configs { cinderella_config: &application, execution_config: &execution };
    assert_eq!(entries(&load_secrets_from_file(&configs, &blob).unwrap()), Vec::new());
    assert_eq!(entries(&load(&configs, &blob).unwrap()), vec![pair("branch", "master")]);
}

#[test]
fn secrets_file_is_not_looked_at_without_a_password() {
    let application = application(None);
    let execution = execution(Some("master"));
    let configs = Configs { cinderella_config: &application, execution_config: &execution };
    assert_eq!(entries(&load_secrets_from_file(&configs, b"no envelope").unwrap()), Vec::new());
    assert_eq!(entries(&load(&configs, b"no envelope").unwrap()), vec![pair("branch", "master")]);
}

#[test]
fn broken_secrets_are_an_error() {
    let application = application(Some("my-pass"));
    let execution = execution(Some("master"));
    let configs = Configs { cinderella_config: &application, execution_config: &execution };
    assert!(matches!(
        load(&configs, b"no envelope"),
        Err(LoadError::Crypto(CryptoError::Malformed))
    ));
    let blob = encrypt_string("TOKEN = ", "my-pass").unwrap();
    assert!(matches!(load(&configs, &blob), Err(LoadError::Syntax)));
}
