use cinderella::config::ExecutionConfig;
use cinderella::dashboard::{status_icon, BuildStatus};
use cinderella::vcs::{branch_revision, checkout, random_dir, tag_revision, Checkout, GitSource};

fn config(branch: Option<&str>, tag: Option<&str>) -> ExecutionConfig {
    ExecutionConfig {
        repo_url: "https://example.com/my-repo.git".to_string(),
        branch: branch.map(|b| b.to_string()),
        tag: tag.map(|t| t.to_string()),
        cinderella_filepath: None,
    }
}

#[test]
fn random_directory_has_a_name_of_ten_letters_and_digits() {
    let dir = random_dir("/tmp/cinderella");
    let name = dir.strip_prefix("/tmp/cinderella/").expect("below the base path");
    assert_eq!(name.chars().count(), 10);
    assert!(name.chars().all(|c| c.is_ascii_alphanumeric()));
}

#[test]
fn random_directories_differ() {
    assert_ne!(random_dir("/tmp/cinderella"), random_dir("/tmp/cinderella"));
}

#[test]
fn revisions_of_branches_and_tags() {
    assert_eq!(branch_revision("master"), "refs/remotes/origin/master");
    assert_eq!(tag_revision("v1.0"), "refs/tags/v1.0");
}

#[test]
fn branch_goes_before_tag() {
    assert!(matches!(
        checkout(&config(Some("develop"), Some("v1.0"))),
        Checkout::Branch(name) if name == "develop"
    ));
    assert!(matches!(checkout(&config(Some("develop"), None)), Checkout::Branch(_)));
    assert!(matches!(
        checkout(&config(None, Some("v1.0"))),
        Checkout::Tag(name) if name == "v1.0"
    ));
    assert!(matches!(checkout(&config(None, None)), Checkout::Nothing));
}

#[test]
fn source_holds_its_location() {
    let source = GitSource { src: "https://example.com/my-repo.git".to_string() };
    assert_eq!(source.src, "https://example.com/my-repo.git");
}

#[test]
fn status_icon_of_a_success_goes_below_the_project() {
    let icon = status_icon("myproject", "master", &BuildStatus::Success, "/var/www/cinderella");

    assert_eq!(icon.folder, "/var/www/cinderella/myproject");
    assert_eq!(icon.file, "/var/www/cinderella/myproject/master.png");
    assert!(icon.success);
}

#[test]
fn status_icon_of_a_failure_goes_below_the_project() {
    let status = BuildStatus::Error("Error Reason".to_string());
    let icon = status_icon("my-other-project", "some-branch", &status, "/var/www/cinderella/");

    assert_eq!(icon.folder, "/var/www/cinderella/my-other-project");
    assert_eq!(icon.file, "/var/www/cinderella/my-other-project/some-branch.png");
    assert!(!icon.success);
}
