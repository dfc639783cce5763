use wt::colors::ColorizeExt;
use wt::error::WtError;
use wt::project::extract_project_name_from_url;

#[test]
fn colors_wrap_text_in_the_documented_escape_codes() {
    assert_eq!("done".success(), "\u{1b}[32mdone\u{1b}[39m");
    assert_eq!("bad".error(), "\u{1b}[31mbad\u{1b}[39m");
    assert_eq!("note".info(), "\u{1b}[34mnote\u{1b}[39m");
    assert_eq!("careful".warning(), "\u{1b}[33mcareful\u{1b}[39m");
}

#[test]
fn colors_never_change_the_text_itself() {
    let painted = "hello world".success();
    assert!(painted.contains("hello world"));
    assert_ne!(painted, "hello world");
}

#[test]
fn error_messages_name_their_variant() {
    assert_eq!(WtError::NotGitRepository.message(), "Not in a Git repository");
    assert_eq!(WtError::GitError(String::from("x")).message(), "Git error: x");
    assert_eq!(WtError::IOError(String::from("y")).message(), "IO error: y");
    assert_eq!(
        WtError::ValidationError(String::from("z")).message(),
        "Validation error: z"
    );
    assert_eq!(WtError::NotFound.message(), "No matching entry found");
    assert_eq!(WtError::UserCancelled.message(), "Operation cancelled by user");
}

#[test]
fn project_name_from_ssh_url() {
    assert_eq!(
        extract_project_name_from_url("git@github.com:user/repo.git"),
        Some(String::from("repo"))
    );
}

#[test]
fn project_name_from_https_url() {
    assert_eq!(
        extract_project_name_from_url("https://github.com/user/repo.git"),
        Some(String::from("repo"))
    );
    assert_eq!(
        extract_project_name_from_url("  https://h/a/b  "),
        Some(String::from("b"))
    );
}

#[test]
fn project_name_strips_repeated_git_suffixes() {
    assert_eq!(
        extract_project_name_from_url("https://h/a/b.git.git"),
        Some(String::from("b"))
    );
}

#[test]
fn unrecognized_urls_yield_no_project_name() {
    assert_eq!(extract_project_name_from_url("ftp://host/repo"), None);
    assert_eq!(extract_project_name_from_url("git@host-no-colon/repo"), None);
    assert_eq!(extract_project_name_from_url("git@host:repo.git"), None);
    assert_eq!(extract_project_name_from_url(""), None);
}
