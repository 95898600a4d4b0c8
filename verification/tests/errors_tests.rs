use sarnath::errors::Error;
use sarnath::options::Options;

#[test]
fn message_of_path_problem() {
    assert_eq!(Error::PathProblem.message(), "Dir does not exist or insufficient permissions.");
}

#[test]
fn message_of_failed_stdout_capture() {
    assert_eq!(Error::FailedStdoutCapture.message(), "Failed to capture parent's stdout.");
}

#[test]
fn message_of_missing_arg_names_the_option() {
    assert_eq!(Error::MissingArg(String::from("proc")).message(), "Missing -proc argument.");
    assert_eq!(Error::MissingArg(String::from("cmd")).message(), "Missing -cmd argument.");
    assert_eq!(Error::MissingArg(String::new()).message(), "Missing - argument.");
}

#[test]
fn errors_compare_by_variant_and_name() {
    assert_eq!(Error::PathProblem, Error::PathProblem);
    assert_ne!(Error::PathProblem, Error::FailedStdoutCapture);
    assert_ne!(Error::MissingArg(String::from("cmd")), Error::MissingArg(String::from("proc")));
}

#[test]
fn resolve_takes_what_was_given() {
    let options = Options::resolve(
        Some(String::from("./src")),
        Some(String::from("cargo check")),
        Some(String::from("cargo run")),
    );
    assert_eq!(
        options,
        Ok(Options {
            dir: String::from("./src"),
            cmd: String::from("cargo check"),
            proc: String::from("cargo run"),
        })
    );
}

#[test]
fn resolve_defaults_the_directory() {
    let options = Options::resolve(None, Some(String::from(":")), Some(String::from("echo ready")));
    assert_eq!(
        options,
        Ok(Options {
            dir: String::from("."),
            cmd: String::from(":"),
            proc: String::from("echo ready"),
        })
    );
}

#[test]
fn resolve_requires_the_supervised_command() {
    let options = Options::resolve(None, Some(String::from(":")), None);
    assert_eq!(options, Err(Error::MissingArg(String::from("proc"))));
}

#[test]
fn resolve_requires_the_on_change_command() {
    let options = Options::resolve(Some(String::from(".")), None, Some(String::from("echo")));
    assert_eq!(options, Err(Error::MissingArg(String::from("cmd"))));
}

#[test]
fn resolve_reports_the_on_change_command_first() {
    assert_eq!(Options::resolve(None, None, None), Err(Error::MissingArg(String::from("cmd"))));
}
