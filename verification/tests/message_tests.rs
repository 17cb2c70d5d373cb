//! Checks of the user-facing message builders, with and without colors.

use gel_cli::print::completion;
use gel_cli::print::err_marker;
use gel_cli::print::error;
use gel_cli::print::prompt;
use gel_cli::print::success;
use gel_cli::print::success_msg;
use gel_cli::print::warn;

#[test]
fn success_plain_and_colored() {
    assert_eq!(success("done", false), "done");
    assert_eq!(success("done", true), "\u{1b}[38;5;10;1mdone\u{1b}[0m");
}

#[test]
fn warn_plain_and_colored() {
    assert_eq!(warn("careful", false), "careful");
    assert_eq!(warn("careful", true), "\u{1b}[38;5;3;1mcareful\u{1b}[0m");
}

#[test]
fn success_msg_joins_title_and_body() {
    assert_eq!(success_msg("Done", "all good", false), "Done: all good");
    assert_eq!(
        success_msg("Done", "all good", true),
        "\u{1b}[38;5;10;1mDone\u{1b}[0m: \u{1b}[38;5;15;1mall good\u{1b}[0m"
    );
}

#[test]
fn err_marker_names_the_command() {
    assert_eq!(err_marker(false), "edgedb error:");
    assert_eq!(err_marker(true), "\u{1b}[38;5;9;1medgedb error:\u{1b}[0m");
}

#[test]
fn short_errors_are_emphasized() {
    assert_eq!(error("oops", false), "edgedb error: oops");
    assert_eq!(error("oops", true), "\u{1b}[38;5;9;1medgedb error:\u{1b}[0m \u{1b}[1moops\u{1b}[0m");
}

#[test]
fn long_errors_stay_plain() {
    let long = "x".repeat(61);
    let out = error(&long, true);
    assert_eq!(out, format!("\u{1b}[38;5;9;1medgedb error:\u{1b}[0m {long}"));
}

#[test]
fn prompt_plain_and_colored() {
    assert_eq!(prompt("db>", false), "db>");
    assert_eq!(prompt("db>", true), "\u{1b}[38;5;172;1mdb>\u{1b}[0m");
}

#[test]
fn completion_prefixes_ok() {
    assert_eq!(completion("CREATE", false), "OK: CREATE");
    assert_eq!(completion("CREATE", true), "\u{1b}[38;5;8;1mOK: CREATE\u{1b}[0m");
}
