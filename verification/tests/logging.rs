use super_safe_glibc_wrappers::logging::{fputs_log_message, log, puts_log_message, LogState};
use super_safe_glibc_wrappers::server::{
    first_line, fork_role, log_destination, log_username, server_may_run, Config, ForkRole, LogPathError,
};

#[test]
fn log_sends_only_when_connected() {
    let mut state = LogState::new();
    assert_eq!(log(&state, "Main Started\n"), None);
    assert!(state.needs_connection(true));
    assert!(!state.needs_connection(false));
    state.record_connection(true);
    assert_eq!(log(&state, "Main Started\n"), Some(&b"Main Started\n"[..]));
}

#[test]
fn connection_attempted_once() {
    let mut state = LogState::new();
    state.record_connection(false);
    assert!(!state.needs_connection(true));
    state.record_connection(true);
    assert!(!state.connected);
    assert_eq!(log(&state, "x"), None);
    assert!(state.logger_missing(true));
    assert!(!state.logger_missing(false));
}

#[test]
fn logger_present_or_not_attempted() {
    let mut state = LogState::new();
    assert!(!state.logger_missing(true));
    state.record_connection(true);
    assert!(!state.logger_missing(true));
}

#[test]
fn hooked_call_messages() {
    assert_eq!(
        fputs_log_message(b"Hello, world!", true).unwrap(),
        "fputs(s=&\"Hello, world!, stream=stdout\")\n"
    );
    assert_eq!(
        fputs_log_message(b"abc", false).unwrap(),
        "fputs(s=&\"abc, stream=unknown\")\n"
    );
    assert_eq!(puts_log_message(b"Hello, world!").unwrap(), "puts(s=&\"Hello, world!\")\n");
    assert_eq!(puts_log_message(b"\xc3\xa9").unwrap(), "puts(s=&\"\u{e9}\")\n");
    assert_eq!(puts_log_message(b"\xc3"), None);
    assert_eq!(fputs_log_message(b"\xff", true), None);
}

#[test]
fn username_is_first_line() {
    assert_eq!(log_username(b"alice\nMain Started\n").unwrap(), "alice");
    assert_eq!(log_username(b"bob\r\nrest").unwrap(), "bob");
    assert_eq!(log_username(b"carol").unwrap(), "carol");
    assert_eq!(log_username(b"\n").unwrap(), "");
    assert_eq!(log_username(b"d\xffe\n").unwrap(), "d\u{fffd}e");
    assert_eq!(log_username(b""), None);
}

#[test]
fn log_file_names() {
    let (user, file) = log_destination(b"alice\n", 0, 0, 0).unwrap();
    assert_eq!(user, "alice");
    assert_eq!(file, "1970-01-01T00:00:00+00:00");
    let (_, file) = log_destination(b"alice\n", 1_725_029_869, 500_000_000, 3600).unwrap();
    assert_eq!(file, "2024-08-30T15:57:49.500+01:00");
    assert_eq!(log_destination(b"", 0, 0, 0), Err(LogPathError::NoUsername));
    assert_eq!(log_destination(b"a\n", 0, 0, 86_400), Err(LogPathError::BadTime));
}

#[test]
fn fork_roles() {
    assert_eq!(fork_role(-1), ForkRole::Failed);
    assert_eq!(fork_role(0), ForkRole::Child);
    assert_eq!(fork_role(4242), ForkRole::Parent);
    assert_eq!(fork_role(-2), ForkRole::Parent);
}

#[test]
fn server_needs_logging() {
    let mut conf = Config {
        logging: false,
        host: "127.0.0.1".to_string(),
        port: 1337,
        log_dir: "logs".to_string(),
    };
    assert!(!server_may_run(&conf));
    conf.logging = true;
    assert!(server_may_run(&conf));
}

#[test]
fn first_lines() {
    assert_eq!(first_line("alice\nMain Started\n").unwrap(), "alice");
    assert_eq!(first_line("bob\r\nrest").unwrap(), "bob");
    assert_eq!(first_line("carol\r").unwrap(), "carol\r");
    assert_eq!(first_line("\r\n").unwrap(), "");
    assert_eq!(first_line(""), None);
}

#[test]
fn two_logs_send_the_joined_text() {
    let mut state = LogState::new();
    state.record_connection(true);
    let mut sent = Vec::new();
    sent.extend_from_slice(log(&state, "caf\u{e9} ").unwrap());
    sent.extend_from_slice(log(&state, "Main Started\n").unwrap());
    assert_eq!(sent, log(&state, "caf\u{e9} Main Started\n").unwrap());
}
