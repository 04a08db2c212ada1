use recall::capture::{
    arg_number_or_zero, arg_or_empty, capture_session, record_session, session_row, skips,
};
use recall::config::{CaptureConfig, Config};

fn strings(list: &[&str]) -> Vec<String> {
    list.iter().map(|s| s.to_string()).collect()
}

fn excluding(commands: &[&str], dirs: &[&str]) -> Config {
    let mut config = Config::default();
    config.capture = CaptureConfig {
        exclude_commands: strings(commands),
        exclude_dirs: strings(dirs),
    };
    config
}

#[test]
fn a_command_is_recorded_with_everything_redacted() {
    let args = strings(&[
        "recall", "capture", "login password=x", "/home/me", "2", "main", "repo", "1500", "token: abc", "auth=1 done",
    ]);
    let r = capture_session(&args, &Config::default()).unwrap();
    assert_eq!(r.command, "login [REDACTED]");
    assert_eq!(r.cwd, "/home/me");
    assert_eq!(r.exit_code, 2);
    assert_eq!(r.git_branch, "main");
    assert_eq!(r.git_repo, "repo");
    assert_eq!(r.duration_ms, 1500);
    assert_eq!(r.stdout, "[REDACTED]");
    assert_eq!(r.stderr, "[REDACTED] done");
}

#[test]
fn missing_arguments_are_empty_or_zero() {
    let args = strings(&["recall", "capture", "ls"]);
    let r = capture_session(&args, &Config::default()).unwrap();
    assert_eq!(r.command, "ls");
    assert_eq!(r.cwd, "");
    assert_eq!(r.exit_code, 0);
    assert_eq!(r.git_branch, "");
    assert_eq!(r.git_repo, "");
    assert_eq!(r.duration_ms, 0);
    assert_eq!(r.stdout, "");
    assert_eq!(r.stderr, "");
    assert_eq!(arg_or_empty(&args, 2), "ls");
    assert_eq!(arg_or_empty(&args, 9), "");
}

#[test]
fn numbers_that_are_none_count_as_zero() {
    let args = strings(&["recall", "capture", "ls", "/", "x", "", "", "-5"]);
    let r = capture_session(&args, &Config::default()).unwrap();
    assert_eq!(r.exit_code, 0);
    assert_eq!(r.duration_ms, -5);
    assert_eq!(arg_number_or_zero(&args, 7), -5);
    assert_eq!(arg_number_or_zero(&args, 4), 0);
}

#[test]
fn an_empty_command_is_not_recorded() {
    assert!(capture_session(&strings(&["recall", "capture", ""]), &Config::default()).is_none());
    assert!(capture_session(&strings(&["recall", "capture"]), &Config::default()).is_none());
}

#[test]
fn excluded_commands_are_not_recorded() {
    let config = excluding(&["ls", "git status"], &[]);
    for (command, recorded) in [
        ("ls", false),
        ("ls -la", false),
        ("lsof", true),
        ("git status", false),
        ("git status -s", false),
        ("git stash", true),
        (" ls", true),
    ] {
        let args = strings(&["recall", "capture", command, "/"]);
        assert_eq!(capture_session(&args, &config).is_some(), recorded, "{}", command);
        assert_eq!(skips(command, "/", &config.capture), !recorded);
    }
}

#[test]
fn excluded_directories_cover_what_lies_below() {
    let config = excluding(&[], &["/tmp", "/srv/secret"]);
    for (cwd, recorded) in [
        ("/tmp", false),
        ("/tmp/x", false),
        ("/tmpfs", false),
        ("/srv", true),
        ("/home/tmp", true),
        ("", true),
    ] {
        let args = strings(&["recall", "capture", "make", cwd]);
        assert_eq!(capture_session(&args, &config).is_some(), recorded, "{}", cwd);
    }
}

#[test]
fn more_exclusions_skip_more() {
    let few = excluding(&["ls"], &[]);
    let more = excluding(&["ls", "make"], &["/tmp"]);
    for command in ["ls", "ls -l", "make", "cargo"] {
        if skips(command, "/home", &few.capture) {
            assert!(skips(command, "/home", &more.capture));
        }
    }
}

#[test]
fn exclusion_looks_at_the_redacted_command() {
    let config = excluding(&["[REDACTED]"], &[]);
    let args = strings(&["recall", "capture", "token=abc", "/"]);
    assert!(capture_session(&args, &config).is_none());
}

#[test]
fn a_record_takes_the_redacted_texts_given() {
    let args = strings(&["recall", "capture", "raw", "/w", "1", "b", "r", "2", "o", "e"]);
    let r = record_session(
        &args,
        "c".to_string(),
        "out".to_string(),
        "err".to_string(),
        &CaptureConfig::default(),
    )
    .unwrap();
    assert_eq!((r.command.as_str(), r.stdout.as_str(), r.stderr.as_str()), ("c", "out", "err"));
    assert_eq!((r.cwd.as_str(), r.git_repo.as_str(), r.git_branch.as_str()), ("/w", "r", "b"));
    assert!(record_session(&args, String::new(), String::new(), String::new(), &CaptureConfig::default()).is_none());
}

#[test]
fn a_row_has_the_machine_and_the_shell() {
    let args = strings(&["recall", "capture", "ls"]);
    let record = capture_session(&args, &Config::default()).unwrap();
    let row = session_row(record, 17, "box\n");
    assert_eq!(row.timestamp, 17);
    assert_eq!(row.hostname, "box");
    assert_eq!(row.shell, "bash");
    assert_eq!(row.record.command, "ls");
}
