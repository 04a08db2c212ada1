use recall::replay::{confirmed, replay_session, ReplayAction, ReplayEvent, ReplayState, USAGE};

fn found() -> (ReplayState, ReplayAction) {
    replay_session(
        ReplayState::Looking(5),
        ReplayEvent::Found { command: "make".to_string(), cwd: "/src".to_string() },
    )
}

fn said(action: ReplayAction) -> String {
    match action {
        ReplayAction::Say(s) => s,
        other => panic!("{:?}", other),
    }
}

#[test]
fn a_yes_is_a_single_y() {
    for s in ["y", "Y", " y\n", "Y\r\n", "\ty"] {
        assert!(confirmed(s), "{:?}", s);
    }
    for s in ["", "\n", "yes", "n", "yy", "y y", "\u{ff39}", "\u{fd}"] {
        assert!(!confirmed(s), "{:?}", s);
    }
}

#[test]
fn no_other_character_is_a_y_in_lower_case() {
    for n in 0..=0x10ffff_u32 {
        if let Some(c) = char::from_u32(n) {
            let s = c.to_string();
            assert_eq!(confirmed(&s), s.trim().to_lowercase() == "y", "{:x}", n);
        }
    }
}

#[test]
fn the_user_is_asked_about_what_was_found() {
    let (state, action) = found();
    match state {
        ReplayState::Asking { command, cwd } => assert_eq!((command.as_str(), cwd.as_str()), ("make", "/src")),
        other => panic!("{:?}", other),
    }
    match action {
        ReplayAction::Ask(text) => {
            let line = "\u{2500}".repeat(41);
            assert_eq!(
                text,
                format!(
                    "\u{250c}{}\u{2510}\n  Command:   make\n  Directory: /src\n\u{2514}{}\u{2518}\nRun this command? [y/n]: ",
                    line, line
                )
            );
        }
        other => panic!("{:?}", other),
    }
}

#[test]
fn a_yes_runs_the_command() {
    let (state, _) = found();
    let (state, action) = replay_session(state, ReplayEvent::Answered("y\n".to_string()));
    match action {
        ReplayAction::Run { command, cwd } => assert_eq!((command.as_str(), cwd.as_str()), ("make", "/src")),
        other => panic!("{:?}", other),
    }
    let (state, action) = replay_session(state, ReplayEvent::Ended { success: true, code: Some(0) });
    assert_eq!(said(action), "\u{2713} Command completed successfully.");
    assert!(matches!(state, ReplayState::Finished));
}

#[test]
fn anything_else_aborts() {
    let (state, _) = found();
    let (state, action) = replay_session(state, ReplayEvent::Answered("no\n".to_string()));
    assert_eq!(said(action), "Aborted.");
    assert!(matches!(state, ReplayState::Finished));
}

#[test]
fn a_missing_session_is_reported() {
    let (state, action) = replay_session(ReplayState::Looking(-7), ReplayEvent::Missing);
    assert_eq!(said(action), "No session found with ID -7");
    assert!(matches!(state, ReplayState::Finished));
}

#[test]
fn failures_are_reported() {
    let ended = |code| said(replay_session(ReplayState::Running, ReplayEvent::Ended { success: false, code }).1);
    assert_eq!(ended(Some(2)), "\u{2717} Command exited with code: 2");
    assert_eq!(ended(None), "\u{2717} Command exited with code: -1");
    let (_, action) = replay_session(ReplayState::Running, ReplayEvent::NotRun("no bash".to_string()));
    assert_eq!(said(action), "Failed to run command: no bash");
    assert_eq!(USAGE, "Usage: recall replay <id>");
}

#[test]
fn nothing_runs_without_being_asked() {
    for state in [ReplayState::Looking(1), ReplayState::Running, ReplayState::Finished] {
        let (next, action) = replay_session(state, ReplayEvent::Answered("y".to_string()));
        assert!(matches!(action, ReplayAction::Stop));
        assert!(matches!(next, ReplayState::Finished));
    }
}
