use recall::cli::{after_search, parse_args, query_of, AfterSearch, Command};

fn parse(list: &[&str]) -> Command {
    let args: Vec<String> = list.iter().map(|s| s.to_string()).collect();
    parse_args(&args)
}

fn search(list: &[&str]) -> (bool, bool, bool, String) {
    match parse(list) {
        Command::Search(s) => (s.failed_only, s.today_only, s.semantic, s.query),
        other => panic!("{:?}", other),
    }
}

#[test]
fn commands_are_told_apart() {
    assert!(matches!(parse(&["recall", "capture"]), Command::Capture));
    assert!(matches!(parse(&["recall", "capture", "--failed"]), Command::Capture));
    assert!(matches!(parse(&["recall", "index", "now"]), Command::Index));
    assert!(matches!(parse(&["recall", "replay", "12"]), Command::Replay(12)));
    assert!(matches!(parse(&["recall", "replay", "-3"]), Command::Replay(-3)));
}

#[test]
fn a_replay_needs_an_identifier() {
    for list in [
        &["recall", "replay"][..],
        &["recall", "replay", "0"][..],
        &["recall", "replay", "x"][..],
        &["recall", "replay", ""][..],
    ] {
        assert!(matches!(parse(list), Command::ReplayUsage));
    }
}

#[test]
fn a_shown_identifier_can_be_replayed() {
    for id in [1, -1, 42, i64::MAX, i64::MIN] {
        let text = recall::number::i64_text(id);
        match parse(&["recall", "replay", &text]) {
            Command::Replay(found) => assert_eq!(found, id),
            other => panic!("{:?}", other),
        }
    }
}

#[test]
fn searches_have_options_and_words() {
    assert_eq!(search(&["recall"]), (false, false, false, "%".to_string()));
    assert_eq!(search(&["recall", "git", "push"]), (false, false, false, "git push".to_string()));
    assert_eq!(search(&["recall", "--failed"]), (true, false, false, "%".to_string()));
    assert_eq!(
        search(&["recall", "--today", "git", "--semantic", "push", "--other"]),
        (false, true, true, "git push".to_string())
    );
    assert_eq!(search(&["recall", "", "a"]), (false, false, false, " a".to_string()));
    assert_eq!(search(&["recall", "git", "capture"]), (false, false, false, "git capture".to_string()));
    assert_eq!(search(&["--failed", "-x"]), (true, false, false, "-x".to_string()));
}

#[test]
fn options_do_not_change_the_query() {
    let with: Vec<String> = ["recall", "a", "--x", "b"].iter().map(|s| s.to_string()).collect();
    let without: Vec<String> = ["recall", "a", "b"].iter().map(|s| s.to_string()).collect();
    assert_eq!(query_of(&with), query_of(&without));
    assert_eq!(query_of(&with), "a b");
}

#[test]
fn without_results_there_is_a_message() {
    match after_search(0, "git") {
        AfterSearch::Say(s) => assert_eq!(s, "No results for 'git'"),
        AfterSearch::Browse => panic!(),
    }
    assert!(matches!(after_search(1, "git"), AfterSearch::Browse));
}
