use recall::browse::{
    detail_text, detail_with_time, header_text, item_with_time, output_preview, screen, session_item, Browser,
    Color, Key, Session, Span,
};
use recall::config::DisplayConfig;

fn session(id: i64, exit_code: i64) -> Session {
    Session {
        id,
        timestamp: 0,
        command: "git push".to_string(),
        cwd: "/src".to_string(),
        exit_code,
        git_branch: "main".to_string(),
        stdout: "one\ntwo\nthree".to_string(),
        duration_ms: 12,
    }
}

fn parts(spans: &Vec<Span>) -> Vec<(String, Option<Color>, bool)> {
    spans.iter().map(|s| (s.text.clone(), s.color, s.bold)).collect()
}

fn part(text: &str, color: Option<Color>, bold: bool) -> (String, Option<Color>, bool) {
    (text.to_string(), color, bold)
}

#[test]
fn the_header_counts_the_results() {
    assert_eq!(
        header_text("git", 3),
        " recall  query: \"git\"  (3 results)  [\u{2191}\u{2193}] navigate  [q] quit"
    );
}

#[test]
fn a_session_is_shown_in_two_lines() {
    let item = item_with_time(&session(1, 0), &DisplayConfig::default(), "T");
    assert_eq!(
        parts(&item.first),
        vec![
            part("\u{2713}", Some(Color::Green), false),
            part("  ", None, false),
            part("git push", Some(Color::White), true),
        ]
    );
    assert_eq!(
        parts(&item.second),
        vec![
            part("   ", None, false),
            part("T", Some(Color::DarkGray), false),
            part("  ", None, false),
            part("/src", Some(Color::Blue), false),
            part(" [main]", Some(Color::Yellow), false),
        ]
    );
    let failed = item_with_time(&session(1, 127), &DisplayConfig::default(), "T");
    assert_eq!(parts(&failed.first)[0], part("\u{2717}", Some(Color::Red), false));
}

#[test]
fn the_branch_can_be_left_out() {
    let hidden = DisplayConfig { show_git_branch: false, show_duration: true };
    let item = session_item(&session(1, 0), &hidden, 0);
    assert_eq!(item.second[4].text, "");
    assert_eq!(item.second[1].text, "1970-01-01 00:00:00");
    let mut s = session(1, 0);
    s.git_branch = String::new();
    assert_eq!(item_with_time(&s, &DisplayConfig::default(), "T").second[4].text, "");
}

#[test]
fn the_preview_has_two_lines() {
    assert_eq!(output_preview(""), "(no output captured)");
    assert_eq!(output_preview("one"), "one");
    assert_eq!(output_preview("one\r\ntwo\nthree"), "one | two");
    assert_eq!(output_preview("\n"), "");
    assert!(!output_preview("a\nb\nc\n").contains('\n'));
}

#[test]
fn details_of_a_session() {
    let d = DisplayConfig::default();
    assert_eq!(
        detail_with_time(&session(42, -1), &d, "T"),
        " ID: 42  |  Exit: -1  |  T  |  12s\n Command: git push\n Dir:     /src\n Output:  one | two"
    );
    let mut quick = session(1, 0);
    quick.duration_ms = 0;
    assert!(detail_with_time(&quick, &d, "T").starts_with(" ID: 1  |  Exit: 0  |  T  |  <1s\n"));
    quick.duration_ms = -3;
    assert!(detail_with_time(&quick, &d, "T").starts_with(" ID: 1  |  Exit: 0  |  T  |  <1s\n"));
    let hidden = DisplayConfig { show_git_branch: true, show_duration: false };
    assert!(detail_with_time(&quick, &hidden, "T").starts_with(" ID: 1  |  Exit: 0  |  T\n"));
}

#[test]
fn details_are_those_of_the_selected_session() {
    let sessions = vec![session(1, 0), session(2, 0)];
    let d = DisplayConfig::default();
    let offsets = vec![0, 3600];
    assert_eq!(detail_text(&sessions, None, &d, &offsets), "");
    assert_eq!(detail_text(&sessions, Some(2), &d, &offsets), "");
    assert!(detail_text(&sessions, Some(1), &d, &offsets)
        .starts_with(" ID: 2  |  Exit: 0  |  1970-01-01 01:00:00  |  12s\n"));
}

#[test]
fn the_screen_shows_everything() {
    let sessions = vec![session(1, 0), session(2, 3)];
    let shown = screen(&sessions, "q", &DisplayConfig::default(), Some(0), &vec![0, 60]);
    assert_eq!(shown.header, header_text("q", 2));
    assert_eq!(shown.items.len(), 2);
    assert_eq!(shown.items[1].second[1].text, "1970-01-01 00:01:00");
    assert_eq!(shown.items[1].first[0].color, Some(Color::Red));
    assert_eq!(shown.selected, Some(0));
    assert_eq!(shown.detail, detail_text(&sessions, Some(0), &DisplayConfig::default(), &vec![0, 60]));
}

#[test]
fn keys_move_the_selection() {
    let mut b = Browser::new(3);
    assert_eq!(b.selected, Some(0));
    assert!(!b.on_key(Key::Up));
    assert_eq!(b.selected, Some(0));
    assert!(!b.on_key(Key::Down));
    assert!(!b.on_key(Key::Char('j')));
    assert_eq!(b.selected, Some(2));
    assert!(!b.on_key(Key::Down));
    assert_eq!(b.selected, Some(2));
    assert!(!b.on_key(Key::Char('k')));
    assert_eq!(b.selected, Some(1));
    assert!(!b.on_key(Key::Other));
    assert!(!b.on_key(Key::Char('x')));
    assert_eq!(b.selected, Some(1));
    assert!(b.on_key(Key::Char('q')));
    assert!(b.on_key(Key::Esc));
    assert_eq!(b.selected, Some(1));
}

#[test]
fn without_results_the_selection_stays_at_the_first_place() {
    let mut b = Browser::new(0);
    assert_eq!(b.selected, None);
    b.on_key(Key::Down);
    assert_eq!(b.selected, Some(0));
    b.on_key(Key::Down);
    assert_eq!(b.selected, Some(0));
    let mut b = Browser::new(0);
    b.on_key(Key::Up);
    assert_eq!(b.selected, Some(0));
}

#[test]
fn up_undoes_down() {
    let mut b = Browser::new(5);
    for i in 0..4 {
        assert_eq!(b.selected, Some(i));
        b.on_key(Key::Down);
        b.on_key(Key::Up);
        assert_eq!(b.selected, Some(i));
        b.on_key(Key::Down);
    }
}
