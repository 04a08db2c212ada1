use recall::text::{
    chars_of, contains_text, first_lines, join, same_text, starts_with, string_of, trim, white_space,
};

fn strings(list: &[&str]) -> Vec<String> {
    list.iter().map(|s| s.to_string()).collect()
}

#[test]
fn white_space_is_what_unicode_says() {
    for n in 0..=0x10ffff_u32 {
        if let Some(c) = char::from_u32(n) {
            assert_eq!(white_space(c), c.is_whitespace(), "{:x}", n);
        }
    }
}

#[test]
fn trim_takes_both_ends_off() {
    for s in ["", " ", " \t\r\n", "a", " a", "a ", "\u{3000} a b \n", "a\u{a0}", "\u{200b}a"] {
        assert_eq!(trim(s), s.trim());
    }
    assert_eq!(trim(" host\n"), "host");
}

#[test]
fn trim_twice_is_trim() {
    let once = trim("  x y\n");
    assert_eq!(trim(&once), once);
}

#[test]
fn lines_end_at_line_feeds() {
    for s in [
        "", "\n", "a", "a\n", "a\nb", "a\r\nb\r\n", "a\rb", "a\r", "\r\n", "\n\n", "a\n\nb", "\r\r\nx",
    ] {
        let all: Vec<String> = s.lines().map(|l| l.to_string()).collect();
        assert_eq!(first_lines(s, 100), all, "{:?}", s);
        let two: Vec<String> = s.lines().take(2).map(|l| l.to_string()).collect();
        assert_eq!(first_lines(s, 2), two, "{:?}", s);
        assert_eq!(first_lines(s, 0).len(), 0);
    }
    assert_eq!(first_lines("one\r\ntwo\nthree", 2), strings(&["one", "two"]));
}

#[test]
fn join_puts_separators_between() {
    assert_eq!(join(&strings(&[]), ", "), "");
    assert_eq!(join(&strings(&["a"]), ", "), "a");
    assert_eq!(join(&strings(&["a", "", "c"]), ", "), "a, , c");
}

#[test]
fn prefixes_and_equality() {
    assert!(starts_with("--failed", "--"));
    assert!(starts_with("x", ""));
    assert!(starts_with("\u{e9}t\u{e9}", "\u{e9}"));
    assert!(!starts_with("-", "--"));
    assert!(!starts_with("a-b", "-"));
    assert!(same_text("tags", "tags"));
    assert!(!same_text("tags", "tag"));
    assert!(contains_text(&strings(&["id", "tags"]), "tags"));
    assert!(!contains_text(&strings(&["id", "tagss"]), "tags"));
}

#[test]
fn characters_go_out_and_back() {
    let v = chars_of("a\u{2713}b");
    assert_eq!(v, vec!['a', '\u{2713}', 'b']);
    assert_eq!(string_of(&v, 1, 3), "\u{2713}b");
    assert_eq!(string_of(&v, 2, 2), "");
}
