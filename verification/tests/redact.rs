use recall::redact::{after_pass, builtin_patterns, redact, MARKER};

fn strings(list: &[&str]) -> Vec<String> {
    list.iter().map(|s| s.to_string()).collect()
}

#[test]
fn every_builtin_pattern_compiles() {
    let patterns = builtin_patterns();
    assert_eq!(patterns.len(), 8);
    for p in &patterns {
        assert!(regex::Regex::new(p).is_ok(), "{}", p);
    }
}

#[test]
fn every_builtin_pattern_redacts() {
    let none = strings(&[]);
    let cases = [
        format!("AKIA{}", "A1".repeat(8)),
        format!("ghp_{}", "a1".repeat(18)),
        format!("sk-{}", "Z9".repeat(16)),
        format!("xoxb-{}", "12-ab".repeat(3)),
        format!("eyJ{}.{}.{}", "a_", "b-", "c9"),
        "PassWord = hunter2".to_string(),
        "f0".repeat(16),
        "Bearer abc.def".to_string(),
    ];
    for secret in cases {
        assert_eq!(redact(&secret, &none), MARKER);
        assert_eq!(redact(&format!("x {} y", secret), &none), format!("x {} y", MARKER));
    }
}

#[test]
fn only_the_secret_is_replaced() {
    let none = strings(&[]);
    assert_eq!(
        redact("curl -H token=abc https://example.org", &none),
        "curl -H [REDACTED] https://example.org"
    );
    assert_eq!(redact("api_key: k auth:z", &none), "[REDACTED] [REDACTED]");
}

#[test]
fn clean_text_is_kept() {
    let none = strings(&[]);
    for s in ["", "ls -la", "cargo build --release", "\u{e9}t\u{e9} \u{2713}"] {
        assert_eq!(redact(s, &none), s);
    }
}

#[test]
fn extra_patterns_come_after_the_builtin_ones() {
    assert_eq!(redact("id 4711", &strings(&[r"\d+"])), "id [REDACTED]");
    let extra = strings(&["REDACTED"]);
    assert_eq!(redact("token=abc", &extra), "[[REDACTED]]");
    let once = redact("token=abc", &strings(&[]));
    assert_eq!(once, "[REDACTED]");
}

#[test]
fn broken_patterns_are_skipped() {
    assert_eq!(redact("foo(bar 12", &strings(&["foo(bar", r"\d+"])), "foo(bar [REDACTED]");
    assert_eq!(redact("w", &strings(&[r"\w{1000}"])), "w");
}

#[test]
fn empty_matches_are_replaced_too() {
    assert_eq!(redact("ab", &strings(&["x*"])), "[REDACTED]a[REDACTED]b[REDACTED]");
}

#[test]
fn a_pass_that_fails_keeps_the_text() {
    assert_eq!(after_pass("a".to_string(), None), "a");
    assert_eq!(after_pass("a".to_string(), Some("b".to_string())), "b");
}
