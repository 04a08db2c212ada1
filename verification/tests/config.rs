use recall::config::{default_max_results, default_true, load_config, Config, ConfigFile};

fn empty_file() -> ConfigFile {
    ConfigFile {
        exclude_commands: None,
        exclude_dirs: None,
        extra_patterns: None,
        max_results: None,
        semantic_search: None,
        show_git_branch: None,
        show_duration: None,
    }
}

fn assert_default(c: &Config) {
    assert!(c.capture.exclude_commands.is_empty());
    assert!(c.capture.exclude_dirs.is_empty());
    assert!(c.redaction.extra_patterns.is_empty());
    assert_eq!(c.search.max_results, 50);
    assert!(!c.search.semantic_search);
    assert!(c.display.show_git_branch);
    assert!(c.display.show_duration);
}

#[test]
fn without_a_file_everything_is_default() {
    assert_default(&Config::default());
    assert_default(&load_config(None));
    assert_eq!(default_max_results(), 50);
    assert!(default_true());
}

#[test]
fn an_empty_file_is_no_file() {
    assert_default(&load_config(Some(empty_file())));
}

#[test]
fn a_file_sets_what_it_names() {
    let mut file = empty_file();
    file.exclude_dirs = Some(vec!["/tmp".to_string()]);
    file.max_results = Some(3);
    file.show_duration = Some(false);
    file.semantic_search = Some(true);
    let c = load_config(Some(file));
    assert_eq!(c.capture.exclude_dirs, vec!["/tmp".to_string()]);
    assert!(c.capture.exclude_commands.is_empty());
    assert_eq!(c.search.max_results, 3);
    assert!(c.search.semantic_search);
    assert!(c.display.show_git_branch);
    assert!(!c.display.show_duration);

    let mut file = empty_file();
    file.exclude_commands = Some(vec!["ls".to_string(), "cd".to_string()]);
    file.extra_patterns = Some(vec!["x".to_string()]);
    file.show_git_branch = Some(false);
    let c = load_config(Some(file));
    assert_eq!(c.capture.exclude_commands, vec!["ls".to_string(), "cd".to_string()]);
    assert_eq!(c.redaction.extra_patterns, vec!["x".to_string()]);
    assert!(!c.display.show_git_branch);
    assert_eq!(c.search.max_results, 50);
}
