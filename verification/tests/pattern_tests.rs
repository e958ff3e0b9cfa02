use log_searcher::pattern::{filter_names, FileNamePattern};

#[test]
fn test_compile_valid_pattern() {
    assert!(FileNamePattern::compile(&r"^app.*\.log$".to_string()).is_ok());
}

#[test]
fn test_compile_invalid_pattern() {
    assert!(FileNamePattern::compile(&"(unclosed".to_string()).is_err());
}

#[test]
fn test_pattern_matches() {
    let p = FileNamePattern::compile(&r"\.log$".to_string()).unwrap();
    assert!(p.matches(&"app.log".to_string()));
    assert!(!p.matches(&"app.log.gz".to_string()));
    assert!(!p.matches(&"readme.txt".to_string()));
}

#[test]
fn test_filter_names_keeps_order() {
    let p = FileNamePattern::compile(&"^web".to_string()).unwrap();
    let names = vec![
        "web-1.log".to_string(),
        "db-1.log".to_string(),
        "web-2.log".to_string(),
        "syslog".to_string(),
    ];
    let kept = filter_names(names, &p);
    assert_eq!(kept, vec!["web-1.log", "web-2.log"]);
}

#[test]
fn test_filter_names_can_keep_nothing() {
    let p = FileNamePattern::compile(&"^web".to_string()).unwrap();
    let names = vec!["db.log".to_string()];
    let kept = filter_names(names, &p);
    assert!(kept.is_empty());
}
