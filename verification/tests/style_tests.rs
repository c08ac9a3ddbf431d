use commitmsg::policy::Config;
use commitmsg::style::CommitMessageVerifier;

fn checker() -> CommitMessageVerifier {
    CommitMessageVerifier::new(Config::default())
}

#[test]
fn empty_message_is_flagged() {
    let (has_errors, errors) = checker().verify_message("");
    assert!(has_errors);
    assert_eq!(errors, vec!["Empty commit message".to_string()]);
}

#[test]
fn lowercase_unknown_verb_with_period_gives_three_violations() {
    let (has_errors, errors) = checker().verify_message("fix bug.");
    assert!(has_errors);
    assert_eq!(
        errors,
        vec![
            "Subject must start with standard verb: Add, Cut, Fix".to_string(),
            "Subject line ends with a full stop".to_string(),
            "Subject line not capitalised".to_string(),
        ]
    );
}

#[test]
fn subject_of_exactly_fifty_chars_passes_length_rule() {
    let subject = format!("Add {}", "x".repeat(46));
    assert_eq!(subject.len(), 50);
    let (has_errors, errors) = checker().verify_message(&subject);
    assert!(!has_errors);
    assert!(errors.is_empty());
}

#[test]
fn subject_of_fifty_one_chars_fails_length_rule() {
    let subject = format!("Add {}", "x".repeat(47));
    assert_eq!(subject.len(), 51);
    let (has_errors, errors) = checker().verify_message(&subject);
    assert!(has_errors);
    assert_eq!(errors, vec!["Subject line exceeds 50 characters".to_string()]);
}

#[test]
fn missing_blank_line_is_flagged() {
    let (has_errors, errors) = checker().verify_message("Add thing\nbody right away");
    assert!(has_errors);
    assert_eq!(
        errors,
        vec!["missing blank line between subject and body".to_string()]
    );
}

#[test]
fn blank_line_violation_comes_regardless_of_other_content() {
    let (has_errors, errors) = checker().verify_message("fix bug.\nbody right away");
    assert!(has_errors);
    assert!(errors.contains(&"missing blank line between subject and body".to_string()));
    assert_eq!(errors.len(), 4);
}

#[test]
fn unknown_verb_is_always_flagged() {
    let (_, errors) = checker().verify_message("Implement widget\n\nbody");
    assert!(errors.contains(&"Subject must start with standard verb: Add, Cut, Fix".to_string()));
}

#[test]
fn long_body_line_is_flagged_with_its_number() {
    let message = format!("Add x\n\n{}", "y".repeat(80));
    let (has_errors, errors) = checker().verify_message(&message);
    assert!(has_errors);
    assert_eq!(errors, vec!["Line 3 exceeds 72 characters".to_string()]);
}

#[test]
fn line_numbers_reach_two_digits() {
    let mut message = String::from("Add x\n");
    for _ in 0..9 {
        message.push_str("short line\n");
    }
    message.push_str(&"z".repeat(80));
    let (has_errors, errors) = checker().verify_message(&message);
    assert!(has_errors);
    assert!(errors.contains(&"Line 11 exceeds 72 characters".to_string()));
}

#[test]
fn body_lines_within_width_pass() {
    let message = format!("Add x\n\n{}", "y".repeat(72));
    let (has_errors, errors) = checker().verify_message(&message);
    assert!(!has_errors);
    assert!(errors.is_empty());
}

#[test]
fn empty_body_lines_are_not_flagged() {
    let (has_errors, errors) = checker().verify_message("Add x\n\n\n\nshort");
    assert!(!has_errors);
    assert!(errors.is_empty());
}

#[test]
fn single_newline_message_has_empty_subject() {
    let (has_errors, errors) = checker().verify_message("\n");
    assert!(has_errors);
    assert_eq!(
        errors,
        vec![
            "Subject must start with standard verb: Add, Cut, Fix".to_string(),
            "Subject line not capitalised".to_string(),
        ]
    );
}

#[test]
fn crlf_line_endings_are_split_like_lf() {
    let (has_errors, errors) = checker().verify_message("Add x\r\nbody");
    assert!(has_errors);
    assert_eq!(
        errors,
        vec!["missing blank line between subject and body".to_string()]
    );
}

#[test]
fn leading_whitespace_subject_is_not_capitalised() {
    let (has_errors, errors) = checker().verify_message(" Add x");
    assert!(has_errors);
    assert_eq!(errors, vec!["Subject line not capitalised".to_string()]);
}

#[test]
fn default_config_lists_three_verbs() {
    let config = Config::default();
    let keys: Vec<&str> = config
        .standard_verbs
        .iter()
        .map(|p| p.0.as_str())
        .collect();
    assert_eq!(keys, vec!["Add", "Cut", "Fix"]);
    assert_eq!(config.indicators.len(), 1);
    assert_eq!(config.indicators[0].0, "fix");
    assert_eq!(config.indicators[0].1, vec!["fix", "bug", "issue"]);
    assert_eq!(config.verb_mapping, vec![("fix".to_string(), "Fix".to_string())]);
}
