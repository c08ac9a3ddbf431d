use commitmsg::analyzer::GitDiffAnalyzer;
use commitmsg::generator::CommitMessageGenerator;
use commitmsg::policy::Config;

const REFERENCES: &str = "# References [Required]\n# Link to related tickets, docs, or discussions\nCloses #\nRelates to #\nSee also: ";
const TESTING: &str = "# Testing Instructions [Optional]\n# Describe how to test these changes\n1. Steps to test\n2. Expected outcomes\n3. Edge cases to verify";
const DEPENDENCIES: &str = "# Dependencies [Optional]\n# List any prerequisite changes or dependencies\n- [ ] Database migrations\n- [ ] Configuration updates\n- [ ] External service changes";
const CHANGES_HEADER: &str = "# Changes Overview [Required]\n# Briefly describe the purpose of these changes";
const BREAKING_HEADER: &str = "# Breaking Changes [Required if any]\n# List any backward-incompatible changes and migration steps";

#[test]
fn subject_uses_verb_and_lowercased_first_change() {
    let analyzer = GitDiffAnalyzer::new(Config::default());
    let generator = CommitMessageGenerator::new(&analyzer);
    let changes = analyzer.analyse_diff("diff --git a/x.rs b/x.rs\n+Implement THING");
    let subject = generator.generate_subject_line(&changes);
    assert_eq!(subject, "Add implement thing");
}

#[test]
fn subject_defaults_to_codebase() {
    let analyzer = GitDiffAnalyzer::new(Config::default());
    let generator = CommitMessageGenerator::new(&analyzer);
    let changes = analyzer.analyse_diff("");
    let subject = generator.generate_subject_line(&changes);
    assert_eq!(subject, "Add codebase");
}

#[test]
fn long_subject_is_truncated_with_ellipsis() {
    let analyzer = GitDiffAnalyzer::new(Config::default());
    let generator = CommitMessageGenerator::new(&analyzer);
    let change = "a".repeat(60);
    let changes = analyzer.analyse_diff(&format!("diff --git a/x.rs b/x.rs\n+{}", change));
    let subject = generator.generate_subject_line(&changes);
    assert_eq!(subject, format!("Add {}...", "a".repeat(43)));
    assert_eq!(subject.len(), 50);
}

#[test]
fn wrapping_packs_words_greedily_to_72_columns() {
    let analyzer = GitDiffAnalyzer::new(Config::default());
    let generator = CommitMessageGenerator::new(&analyzer);
    let a = "a".repeat(40);
    let b = "b".repeat(40);
    let wrapped = generator.wrap_body_text(&format!("{} {}", a, b));
    assert_eq!(wrapped, format!("{}\n{}", a, b));
}

#[test]
fn wrapping_fills_to_exactly_72_columns() {
    let analyzer = GitDiffAnalyzer::new(Config::default());
    let generator = CommitMessageGenerator::new(&analyzer);
    let x = "x".repeat(70);
    assert_eq!(generator.wrap_body_text(&format!("{} y", x)), format!("{} y", x));
    assert_eq!(generator.wrap_body_text(&format!("{} yz", x)), format!("{}\nyz", x));
}

#[test]
fn wrapping_never_splits_a_long_word() {
    let analyzer = GitDiffAnalyzer::new(Config::default());
    let generator = CommitMessageGenerator::new(&analyzer);
    let long = "w".repeat(100);
    let wrapped = generator.wrap_body_text(&format!("start {} end", long));
    assert_eq!(wrapped, format!("start\n{}\nend", long));
}

#[test]
fn wrapping_is_idempotent_on_a_paragraph() {
    let analyzer = GitDiffAnalyzer::new(Config::default());
    let generator = CommitMessageGenerator::new(&analyzer);
    let text = "The quick brown fox jumps over the lazy dog again and again until \
                the sentence is long enough to wrap across several display lines.";
    let once = generator.wrap_body_text(text);
    let twice = generator.wrap_body_text(&once);
    assert_eq!(once, twice);
    assert!(once.lines().all(|l| l.chars().count() <= 72));
}

#[test]
fn message_assembles_sections_in_order() {
    let analyzer = GitDiffAnalyzer::new(Config::default());
    let generator = CommitMessageGenerator::new(&analyzer);
    let changes = analyzer.analyse_diff("diff --git a/x.txt b/x.txt\n+add coloring");
    let message = generator.generate_message(&changes);
    let changes_sec = format!("{}\n\n* In x.txt:\n  - add coloring\n", CHANGES_HEADER);
    let expected = format!(
        "Add add coloring\n\n{}\n\n{}\n\n{}\n\n{}",
        REFERENCES, changes_sec, TESTING, DEPENDENCIES
    );
    assert_eq!(message, expected);
}

#[test]
fn message_includes_breaking_section_only_when_flagged() {
    let analyzer = GitDiffAnalyzer::new(Config::default());
    let generator = CommitMessageGenerator::new(&analyzer);
    let changes = analyzer.analyse_diff("diff --git a/x.txt b/x.txt\n+remove old helper");
    let message = generator.generate_message(&changes);
    let changes_sec = format!("{}\n\n* In x.txt:\n  - remove old helper\n", CHANGES_HEADER);
    // wrapping the flagged entry collapses its internal line break
    let breaking_sec = format!(
        "{}\n\n* Breaking change in x.txt: remove old helper\n",
        BREAKING_HEADER
    );
    let expected = format!(
        "Add remove old helper\n\n{}\n\n{}\n\n{}\n\n{}\n\n{}",
        REFERENCES, changes_sec, breaking_sec, TESTING, DEPENDENCIES
    );
    assert_eq!(message, expected);
}

#[test]
fn message_lists_at_most_three_changes_per_file() {
    let analyzer = GitDiffAnalyzer::new(Config::default());
    let generator = CommitMessageGenerator::new(&analyzer);
    let diff = "diff --git a/x.rs b/x.rs\n+one\n+two\n+three\n+four";
    let changes = analyzer.analyse_diff(diff);
    let message = generator.generate_message(&changes);
    assert!(message.contains("  - one\n"));
    assert!(message.contains("  - two\n"));
    assert!(message.contains("  - three\n"));
    assert!(!message.contains("four"));
}
