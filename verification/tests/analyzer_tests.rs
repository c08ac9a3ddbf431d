use commitmsg::analyzer::GitDiffAnalyzer;
use commitmsg::policy::Config;

fn analyzer() -> GitDiffAnalyzer {
    GitDiffAnalyzer::new(Config::default())
}

#[test]
fn breaking_diff_yields_one_flagged_entry() {
    let diff = "diff --git a/x.txt b/x.txt\n+remove old helper";
    let changes = analyzer().analyse_diff(diff);
    assert_eq!(
        changes.file_changes,
        vec![("x.txt".to_string(), vec!["remove old helper".to_string()])]
    );
    assert_eq!(
        changes.breaking_changes,
        vec!["* Breaking change in x.txt:\n  remove old helper".to_string()]
    );
    let verb = analyzer().determine_commit_verb(&changes.file_changes);
    assert_eq!(verb, "Add");
    assert!(changes.has_changes());
}

#[test]
fn empty_diff_has_no_changes() {
    let changes = analyzer().analyse_diff("");
    assert!(!changes.has_changes());
    assert!(changes.file_changes.is_empty());
    assert!(changes.breaking_changes.is_empty());
}

#[test]
fn added_lines_before_any_header_are_ignored() {
    let changes = analyzer().analyse_diff("+orphan line\ncontext");
    assert!(!changes.has_changes());
}

#[test]
fn file_header_marker_lines_are_not_changes() {
    let diff = "diff --git a/a.rs b/a.rs\n+++ b/a.rs\n+real change";
    let changes = analyzer().analyse_diff(diff);
    assert_eq!(
        changes.file_changes,
        vec![("a.rs".to_string(), vec!["real change".to_string()])]
    );
}

#[test]
fn changes_group_under_their_files_in_order() {
    let diff = "diff --git a/a.rs b/a.rs\n+first\n+second\ndiff --git a/b.rs b/b.rs\n+third\ndiff --git a/a.rs b/a.rs\n+fourth";
    let changes = analyzer().analyse_diff(diff);
    assert_eq!(
        changes.file_changes,
        vec![
            (
                "a.rs".to_string(),
                vec![
                    "first".to_string(),
                    "second".to_string(),
                    "fourth".to_string()
                ]
            ),
            ("b.rs".to_string(), vec!["third".to_string()]),
        ]
    );
}

#[test]
fn added_lines_are_trimmed_and_empties_dropped() {
    let diff = "diff --git a/a.rs b/a.rs\n+   padded   \n+\n+   ";
    let changes = analyzer().analyse_diff(diff);
    assert_eq!(
        changes.file_changes,
        vec![("a.rs".to_string(), vec!["padded".to_string()])]
    );
}

#[test]
fn breaking_detection_is_case_insensitive() {
    let a = analyzer();
    assert!(a.is_breaking_change("REMOVE the flag"));
    assert!(a.is_breaking_change("Deprecate old API"));
    assert!(!a.is_breaking_change("add pretty colors"));
}

#[test]
fn breaking_detection_matches_substrings_coarsely() {
    // "change" occurs inside "changelog", so the line is over-flagged
    assert!(analyzer().is_breaking_change("update the changelog"));
}

#[test]
fn fix_keywords_select_the_fix_verb() {
    let diff = "diff --git a/a.rs b/a.rs\n+fix the crash";
    let changes = analyzer().analyse_diff(diff);
    let verb = analyzer().determine_commit_verb(&changes.file_changes);
    assert_eq!(verb, "Fix");
}

#[test]
fn bug_keyword_in_any_file_selects_fix() {
    let diff = "diff --git a/a.rs b/a.rs\n+harmless\ndiff --git a/b.rs b/b.rs\n+squash a BUG here";
    let changes = analyzer().analyse_diff(diff);
    let verb = analyzer().determine_commit_verb(&changes.file_changes);
    assert_eq!(verb, "Fix");
}

#[test]
fn no_keyword_falls_back_to_add() {
    let verb = analyzer().determine_commit_verb(&Vec::new());
    assert_eq!(verb, "Add");
}
