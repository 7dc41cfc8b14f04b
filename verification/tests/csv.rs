use xunfollow::csv::{
    needs_insert, plan_import, queue_export_text, validate_username, CandidateOutcome, ImportLine,
    LoadResult,
};
use xunfollow::csv_refactored::{insert_needed, insert_outcome};

#[test]
fn test_validate_username() {
    assert_eq!(validate_username("@username"), Some("username".to_string()));
    assert_eq!(validate_username("username"), Some("username".to_string()));
    assert_eq!(validate_username("User_123"), Some("user_123".to_string()));
    assert_eq!(validate_username(""), None);
    assert_eq!(validate_username("user@name"), None);
    assert_eq!(validate_username("this_is_too_long_username"), None);
}

#[test]
fn validation_trims_and_strips_every_leading_at() {
    assert_eq!(validate_username("  @@Bob \t"), Some("bob".to_string()));
    assert_eq!(validate_username("\u{3000}alice\u{a0}"), Some("alice".to_string()));
    assert_eq!(validate_username("@"), None);
    assert_eq!(validate_username("   "), None);
    assert_eq!(validate_username("a b"), None);
    assert_eq!(validate_username("abcdefghijklmno"), Some("abcdefghijklmno".to_string()));
    assert_eq!(validate_username("abcdefghijklmnop"), None);
    assert_eq!(validate_username("émile"), None);
    assert_eq!(validate_username("user@"), None);
}

fn plan_view(plan: &[ImportLine]) -> Vec<(bool, String)> {
    plan.iter()
        .map(|l| match l {
            ImportLine::Candidate(u) => (true, u.clone()),
            ImportLine::Invalid(t) => (false, t.clone()),
        })
        .collect()
}

#[test]
fn import_plan_skips_blanks_and_comments() {
    let text = "# my list\n@Alice\r\n\n  bob  \nnot valid!\n#comment\ncarol";
    let plan = plan_import(text);
    assert_eq!(
        plan_view(&plan),
        vec![
            (true, "alice".to_string()),
            (true, "bob".to_string()),
            (false, "not valid!".to_string()),
            (true, "carol".to_string()),
        ]
    );
    assert!(plan_import("").is_empty());
    assert!(plan_import("\n\n   \n").is_empty());
}

#[test]
fn tally_counts_added_skipped_and_invalid() {
    let plan = plan_import("alice\nbad name\nbob\ncarol\ndave");
    let outcomes = vec![
        CandidateOutcome { history_count: Some(0), rows_inserted: Some(1) },
        CandidateOutcome { history_count: Some(2), rows_inserted: None },
        CandidateOutcome { history_count: None, rows_inserted: Some(1) },
        CandidateOutcome { history_count: Some(0), rows_inserted: Some(0) },
    ];
    let r: LoadResult = LoadResult::tally(&plan, &outcomes);
    assert_eq!(r.added, 2);
    assert_eq!(r.skipped, 2);
    assert_eq!(r.invalid, vec!["bad name".to_string()]);
}

#[test]
fn insert_is_needed_unless_in_history() {
    assert!(needs_insert(Some(0)));
    assert!(needs_insert(None));
    assert!(!needs_insert(Some(1)));
}

#[test]
fn refactored_insert_outcome() {
    assert!(insert_needed(Some(false)));
    assert!(!insert_needed(Some(true)));
    assert!(!insert_needed(None));
    assert_eq!(insert_outcome(None, Some(1)), None);
    assert_eq!(insert_outcome(Some(true), Some(1)), Some(false));
    assert_eq!(insert_outcome(Some(false), Some(1)), Some(true));
    assert_eq!(insert_outcome(Some(false), Some(0)), Some(false));
    assert_eq!(insert_outcome(Some(false), None), None);
}

#[test]
fn export_joins_with_newlines() {
    let names = vec!["alice".to_string(), "bob".to_string(), "carol".to_string()];
    assert_eq!(queue_export_text(&names), "alice\nbob\ncarol");
    assert_eq!(queue_export_text(&vec![]), "");
    assert_eq!(queue_export_text(&vec!["x".to_string()]), "x");
}

#[test]
fn exported_queue_imports_back_unchanged() {
    let names = vec!["alice".to_string(), "bob_2".to_string(), "c".to_string()];
    let plan = plan_import(&queue_export_text(&names));
    assert_eq!(
        plan_view(&plan),
        names.iter().map(|n| (true, n.clone())).collect::<Vec<_>>()
    );
    assert!(plan_import(&queue_export_text(&vec![])).is_empty());
}
