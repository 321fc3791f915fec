use mates::edit::{after_edit_outcome, resolve_edit_target, EditOutcome, Resolution};

#[test]
fn direct_file_wins_without_search() {
    let r = resolve_edit_target(true, &"A.vcf".to_string(), &Vec::new());
    assert!(matches!(r, Resolution::Target(p) if p == "A.vcf"));
}

#[test]
fn no_match_is_an_error_outcome() {
    let r = resolve_edit_target(false, &"nobody".to_string(), &Vec::new());
    assert!(matches!(r, Resolution::NoMatch));
}

#[test]
fn single_match_is_the_target() {
    let found = vec!["/p/A.vcf".to_string()];
    let r = resolve_edit_target(false, &"alice".to_string(), &found);
    assert!(matches!(r, Resolution::Target(p) if p == "/p/A.vcf"));
}

#[test]
fn several_matches_list_every_candidate() {
    let found = vec!["/p/A.vcf".to_string(), "/p/B.vcf".to_string()];
    let r = resolve_edit_target(false, &"x".to_string(), &found);
    match r {
        Resolution::Ambiguous(c) => assert_eq!(c, found),
        _ => panic!("ambiguous query must list candidates"),
    }
}

#[test]
fn emptied_file_means_removal() {
    assert_eq!(after_edit_outcome(""), EditOutcome::Removed);
    assert_eq!(after_edit_outcome("  \t\n \r\n"), EditOutcome::Removed);
}

#[test]
fn non_empty_file_keeps_the_contact() {
    assert_eq!(after_edit_outcome("BEGIN:VCARD\nFN:Alice\nEND:VCARD\n"), EditOutcome::Kept);
    assert_eq!(after_edit_outcome("  x  "), EditOutcome::Kept);
}
