use mates::query::{email_lines, file_lines, mutt_lines, IndexItem, IndexIterator};

fn item(email: &str, name: &str, filepath: &str) -> IndexItem {
    IndexItem {
        email: email.to_string(),
        name: name.to_string(),
        filepath: filepath.to_string(),
    }
}

#[test]
fn one_matching_line_gives_one_result() {
    let mut it = IndexIterator::new(&"a@x.com\tAlice\t/p/A.vcf\n".to_string());
    let row = it.next().expect("one result expected");
    assert_eq!(row.email, "a@x.com");
    assert_eq!(row.name, "Alice");
    assert_eq!(row.filepath, "/p/A.vcf");
    assert!(it.next().is_none());
}

#[test]
fn empty_output_gives_no_results() {
    let mut it = IndexIterator::new(&String::new());
    assert!(it.next().is_none());
}

#[test]
fn rows_come_out_back_to_front() {
    let mut it = IndexIterator::new(&"a@x.com\tAlice\t/p/A.vcf\nb@x.com\tBob\t/p/B.vcf\n".to_string());
    assert_eq!(it.next().unwrap().email, "b@x.com");
    assert_eq!(it.next().unwrap().email, "a@x.com");
    assert!(it.next().is_none());
}

#[test]
fn short_line_defaults_to_empty_fields() {
    let row = IndexItem::new("a@x.com".to_string());
    assert_eq!(row.email, "a@x.com");
    assert_eq!(row.name, "");
    assert_eq!(row.filepath, "");
}

#[test]
fn two_field_line_has_empty_filepath() {
    let row = IndexItem::new("a@x.com\tAlice".to_string());
    assert_eq!(row.email, "a@x.com");
    assert_eq!(row.name, "Alice");
    assert_eq!(row.filepath, "");
}

#[test]
fn fourth_field_is_dropped() {
    let row = IndexItem::new("a\tb\tc\td".to_string());
    assert_eq!(row.email, "a");
    assert_eq!(row.name, "b");
    assert_eq!(row.filepath, "c");
}

#[test]
fn mutt_projection_needs_email_and_name() {
    let items = vec![
        item("a@x.com", "Alice", "/p/A.vcf"),
        item("", "Bob", "/p/B.vcf"),
        item("c@x.com", "", "/p/C.vcf"),
    ];
    assert_eq!(mutt_lines(&items), vec!["a@x.com\tAlice\t/p/A.vcf".to_string()]);
}

#[test]
fn file_projection_needs_filepath() {
    let items = vec![
        item("a@x.com", "Alice", "/p/A.vcf"),
        item("b@x.com", "Bob", ""),
    ];
    assert_eq!(file_lines(&items), vec!["/p/A.vcf".to_string()]);
}

#[test]
fn email_projection_formats_name_and_address() {
    let items = vec![
        item("a@x.com", "Alice", "/p/A.vcf"),
        item("", "Bob", "/p/B.vcf"),
    ];
    assert_eq!(email_lines(&items), vec!["Alice <a@x.com>".to_string()]);
}
