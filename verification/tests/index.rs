use mates::index::{build_index_content, render_record_lines, ContactSource};
use mates::codec::decode;

#[test]
fn two_lines_for_named_contact_none_for_nameless() {
    let a = ContactSource {
        path: "/p/A.vcf".to_string(),
        content: "BEGIN:VCARD\nFN:Alice\nEMAIL:a@x.com\nEMAIL:a2@x.com\nEND:VCARD\n".to_string(),
    };
    let b = ContactSource {
        path: "/p/B.vcf".to_string(),
        content: "BEGIN:VCARD\nEMAIL:b@x.com\nEND:VCARD\n".to_string(),
    };
    let (index, failed) = build_index_content(&vec![a, b]);
    assert_eq!(
        index,
        "a@x.com\tAlice\t/p/A.vcf\na2@x.com\tAlice\t/p/A.vcf\n"
    );
    assert!(failed.is_empty());
}

#[test]
fn failing_file_does_not_stop_build() {
    let a = ContactSource {
        path: "/p/A.vcf".to_string(),
        content: "BEGIN:VCARD\nFN:Alice\nEMAIL:a@x.com\nEND:VCARD\n".to_string(),
    };
    let bad = ContactSource {
        path: "/p/bad.vcf".to_string(),
        content: "BEGIN:VCARD\nthis line has no separator\nEND:VCARD\n".to_string(),
    };
    let c = ContactSource {
        path: "/p/C.vcf".to_string(),
        content: "BEGIN:VCARD\nFN:Carol\nEMAIL:c@x.com\nEND:VCARD\n".to_string(),
    };
    let (index, failed) = build_index_content(&vec![a, bad, c]);
    assert_eq!(
        index,
        "a@x.com\tAlice\t/p/A.vcf\nc@x.com\tCarol\t/p/C.vcf\n"
    );
    assert_eq!(failed, vec!["/p/bad.vcf".to_string()]);
}

#[test]
fn record_without_name_renders_nothing() {
    let rec = decode("BEGIN:VCARD\nEMAIL:b@x.com\nEND:VCARD\n").expect("must decode");
    assert_eq!(render_record_lines(&rec, "/p/B.vcf"), "");
}

#[test]
fn record_without_address_renders_nothing() {
    let rec = decode("BEGIN:VCARD\nFN:Alice\nEND:VCARD\n").expect("must decode");
    assert_eq!(render_record_lines(&rec, "/p/A.vcf"), "");
}

#[test]
fn empty_directory_builds_empty_index() {
    let (index, failed) = build_index_content(&Vec::new());
    assert_eq!(index, "");
    assert!(failed.is_empty());
}
