use mates::codec::{decode, encode, ParseError};
use mates::record::{generate_contact, ContactRecord};

fn record_pairs(rec: &ContactRecord) -> Vec<(String, String)> {
    rec.fields.iter().map(|f| (f.name.clone(), f.value.clone())).collect()
}

#[test]
fn round_trip_generated_contact() {
    let rec = generate_contact("u1".to_string(), Some("Alice"), Some("a@x.com"));
    let text = encode(&rec);
    let back = decode(text.as_str()).expect("encoded record must decode");
    assert_eq!(record_pairs(&rec), record_pairs(&back));
}

#[test]
fn round_trip_repeated_fields() {
    let mut rec = ContactRecord::new();
    rec.push_field("FN".to_string(), "Alice".to_string());
    rec.push_field("EMAIL".to_string(), "a@x.com".to_string());
    rec.push_field("EMAIL".to_string(), "a2@x.com".to_string());
    rec.push_field("UID".to_string(), "u1".to_string());
    let back = decode(encode(&rec).as_str()).expect("encoded record must decode");
    assert_eq!(record_pairs(&rec), record_pairs(&back));
}

#[test]
fn encode_exact_text() {
    let mut rec = ContactRecord::new();
    rec.push_field("FN".to_string(), "Alice".to_string());
    rec.push_field("EMAIL".to_string(), "a@x.com".to_string());
    let text = encode(&rec);
    assert_eq!(text, "BEGIN:VCARD\nFN:Alice\nEMAIL:a@x.com\nEND:VCARD\n");
}

#[test]
fn decode_reports_malformed_line() {
    let r = decode("BEGIN:VCARD\nno separator here\nEND:VCARD\n");
    assert!(r.is_err());
    let e = r.err().unwrap();
    assert_eq!(e, ParseError::MalformedLine);
    assert!(!e.message().is_empty());
}

#[test]
fn decode_tolerates_blank_lines_and_markers() {
    let rec = decode("\nBEGIN:VCARD\n\nFN:Alice\nEND:VCARD\n\n").expect("must decode");
    assert_eq!(record_pairs(&rec), vec![("FN".to_string(), "Alice".to_string())]);
}

#[test]
fn decode_keeps_value_colons() {
    let rec = decode("NOTE:a:b:c\n").expect("must decode");
    assert_eq!(record_pairs(&rec), vec![("NOTE".to_string(), "a:b:c".to_string())]);
}

#[test]
fn decode_preserves_repeat_order() {
    let rec = decode("EMAIL:first@x.com\nEMAIL:second@x.com\n").expect("must decode");
    assert_eq!(
        record_pairs(&rec),
        vec![
            ("EMAIL".to_string(), "first@x.com".to_string()),
            ("EMAIL".to_string(), "second@x.com".to_string()),
        ]
    );
}
