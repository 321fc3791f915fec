use mates::header::{parse_from_header, read_sender_from_email};

#[test]
fn finds_sender_header() {
    let msg = "From: Alice <a@x.com>\nTo: Bob <b@x.com>\n\nbody";
    assert_eq!(
        read_sender_from_email(msg),
        Some("Alice <a@x.com>".to_string())
    );
}

#[test]
fn splits_sender_value() {
    let (name, addr) = parse_from_header(&"Alice <a@x.com>".to_string());
    assert_eq!(name, Some("Alice".to_string()));
    assert_eq!(addr, Some("a@x.com".to_string()));
}

#[test]
fn sender_not_first_header() {
    let msg = "To: Bob <b@x.com>\nFrom: Alice <a@x.com>\n\nbody";
    assert_eq!(
        read_sender_from_email(msg),
        Some("Alice <a@x.com>".to_string())
    );
}

#[test]
fn no_sender_header() {
    assert_eq!(read_sender_from_email("To: Bob <b@x.com>\n\nFrom: body"), None);
}

#[test]
fn stops_at_end_of_headers() {
    assert_eq!(read_sender_from_email("To: Bob\n\nFrom: Alice <a@x.com>\n"), None);
}

#[test]
fn stops_at_malformed_line() {
    assert_eq!(read_sender_from_email("garbage line\nFrom: Alice <a@x.com>\n\n"), None);
}

#[test]
fn value_without_space_is_address_only() {
    let (name, addr) = parse_from_header(&"a@x.com".to_string());
    assert_eq!(name, None);
    assert_eq!(addr, Some("a@x.com".to_string()));
}

#[test]
fn strips_one_angle_pair_only() {
    let (name, addr) = parse_from_header(&"Alice <<a@x.com>>".to_string());
    assert_eq!(name, Some("Alice".to_string()));
    assert_eq!(addr, Some("<a@x.com>".to_string()));
}

#[test]
fn multiword_name_before_last_space() {
    let (name, addr) = parse_from_header(&"Alice B. Carol <a@x.com>".to_string());
    assert_eq!(name, Some("Alice B. Carol".to_string()));
    assert_eq!(addr, Some("a@x.com".to_string()));
}

#[test]
fn header_value_is_trimmed() {
    let msg = "From:   Alice <a@x.com>  \n\nbody";
    assert_eq!(
        read_sender_from_email(msg),
        Some("Alice <a@x.com>".to_string())
    );
}
