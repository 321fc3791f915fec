use mates::config::{expect_env, EnvEntry};
use mates::record::{generate_contact, ContactRecord};

fn entry(key: &str, value: &str) -> EnvEntry {
    EnvEntry { key: key.to_string(), value: value.to_string() }
}

#[test]
fn finds_required_entry() {
    let env = vec![entry("MATES_DIR", "/contacts"), entry("MATES_INDEX", "/index")];
    assert_eq!(expect_env(&env, "MATES_INDEX"), "/index");
}

#[test]
fn first_entry_with_key_wins() {
    let env = vec![entry("EDITOR", "vi"), entry("EDITOR", "emacs")];
    assert_eq!(expect_env(&env, "EDITOR"), "vi");
}

#[test]
fn generated_contact_lists_fields_in_order() {
    let rec = generate_contact("u1".to_string(), Some("Alice"), Some("a@x.com"));
    let pairs: Vec<(String, String)> =
        rec.fields.iter().map(|f| (f.name.clone(), f.value.clone())).collect();
    assert_eq!(
        pairs,
        vec![
            ("FN".to_string(), "Alice".to_string()),
            ("EMAIL".to_string(), "a@x.com".to_string()),
            ("UID".to_string(), "u1".to_string()),
        ]
    );
}

#[test]
fn generated_contact_may_lack_name_or_address() {
    let rec = generate_contact("u2".to_string(), None, Some("a@x.com"));
    let names: Vec<String> = rec.fields.iter().map(|f| f.name.clone()).collect();
    assert_eq!(names, vec!["EMAIL".to_string(), "UID".to_string()]);

    let rec2 = generate_contact("u3".to_string(), Some("Alice"), None);
    let names2: Vec<String> = rec2.fields.iter().map(|f| f.name.clone()).collect();
    assert_eq!(names2, vec!["FN".to_string(), "UID".to_string()]);
}

#[test]
fn single_prop_takes_first_value() {
    let mut rec = ContactRecord::new();
    rec.push_field("EMAIL".to_string(), "first@x.com".to_string());
    rec.push_field("EMAIL".to_string(), "second@x.com".to_string());
    assert_eq!(rec.single_prop("EMAIL"), Some("first@x.com".to_string()));
    assert_eq!(rec.single_prop("FN"), None);
    assert_eq!(
        rec.all_props("EMAIL"),
        vec!["first@x.com".to_string(), "second@x.com".to_string()]
    );
}
