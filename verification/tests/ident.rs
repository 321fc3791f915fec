use mates::ident::{try_new_contact_name, vcf_filename};

#[test]
fn filename_carries_identifier() {
    assert_eq!(vcf_filename("abc"), "abc.vcf");
}

#[test]
fn fresh_name_is_hex_and_free() {
    let existing = vec!["taken.vcf".to_string()];
    let (uid, fname) = try_new_contact_name(&existing).expect("no collision possible here");
    assert_eq!(uid.len(), 32);
    assert!(uid.chars().all(|c| c.is_ascii_hexdigit() && !c.is_ascii_uppercase()));
    assert_eq!(fname, format!("{}.vcf", uid));
    assert!(!existing.contains(&fname));
}

#[test]
fn collision_is_retried_until_success() {
    // The retry loop of the add workflow: a rejected draw is simply drawn
    // again, and the accepted name is never one of the existing ones.
    let existing: Vec<String> = (0..16).map(|i| format!("contact{}.vcf", i)).collect();
    let mut tries = 0;
    let fname = loop {
        tries += 1;
        assert!(tries <= 1000);
        match try_new_contact_name(&existing) {
            Ok((_, fname)) => break fname,
            Err(_) => continue,
        }
    };
    assert!(!existing.contains(&fname));
    assert!(fname.ends_with(".vcf"));
}

#[test]
fn distinct_draws_give_distinct_names() {
    let existing: Vec<String> = Vec::new();
    let (_, a) = try_new_contact_name(&existing).expect("free");
    let (_, b) = try_new_contact_name(&existing).expect("free");
    assert_ne!(a, b);
}
