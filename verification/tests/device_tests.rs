use scoreboard::device::{canonical_uuid, create_device_uuid, parse_device_uuid, resolve_device_uuid};

fn is_canonical(text: &str) -> bool {
    text.len() == 36
        && text.char_indices().all(|(i, c)| {
            if i == 8 || i == 13 || i == 18 || i == 23 {
                c == '-'
            } else {
                c.is_ascii_digit() || ('a'..='f').contains(&c)
            }
        })
}

#[test]
fn a_stored_identity_is_read_in_canonical_form() {
    assert_eq!(
        parse_device_uuid("  550E8400-E29B-41D4-A716-446655440000\n"),
        Some("550e8400-e29b-41d4-a716-446655440000".to_string())
    );
    assert_eq!(
        parse_device_uuid("550e8400e29b41d4a716446655440000"),
        Some("550e8400-e29b-41d4-a716-446655440000".to_string())
    );
    assert_eq!(
        parse_device_uuid("{550e8400-e29b-41d4-a716-446655440000}"),
        Some("550e8400-e29b-41d4-a716-446655440000".to_string())
    );
    assert_eq!(
        parse_device_uuid("urn:uuid:550e8400-e29b-41d4-a716-446655440000"),
        Some("550e8400-e29b-41d4-a716-446655440000".to_string())
    );
}

#[test]
fn what_is_no_identity_is_not_read() {
    assert_eq!(parse_device_uuid(""), None);
    assert_eq!(parse_device_uuid("   "), None);
    assert_eq!(parse_device_uuid("not-a-uuid"), None);
    assert_eq!(parse_device_uuid("550e8400-e29b-41d4-a716-44665544000"), None);
    assert_eq!(parse_device_uuid("550e8400-e29b-41d4-a716-44665544000g"), None);
}

#[test]
fn the_canonical_text_of_a_number() {
    assert_eq!(canonical_uuid(0), "00000000-0000-0000-0000-000000000000");
    assert_eq!(canonical_uuid(u128::MAX), "ffffffff-ffff-ffff-ffff-ffffffffffff");
    assert_eq!(
        canonical_uuid(0x550e8400_e29b_41d4_a716_446655440000),
        "550e8400-e29b-41d4-a716-446655440000"
    );
    assert_eq!(canonical_uuid(0x1a), "00000000-0000-0000-0000-00000000001a");
}

#[test]
fn a_new_identity_is_a_random_identifier() {
    let first = create_device_uuid();
    let second = create_device_uuid();
    assert!(is_canonical(&first));
    assert!(is_canonical(&second));
    assert_eq!(first.as_bytes()[14], b'4');
    assert!(matches!(first.as_bytes()[19], b'8' | b'9' | b'a' | b'b'));
    assert_ne!(first, second);
    assert_eq!(parse_device_uuid(&first), Some(first.clone()));
}

#[test]
fn the_stored_identity_is_kept_and_a_missing_one_made() {
    assert_eq!(
        resolve_device_uuid(Some(" 550E8400-E29B-41D4-A716-446655440000 ")),
        ("550e8400-e29b-41d4-a716-446655440000".to_string(), false)
    );
    let (made, new) = resolve_device_uuid(None);
    assert!(new);
    assert!(is_canonical(&made));
    let (made, new) = resolve_device_uuid(Some("garbage"));
    assert!(new);
    assert!(is_canonical(&made));
}
