use s3_message_service::ids::{is_safe_identifier, IdGenerator};

#[test]
fn generator_creates_uuid_v7() {
    let identifier = IdGenerator::new().new_id().expect("id");

    assert_eq!(identifier.len(), 36);
    assert_eq!(identifier.as_bytes()[14], b'7');
    assert!(matches!(
        identifier.as_bytes()[19],
        b'8' | b'9' | b'a' | b'b'
    ));
    assert!(is_safe_identifier(&identifier));
}

#[test]
fn safe_identifier_rejects_slash() {
    assert!(!is_safe_identifier("abc/def"));
}

#[test]
fn safe_identifier_accepts_key_characters_only() {
    assert!(is_safe_identifier("Abc-1_2.3:x"));
    assert!(!is_safe_identifier(""));
    assert!(!is_safe_identifier("a b"));
    assert!(!is_safe_identifier(&"a".repeat(129)));
    assert!(is_safe_identifier(&"a".repeat(128)));
}

#[test]
fn generated_ids_differ() {
    let generator = IdGenerator::new();
    let first = generator.new_id().expect("id");
    let second = generator.new_id().expect("id");
    assert_ne!(first, second);
}
