use s3_message_service::keys::{
    compact_timestamp, feed_sort_key, normalize_external_id, normalize_file_name,
    normalize_namespace, sanitize_key_segment, thread_sort_key, time_prefix,
    truncate_to_boundary, with_hash_suffix, KeyBuilder,
};
use s3_message_service::time::UtcTime;

fn at(seconds: i64) -> UtcTime {
    UtcTime::from_timestamp(seconds, 0).expect("instant")
}

// 2026-06-01T11:22:01Z
const OLDER: i64 = 1_780_312_921;

#[test]
fn normalize_external_identifier() {
    assert_eq!(normalize_external_id("actor-a"), "actor-a");
    assert!(!normalize_external_id("a/b").contains('/'));
    assert_ne!(normalize_external_id("a/b"), normalize_external_id("a b"));
    assert_ne!(normalize_external_id("User"), normalize_external_id("user"));
    assert_eq!(normalize_file_name("Report Final.pdf"), "report-final.pdf");
}

#[test]
fn time_prefix_and_sort_keys() {
    let older = at(OLDER);
    let newer = older.checked_add_minutes(1).expect("newer");

    assert_eq!(
        time_prefix(older),
        "year=2026/month=06/day=01/hour=11/minute=22"
    );
    assert!(feed_sort_key(newer) < feed_sort_key(older));
    assert!(thread_sort_key(older) < thread_sort_key(newer));
}

#[test]
fn builder_applies_namespace() {
    let builder = KeyBuilder::new("dev/test");
    assert_eq!(
        builder.message_lookup("message-1"),
        "dev-test/messages/by-id/message-1.json"
    );
}

#[test]
fn sort_keys_and_compact_timestamp_have_fixed_forms() {
    let t = at(OLDER);
    assert_eq!(thread_sort_key(t), "0001780312921000");
    assert_eq!(feed_sort_key(t), format!("{:016}", 9_999_999_999_999_999i64 - 1_780_312_921_000));
    assert_eq!(compact_timestamp(t), "20260601T112201.000000000Z");
}

#[test]
fn sanitize_lowercases_and_collapses() {
    assert_eq!(sanitize_key_segment("  Hello,  World!! ", "id"), "hello-world");
    assert_eq!(sanitize_key_segment("--..--", "fallback"), "fallback");
    assert_eq!(sanitize_key_segment("a_b.c-d", "id"), "a_b.c-d");
}

#[test]
fn truncation_keeps_whole_characters() {
    assert_eq!(truncate_to_boundary("abcdef", 4), "abcd");
    assert_eq!(truncate_to_boundary("abc", 10), "abc");
    // 'é' takes two bytes: it does not fit in the last byte.
    assert_eq!(truncate_to_boundary("abé", 3), "ab");
}

#[test]
fn hash_suffix_tells_raw_values_apart() {
    let a = with_hash_suffix("a-b", "a/b");
    let b = with_hash_suffix("a-b", "a b");
    assert_ne!(a, b);
    assert!(a.starts_with("a-b-"));
    assert_eq!(a.len(), "a-b-".len() + 16);
    let long = "x".repeat(200);
    assert!(with_hash_suffix(&long, &long).len() <= 96);
}

#[test]
fn lossless_ids_stay_and_lossy_ids_get_a_hash() {
    assert_eq!(normalize_external_id("abc_1.2"), "abc_1.2");
    let upper = normalize_external_id("User");
    assert!(upper.starts_with("user-"));
    assert_eq!(upper.len(), "user-".len() + 16);
    assert!(normalize_external_id("   ").starts_with("empty-"));
    assert!(normalize_external_id(&"y".repeat(300)).len() <= 96);
}

#[test]
fn namespace_is_trimmed_of_slashes() {
    assert_eq!(normalize_namespace("  /Dev/Test/ "), "dev-test");
    assert_eq!(normalize_namespace("///"), "");
    assert_eq!(normalize_namespace(""), "");
}

#[test]
fn layout_of_every_key() {
    let t = at(OLDER);
    let keys = KeyBuilder::new("");
    assert_eq!(
        keys.message_body("m1", t),
        "messages/year=2026/month=06/day=01/hour=11/minute=22/m1.json"
    );
    assert_eq!(keys.attachment_lookup("a1"), "attachments/by-id/a1.json");
    assert_eq!(
        keys.mailbox_prefix("actor-b", "inbox", t),
        "mailboxes/actor-b/inbox/year=2026/month=06/day=01/hour=11/minute=22/"
    );
    assert_eq!(
        keys.mailbox_reference("actor-b", "inbox", t, "m1", "r1"),
        format!(
            "mailboxes/actor-b/inbox/year=2026/month=06/day=01/hour=11/minute=22/{}_20260601T112201.000000000Z_m1_r1.json",
            feed_sort_key(t)
        )
    );
    assert_eq!(keys.thread_metadata("t1"), "threads/t1/metadata.json");
    assert_eq!(
        keys.thread_prefix("t1", t),
        "threads/t1/messages/year=2026/month=06/day=01/hour=11/minute=22/"
    );
    assert_eq!(keys.broadcast_lookup("b1"), "broadcast/by-id/b1.json");
    assert_eq!(
        keys.broadcast_audience_prefix("tag", "beta", t),
        "broadcast/audiences/tag/beta/year=2026/month=06/day=01/hour=11/minute=22/"
    );
    assert_eq!(
        keys.state_current("actor-b", "messages", "m1"),
        "states/actor-b/current/messages/m1.json"
    );
    assert_eq!(
        keys.operation_started("op1"),
        "operations/by-id/op1/started.json"
    );
    assert_eq!(
        keys.operation_step("op1", "message-body"),
        "operations/by-id/op1/steps/message-body.json"
    );
    assert_eq!(
        keys.operation_completed("op1"),
        "operations/by-id/op1/completed.json"
    );
    assert_eq!(
        keys.operation_id("send-1", "tests"),
        "operations/idempotency/tests/send-1.json"
    );
    assert_eq!(
        keys.attachment_object("a1", t, "Report Final.pdf"),
        "attachments/objects/year=2026/month=06/day=01/hour=11/minute=22/a1/report-final.pdf"
    );
}

#[test]
fn reference_keys_sort_newest_first_within_a_minute() {
    let keys = KeyBuilder::new("");
    let first = at(OLDER);
    let second = at(OLDER + 5);
    let older_key = keys.mailbox_reference("actor-b", "inbox", first, "m1", "r1");
    let newer_key = keys.mailbox_reference("actor-b", "inbox", second, "m2", "r2");
    let prefix = keys.mailbox_prefix("actor-b", "inbox", first);
    assert!(older_key.starts_with(&prefix));
    assert!(newer_key.starts_with(&prefix));
    assert!(newer_key < older_key);
}

#[test]
fn namespace_prefixes_keys_without_their_leading_slashes() {
    assert_eq!(KeyBuilder::new("ns").with_namespace("//a/b.json"), "ns/a/b.json");
    assert_eq!(KeyBuilder::new("").with_namespace("/a/b.json"), "/a/b.json");
    assert_eq!(KeyBuilder::new(" / ").namespace(), "");
}

#[test]
fn hash_suffix_is_the_head_of_the_sha256_digest() {
    assert_eq!(with_hash_suffix("a-b", "a/b"), "a-b-c14cddc033f64b9d");
    assert_eq!(normalize_external_id("User"), "user-b512d97e7cbf97c2");
}

fn is_segment_text(s: &str) -> bool {
    s.chars().all(|c| c.is_alphanumeric() || c == '-' || c == '_' || c == '.')
        && !s.starts_with('-')
        && !s.starts_with('.')
        && !s.ends_with('-')
        && !s.ends_with('.')
}

#[test]
fn segments_hold_only_key_characters() {
    for raw in ["a/b\\c", "..x--", " Über/Straße ", "   ", "-.-", "-.-x-.-", "tab\tname"] {
        let id = normalize_external_id(raw);
        let file = normalize_file_name(raw);
        assert!(is_segment_text(&id), "{id}");
        assert!(is_segment_text(&file), "{file}");
        assert!(!id.contains('/') && !id.contains('\\'));
        assert!(!file.contains('/') && !file.contains('\\'));
    }
    assert_eq!(normalize_file_name("-.-"), "file");
    assert_eq!(normalize_file_name("..x--"), "x");
}

#[test]
fn surrounding_whitespace_does_not_change_a_segment() {
    assert_eq!(normalize_external_id("  abc \n"), normalize_external_id("abc"));
    assert_eq!(normalize_external_id("\tA B "), normalize_external_id("A B"));
    assert_eq!(normalize_file_name(" Report.PDF  "), normalize_file_name("Report.PDF"));
    assert_ne!(normalize_external_id(" "), normalize_external_id("  "));
}

#[test]
fn builder_namespace_is_one_segment() {
    assert_eq!(KeyBuilder::new("/dev/").namespace(), "dev");
    assert_eq!(KeyBuilder::new("/dev/").message_lookup("m"), "dev/messages/by-id/m.json");
    assert_eq!(KeyBuilder::new(" / ").message_lookup("m"), "messages/by-id/m.json");
    assert!(!KeyBuilder::new("a/b/c").namespace().contains('/'));
}
