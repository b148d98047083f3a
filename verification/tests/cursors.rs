use s3_message_service::cursors::{
    check_decoded, checked_next_window, decode_frame, encode_frame, for_encoding, initial,
    next_window, truncate_to_minute, Cursor, Direction, VERSION,
};
use s3_message_service::error::ServiceError;
use s3_message_service::time::UtcTime;

fn at(seconds: i64) -> UtcTime {
    UtcTime::from_timestamp(seconds, 0).expect("instant")
}

// 2026-06-01T11:22:00Z
const WINDOW: i64 = 1_780_312_920;

#[test]
fn moves_to_next_window() {
    let window = at(WINDOW);

    assert_eq!(
        next_window(window, Direction::NewestFirst),
        window.checked_add_minutes(-1).expect("earlier")
    );
    assert_eq!(
        next_window(window, Direction::OldestFirst),
        window.checked_add_minutes(1).expect("later")
    );
}

#[test]
fn next_window_starts_from_the_minute() {
    let inside = UtcTime::from_timestamp(WINDOW + 33, 5).expect("instant");
    assert_eq!(next_window(inside, Direction::OldestFirst), at(WINDOW + 60));
    assert_eq!(next_window(inside, Direction::NewestFirst), at(WINDOW - 60));
    assert_eq!(truncate_to_minute(inside), at(WINDOW));
}

#[test]
fn next_window_past_the_range_is_none() {
    let last = UtcTime::from_timestamp(8_210_266_876_799, 0).expect("last instant");
    assert!(checked_next_window(last, Direction::OldestFirst).is_none());
    assert!(checked_next_window(last, Direction::NewestFirst).is_some());
}

#[test]
fn initial_cursor_starts_at_the_minute() {
    let window = UtcTime::from_timestamp(WINDOW + 33, 0).expect("instant");
    let cursor = initial("mailbox:inbox", "actor-1", Direction::NewestFirst, window, 25);
    assert_eq!(cursor.version, VERSION);
    assert_eq!(cursor.window, at(WINDOW));
    assert_eq!(cursor.window.civil_fields().second, 0);
    assert_eq!(cursor.kind, "mailbox:inbox");
    assert_eq!(cursor.owner, "actor-1");
    assert_eq!(cursor.last_object_key, "");
    assert_eq!(cursor.page_size, 25);
}

#[test]
fn frame_round_trip() {
    let payload = br#"{"version":1,"kind":"thread"}"#;
    let text = encode_frame(payload);
    assert!(!text.contains('='));
    assert!(!text.contains('+'));
    assert!(!text.contains('/'));
    assert_eq!(decode_frame(&text).expect("decode"), payload.to_vec());
}

#[test]
fn bad_frames_are_invalid_cursors() {
    assert_eq!(decode_frame(""), Err(ServiceError::InvalidCursor));
    assert_eq!(decode_frame("not base64!"), Err(ServiceError::InvalidCursor));
}

#[test]
fn frames_are_unpadded_url_safe_base64() {
    assert_eq!(encode_frame(b"{}"), "e30");
    assert_eq!(decode_frame("e30").expect("decode"), b"{}".to_vec());
}

fn cursor_json(cursor: &Cursor) -> Vec<u8> {
    let mut object = serde_json::Map::new();
    object.insert("version".to_string(), serde_json::Value::from(cursor.version));
    object.insert("kind".to_string(), serde_json::Value::from(cursor.kind.clone()));
    object.insert("owner".to_string(), serde_json::Value::from(cursor.owner.clone()));
    let direction = match cursor.direction {
        Direction::NewestFirst => "newest_first",
        Direction::OldestFirst => "oldest_first",
    };
    object.insert("direction".to_string(), serde_json::Value::from(direction));
    object.insert("window".to_string(), serde_json::Value::from(cursor.window.seconds()));
    object.insert(
        "last_object_key".to_string(),
        serde_json::Value::from(cursor.last_object_key.clone()),
    );
    object.insert("page_size".to_string(), serde_json::Value::from(cursor.page_size as u64));
    serde_json::to_vec(&serde_json::Value::Object(object)).expect("json")
}

fn cursor_from_json(bytes: &[u8]) -> Cursor {
    let value: serde_json::Value = serde_json::from_slice(bytes).expect("json");
    let text = |name: &str| value[name].as_str().expect(name).to_string();
    Cursor {
        version: value["version"].as_u64().expect("version") as u16,
        kind: text("kind"),
        owner: text("owner"),
        direction: if text("direction") == "newest_first" {
            Direction::NewestFirst
        } else {
            Direction::OldestFirst
        },
        window: UtcTime::from_timestamp(value["window"].as_i64().expect("window"), 0)
            .expect("window"),
        last_object_key: text("last_object_key"),
        page_size: value["page_size"].as_u64().expect("page size") as usize,
    }
}

fn encode(cursor: Cursor) -> String {
    encode_frame(&cursor_json(&for_encoding(cursor)))
}

fn decode(raw: &str) -> Result<Cursor, ServiceError> {
    let bytes = decode_frame(raw)?;
    check_decoded(cursor_from_json(&bytes))
}

#[test]
fn encode_decode_cursor() {
    let window = UtcTime::from_timestamp(WINDOW + 33, 0).expect("instant");
    let mut cursor = initial("mailbox:inbox", "actor-1", Direction::NewestFirst, window, 25);
    cursor.last_object_key = "mailboxes/actor-1/inbox/key.json".to_string();

    let encoded = encode(cursor.clone());
    let decoded = decode(&encoded).expect("decode");

    assert_eq!(decoded.window.civil_fields().second, 0);
    assert_eq!(decoded.last_object_key, cursor.last_object_key);
    assert_eq!(decoded.version, VERSION);
    assert_eq!(decoded.kind, cursor.kind);
    assert_eq!(decoded.owner, cursor.owner);
    assert_eq!(decoded.direction, cursor.direction);
    assert_eq!(decoded.window, cursor.window);
    assert_eq!(decoded.page_size, 25);
}

#[test]
fn unusable_decoded_cursors_are_invalid() {
    let cursor = initial("mailbox:inbox", "actor-1", Direction::OldestFirst, at(WINDOW), 25);
    let mut wrong_version = cursor.clone();
    wrong_version.version = VERSION + 1;
    let raw = encode_frame(&cursor_json(&wrong_version));
    assert!(matches!(decode(&raw), Err(ServiceError::InvalidCursor)));
    let mut no_owner = cursor.clone();
    no_owner.owner = String::new();
    assert!(matches!(decode(&encode(no_owner)), Err(ServiceError::InvalidCursor)));
    let mut no_page = cursor;
    no_page.page_size = 0;
    assert!(matches!(decode(&encode(no_page)), Err(ServiceError::InvalidCursor)));
}
